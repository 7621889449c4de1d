//! Brendan Gregg's collapsed-stack text: one line per sample, the frames from
//! the outermost call to the innermost joined by `;`, a space, and the weight.
use vstd::prelude::*;
use vstd::std_specs::iter::IteratorSpec;
use vstd::string::*;

use crate::profile_data::indices_below;
use crate::text::{
    all_digits, decimal, digit_value, digits_value, free_of, is_digit, joined, last_index_of,
    lemma_decimal_free, lemma_digits_value_prefix, lemma_join_split, lemma_joined_free,
    lemma_last_index_of, lemma_last_index_of_free, lemma_parse_decimal, lemma_split_append_free,
    lemma_split_push_sep,
    parse_u128, push_decimal, split,
};

verus! {

/// One sample as a stack of frame names, innermost call first, and a weight.
pub struct CollapsedStack {
    stack: Vec<String>,
    weight: u128,
}

impl View for CollapsedStack {
    type V = (Seq<Seq<char>>, u128);

    closed spec fn view(&self) -> (Seq<Seq<char>>, u128) {
        (self.stack@.map_values(|s: String| s@), self.weight)
    }
}

/// Contains the data collected by the profiler in collapsed stacks format.
/// The main use case is to write the text of a `CollapsedStacks` value to a
/// file. The resulting file can be opened in a variety of profiling tools.
pub struct CollapsedStacks(Vec<CollapsedStack>);

impl View for CollapsedStacks {
    type V = Seq<(Seq<Seq<char>>, u128)>;

    closed spec fn view(&self) -> Seq<(Seq<Seq<char>>, u128)> {
        self.0@.map_values(|s: CollapsedStack| s@)
    }
}

/// The line of one stack, without its newline: the names from the outermost
/// call to the innermost joined by `;`, a space, and the weight.
pub open spec fn stack_text(names: Seq<Seq<char>>, weight: u128) -> Seq<char> {
    joined(names.reverse(), ';').push(' ') + decimal(weight as nat)
}

/// The text of a sequence of stacks: each stack's line ended by a newline.
pub open spec fn stacks_text(stacks: Seq<(Seq<Seq<char>>, u128)>) -> Seq<char>
    decreases stacks.len(),
{
    if stacks.len() == 0 {
        Seq::empty()
    } else {
        stacks_text(stacks.drop_last()) + stack_text(stacks.last().0, stacks.last().1).push('\n')
    }
}

/// The weight of sample `i`: its recorded weight, or 1 when none were recorded.
pub open spec fn weight_at(weights: Option<Vec<u128>>, i: int) -> u128 {
    match weights {
        Some(w) => w@[i],
        None => 1,
    }
}

/// The stacks named by samples of indices into a table of frame names.
pub open spec fn collapse(
    names: Seq<Seq<char>>,
    samples: Seq<Vec<usize>>,
    weights: Option<Vec<u128>>,
) -> Seq<(Seq<Seq<char>>, u128)> {
    Seq::new(
        samples.len(),
        |i: int| (samples[i]@.map_values(|k: usize| names[k as int]), weight_at(weights, i)),
    )
}

/// The stack that one line denotes, the line without its newline: the text
/// after the last space is the weight, and the text before it the frame names
/// from the outermost call to the innermost, separated by `;`.
pub open spec fn parse_line(l: Seq<char>) -> Option<(Seq<Seq<char>>, u128)> {
    let k = last_index_of(l, ' ');
    if k < 0 {
        None
    } else {
        match parse_u128(l.subrange(k + 1, l.len() as int)) {
            Some(w) => Some((split(l.subrange(0, k), ';').reverse(), w)),
            None => None,
        }
    }
}

/// The stacks of a sequence of lines, when each line denotes one.
pub open spec fn parse_lines(lines: Seq<Seq<char>>) -> Option<Seq<(Seq<Seq<char>>, u128)>>
    decreases lines.len(),
{
    if lines.len() == 0 {
        Some(Seq::empty())
    } else {
        match (parse_lines(lines.drop_last()), parse_line(lines.last())) {
            (Some(p), Some(x)) => Some(p.push(x)),
            _ => None,
        }
    }
}

/// The lines of a text; a newline at its end closes the last line.
pub open spec fn text_lines(t: Seq<char>) -> Seq<Seq<char>> {
    let parts = split(t, '\n');
    if parts.last().len() == 0 {
        parts.drop_last()
    } else {
        parts
    }
}

/// The stacks that a collapsed-stack text denotes, when it is well formed.
pub open spec fn parse_text(t: Seq<char>) -> Option<Seq<(Seq<Seq<char>>, u128)>> {
    parse_lines(text_lines(t))
}

/// The characters of a text.
fn chars_of(text: &str) -> (r: Vec<char>)
    ensures
        r@ == text@,
{
    broadcast use vstd::string::group_string_axioms;

    let mut it = text.chars();
    let mut out: Vec<char> = Vec::new();
    loop
        invariant
            it.obeys_prophetic_iter_laws(),
            out@ + it.remaining() == text@,
            it.decrease() is Some,
        ensures
            out@ == text@,
        decreases it.decrease()->0,
    {
        let ghost before = it.remaining();
        match it.next() {
            Some(c) => {
                out.push(c);
                assert(out@ + it.remaining() == text@) by {
                    assert(before == seq![c] + before.drop_first());
                }
            },
            None => {
                assert(out@ == text@);
                break ;
            },
        }
    }
    out
}

/// The number written in `cs[from..to]`, when it is a non-empty run of digits
/// whose value fits in a `u128`.
fn parse_weight(cs: &Vec<char>, from: usize, to: usize) -> (r: Option<u128>)
    requires
        from <= to <= cs@.len(),
    ensures
        r == parse_u128(cs@.subrange(from as int, to as int)),
{
    let ghost full = cs@.subrange(from as int, to as int);
    if from == to {
        return None;
    }
    let mut v: u128 = 0;
    let mut i: usize = from;
    while i < to
        invariant
            from <= i <= to <= cs@.len(),
            full == cs@.subrange(from as int, to as int),
            full.len() > 0,
            all_digits(full.take(i - from)),
            v == digits_value(full.take(i - from)),
        decreases to - i,
    {
        let c = cs[i];
        assert(full[i - from] == c);
        if !('0' <= c && c <= '9') {
            assert(!all_digits(full));
            return None;
        }
        let d = (c as u32 - '0' as u32) as u128;
        assert(full.take(i + 1 - from).drop_last() == full.take(i - from));
        assert(full.take(i + 1 - from).last() == c);
        assert(d == digit_value(c));
        assert(all_digits(full.take(i + 1 - from))) by {
            assert forall|j: int| 0 <= j < full.take(i + 1 - from).len() implies is_digit(
                #[trigger] full.take(i + 1 - from)[j],
            ) by {
                if j < i - from {
                    assert(full.take(i + 1 - from)[j] == full.take(i - from)[j]);
                }
            }
        }
        assert(digits_value(full.take(i + 1 - from)) == v * 10 + d);
        let next = match v.checked_mul(10) {
            Some(t) => t.checked_add(d),
            None => None,
        };
        match next {
            Some(t) => {
                v = t;
            },
            None => {
                proof {
                    if all_digits(full) {
                        lemma_digits_value_prefix(full, i + 1 - from);
                    }
                }
                return None;
            },
        }
        i = i + 1;
    }
    assert(full.take(i - from) == full);
    Some(v)
}

/// The pieces of `cs[from..to]` between occurrences of `;`.
fn split_names(cs: &Vec<char>, from: usize, to: usize) -> (r: Vec<String>)
    requires
        from <= to <= cs@.len(),
    ensures
        r@.map_values(|s: String| s@) == split(cs@.subrange(from as int, to as int), ';'),
{
    let mut parts: Vec<String> = Vec::new();
    let mut cur = String::new();
    let mut i: usize = from;
    while i < to
        invariant
            from <= i <= to <= cs@.len(),
            split(cs@.subrange(from as int, i as int), ';') == parts@.map_values(|s: String| s@).push(
                cur@,
            ),
        decreases to - i,
    {
        let c = cs[i];
        let ghost s0 = cs@.subrange(from as int, i as int);
        let ghost pv = parts@.map_values(|s: String| s@);
        assert(cs@.subrange(from as int, i + 1) == s0.push(c));
        assert(s0.push(c).drop_last() == s0);
        if c == ';' {
            let done = cur;
            parts.push(done);
            cur = String::new();
            assert(parts@.map_values(|s: String| s@) =~= pv.push(done@));
        } else {
            cur.push(c);
            assert(pv.push(cur@) =~= pv.push(split(s0, ';').last()).update(
                pv.len() as int,
                split(s0, ';').last().push(c),
            ));
        }
        i = i + 1;
    }
    let ghost pv = parts@.map_values(|s: String| s@);
    parts.push(cur);
    assert(parts@.map_values(|s: String| s@) =~= pv.push(cur@));
    parts
}

/// The items of a vector in reverse order.
fn reversed(v: Vec<String>) -> (r: Vec<String>)
    ensures
        r@.map_values(|s: String| s@) == v@.map_values(|s: String| s@).reverse(),
{
    let ghost orig = v@;
    let mut v = v;
    let mut r: Vec<String> = Vec::new();
    while v.len() > 0
        invariant
            v@ == orig.take(v@.len() as int),
            v@.len() <= orig.len(),
            r@.len() == orig.len() - v@.len(),
            forall|t: int| 0 <= t < r@.len() ==> #[trigger] r@[t] == orig[orig.len() - 1 - t],
        decreases v@.len(),
    {
        let ghost n = v@.len();
        let x = v.pop().unwrap();
        r.push(x);
        assert(v@ =~= orig.take(n - 1));
    }
    assert(r@.map_values(|s: String| s@) =~= orig.map_values(|s: String| s@).reverse());
    r
}

/// The stack that the line `cs[from..to]` denotes, when it denotes one.
fn parse_line_at(cs: &Vec<char>, from: usize, to: usize) -> (r: Option<CollapsedStack>)
    requires
        from <= to <= cs@.len(),
    ensures
        match parse_line(cs@.subrange(from as int, to as int)) {
            None => r is None,
            Some(x) => r matches Some(st) && st@ == x,
        },
{
    let ghost l = cs@.subrange(from as int, to as int);
    let mut k: usize = to;
    while k > from && cs[k - 1] != ' '
        invariant
            from <= k <= to <= cs@.len(),
            l == cs@.subrange(from as int, to as int),
            free_of(cs@.subrange(k as int, to as int), ' '),
        decreases k,
    {
        assert(cs@.subrange(k - 1, to as int) =~= seq![cs@[k - 1]] + cs@.subrange(
            k as int,
            to as int,
        ));
        k = k - 1;
    }
    if k == from {
        assert(l == cs@.subrange(k as int, to as int));
        proof {
            lemma_last_index_of_free(l, ' ');
        }
        return None;
    }
    let ghost head = cs@.subrange(from as int, k - 1);
    let ghost tail = cs@.subrange(k as int, to as int);
    assert(l =~= head.push(' ') + tail);
    proof {
        lemma_last_index_of(head, tail, ' ');
    }
    assert(last_index_of(l, ' ') == k - 1 - from);
    assert(l.subrange(k - from, l.len() as int) =~= tail);
    assert(l.subrange(0, k - 1 - from) =~= head);
    match parse_weight(cs, k, to) {
        None => None,
        Some(weight) => {
            let parts = split_names(cs, from, k - 1);
            let stack = reversed(parts);
            let st = CollapsedStack { stack, weight };
            assert(st@.0 == stack@.map_values(|s: String| s@));
            Some(st)
        },
    }
}

impl CollapsedStack {
    /// Appends this stack's line, without its newline.
    pub fn write_to(&self, out: &mut String)
        ensures
            final(out)@ == old(out)@ + stack_text(self@.0, self@.1),
    {
        let ghost start = out@;
        let ghost names = self@.0;
        let ghost rev = names.reverse();
        let n = self.stack.len();
        let mut k = n;
        while k > 0
            invariant
                k <= n == self.stack@.len() == names.len() == rev.len(),
                names == self@.0,
                rev == names.reverse(),
                out@ == start + joined(rev.take(n - k), ';'),
            decreases k,
        {
            k = k - 1;
            let ghost m = (n - 1 - k) as int;
            assert(rev[m] == self.stack@[k as int]@);
            assert(rev.take(m + 1).drop_last() == rev.take(m));
            assert(rev.take(m + 1).last() == rev[m]);
            if k + 1 < n {
                out.push(';');
            }
            out.append(self.stack[k].as_str());
            proof {
                if m == 0 {
                    assert(rev.take(m + 1).len() == 1);
                    assert(start + joined(rev.take(0), ';') == start);
                } else {
                    assert(joined(rev.take(m + 1), ';') == joined(rev.take(m), ';').push(';')
                        + rev[m]);
                    assert(start + joined(rev.take(m), ';').push(';') + rev[m] == start + (joined(
                        rev.take(m),
                        ';',
                    ).push(';') + rev[m]));
                }
            }
        }
        assert(rev.take(n as int) == rev);
        proof {
            reveal_strlit(" ");
        }
        out.push(' ');
        push_decimal(out, self.weight);
        assert(start + joined(rev, ';').push(' ') + decimal(self.weight as nat) == start + (joined(
            rev,
            ';',
        ).push(' ') + decimal(self.weight as nat)));
    }

    /// This stack's line, without its newline.
    pub fn to_string(&self) -> (r: String)
        ensures
            r@ == stack_text(self@.0, self@.1),
    {
        let mut out = String::new();
        self.write_to(&mut out);
        assert(Seq::<char>::empty() + stack_text(self@.0, self@.1) == stack_text(
            self@.0,
            self@.1,
        ));
        out
    }
}

impl CollapsedStacks {
    pub fn new(frames: Vec<String>, samples: Vec<Vec<usize>>, weights: Option<Vec<u128>>) -> (r:
        CollapsedStacks)
        requires
            indices_below(samples@, frames@.len()),
            weights matches Some(w) ==> w@.len() >= samples@.len(),
        ensures
            r@ == collapse(frames@.map_values(|s: String| s@), samples@, weights),
    {
        let ghost names = frames@.map_values(|s: String| s@);
        let mut stacks: Vec<CollapsedStack> = Vec::new();
        let mut i: usize = 0;
        while i < samples.len()
            invariant
                i <= samples@.len(),
                indices_below(samples@, frames@.len()),
                weights matches Some(w) ==> w@.len() >= samples@.len(),
                names == frames@.map_values(|s: String| s@),
                stacks@.map_values(|s: CollapsedStack| s@) == collapse(names, samples@, weights).take(
                    i as int,
                ),
            decreases samples@.len() - i,
        {
            let sample = &samples[i];
            let mut stack: Vec<String> = Vec::new();
            let mut j: usize = 0;
            while j < sample.len()
                invariant
                    j <= sample@.len(),
                    stack@.len() == j,
                    sample == samples@[i as int],
                    i < samples@.len(),
                    indices_below(samples@, frames@.len()),
                    names == frames@.map_values(|s: String| s@),
                    stack@.map_values(|s: String| s@) == sample@.take(j as int).map_values(
                        |k: usize| names[k as int],
                    ),
                decreases sample@.len() - j,
            {
                assert(sample@[j as int] < frames@.len());
                let ghost prev = stack@;
                let f = frames[sample[j]].clone();
                assert(f@ == names[sample@[j as int] as int]);
                stack.push(f);
                assert(stack@ == prev.push(f));
                assert forall|t: int| 0 <= t < j implies #[trigger] stack@[t]@ == names[sample@[t] as int] by {
                    assert(stack@[t] == prev[t]);
                    assert(prev.map_values(|s: String| s@)[t] == sample@.take(j as int).map_values(
                        |k: usize| names[k as int],
                    )[t]);
                }
                assert(sample@.take(j + 1).drop_last() == sample@.take(j as int));
                assert(stack@.map_values(|s: String| s@) =~= sample@.take(j + 1).map_values(
                    |k: usize| names[k as int],
                ));
                j = j + 1;
            }
            assert(sample@.take(j as int) == sample@);
            let weight = match &weights {
                Some(w) => w[i],
                None => 1,
            };
            let cs = CollapsedStack { stack, weight };
            stacks.push(cs);
            assert(collapse(names, samples@, weights).take(i + 1).drop_last() == collapse(
                names,
                samples@,
                weights,
            ).take(i as int));
            assert(stacks@.map_values(|s: CollapsedStack| s@) =~= collapse(
                names,
                samples@,
                weights,
            ).take(i + 1));
            i = i + 1;
        }
        assert(collapse(names, samples@, weights).take(i as int) == collapse(
            names,
            samples@,
            weights,
        ));
        CollapsedStacks(stacks)
    }

    /// The text of all stacks, each line ended by a newline.
    pub fn to_string(&self) -> (r: String)
        ensures
            r@ == stacks_text(self@),
    {
        let mut out = String::new();
        let mut i: usize = 0;
        while i < self.0.len()
            invariant
                i <= self.0@.len(),
                out@ == stacks_text(self@.take(i as int)),
            decreases self.0@.len() - i,
        {
            let ghost before = out@;
            self.0[i].write_to(&mut out);
            out.push('\n');
            assert(self@.take(i + 1).drop_last() == self@.take(i as int));
            assert(self@.take(i + 1).last() == self.0@[i as int]@);
            assert(before + stack_text(self@[i as int].0, self@[i as int].1) + seq!['\n'] == before
                + stack_text(self@[i as int].0, self@[i as int].1).push('\n'));
            i = i + 1;
        }
        assert(self@.take(i as int) == self@);
        out
    }

    /// Reads a collapsed-stack text back. A newline at the end of the text is
    /// optional; any line without a space followed by a non-empty decimal weight
    /// that fits in a `u128` makes the whole text unreadable.
    pub fn parse(text: &str) -> (r: Option<CollapsedStacks>)
        ensures
            match parse_text(text@) {
                None => r is None,
                Some(x) => r matches Some(c) && c@ == x,
            },
    {
        let cs = chars_of(text);
        let n = cs.len();
        let mut stacks: Vec<CollapsedStack> = Vec::new();
        let mut failed = false;
        let mut start: usize = 0;
        let mut i: usize = 0;
        let ghost mut lines: Seq<Seq<char>> = Seq::empty();
        assert(cs@.take(0) =~= Seq::<char>::empty());
        assert(cs@.subrange(0, 0) =~= Seq::<char>::empty());
        while i < n
            invariant
                n == cs@.len(),
                start <= i <= n,
                split(cs@.take(i as int), '\n') == lines.push(cs@.subrange(start as int, i as int)),
                failed ==> parse_lines(lines) is None,
                !failed ==> parse_lines(lines) == Some(stacks@.map_values(|s: CollapsedStack| s@)),
            decreases n - i,
        {
            let c = cs[i];
            let ghost cur = cs@.subrange(start as int, i as int);
            assert(cs@.take(i + 1) == cs@.take(i as int).push(c));
            assert(lines.push(cur).drop_last() == lines);
            if c == '\n' {
                proof {
                    lemma_split_push_sep(cs@.take(i as int), '\n');
                }
                assert(lines.push(cur).push(Seq::empty()).drop_last() == lines.push(cur));
                if !failed {
                    let ghost sv = stacks@.map_values(|s: CollapsedStack| s@);
                    match parse_line_at(&cs, start, i) {
                        Some(st) => {
                            stacks.push(st);
                            assert(stacks@.map_values(|s: CollapsedStack| s@) =~= sv.push(st@));
                        },
                        None => {
                            failed = true;
                        },
                    }
                }
                proof {
                    lines = lines.push(cur);
                }
                start = i + 1;
                assert(cs@.subrange(start as int, i + 1) =~= Seq::<char>::empty());
            } else {
                assert(cs@.take(i as int).push(c).drop_last() == cs@.take(i as int));
                assert(cs@.subrange(start as int, i + 1) =~= cur.push(c));
                assert(lines.push(cur).update(lines.len() as int, cur.push(c)) =~= lines.push(
                    cur.push(c),
                ));
            }
            i = i + 1;
        }
        assert(cs@.take(n as int) == cs@);
        assert(cs@ == text@);
        let ghost cur = cs@.subrange(start as int, n as int);
        assert(lines.push(cur).drop_last() == lines);
        if start < n {
            assert(lines.push(cur).last().len() > 0);
            if !failed {
                let ghost sv = stacks@.map_values(|s: CollapsedStack| s@);
                match parse_line_at(&cs, start, n) {
                    Some(st) => {
                        stacks.push(st);
                        assert(stacks@.map_values(|s: CollapsedStack| s@) =~= sv.push(st@));
                    },
                    None => {
                        failed = true;
                    },
                }
            }
        }
        if failed {
            None
        } else {
            Some(CollapsedStacks(stacks))
        }
    }
}

} // verus!

verus! {

/// No frame name of any stack holds a newline.
pub open spec fn names_free_of_newline(stacks: Seq<(Seq<Seq<char>>, u128)>) -> bool {
    forall|i: int, j: int|
        0 <= i < stacks.len() && 0 <= j < stacks[i].0.len() ==> free_of(
            #[trigger] stacks[i].0[j],
            '\n',
        )
}

/// The lines of the stacks, without their newlines.
pub open spec fn stack_lines(stacks: Seq<(Seq<Seq<char>>, u128)>) -> Seq<Seq<char>> {
    stacks.map_values(|st: (Seq<Seq<char>>, u128)| stack_text(st.0, st.1))
}

proof fn lemma_stack_text_free(names: Seq<Seq<char>>, weight: u128)
    requires
        forall|j: int| 0 <= j < names.len() ==> free_of(#[trigger] names[j], '\n'),
    ensures
        free_of(stack_text(names, weight), '\n'),
{
    let rev = names.reverse();
    assert forall|j: int| 0 <= j < rev.len() implies free_of(#[trigger] rev[j], '\n') by {
        assert(rev[j] == names[names.len() - 1 - j]);
    }
    lemma_joined_free(rev, ';', '\n');
    lemma_decimal_free(weight as nat, '\n');
    let a = joined(rev, ';').push(' ');
    let d = decimal(weight as nat);
    assert forall|i: int| 0 <= i < (a + d).len() implies (a + d)[i] != '\n' by {
        if i < a.len() - 1 {
            assert((a + d)[i] == joined(rev, ';')[i]);
        } else if i >= a.len() {
            assert((a + d)[i] == d[i - a.len()]);
        }
    }
}

proof fn lemma_split_text(stacks: Seq<(Seq<Seq<char>>, u128)>)
    requires
        names_free_of_newline(stacks),
    ensures
        split(stacks_text(stacks), '\n') == stack_lines(stacks).push(Seq::empty()),
    decreases stacks.len(),
{
    if stacks.len() > 0 {
        let p = stacks.drop_last();
        let st = stacks.last();
        assert(names_free_of_newline(p)) by {
            assert forall|i: int, j: int|
                0 <= i < p.len() && 0 <= j < p[i].0.len() implies free_of(
                #[trigger] p[i].0[j],
                '\n',
            ) by {
                assert(p[i] == stacks[i]);
            }
        }
        lemma_split_text(p);
        let t = stacks_text(p);
        let b = stack_text(st.0, st.1);
        assert forall|j: int| 0 <= j < st.0.len() implies free_of(#[trigger] st.0[j], '\n') by {
            assert(st == stacks[stacks.len() - 1]);
        }
        lemma_stack_text_free(st.0, st.1);
        assert(stacks_text(stacks) == (t + b).push('\n'));
        lemma_split_push_sep(t + b, '\n');
        lemma_split_append_free(t, b, '\n');
        assert(stack_lines(stacks) =~= stack_lines(p).push(b));
        assert(Seq::<char>::empty() + b == b);
        assert(stack_lines(p).push(Seq::empty()).update(stack_lines(p).len() as int, b)
            =~= stack_lines(p).push(b));
    }
}

proof fn lemma_parse_stack_line(names: Seq<Seq<char>>, weight: u128)
    ensures
        parse_line(stack_text(names, weight)) matches Some(x) && stack_text(x.0, x.1) == stack_text(
            names,
            weight,
        ),
{
    let j = joined(names.reverse(), ';');
    let d = decimal(weight as nat);
    let l = stack_text(names, weight);
    lemma_decimal_free(weight as nat, ' ');
    lemma_last_index_of(j, d, ' ');
    assert(l.subrange(j.len() as int + 1, l.len() as int) =~= d);
    assert(l.subrange(0, j.len() as int) =~= j);
    lemma_parse_decimal(weight);
    let back = split(j, ';').reverse();
    assert(back.reverse() =~= split(j, ';'));
    lemma_join_split(j, ';');
}

proof fn lemma_parse_lines(stacks: Seq<(Seq<Seq<char>>, u128)>)
    ensures
        parse_lines(stack_lines(stacks)) matches Some(back) && stacks_text(back) == stacks_text(
            stacks,
        ),
    decreases stacks.len(),
{
    if stacks.len() > 0 {
        let p = stacks.drop_last();
        let st = stacks.last();
        lemma_parse_lines(p);
        lemma_parse_stack_line(st.0, st.1);
        assert(stack_lines(stacks) =~= stack_lines(p).push(stack_text(st.0, st.1)));
        assert(stack_lines(stacks).drop_last() == stack_lines(p));
        let back = parse_lines(stack_lines(p))->0;
        let x = parse_line(stack_text(st.0, st.1))->0;
        assert(back.push(x).drop_last() == back);
    }
}

/// Reading back the collapsed-stack text of any stacks whose frame names hold
/// no newline, and writing the stacks read, gives the same text byte for byte.
pub proof fn lemma_round_trip(stacks: Seq<(Seq<Seq<char>>, u128)>)
    requires
        names_free_of_newline(stacks),
    ensures
        parse_text(stacks_text(stacks)) matches Some(back) && stacks_text(back) == stacks_text(
            stacks,
        ),
{
    lemma_split_text(stacks);
    let parts = split(stacks_text(stacks), '\n');
    assert(parts.drop_last() == stack_lines(stacks));
    lemma_parse_lines(stacks);
}

} // verus!
