//! The profile that a session yields: an interned frame table, samples of
//! frame indices, and their weights.
use vstd::prelude::*;

use crate::collapsed_stack::{collapse, CollapsedStacks};
use crate::speedscope::{speedscope_of, SpeedscopeFile};
use crate::WeightUnit;

verus! {

/// Where a frame's code address was measured from.
#[derive(Copy, Clone, Debug, PartialEq, Eq, Structural)]
pub enum AddressType {
    ModuleOffset(usize),
    FuncOffset(usize),
}

/// What is known of one frame of a guest backtrace.
#[derive(Debug)]
pub struct FrameData {
    pub name: String,
    pub module: Option<String>,
    pub func_index: u32,
    pub func_offset: Option<usize>,
    pub module_offset: Option<usize>,
    pub file: Option<String>,
    pub line: Option<u32>,
    pub column: Option<u32>,
    pub address: Option<AddressType>,
}

/// The name shown for a frame whose function has no name.
pub open spec fn unknown_name() -> Seq<char> {
    seq!['<', 'u', 'n', 'k', 'n', 'o', 'w', 'n', '>']
}

/// The address of a frame: its module offset when there is one, else its
/// function offset.
pub open spec fn address_of(func_offset: Option<usize>, module_offset: Option<usize>) -> Option<
    AddressType,
> {
    match module_offset {
        Some(m) => Some(AddressType::ModuleOffset(m)),
        None => match func_offset {
            Some(f) => Some(AddressType::FuncOffset(f)),
            None => None,
        },
    }
}

/// A copy of an optional string.
pub(crate) fn clone_opt_string(s: &Option<String>) -> (r: Option<String>)
    ensures
        r == *s,
{
    match s {
        Some(v) => Some(v.clone()),
        None => None,
    }
}

impl Clone for FrameData {
    fn clone(&self) -> (r: FrameData)
        ensures
            r == *self,
    {
        FrameData {
            name: self.name.clone(),
            module: clone_opt_string(&self.module),
            func_index: self.func_index,
            func_offset: self.func_offset,
            module_offset: self.module_offset,
            file: clone_opt_string(&self.file),
            line: self.line,
            column: self.column,
            address: self.address,
        }
    }
}

impl FrameData {
    /// Builds a frame from what the virtual machine reports of it: the
    /// function's name (`<unknown>` when it has none), its module, index and
    /// offsets, and the source location of its first symbol.
    pub fn from_parts(
        func_name: Option<&str>,
        module: Option<String>,
        func_index: u32,
        func_offset: Option<usize>,
        module_offset: Option<usize>,
        file: Option<String>,
        line: Option<u32>,
        column: Option<u32>,
    ) -> (r: FrameData)
        ensures
            r.name@ == (match func_name {
                Some(n) => n@,
                None => unknown_name(),
            }),
            r.module == module,
            r.func_index == func_index,
            r.func_offset == func_offset,
            r.module_offset == module_offset,
            r.file == file,
            r.line == line,
            r.column == column,
            r.address == address_of(func_offset, module_offset),
    {
        let name = match func_name {
            Some(n) => n.to_owned(),
            None => {
                proof {
                    reveal_strlit("<unknown>");
                }
                "<unknown>".to_owned()
            },
        };
        let address = match module_offset {
            Some(m) => Some(AddressType::ModuleOffset(m)),
            None => match func_offset {
                Some(f) => Some(AddressType::FuncOffset(f)),
                None => None,
            },
        };
        FrameData {
            name,
            module,
            func_index,
            func_offset,
            module_offset,
            file,
            line,
            column,
            address,
        }
    }
}

/// The names of a sequence of frames.
pub open spec fn frame_names(frames: Seq<FrameData>) -> Seq<Seq<char>> {
    frames.map_values(|f: FrameData| f.name@)
}

/// Every index of every sample names a frame of a table of `n` frames.
pub open spec fn indices_below(samples: Seq<Vec<usize>>, n: nat) -> bool {
    forall|i: int, j: int|
        0 <= i < samples.len() && 0 <= j < samples[i]@.len() ==> #[trigger] samples[i]@[j] < n
}

/// The sum of a sequence of weights.
pub open spec fn weight_sum(w: Seq<u128>) -> nat
    decreases w.len(),
{
    if w.len() == 0 {
        0
    } else {
        weight_sum(w.drop_last()) + w.last() as nat
    }
}

/// The weights of a profile: none when it was built without any.
pub open spec fn weights_or_empty(w: Option<Vec<u128>>) -> Seq<u128> {
    match w {
        Some(v) => v@,
        None => Seq::empty(),
    }
}

/// Contains the data collected by the profiler: a table of frames, samples
/// that list frame indices innermost call first, and a weight per sample.
/// It can be converted into collapsed stacks format or speedscope format.
pub struct ProfileData {
    frames: Vec<FrameData>,
    samples: Vec<Vec<usize>>,
    weights: Option<Vec<u128>>,
    weight_unit: WeightUnit,
    binary_path: Option<String>,
}

/// What a well-formed profile's parts satisfy: every sample's indices lie in
/// the frame table, there is one weight per sample, and the weights' sum fits
/// in a `u128`.
pub open spec fn profile_parts_wf(
    frames: Seq<FrameData>,
    samples: Seq<Vec<usize>>,
    weights: Option<Vec<u128>>,
) -> bool {
    &&& indices_below(samples, frames.len())
    &&& (weights matches Some(w) ==> w@.len() == samples.len())
    &&& weight_sum(weights_or_empty(weights)) <= u128::MAX
}

impl ProfileData {
    pub closed spec fn spec_frames(&self) -> Seq<FrameData> {
        self.frames@
    }

    pub closed spec fn spec_samples(&self) -> Seq<Vec<usize>> {
        self.samples@
    }

    pub closed spec fn spec_weights_opt(&self) -> Option<Vec<u128>> {
        self.weights
    }

    pub closed spec fn spec_weight_unit(&self) -> WeightUnit {
        self.weight_unit
    }

    pub closed spec fn spec_binary_path(&self) -> Option<String> {
        self.binary_path
    }

    /// The weights, one per sample; empty when the profile has none.
    pub open spec fn spec_weights(&self) -> Seq<u128> {
        weights_or_empty(self.spec_weights_opt())
    }

    pub open spec fn wf(&self) -> bool {
        profile_parts_wf(self.spec_frames(), self.spec_samples(), self.spec_weights_opt())
    }

    pub fn new(
        frames: Vec<FrameData>,
        samples: Vec<Vec<usize>>,
        weights: Option<Vec<u128>>,
        weight_unit: WeightUnit,
        binary_path: Option<String>,
    ) -> (r: ProfileData)
        requires
            profile_parts_wf(frames@, samples@, weights),
        ensures
            r.wf(),
            r.spec_frames() == frames@,
            r.spec_samples() == samples@,
            r.spec_weights_opt() == weights,
            r.spec_weight_unit() == weight_unit,
            r.spec_binary_path() == binary_path,
    {
        ProfileData { frames, samples, weights, weight_unit, binary_path }
    }

    pub fn into_collapsed_stacks(self) -> (r: CollapsedStacks)
        requires
            self.wf(),
        ensures
            r@ == collapse(
                frame_names(self.spec_frames()),
                self.spec_samples(),
                self.spec_weights_opt(),
            ),
    {
        let ProfileData { frames, samples, weights, .. } = self;
        let mut names: Vec<String> = Vec::new();
        let mut i: usize = 0;
        while i < frames.len()
            invariant
                i <= frames@.len(),
                names@.len() == i,
                names@.map_values(|s: String| s@) == frame_names(frames@.take(i as int)),
            decreases frames@.len() - i,
        {
            let ghost prev = names@;
            names.push(frames[i].name.clone());
            assert forall|t: int| 0 <= t < i implies #[trigger] names@[t]@ == frames@[t].name@ by {
                assert(names@[t] == prev[t]);
                assert(prev.map_values(|s: String| s@)[t] == frame_names(frames@.take(i as int))[t]);
            }
            assert(names@.map_values(|s: String| s@) =~= frame_names(frames@.take(i + 1)));
            i = i + 1;
        }
        assert(frames@.take(i as int) == frames@);
        CollapsedStacks::new(names, samples, weights)
    }

    pub fn to_speedscope(&self, name: Option<String>) -> (r: SpeedscopeFile)
        requires
            self.wf(),
        ensures
            speedscope_of(r, *self, name),
    {
        SpeedscopeFile::new(self, name)
    }

    pub fn frames_mut(&mut self) -> (r: &mut [FrameData])
        ensures
            r@ == old(self).spec_frames(),
            final(self).spec_frames() == final(r)@,
            final(self).spec_samples() == old(self).spec_samples(),
            final(self).spec_weights_opt() == old(self).spec_weights_opt(),
            final(self).spec_weight_unit() == old(self).spec_weight_unit(),
            final(self).spec_binary_path() == old(self).spec_binary_path(),
    {
        self.frames.as_mut_slice()
    }

    pub fn frames(&self) -> (r: &[FrameData])
        ensures
            r@ == self.spec_frames(),
    {
        self.frames.as_slice()
    }

    pub fn samples(&self) -> (r: &[Vec<usize>])
        ensures
            r@ == self.spec_samples(),
    {
        self.samples.as_slice()
    }

    pub fn weights(&self) -> (r: &[u128])
        ensures
            r@ == self.spec_weights(),
    {
        match &self.weights {
            Some(w) => w.as_slice(),
            None => &[],
        }
    }

    pub fn weight_unit(&self) -> (r: &WeightUnit)
        ensures
            *r == self.spec_weight_unit(),
    {
        &self.weight_unit
    }

    pub fn binary_path(&self) -> (r: Option<&String>)
        ensures
            r == (match self.spec_binary_path() {
                Some(p) => Some(&p),
                None => None,
            }),
    {
        match &self.binary_path {
            Some(p) => Some(p),
            None => None,
        }
    }
}

} // verus!

verus! {

/// Each prefix of the weights sums to at most the whole, and one more weight
/// adds exactly that weight.
pub proof fn lemma_weight_sum_prefix(w: Seq<u128>, i: int)
    requires
        0 <= i <= w.len(),
    ensures
        weight_sum(w.take(i)) <= weight_sum(w),
        i < w.len() ==> weight_sum(w.take(i + 1)) == weight_sum(w.take(i)) + w[i] as nat,
    decreases w.len(),
{
    if i < w.len() {
        assert(w.take(i + 1).drop_last() == w.take(i));
        lemma_weight_sum_prefix(w.drop_last(), i);
        assert(w.drop_last().take(i) == w.take(i));
    } else {
        assert(w.take(i) == w);
    }
}

/// Every index of every sample of a well-formed profile names a frame of its
/// table, and a profile with weights has one weight per sample.
pub proof fn lemma_indices_in_table(p: ProfileData)
    requires
        p.wf(),
    ensures
        forall|j: int, k: int|
            0 <= j < p.spec_samples().len() && 0 <= k < p.spec_samples()[j]@.len() ==> (
            #[trigger] p.spec_samples()[j]@[k]) < p.spec_frames().len(),
        p.spec_weights_opt() is Some ==> p.spec_weights().len() == p.spec_samples().len(),
{
}

} // verus!
