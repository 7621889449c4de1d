//! The sample collector's buffer and the aggregation that turns its raw
//! samples into a [`ProfileData`] with an interned frame table.
use vstd::prelude::*;

use crate::profile_data::{frame_names, profile_parts_wf, weight_sum, FrameData, ProfileData};
use crate::WeightUnit;

verus! {

/// One sample as the collector captured it: the frames of the guest's
/// backtrace, innermost call first, and the weight since the previous sample.
pub struct RawSample {
    pub frames: Vec<FrameData>,
    pub weight: u128,
}

/// The weights of raw samples.
pub open spec fn raw_weights(s: Seq<RawSample>) -> Seq<u128> {
    s.map_values(|r: RawSample| r.weight)
}

/// The samples that hold at least one frame, in their order.
pub open spec fn kept(s: Seq<RawSample>) -> Seq<RawSample>
    decreases s.len(),
{
    if s.len() == 0 {
        Seq::empty()
    } else if s.last().frames@.len() > 0 {
        kept(s.drop_last()).push(s.last())
    } else {
        kept(s.drop_last())
    }
}

/// The samples that hold no frame, in their order.
pub open spec fn dropped(s: Seq<RawSample>) -> Seq<RawSample>
    decreases s.len(),
{
    if s.len() == 0 {
        Seq::empty()
    } else if s.last().frames@.len() > 0 {
        dropped(s.drop_last())
    } else {
        dropped(s.drop_last()).push(s.last())
    }
}

/// The frames of all samples, one sample after another.
pub open spec fn all_frames(s: Seq<RawSample>) -> Seq<FrameData>
    decreases s.len(),
{
    if s.len() == 0 {
        Seq::empty()
    } else {
        all_frames(s.drop_last()) + s.last().frames@
    }
}

/// The frame table of a run of frames: each name's first frame, in the order
/// in which names are first seen.
pub open spec fn intern(fs: Seq<FrameData>) -> Seq<FrameData>
    decreases fs.len(),
{
    if fs.len() == 0 {
        Seq::empty()
    } else {
        let t = intern(fs.drop_last());
        if frame_names(t).contains(fs.last().name@) {
            t
        } else {
            t.push(fs.last())
        }
    }
}

/// Each sample of `out` lists, frame by frame, the index in `table` of the
/// frame of the same name in the corresponding raw sample.
pub open spec fn indexes_names(
    out: Seq<Vec<usize>>,
    table: Seq<FrameData>,
    raw: Seq<RawSample>,
) -> bool {
    &&& out.len() == raw.len()
    &&& forall|j: int| 0 <= j < out.len() ==> (#[trigger] out[j])@.len() == raw[j].frames@.len()
    &&& forall|j: int, k: int|
        0 <= j < out.len() && 0 <= k < out[j]@.len() ==> (#[trigger] out[j]@[k]) < table.len()
            && table[out[j]@[k] as int].name@ == raw[j].frames@[k].name@
}

/// The index of the frame named `name` in `table`, if any.
fn find_name(table: &Vec<FrameData>, name: &String) -> (r: Option<usize>)
    ensures
        match r {
            Some(i) => i < table@.len() && table@[i as int].name@ == name@,
            None => !frame_names(table@).contains(name@),
        },
{
    let mut i: usize = 0;
    while i < table.len()
        invariant
            i <= table@.len(),
            forall|t: int| 0 <= t < i ==> (#[trigger] table@[t]).name@ != name@,
        decreases table@.len() - i,
    {
        if table[i].name == *name {
            return Some(i);
        }
        i = i + 1;
    }
    assert forall|t: int| 0 <= t < table@.len() implies frame_names(table@)[t] != name@ by {
        assert(table@[t].name@ != name@);
    }
    None
}

/// The samples collected in a session, and the last absolute weight reading.
pub struct SampleBuffer {
    samples: Vec<RawSample>,
    last_weight: u128,
}

impl SampleBuffer {
    pub closed spec fn spec_samples(&self) -> Seq<RawSample> {
        self.samples@
    }

    pub closed spec fn spec_last_weight(&self) -> u128 {
        self.last_weight
    }

    /// The weights recorded add up to the last reading.
    pub open spec fn wf(&self) -> bool {
        weight_sum(raw_weights(self.spec_samples())) == self.spec_last_weight()
    }

    /// An empty buffer whose last reading is 0.
    pub fn new() -> (r: SampleBuffer)
        ensures
            r.wf(),
            r.spec_samples().len() == 0,
            r.spec_last_weight() == 0,
    {
        let r = SampleBuffer { samples: Vec::new(), last_weight: 0 };
        assert(raw_weights(r.samples@) =~= Seq::<u128>::empty());
        r
    }

    /// Records a sample taken at absolute weight `reading`: its weight is the
    /// reading's rise over the last reading, or 0 if the reading did not rise.
    pub fn record(&mut self, frames: Vec<FrameData>, reading: u128)
        requires
            old(self).wf(),
        ensures
            final(self).wf(),
            final(self).spec_samples() == old(self).spec_samples().push(
                RawSample {
                    frames,
                    weight: if reading >= old(self).spec_last_weight() {
                        (reading - old(self).spec_last_weight()) as u128
                    } else {
                        0
                    },
                },
            ),
            final(self).spec_last_weight() == if reading >= old(self).spec_last_weight() {
                reading
            } else {
                old(self).spec_last_weight()
            },
    {
        let ghost before = self.samples@;
        let weight = if reading >= self.last_weight {
            reading - self.last_weight
        } else {
            0
        };
        self.samples.push(RawSample { frames, weight });
        if reading >= self.last_weight {
            self.last_weight = reading;
        }
        assert(raw_weights(self.samples@).drop_last() =~= raw_weights(before));
    }

    pub fn last_weight(&self) -> (r: u128)
        ensures
            r == self.spec_last_weight(),
    {
        self.last_weight
    }

    /// The profile of the samples that hold frames: its frame table holds each
    /// frame name's first frame in the order in which names were first seen,
    /// each sample lists the table indices of its frames' names, and each
    /// sample keeps its weight. The weights of the dropped samples make up the
    /// rest of the last reading.
    pub fn into_profile(self, weight_unit: WeightUnit, binary_path: Option<String>) -> (r:
        ProfileData)
        requires
            self.wf(),
        ensures
            r.wf(),
            r.spec_frames() == intern(all_frames(kept(self.spec_samples()))),
            indexes_names(r.spec_samples(), r.spec_frames(), kept(self.spec_samples())),
            r.spec_weights_opt() matches Some(w) && w@ == raw_weights(kept(self.spec_samples())),
            weight_sum(r.spec_weights()) + weight_sum(raw_weights(dropped(self.spec_samples())))
                == self.spec_last_weight(),
            r.spec_weight_unit() == weight_unit,
            r.spec_binary_path() == binary_path,
    {
        let raw = &self.samples;
        let mut table: Vec<FrameData> = Vec::new();
        let mut samples: Vec<Vec<usize>> = Vec::new();
        let mut weights: Vec<u128> = Vec::new();
        let ghost mut seen: Seq<FrameData> = Seq::empty();
        let mut i: usize = 0;
        proof {
            lemma_kept_dropped_weights(raw@);
        }
        while i < raw.len()
            invariant
                i <= raw@.len(),
                seen == all_frames(kept(raw@.take(i as int))),
                table@ == intern(seen),
                indexes_names(samples@, table@, kept(raw@.take(i as int))),
                weights@ == raw_weights(kept(raw@.take(i as int))),
            decreases raw@.len() - i,
        {
            let ghost prefix = raw@.take(i as int);
            assert(raw@.take(i + 1).drop_last() == prefix);
            assert(raw@.take(i + 1).last() == raw@[i as int]);
            let bt = &raw[i].frames;
            if bt.len() > 0 {
                let mut sample: Vec<usize> = Vec::new();
                let ghost seen0 = seen;
                let ghost table0 = table@;
                let mut j: usize = 0;
                while j < bt.len()
                    invariant
                        j <= bt@.len(),
                        seen == seen0 + bt@.take(j as int),
                        table@ == intern(seen),
                        table0.len() <= table@.len(),
                        forall|t: int| 0 <= t < table0.len() ==> #[trigger] table@[t] == table0[t],
                        sample@.len() == j,
                        forall|k: int|
                            0 <= k < j ==> (#[trigger] sample@[k]) < table@.len()
                                && table@[sample@[k] as int].name@ == bt@[k].name@,
                    decreases bt@.len() - j,
                {
                    let f = &bt[j];
                    assert((seen0 + bt@.take(j + 1)).drop_last() == seen);
                    assert((seen0 + bt@.take(j + 1)).last() == bt@[j as int]);
                    let ghost table1 = table@;
                    let ghost seen_next = seen0 + bt@.take(j + 1);
                    let idx = match find_name(&table, &f.name) {
                        Some(k) => {
                            assert(frame_names(table@)[k as int] == f.name@);
                            assert(frame_names(table@).contains(f.name@));
                            assert(intern(seen_next) == intern(seen));
                            k
                        },
                        None => {
                            table.push(f.clone());
                            assert(intern(seen_next) == intern(seen).push(*f));
                            table.len() - 1
                        },
                    };
                    sample.push(idx);
                    proof {
                        seen = seen0 + bt@.take(j + 1);
                    }
                    assert forall|k: int| 0 <= k < j + 1 implies (#[trigger] sample@[k])
                        < table@.len() && table@[sample@[k] as int].name@ == bt@[k].name@ by {
                        if k < j {
                            assert(table@[sample@[k] as int] == table1[sample@[k] as int]);
                        }
                    }
                    j = j + 1;
                }
                assert(bt@.take(j as int) == bt@);
                let ghost samples0 = samples@;
                samples.push(sample);
                weights.push(raw[i].weight);
                assert(kept(raw@.take(i + 1)) == kept(prefix).push(raw@[i as int]));
                assert(all_frames(kept(raw@.take(i + 1))) == all_frames(kept(prefix)) + bt@) by {
                    assert(kept(prefix).push(raw@[i as int]).drop_last() == kept(prefix));
                }
                assert(weights@ =~= raw_weights(kept(raw@.take(i + 1))));
                let ghost kp = kept(raw@.take(i + 1));
                assert forall|jj: int, k: int|
                    0 <= jj < samples@.len() && 0 <= k < samples@[jj]@.len() implies (
                    #[trigger] samples@[jj]@[k]) < table@.len() && table@[samples@[jj]@[k] as int].name@
                    == kp[jj].frames@[k].name@ by {
                    if jj < samples0.len() {
                        assert(samples@[jj] == samples0[jj]);
                        assert(kp[jj] == kept(prefix)[jj]);
                        assert(table@[samples@[jj]@[k] as int] == table0[samples@[jj]@[k] as int]);
                    }
                }
                assert forall|jj: int| 0 <= jj < samples@.len() implies (#[trigger] samples@[jj])@.len()
                    == kp[jj].frames@.len() by {
                    if jj < samples0.len() {
                        assert(samples@[jj] == samples0[jj]);
                        assert(kp[jj] == kept(prefix)[jj]);
                    }
                }
            } else {
                assert(kept(raw@.take(i + 1)) == kept(prefix));
            }
            i = i + 1;
        }
        assert(raw@.take(i as int) == raw@);
        ProfileData::new(table, samples, Some(weights), weight_unit, binary_path)
    }

    pub fn samples(&self) -> (r: &[RawSample])
        ensures
            r@ == self.spec_samples(),
    {
        self.samples.as_slice()
    }
}

} // verus!

verus! {

/// The weights of the kept and the dropped samples add up to all weights.
pub proof fn lemma_kept_dropped_weights(s: Seq<RawSample>)
    ensures
        weight_sum(raw_weights(kept(s))) + weight_sum(raw_weights(dropped(s))) == weight_sum(
            raw_weights(s),
        ),
    decreases s.len(),
{
    if s.len() > 0 {
        let p = s.drop_last();
        lemma_kept_dropped_weights(p);
        assert(raw_weights(s).drop_last() == raw_weights(p));
        if s.last().frames@.len() > 0 {
            assert(raw_weights(kept(s)).drop_last() == raw_weights(kept(p)));
        } else {
            assert(raw_weights(dropped(s)).drop_last() == raw_weights(dropped(p)));
        }
    }
}

} // verus!

verus! {

/// An interned frame table names each frame name once, and names exactly the
/// names of the frames it was built from.
pub proof fn lemma_intern_names(fs: Seq<FrameData>)
    ensures
        frame_names(intern(fs)).no_duplicates(),
        forall|n: Seq<char>| #[trigger]
            frame_names(intern(fs)).contains(n) <==> frame_names(fs).contains(n),
    decreases fs.len(),
{
    if fs.len() > 0 {
        let p = fs.drop_last();
        let f = fs.last();
        lemma_intern_names(p);
        let t = intern(p);
        assert(frame_names(fs) =~= frame_names(p).push(f.name@));
        if !frame_names(t).contains(f.name@) {
            assert(frame_names(t.push(f)) =~= frame_names(t).push(f.name@));
            let nt = frame_names(t.push(f));
            assert forall|i: int, j: int| 0 <= i < nt.len() && 0 <= j < nt.len() && i != j implies nt[i]
                != nt[j] by {
                if i < t.len() && j < t.len() {
                    assert(nt[i] == frame_names(t)[i]);
                    assert(nt[j] == frame_names(t)[j]);
                } else if i < t.len() {
                    assert(nt[i] == frame_names(t)[i]);
                } else if j < t.len() {
                    assert(nt[j] == frame_names(t)[j]);
                }
            }
            assert forall|n: Seq<char>| #[trigger] nt.contains(n) <==> frame_names(fs).contains(n) by {
                if nt.contains(n) {
                    let i = choose|i: int| 0 <= i < nt.len() && nt[i] == n;
                    if i < t.len() {
                        assert(frame_names(t)[i] == n);
                        assert(frame_names(t).contains(n));
                        let k = choose|k: int| 0 <= k < frame_names(p).len() && frame_names(p)[k] == n;
                        assert(frame_names(fs)[k] == n);
                    } else {
                        assert(frame_names(fs)[fs.len() - 1] == n);
                    }
                }
                if frame_names(fs).contains(n) {
                    let k = choose|k: int| 0 <= k < frame_names(fs).len() && frame_names(fs)[k] == n;
                    if k < p.len() {
                        assert(frame_names(p)[k] == n);
                        assert(frame_names(p).contains(n));
                        assert(frame_names(t).contains(n));
                        let i = choose|i: int| 0 <= i < frame_names(t).len() && frame_names(t)[i] == n;
                        assert(nt[i] == n);
                    } else {
                        assert(nt[t.len() as int] == n);
                    }
                }
            }
        } else {
            assert forall|n: Seq<char>| #[trigger] frame_names(t).contains(n) <==> frame_names(
                fs,
            ).contains(n) by {
                if frame_names(t).contains(n) {
                    let k = choose|k: int| 0 <= k < frame_names(p).len() && frame_names(p)[k] == n;
                    assert(frame_names(fs)[k] == n);
                }
                if frame_names(fs).contains(n) {
                    let k = choose|k: int| 0 <= k < frame_names(fs).len() && frame_names(fs)[k] == n;
                    if k < p.len() {
                        assert(frame_names(p)[k] == n);
                    }
                }
            }
        }
    }
}

/// Samples that all hold frames are all kept, and none is dropped.
pub proof fn lemma_all_kept(s: Seq<RawSample>)
    requires
        forall|i: int| 0 <= i < s.len() ==> (#[trigger] s[i]).frames@.len() > 0,
    ensures
        kept(s) == s,
        dropped(s) == Seq::<RawSample>::empty(),
    decreases s.len(),
{
    if s.len() > 0 {
        let p = s.drop_last();
        assert forall|i: int| 0 <= i < p.len() implies (#[trigger] p[i]).frames@.len() > 0 by {
            assert(p[i] == s[i]);
        }
        lemma_all_kept(p);
        assert(s[s.len() - 1].frames@.len() > 0);
        assert(p.push(s.last()) == s);
    }
}

/// When no sample holds a frame, none is kept.
pub proof fn lemma_all_dropped(s: Seq<RawSample>)
    requires
        forall|i: int| 0 <= i < s.len() ==> (#[trigger] s[i]).frames@.len() == 0,
    ensures
        kept(s).len() == 0,
    decreases s.len(),
{
    if s.len() > 0 {
        let p = s.drop_last();
        assert forall|i: int| 0 <= i < p.len() implies (#[trigger] p[i]).frames@.len() == 0 by {
            assert(p[i] == s[i]);
        }
        lemma_all_dropped(p);
        assert(s[s.len() - 1].frames@.len() == 0);
    }
}

/// When every sample of a session holds frames, the weights that its profile
/// keeps add up to the session's last absolute weight reading.
pub proof fn lemma_weight_conservation(b: SampleBuffer)
    requires
        b.wf(),
        forall|i: int|
            0 <= i < b.spec_samples().len() ==> (#[trigger] b.spec_samples()[i]).frames@.len() > 0,
    ensures
        weight_sum(raw_weights(kept(b.spec_samples()))) == b.spec_last_weight(),
{
    lemma_all_kept(b.spec_samples());
}

/// A session in which no sample caught a guest frame yields a profile of no
/// samples: a profile that indexes the kept samples of it has none.
pub proof fn lemma_empty_stacks_dropped(b: SampleBuffer, p: ProfileData)
    requires
        forall|i: int|
            0 <= i < b.spec_samples().len() ==> (#[trigger] b.spec_samples()[i]).frames@.len() == 0,
        indexes_names(p.spec_samples(), p.spec_frames(), kept(b.spec_samples())),
    ensures
        kept(b.spec_samples()).len() == 0,
        p.spec_samples().len() == 0,
{
    lemma_all_dropped(b.spec_samples());
}

} // verus!
