//! The Speedscope evented-profile document: a shared frame table and one
//! profile whose events open and close frames at cumulative weights.
use vstd::prelude::*;

use crate::profile_data::{lemma_weight_sum_prefix, weight_sum, FrameData, ProfileData};
use crate::WeightUnit;

verus! {

/// The schema that the document declares.
pub const SCHEMA_URL: &'static str = "https://www.speedscope.app/file-format-schema.json";

/// The name the document gives its exporter.
pub const EXPORTER: &'static str = "wasmprof";

/// Whether an event opens or closes a frame.
#[derive(Copy, Clone, Debug, PartialEq, Eq, Structural)]
pub enum EventType {
    Open,
    Close,
}

/// A frame opened or closed at a cumulative weight.
#[derive(Copy, Clone, Debug, PartialEq, Eq, Structural)]
pub struct Event {
    pub event_type: EventType,
    pub frame: usize,
    pub at: u128,
}

/// One entry of the shared frame table.
pub struct Frame {
    pub name: String,
    pub file: Option<String>,
    pub line: Option<u32>,
    pub col: Option<u32>,
    pub module: Option<String>,
    pub func_index: Option<u32>,
    pub func_offset: Option<usize>,
    pub module_offset: Option<usize>,
}

/// The table of frames that the profiles' events refer to by index.
pub struct Shared {
    pub frames: Vec<Frame>,
}

/// An evented profile.
pub struct Profile {
    pub profile_type: String,
    pub name: String,
    pub unit: String,
    pub start_value: u128,
    pub end_value: u128,
    pub events: Vec<Event>,
}

/// A Speedscope document.
pub struct SpeedscopeFile {
    pub schema: String,
    pub profiles: Vec<Profile>,
    pub shared: Shared,
    pub name: Option<String>,
    pub exporter: String,
    pub active_profile_index: usize,
}

/// The table entry of a frame; its module stands for its file when it has none.
pub open spec fn speedscope_frame(f: FrameData) -> Frame {
    Frame {
        name: f.name,
        file: match f.file {
            Some(file) => Some(file),
            None => f.module,
        },
        line: f.line,
        col: f.column,
        module: f.module,
        func_index: Some(f.func_index),
        func_offset: f.func_offset,
        module_offset: f.module_offset,
    }
}

/// The name of a weight unit in the document.
pub open spec fn unit_name(u: WeightUnit) -> Seq<char> {
    match u {
        WeightUnit::Nanoseconds => "nanoseconds"@,
        WeightUnit::Fuel => "fuel"@,
    }
}

/// Opening a sample's frames at `at`, from the outermost call to the innermost.
pub open spec fn open_events(sample: Seq<usize>, at: u128) -> Seq<Event> {
    Seq::new(
        sample.len(),
        |i: int| Event { event_type: EventType::Open, frame: sample[sample.len() - 1 - i], at },
    )
}

/// Closing a sample's frames at `at`, from the innermost call to the outermost.
pub open spec fn close_events(sample: Seq<usize>, at: u128) -> Seq<Event> {
    Seq::new(sample.len(), |i: int| Event { event_type: EventType::Close, frame: sample[i], at })
}

/// The events of the first `n` samples: each sample opens its frames at the
/// sum of the weights before it and closes them once its own weight is added.
pub open spec fn sample_events(samples: Seq<Vec<usize>>, weights: Seq<u128>, n: nat) -> Seq<Event>
    decreases n,
{
    if n == 0 {
        Seq::empty()
    } else {
        let k = (n - 1) as nat;
        sample_events(samples, weights, k) + open_events(
            samples[k as int]@,
            weight_sum(weights.take(k as int)) as u128,
        ) + close_events(samples[k as int]@, weight_sum(weights.take(n as int)) as u128)
    }
}

/// The events of a profile: one group per sample that has a weight.
pub open spec fn profile_events(p: ProfileData) -> Seq<Event> {
    sample_events(p.spec_samples(), p.spec_weights(), p.spec_weights().len())
}

fn frame_of(f: &FrameData) -> (r: Frame)
    ensures
        r == speedscope_frame(*f),
{
    let file = match &f.file {
        Some(file) => Some(file.clone()),
        None => crate::profile_data::clone_opt_string(&f.module),
    };
    Frame {
        name: f.name.clone(),
        file,
        line: f.line,
        col: f.column,
        module: crate::profile_data::clone_opt_string(&f.module),
        func_index: Some(f.func_index),
        func_offset: f.func_offset,
        module_offset: f.module_offset,
    }
}

/// `r` is the Speedscope document of profile `p` under the name `name`: it
/// declares the schema, shares `p`'s frame table in `p`'s order, and holds one
/// evented profile in `p`'s weight unit that spans from 0 to the sum of the
/// weights and holds `p`'s events.
pub open spec fn speedscope_of(r: SpeedscopeFile, p: ProfileData, name: Option<String>) -> bool {
    &&& r.schema@ == SCHEMA_URL@
    &&& r.exporter@ == EXPORTER@
    &&& r.active_profile_index == 0
    &&& r.name == name
    &&& r.shared.frames@ == p.spec_frames().map_values(|f: FrameData| speedscope_frame(f))
    &&& r.profiles@.len() == 1
    &&& r.profiles@[0].profile_type@ == "evented"@
    &&& r.profiles@[0].name@ == "CPU"@
    &&& r.profiles@[0].unit@ == unit_name(p.spec_weight_unit())
    &&& r.profiles@[0].start_value == 0
    &&& r.profiles@[0].end_value == weight_sum(p.spec_weights())
    &&& r.profiles@[0].events@ == profile_events(p)
}

impl SpeedscopeFile {
    pub fn new(profile_data: &ProfileData, name: Option<String>) -> (r: SpeedscopeFile)
        requires
            profile_data.wf(),
        ensures
            speedscope_of(r, *profile_data, name),
    {
        let frames = profile_data.frames();
        let mut shared_frames: Vec<Frame> = Vec::new();
        let mut i: usize = 0;
        while i < frames.len()
            invariant
                i <= frames@.len(),
                frames@ == profile_data.spec_frames(),
                shared_frames@ == frames@.take(i as int).map_values(
                    |f: FrameData| speedscope_frame(f),
                ),
            decreases frames@.len() - i,
        {
            shared_frames.push(frame_of(&frames[i]));
            assert(shared_frames@ =~= frames@.take(i + 1).map_values(
                |f: FrameData| speedscope_frame(f),
            ));
            i = i + 1;
        }
        assert(frames@.take(i as int) == frames@);

        let samples = profile_data.samples();
        let weights = profile_data.weights();
        let mut events: Vec<Event> = Vec::new();
        let mut current: u128 = 0;
        let mut i: usize = 0;
        assert(weights@.take(0) == Seq::<u128>::empty());
        while i < weights.len()
            invariant
                profile_data.wf(),
                samples@ == profile_data.spec_samples(),
                weights@ == profile_data.spec_weights(),
                weights@.len() <= samples@.len(),
                i <= weights@.len(),
                current == weight_sum(weights@.take(i as int)),
                events@ == sample_events(samples@, weights@, i as nat),
            decreases weights@.len() - i,
        {
            let sample = &samples[i];
            let ghost base = events@;
            let n = sample.len();
            let mut j: usize = n;
            while j > 0
                invariant
                    j <= n == sample@.len(),
                    events@ == base + open_events(sample@, current).take(n - j),
                decreases j,
            {
                j = j - 1;
                events.push(Event { event_type: EventType::Open, frame: sample[j], at: current });
                assert(events@ =~= base + open_events(sample@, current).take(n - j));
            }
            assert(open_events(sample@, current).take(n as int) == open_events(sample@, current));
            proof {
                lemma_weight_sum_prefix(weights@, i as int);
                lemma_weight_sum_prefix(weights@, i + 1);
            }
            let ghost opened = events@;
            current = current + weights[i];
            let mut j: usize = 0;
            while j < n
                invariant
                    j <= n == sample@.len(),
                    events@ == opened + close_events(sample@, current).take(j as int),
                decreases n - j,
            {
                events.push(Event { event_type: EventType::Close, frame: sample[j], at: current });
                assert(events@ =~= opened + close_events(sample@, current).take(j + 1));
                j = j + 1;
            }
            assert(close_events(sample@, current).take(n as int) == close_events(sample@, current));
            i = i + 1;
        }
        proof {
            assert(weights@.take(i as int) == weights@);
        }

        let unit = match profile_data.weight_unit() {
            WeightUnit::Nanoseconds => "nanoseconds".to_owned(),
            WeightUnit::Fuel => "fuel".to_owned(),
        };
        let profile = Profile {
            profile_type: "evented".to_owned(),
            name: "CPU".to_owned(),
            unit,
            start_value: 0,
            end_value: current,
            events,
        };
        let mut profiles: Vec<Profile> = Vec::new();
        profiles.push(profile);
        SpeedscopeFile {
            schema: SCHEMA_URL.to_owned(),
            profiles,
            shared: Shared { frames: shared_frames },
            name,
            exporter: EXPORTER.to_owned(),
            active_profile_index: 0,
        }
    }
}

} // verus!

verus! {

proof fn lemma_sample_events_sorted(samples: Seq<Vec<usize>>, weights: Seq<u128>, n: nat)
    requires
        n <= weights.len(),
        n <= samples.len(),
        weight_sum(weights) <= u128::MAX,
    ensures
        forall|i: int, j: int|
            0 <= i <= j < sample_events(samples, weights, n).len() ==> (#[trigger] sample_events(
                samples,
                weights,
                n,
            )[i]).at <= (#[trigger] sample_events(samples, weights, n)[j]).at,
        forall|i: int|
            0 <= i < sample_events(samples, weights, n).len() ==> (#[trigger] sample_events(
                samples,
                weights,
                n,
            )[i]).at <= weight_sum(weights.take(n as int)),
    decreases n,
{
    if n > 0 {
        let k = (n - 1) as nat;
        lemma_sample_events_sorted(samples, weights, k);
        lemma_weight_sum_prefix(weights, k as int);
        lemma_weight_sum_prefix(weights, n as int);
        lemma_weight_sum_prefix(weights.take(n as int), k as int);
        assert(weights.take(n as int).take(k as int) == weights.take(k as int));
        let e = sample_events(samples, weights, k);
        let a = weight_sum(weights.take(k as int)) as u128;
        let b = weight_sum(weights.take(n as int)) as u128;
        let o = open_events(samples[k as int]@, a);
        let c = close_events(samples[k as int]@, b);
        let all = sample_events(samples, weights, n);
        assert(all == e + o + c);
        assert(a <= b);
        assert forall|i: int| 0 <= i < all.len() implies (#[trigger] all[i]).at <= weight_sum(
            weights.take(n as int),
        ) by {
            if i < e.len() {
                assert(all[i] == e[i]);
            } else if i < e.len() + o.len() {
                assert(all[i] == o[i - e.len()]);
            } else {
                assert(all[i] == c[i - e.len() - o.len()]);
            }
        }
        assert forall|i: int, j: int| 0 <= i <= j < all.len() implies (#[trigger] all[i]).at <= (
        #[trigger] all[j]).at by {
            if j < e.len() {
                assert(all[i] == e[i]);
                assert(all[j] == e[j]);
            } else if j < e.len() + o.len() {
                assert(all[j] == o[j - e.len()]);
                if i < e.len() {
                    assert(all[i] == e[i]);
                } else {
                    assert(all[i] == o[i - e.len()]);
                }
            } else {
                assert(all[j] == c[j - e.len() - o.len()]);
                if i < e.len() {
                    assert(all[i] == e[i]);
                } else if i < e.len() + o.len() {
                    assert(all[i] == o[i - e.len()]);
                } else {
                    assert(all[i] == c[i - e.len() - o.len()]);
                }
            }
        }
    }
}

/// The events of a profile's Speedscope document never go back in time: each
/// event's timestamp is at most that of every later event, and at most the
/// document's end value.
pub proof fn lemma_events_ordered(p: ProfileData)
    requires
        p.wf(),
    ensures
        forall|i: int, j: int|
            0 <= i <= j < profile_events(p).len() ==> (#[trigger] profile_events(p)[i]).at <= (
            #[trigger] profile_events(p)[j]).at,
        forall|i: int|
            0 <= i < profile_events(p).len() ==> (#[trigger] profile_events(p)[i]).at
                <= weight_sum(p.spec_weights()),
{
    let w = p.spec_weights();
    lemma_sample_events_sorted(p.spec_samples(), w, w.len());
    assert(w.take(w.len() as int) == w);
}

/// Each sample adds its events after those of the samples before it: first
/// an open event per frame from the outermost call to the innermost, at the
/// weight before the sample, then a close event per frame from the innermost
/// call to the outermost, at the weight after it.
pub proof fn lemma_sample_group(samples: Seq<Vec<usize>>, weights: Seq<u128>, k: nat)
    requires
        k < weights.len(),
        k < samples.len(),
    ensures
        sample_events(samples, weights, k + 1) == sample_events(samples, weights, k) + open_events(
            samples[k as int]@,
            weight_sum(weights.take(k as int)) as u128,
        ) + close_events(samples[k as int]@, weight_sum(weights.take(k as int + 1)) as u128),
        forall|i: int|
            0 <= i < samples[k as int]@.len() ==> (#[trigger] open_events(
                samples[k as int]@,
                weight_sum(weights.take(k as int)) as u128,
            )[i]).frame == samples[k as int]@[samples[k as int]@.len() - 1 - i],
        forall|i: int|
            0 <= i < samples[k as int]@.len() ==> (#[trigger] close_events(
                samples[k as int]@,
                weight_sum(weights.take(k as int + 1)) as u128,
            )[i]).frame == samples[k as int]@[i],
{
}

} // verus!
