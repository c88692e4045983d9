//! Gas profiles of contract invocations, and their speedscope export.
//!
//! A [`GasProfiler`] records the call stack as frames are entered; each exit
//! records a [`Sample`] of the stack with its cost. [`export_speedscope`]
//! renders a [`Profile`] as speedscope JSON, numbering each distinct frame once.
use vstd::prelude::*;
use crate::clock::nanos_since_epoch;
use crate::text::{chars_of, push_char, push_u64, decimal};

verus! {

/// A single stack frame in a call profile.
#[derive(Debug, Clone)]
pub struct Frame {
    pub name: String,
    pub function: String,
    pub file: Option<String>,
    pub line: Option<u32>,
}

impl Frame {
    /// A frame with no source location.
    pub fn new(name: &str, function: &str) -> (r: Self)
        ensures
            r.name@ == name@,
            r.function@ == function@,
            r.file is None,
            r.line is None,
    {
        Frame {
            name: String::from_str(name),
            function: String::from_str(function),
            file: None,
            line: None,
        }
    }

    /// The same frame located at `file`:`line`.
    pub fn with_location(self, file: &str, line: u32) -> (r: Self)
        ensures
            r.name == self.name,
            r.function == self.function,
            r.file matches Some(f) && f@ == file@,
            r.line == Some(line),
    {
        Frame { file: Some(String::from_str(file)), line: Some(line), ..self }
    }
}

/// A single sample in a profile, recording a stack and its cost.
#[derive(Debug, Clone)]
pub struct Sample {
    pub stack: Vec<Frame>,
    pub cost: u64,
    pub memory_bytes: u64,
}

impl Sample {
    /// A sample of `stack` with its cost and memory.
    pub fn new(stack: Vec<Frame>, cost: u64, memory_bytes: u64) -> (r: Self)
        ensures
            r.stack == stack,
            r.cost == cost,
            r.memory_bytes == memory_bytes,
    {
        Sample { stack, cost, memory_bytes }
    }
}

/// Milliseconds since the Unix epoch by the system clock; `0` when the clock
/// reads earlier. What the clock reads is all that decides it: see
/// `millis_from_nanos`.
fn unix_millis() -> u64 {
    millis_from_nanos(nanos_since_epoch())
}

/// The whole milliseconds of a clock reading in nanoseconds since the epoch,
/// cut to 64 bits; `0` for a clock that read earlier than the epoch.
pub fn millis_from_nanos(nanos: Option<u128>) -> (r: u64)
    ensures
        r == match nanos {
            Some(n) => (n / 1_000_000) as u64,
            None => 0,
        },
{
    match nanos {
        Some(n) => (n / 1_000_000) as u64,
        None => 0,
    }
}

/// The costs of samples, added up.
pub open spec fn cost_sum(samples: Seq<Sample>) -> int
    decreases samples.len(),
{
    if samples.len() == 0 {
        0
    } else {
        cost_sum(samples.drop_last()) + samples.last().cost
    }
}

/// The memory of samples, added up.
pub open spec fn memory_sum(samples: Seq<Sample>) -> int
    decreases samples.len(),
{
    if samples.len() == 0 {
        0
    } else {
        memory_sum(samples.drop_last()) + samples.last().memory_bytes
    }
}

proof fn lemma_sum_prefix(samples: Seq<Sample>, k: int)
    requires
        0 <= k <= samples.len(),
    ensures
        cost_sum(samples.take(k)) <= cost_sum(samples),
        memory_sum(samples.take(k)) <= memory_sum(samples),
    decreases samples.len() - k,
{
    if k < samples.len() {
        lemma_sum_prefix(samples, k + 1);
        assert(samples.take(k + 1).drop_last() =~= samples.take(k));
    } else {
        assert(samples.take(k) =~= samples);
    }
}

/// A complete profile recording for a single contract invocation.
#[derive(Debug, Clone)]
pub struct Profile {
    pub samples: Vec<Sample>,
    pub start_time: u64,
    pub end_time: u64,
}

impl Profile {
    /// An empty profile started now.
    pub fn new() -> (r: Self)
        ensures
            r.samples@.len() == 0,
            r.start_time == r.end_time,
    {
        let now = unix_millis();
        Profile { samples: Vec::new(), start_time: now, end_time: now }
    }

    /// Records a sample.
    pub fn add_sample(&mut self, sample: Sample)
        ensures
            final(self).samples@ == old(self).samples@.push(sample),
            final(self).start_time == old(self).start_time,
            final(self).end_time == old(self).end_time,
    {
        self.samples.push(sample);
    }

    /// Marks the profile finished now.
    pub fn finish(&mut self)
        ensures
            final(self).samples == old(self).samples,
            final(self).start_time == old(self).start_time,
    {
        self.end_time = unix_millis();
    }

    /// The summed cost of every sample.
    pub fn total_cost(&self) -> (r: u64)
        requires
            cost_sum(self.samples@) <= u64::MAX,
        ensures
            r == cost_sum(self.samples@),
    {
        let mut total: u64 = 0;
        let mut i: usize = 0;
        while i < self.samples.len()
            invariant
                i <= self.samples@.len(),
                cost_sum(self.samples@) <= u64::MAX,
                total == cost_sum(self.samples@.take(i as int)),
            decreases self.samples@.len() - i,
        {
            proof {
                assert(self.samples@.take(i + 1).drop_last() =~= self.samples@.take(i as int));
                lemma_sum_prefix(self.samples@, i + 1);
            }
            total = total + self.samples[i].cost;
            i = i + 1;
        }
        proof {
            assert(self.samples@.take(self.samples@.len() as int) =~= self.samples@);
        }
        total
    }

    /// The summed memory of every sample.
    pub fn total_memory_bytes(&self) -> (r: u64)
        requires
            memory_sum(self.samples@) <= u64::MAX,
        ensures
            r == memory_sum(self.samples@),
    {
        let mut total: u64 = 0;
        let mut i: usize = 0;
        while i < self.samples.len()
            invariant
                i <= self.samples@.len(),
                memory_sum(self.samples@) <= u64::MAX,
                total == memory_sum(self.samples@.take(i as int)),
            decreases self.samples@.len() - i,
        {
            proof {
                assert(self.samples@.take(i + 1).drop_last() =~= self.samples@.take(i as int));
                lemma_sum_prefix(self.samples@, i + 1);
            }
            total = total + self.samples[i].memory_bytes;
            i = i + 1;
        }
        proof {
            assert(self.samples@.take(self.samples@.len() as int) =~= self.samples@);
        }
        total
    }
}

impl Default for Profile {
    fn default() -> (r: Self)
        ensures
            r.samples@.len() == 0,
            r.start_time == 0,
            r.end_time == 0,
    {
        Profile { samples: Vec::new(), start_time: 0, end_time: 0 }
    }
}

/// A gas profiler that records call stacks and resource usage during a test.
///
/// While active, [`enter`](Self::enter) pushes a frame and
/// [`exit`](Self::exit) records the whole current stack as one sample of the
/// latest profile, emptying the stack.
#[derive(Debug, Clone)]
pub struct GasProfiler {
    current_stack: Vec<Frame>,
    profiles: Vec<Profile>,
    active: bool,
}

impl GasProfiler {
    /// The frames entered since the last sample.
    pub closed spec fn stack(&self) -> Seq<Frame> {
        self.current_stack@
    }

    /// The profiles recorded.
    pub closed spec fn recorded(&self) -> Seq<Profile> {
        self.profiles@
    }

    /// Whether the profiler is recording.
    pub closed spec fn recording(&self) -> bool {
        self.active
    }

    /// A new, inactive profiler with nothing recorded.
    pub fn new() -> (r: Self)
        ensures
            !r.recording(),
            r.stack().len() == 0,
            r.recorded().len() == 0,
    {
        GasProfiler { current_stack: Vec::new(), profiles: Vec::new(), active: false }
    }

    /// Returns `true` if the profiler is currently recording.
    pub fn is_active(&self) -> (r: bool)
        ensures
            r == self.recording(),
    {
        self.active
    }

    /// Starts recording with an empty stack.
    pub fn start(&mut self)
        ensures
            final(self).recording(),
            final(self).stack().len() == 0,
            final(self).recorded() == old(self).recorded(),
    {
        self.current_stack.clear();
        self.active = true;
    }

    /// Stops recording and returns a finished profile holding the samples of
    /// the latest recorded profile, which keeps none of them.
    pub fn stop(&mut self) -> (r: Profile)
        ensures
            !final(self).recording(),
            final(self).stack() == old(self).stack(),
            final(self).recorded().len() == old(self).recorded().len(),
            old(self).recorded().len() == 0 ==> r.samples@.len() == 0,
            old(self).recorded().len() > 0 ==> {
                let n = old(self).recorded().len() - 1;
                &&& r.samples@ == old(self).recorded()[n].samples@
                &&& final(self).recorded()[n].samples@.len() == 0
                &&& final(self).recorded()[n].start_time == old(self).recorded()[n].start_time
                &&& final(self).recorded()[n].end_time == old(self).recorded()[n].end_time
                &&& final(self).recorded().take(n) == old(self).recorded().take(n)
            },
    {
        self.active = false;
        let mut profile = Profile::new();
        let n = self.profiles.len();
        if n > 0 {
            let last = self.profiles.pop().unwrap();
            let Profile { samples, start_time, end_time } = last;
            self.profiles.push(Profile { samples: Vec::new(), start_time, end_time });
            profile.samples = samples;
            proof {
                assert(self.profiles@.take(n - 1) =~= old(self).profiles@.take(n - 1));
            }
        }
        profile.finish();
        profile
    }

    /// Pushes a frame onto the current call stack while recording.
    pub fn enter(&mut self, frame: Frame)
        ensures
            final(self).recording() == old(self).recording(),
            final(self).recorded() == old(self).recorded(),
            final(self).stack() == if old(self).recording() {
                old(self).stack().push(frame)
            } else {
                old(self).stack()
            },
    {
        if self.active {
            self.current_stack.push(frame);
        }
    }

    /// While recording with a non-empty stack, records the whole stack as one
    /// sample of the latest profile (a new one when there is none), emptying
    /// the stack.
    pub fn exit(&mut self, cost: u64, memory_bytes: u64)
        ensures
            final(self).recording() == old(self).recording(),
            !(old(self).recording() && old(self).stack().len() > 0) ==> final(self).stack() == old(
                self,
            ).stack() && final(self).recorded() == old(self).recorded(),
            old(self).recording() && old(self).stack().len() > 0 ==> {
                &&& final(self).stack().len() == 0
                &&& final(self).recorded().len() == if old(self).recorded().len() == 0 {
                    1
                } else {
                    old(self).recorded().len()
                }
                &&& final(self).recorded().last().samples@.len() >= 1
                &&& final(self).recorded().last().samples@.last().stack@ == old(self).stack()
                &&& final(self).recorded().last().samples@.last().cost == cost
                &&& final(self).recorded().last().samples@.last().memory_bytes == memory_bytes
                &&& old(self).recorded().len() > 0 ==> final(self).recorded().last().samples@.drop_last()
                    == old(self).recorded().last().samples@
                &&& old(self).recorded().len() > 0 ==> final(self).recorded().drop_last() == old(
                    self,
                ).recorded().drop_last()
                &&& old(self).recorded().len() == 0 ==> final(self).recorded().last().samples@.len() == 1
            },
    {
        if self.active && self.current_stack.len() > 0 {
            let mut stack: Vec<Frame> = Vec::new();
            std::mem::swap(&mut stack, &mut self.current_stack);
            let sample = Sample::new(stack, cost, memory_bytes);
            let n = self.profiles.len();
            if n > 0 {
                let mut last = self.profiles.pop().unwrap();
                last.add_sample(sample);
                self.profiles.push(last);
                proof {
                    assert(self.profiles@.drop_last() =~= old(self).profiles@.drop_last());
                }
            } else {
                let mut profile = Profile::new();
                profile.add_sample(sample);
                self.profiles.push(profile);
            }
        }
    }

    /// Returns all recorded profiles.
    pub fn profiles(&self) -> (r: &[Profile])
        ensures
            r@ == self.recorded(),
    {
        self.profiles.as_slice()
    }

    /// Clears all recorded profiles and the current stack.
    pub fn clear(&mut self)
        ensures
            final(self).recording() == old(self).recording(),
            final(self).recorded().len() == 0,
            final(self).stack().len() == 0,
    {
        self.profiles.clear();
        self.current_stack.clear();
    }
}

impl Default for GasProfiler {
    fn default() -> (r: Self)
        ensures
            !r.recording(),
            r.stack().len() == 0,
            r.recorded().len() == 0,
    {
        GasProfiler::new()
    }
}

// ── Speedscope export ───────────────────────────────────────────────────────

/// The key that identifies a frame in the exported frame table.
pub open spec fn frame_key(f: Frame) -> Seq<char> {
    f.function@ + "/"@ + f.name@
}

/// The position of the first frame of `table` whose key is `key`, or `-1`.
pub open spec fn key_position(table: Seq<Frame>, key: Seq<char>) -> int
    decreases table.len(),
{
    if table.len() == 0 {
        -1
    } else {
        let p = key_position(table.drop_last(), key);
        if p >= 0 {
            p
        } else if frame_key(table.last()) == key {
            table.len() - 1
        } else {
            -1
        }
    }
}

/// The frames of `fs` whose key has not appeared before, in order.
pub open spec fn distinct_frames(fs: Seq<Frame>) -> Seq<Frame>
    decreases fs.len(),
{
    if fs.len() == 0 {
        seq![]
    } else {
        let t = distinct_frames(fs.drop_last());
        if key_position(t, frame_key(fs.last())) >= 0 {
            t
        } else {
            t.push(fs.last())
        }
    }
}

/// The frames of every sample's stack, sample after sample.
pub open spec fn sampled_frames(samples: Seq<Sample>) -> Seq<Frame>
    decreases samples.len(),
{
    if samples.len() == 0 {
        seq![]
    } else {
        sampled_frames(samples.drop_last()) + samples.last().stack@
    }
}

/// The exported frame table: each distinct frame once, in order of appearance.
pub open spec fn frame_table(p: Profile) -> Seq<Frame> {
    distinct_frames(sampled_frames(p.samples@))
}

/// `s` with backslashes and double quotes escaped.
pub open spec fn quote_escaped(s: Seq<char>) -> Seq<char>
    decreases s.len(),
{
    if s.len() == 0 {
        seq![]
    } else {
        quote_escaped(s.drop_last()) + if s.last() == '\\' {
            seq!['\\', '\\']
        } else if s.last() == '"' {
            seq!['\\', '"']
        } else {
            seq![s.last()]
        }
    }
}

/// The line of the frame table for `f`.
pub open spec fn frame_entry(f: Frame, last: bool) -> Seq<char> {
    "        {\"name\": \""@ + quote_escaped(f.name@) + "\", \"file\": \""@ + quote_escaped(
        match f.file {
            Some(file) => file@,
            None => seq![],
        },
    ) + "\", \"line\": "@ + decimal(
        match f.line {
            Some(l) => l as nat,
            None => 0,
        },
    ) + "}"@ + (if last {
        seq![]
    } else {
        seq![',']
    }) + "\n"@
}

/// Frame-table lines, each followed by a comma.
pub open spec fn frame_entries(table: Seq<Frame>) -> Seq<char>
    decreases table.len(),
{
    if table.len() == 0 {
        seq![]
    } else {
        frame_entries(table.drop_last()) + frame_entry(table.last(), false)
    }
}

/// The frame-table lines; the last has no comma.
pub open spec fn frames_text(table: Seq<Frame>) -> Seq<char> {
    if table.len() == 0 {
        seq![]
    } else {
        frame_entries(table.drop_last()) + frame_entry(table.last(), true)
    }
}

/// Numbers separated by `, `.
pub open spec fn joined_indices(ns: Seq<int>) -> Seq<char>
    decreases ns.len(),
{
    if ns.len() == 0 {
        seq![]
    } else if ns.len() == 1 {
        decimal(ns[0] as nat)
    } else {
        joined_indices(ns.drop_last()) + ", "@ + decimal(ns.last() as nat)
    }
}

/// The frame-table positions of a sample's stack.
pub open spec fn stack_positions(s: Sample, table: Seq<Frame>) -> Seq<int> {
    s.stack@.map_values(|f: Frame| key_position(table, frame_key(f)))
}

/// The event line of a stack given by frame-table positions, with its weight.
pub open spec fn event_text(positions: Seq<int>, weight: nat, last: bool) -> Seq<char> {
    "        {\"type\": \"Sample\", \"stack\": ["@ + joined_indices(positions) + "], \"weight\": "@
        + decimal(weight) + "}"@ + (if last {
        seq![]
    } else {
        seq![',']
    }) + "\n"@
}

/// The event line of a sample.
pub open spec fn event_entry(s: Sample, table: Seq<Frame>, last: bool) -> Seq<char> {
    event_text(stack_positions(s, table), s.cost as nat, last)
}

/// Event lines, each followed by a comma.
pub open spec fn event_entries(samples: Seq<Sample>, table: Seq<Frame>) -> Seq<char>
    decreases samples.len(),
{
    if samples.len() == 0 {
        seq![]
    } else {
        event_entries(samples.drop_last(), table) + event_entry(samples.last(), table, false)
    }
}

/// The event lines; the last has no comma.
pub open spec fn events_text(samples: Seq<Sample>, table: Seq<Frame>) -> Seq<char> {
    if samples.len() == 0 {
        seq![]
    } else {
        event_entries(samples.drop_last(), table) + event_entry(samples.last(), table, true)
    }
}

/// The speedscope document of a profile: one profile whose frames are the
/// frame table and whose events are the samples, weighted by cost.
pub open spec fn speedscope_json(p: Profile) -> Seq<char> {
    "{\n  \"name\": \"Crucible Profile\",\n  \"profiles\": [\n    {\n      \"name\": \"Crucible Gas Profile\",\n      \"unit\": \"instructions\",\n      \"startValue\": 0,\n      \"endValue\": "@
        + decimal(cost_sum(p.samples@) as nat) + ",\n      \"frames\": [\n"@ + frames_text(
        frame_table(p),
    ) + "      ],\n      \"events\": [\n"@ + events_text(p.samples@, frame_table(p))
        + "      ]\n    }\n  ],\n  \"shared\": {\n    \"frames\": []\n  }\n}\n"@
}

proof fn lemma_key_position_bounds(table: Seq<Frame>, key: Seq<char>)
    ensures
        -1 <= key_position(table, key) < table.len(),
        key_position(table, key) >= 0 ==> frame_key(table[key_position(table, key)]) == key,
        key_position(table, key) == -1 ==> forall|i: int|
            0 <= i < table.len() ==> frame_key(#[trigger] table[i]) != key,
        forall|i: int|
            0 <= i < key_position(table, key) ==> frame_key(#[trigger] table[i]) != key,
    decreases table.len(),
{
    if table.len() > 0 {
        lemma_key_position_bounds(table.drop_last(), key);
        let t = table.drop_last();
        assert forall|i: int| 0 <= i < t.len() implies #[trigger] table[i] == t[i] by {}
    }
}

proof fn lemma_key_position_push(table: Seq<Frame>, g: Frame, key: Seq<char>)
    ensures
        key_position(table.push(g), key) == if key_position(table, key) >= 0 {
            key_position(table, key)
        } else if frame_key(g) == key {
            table.len() as int
        } else {
            -1
        },
{
    assert(table.push(g).drop_last() =~= table);
}

/// Appends `s` with backslashes and double quotes escaped.
fn push_quote_escaped(out: &mut String, s: &str)
    ensures
        final(out)@ == old(out)@ + quote_escaped(s@),
{
    let cs = chars_of(s);
    let ghost start = out@;
    let mut i: usize = 0;
    proof {
        assert(cs@.take(0) =~= Seq::<char>::empty());
    }
    while i < cs.len()
        invariant
            cs@ == s@,
            i <= cs@.len(),
            out@ == start + quote_escaped(cs@.take(i as int)),
        decreases cs@.len() - i,
    {
        let c = cs[i];
        if c == '\\' {
            push_char(out, '\\');
            push_char(out, '\\');
        } else if c == '"' {
            push_char(out, '\\');
            push_char(out, '"');
        } else {
            push_char(out, c);
        }
        proof {
            let t = cs@.take(i + 1);
            assert(t.drop_last() =~= cs@.take(i as int));
            assert(out@ =~= start + quote_escaped(t));
        }
        i = i + 1;
    }
    proof {
        assert(cs@.take(cs@.len() as int) =~= cs@);
    }
}

/// The key of a frame.
fn key_of(f: &Frame) -> (r: String)
    ensures
        r@ == frame_key(*f),
{
    let mut k = f.function.clone();
    k.append("/");
    k.append(f.name.as_str());
    k
}

/// The first position of `key` among `keys`, if any.
fn find_key(keys: &Vec<String>, key: &String) -> (r: Option<usize>)
    ensures
        r matches Some(p) ==> p < keys@.len() && keys@[p as int]@ == key@ && forall|i: int|
            0 <= i < p ==> keys@[i]@ != key@,
        r is None ==> forall|i: int| 0 <= i < keys@.len() ==> keys@[i]@ != key@,
{
    let mut i: usize = 0;
    while i < keys.len()
        invariant
            i <= keys@.len(),
            forall|k: int| 0 <= k < i ==> keys@[k]@ != key@,
        decreases keys@.len() - i,
    {
        if keys[i] == *key {
            return Some(i);
        }
        i = i + 1;
    }
    None
}

/// Numbers a profile's frames: the frame table, and each sample's stack as
/// positions in it.
fn number_frames(profile: &Profile) -> (r: (Vec<&Frame>, Vec<Vec<usize>>))
    ensures
        r.0@.map_values(|f: &Frame| *f) == frame_table(*profile),
        r.1@.len() == profile.samples@.len(),
        forall|m: int|
            0 <= m < r.1@.len() ==> (#[trigger] r.1@[m])@.map_values(|x: usize| x as int)
                == stack_positions(profile.samples@[m], frame_table(*profile)),
{
    let ghost samples = profile.samples@;
    let mut table: Vec<&Frame> = Vec::new();
    let mut keys: Vec<String> = Vec::new();
    let mut stacks: Vec<Vec<usize>> = Vec::new();
    proof {
        assert(samples.take(0) =~= Seq::<Sample>::empty());
        assert(table@.map_values(|f: &Frame| *f) =~= Seq::<Frame>::empty());
    }
    let mut i: usize = 0;
    while i < profile.samples.len()
        invariant
            samples == profile.samples@,
            i <= samples.len(),
            table@.map_values(|f: &Frame| *f) == distinct_frames(sampled_frames(samples.take(i as int))),
            keys@.len() == table@.len(),
            forall|k: int| 0 <= k < keys@.len() ==> (#[trigger] keys@[k])@ == frame_key(*table@[k]),
            stacks@.len() == i,
            forall|m: int|
                0 <= m < i ==> (#[trigger] stacks@[m])@.map_values(|x: usize| x as int)
                    == stack_positions(samples[m], table@.map_values(|f: &Frame| *f)),
        decreases samples.len() - i,
    {
        let stack = &profile.samples[i].stack;
        let ghost before = sampled_frames(samples.take(i as int));
        let mut idxs: Vec<usize> = Vec::new();
        let mut j: usize = 0;
        proof {
            assert(stack@.take(0) =~= Seq::<Frame>::empty());
            assert(before + stack@.take(0) =~= before);
            assert(idxs@.map_values(|x: usize| x as int) =~= Seq::<int>::empty());
        }
        while j < stack.len()
            invariant
                samples == profile.samples@,
                i < samples.len(),
                *stack == samples[i as int].stack,
                before == sampled_frames(samples.take(i as int)),
                j <= stack@.len(),
                table@.map_values(|f: &Frame| *f) == distinct_frames(before + stack@.take(j as int)),
                keys@.len() == table@.len(),
                forall|k: int| 0 <= k < keys@.len() ==> (#[trigger] keys@[k])@ == frame_key(*table@[k]),
                stacks@.len() == i,
                forall|m: int|
                    0 <= m < i ==> (#[trigger] stacks@[m])@.map_values(|x: usize| x as int)
                        == stack_positions(samples[m], table@.map_values(|f: &Frame| *f)),
                idxs@.map_values(|x: usize| x as int) == stack@.take(j as int).map_values(
                    |f: Frame| key_position(table@.map_values(|f: &Frame| *f), frame_key(f)),
                ),
            decreases stack@.len() - j,
        {
            let f = &stack[j];
            let key = key_of(f);
            let ghost t0 = table@.map_values(|g: &Frame| *g);
            let ghost prefix = before + stack@.take(j as int);
            let ghost before_idx = idxs@.map_values(|x: usize| x as int);
            proof {
                lemma_key_position_bounds(t0, key@);
                assert((before + stack@.take(j + 1)).drop_last() =~= prefix);
                assert((before + stack@.take(j + 1)).last() == *f);
                assert(before + stack@.take(j + 1) =~= prefix.push(*f));
            }
            let idx: usize = match find_key(&keys, &key) {
                Some(p) => {
                    proof {
                        let q = key_position(t0, key@);
                        assert(t0[p as int] == *table@[p as int]);
                        assert(keys@[p as int]@ == frame_key(*table@[p as int]));
                        assert(frame_key(t0[p as int]) == key@);
                        if q >= 0 {
                            assert(t0[q] == *table@[q]);
                            assert(keys@[q]@ == frame_key(*table@[q]));
                            assert(keys@[q]@ == key@);
                        }
                        assert(q == p as int);
                    }
                    p
                },
                None => {
                    proof {
                        let q = key_position(t0, key@);
                        if q >= 0 {
                            assert(t0[q] == *table@[q]);
                            assert(keys@[q]@ == frame_key(*table@[q]));
                            assert(keys@[q]@ == key@);
                        }
                        assert(q == -1);
                    }
                    let n = table.len();
                    table.push(f);
                    keys.push(key);
                    proof {
                        let t1 = table@.map_values(|g: &Frame| *g);
                        assert(t1 =~= t0.push(*f));
                        assert forall|k2: Seq<char>| key_position(t0, k2) >= 0 implies key_position(
                            t1,
                            k2,
                        ) == key_position(t0, k2) by {
                            lemma_key_position_push(t0, *f, k2);
                        }
                        lemma_key_position_push(t0, *f, key@);
                        assert forall|m: int| 0 <= m < i implies (#[trigger] stacks@[m])@.map_values(
                            |x: usize| x as int,
                        ) == stack_positions(samples[m], t1) by {
                            let old_pos = stack_positions(samples[m], t0);
                            assert forall|q: int| 0 <= q < old_pos.len() implies #[trigger] old_pos[q]
                                == stack_positions(samples[m], t1)[q] by {
                                assert(old_pos[q] == stacks@[m]@.map_values(|x: usize| x as int)[q]);
                                assert(old_pos[q] >= 0);
                            }
                            assert(old_pos =~= stack_positions(samples[m], t1));
                        }
                        let old_idx = stack@.take(j as int).map_values(
                            |g: Frame| key_position(t0, frame_key(g)),
                        );
                        assert forall|q: int| 0 <= q < old_idx.len() implies #[trigger] old_idx[q]
                            == stack@.take(j as int).map_values(
                            |g: Frame| key_position(t1, frame_key(g)),
                        )[q] by {
                            assert(old_idx[q] == idxs@.map_values(|x: usize| x as int)[q]);
                            assert(old_idx[q] >= 0);
                        }
                        assert(old_idx =~= stack@.take(j as int).map_values(
                            |g: Frame| key_position(t1, frame_key(g)),
                        ));
                    }
                    n
                },
            };
            idxs.push(idx);
            proof {
                let t1 = table@.map_values(|g: &Frame| *g);
                assert(t1 == distinct_frames(prefix.push(*f)));
                assert(idx as int == key_position(t1, frame_key(*f)));
                assert(stack@.take(j + 1) =~= stack@.take(j as int).push(*f));
                assert(idxs@.map_values(|x: usize| x as int) =~= before_idx.push(idx as int));
                assert(before_idx == stack@.take(j as int).map_values(
                    |g: Frame| key_position(t1, frame_key(g)),
                ));
                assert(stack@.take(j + 1).map_values(|g: Frame| key_position(t1, frame_key(g)))
                    =~= stack@.take(j as int).map_values(
                    |g: Frame| key_position(t1, frame_key(g)),
                ).push(key_position(t1, frame_key(*f))));
                assert(idxs@.map_values(|x: usize| x as int) =~= stack@.take(j + 1).map_values(
                    |g: Frame| key_position(t1, frame_key(g)),
                ));
            }
            j = j + 1;
        }
        proof {
            assert(stack@.take(stack@.len() as int) =~= stack@);
            assert(samples.take(i + 1).drop_last() =~= samples.take(i as int));
            assert(sampled_frames(samples.take(i + 1)) == before + stack@);
        }
        stacks.push(idxs);
        proof {
            assert forall|m: int| 0 <= m < i + 1 implies (#[trigger] stacks@[m])@.map_values(
                |x: usize| x as int,
            ) == stack_positions(samples[m], table@.map_values(|f: &Frame| *f)) by {
                if m == i {
                    assert(stack_positions(samples[m], table@.map_values(|f: &Frame| *f))
                        =~= stack@.map_values(
                        |g: Frame| key_position(table@.map_values(|f: &Frame| *f), frame_key(g)),
                    ));
                }
            }
        }
        i = i + 1;
    }
    proof {
        assert(samples.take(samples.len() as int) =~= samples);
    }
    (table, stacks)
}

/// Appends the frame-table line of `f`.
fn push_frame_entry(out: &mut String, f: &Frame, last: bool)
    ensures
        final(out)@ == old(out)@ + frame_entry(*f, last),
{
    let ghost start = out@;
    out.append("        {\"name\": \"");
    push_quote_escaped(out, f.name.as_str());
    out.append("\", \"file\": \"");
    match &f.file {
        Some(file) => push_quote_escaped(out, file.as_str()),
        None => {
            proof {
                assert(quote_escaped(Seq::<char>::empty()) =~= Seq::<char>::empty());
            }
        },
    }
    out.append("\", \"line\": ");
    match f.line {
        Some(l) => push_u64(out, l as u64),
        None => push_u64(out, 0),
    }
    out.append("}");
    if !last {
        push_char(out, ',');
    }
    out.append("\n");
    proof {
        assert(out@ =~= start + frame_entry(*f, last));
    }
}

/// Appends numbers separated by `, `.
fn push_joined_indices(out: &mut String, ns: &Vec<usize>)
    ensures
        final(out)@ == old(out)@ + joined_indices(ns@.map_values(|x: usize| x as int)),
{
    let ghost start = out@;
    let ghost all = ns@.map_values(|x: usize| x as int);
    let mut i: usize = 0;
    proof {
        assert(all.take(0) =~= Seq::<int>::empty());
    }
    while i < ns.len()
        invariant
            all == ns@.map_values(|x: usize| x as int),
            i <= ns@.len(),
            out@ == start + joined_indices(all.take(i as int)),
        decreases ns@.len() - i,
    {
        if i > 0 {
            out.append(", ");
        }
        push_u64(out, ns[i] as u64);
        proof {
            let t = all.take(i + 1);
            assert(t.drop_last() =~= all.take(i as int));
            assert(out@ =~= start + joined_indices(t));
        }
        i = i + 1;
    }
    proof {
        assert(all.take(ns@.len() as int) =~= all);
    }
}

/// Appends the event line of a stack given by positions.
fn push_event_text(out: &mut String, positions: &Vec<usize>, weight: u64, last: bool)
    ensures
        final(out)@ == old(out)@ + event_text(
            positions@.map_values(|x: usize| x as int),
            weight as nat,
            last,
        ),
{
    let ghost start = out@;
    out.append("        {\"type\": \"Sample\", \"stack\": [");
    push_joined_indices(out, positions);
    out.append("], \"weight\": ");
    push_u64(out, weight);
    out.append("}");
    if !last {
        push_char(out, ',');
    }
    out.append("\n");
    proof {
        assert(out@ =~= start + event_text(
            positions@.map_values(|x: usize| x as int),
            weight as nat,
            last,
        ));
    }
}

/// Exports a profile as speedscope JSON: one profile whose frames are the
/// distinct frames of the samples, in order of appearance, and whose events
/// are the samples, each weighted by its cost.
pub fn export_speedscope(profile: &Profile) -> (r: String)
    requires
        cost_sum(profile.samples@) <= u64::MAX,
    ensures
        r@ == speedscope_json(*profile),
{
    let (table, stacks) = number_frames(profile);
    let ghost t = frame_table(*profile);
    let ghost samples = profile.samples@;
    let mut json = String::new();
    json.append(
        "{\n  \"name\": \"Crucible Profile\",\n  \"profiles\": [\n    {\n      \"name\": \"Crucible Gas Profile\",\n      \"unit\": \"instructions\",\n      \"startValue\": 0,\n      \"endValue\": ",
    );
    push_u64(&mut json, profile.total_cost());
    json.append(",\n      \"frames\": [\n");
    let ghost head = json@;
    let n = table.len();
    if n > 0 {
        let mut k: usize = 0;
        proof {
            assert(t.take(0) =~= Seq::<Frame>::empty());
        }
        while k + 1 < n
            invariant
                n == table@.len(),
                n > 0,
                k + 1 <= n,
                table@.map_values(|f: &Frame| *f) == t,
                json@ == head + frame_entries(t.take(k as int)),
            decreases n - k,
        {
            push_frame_entry(&mut json, table[k], false);
            proof {
                assert(t.take(k + 1).drop_last() =~= t.take(k as int));
                assert(t[k as int] == *table@[k as int]);
            }
            k = k + 1;
        }
        push_frame_entry(&mut json, table[n - 1], true);
        proof {
            assert(t.take(n - 1) =~= t.drop_last());
            assert(t[n - 1] == *table@[n - 1]);
        }
    }
    proof {
        assert(json@ =~= head + frames_text(t));
    }
    json.append("      ],\n      \"events\": [\n");
    let ghost mid = json@;
    let m = stacks.len();
    if m > 0 {
        let mut k: usize = 0;
        proof {
            assert(samples.take(0) =~= Seq::<Sample>::empty());
        }
        while k + 1 < m
            invariant
                m == stacks@.len(),
                m == samples.len(),
                samples == profile.samples@,
                m > 0,
                k + 1 <= m,
                forall|q: int|
                    0 <= q < m ==> (#[trigger] stacks@[q])@.map_values(|x: usize| x as int)
                        == stack_positions(samples[q], t),
                json@ == mid + event_entries(samples.take(k as int), t),
            decreases m - k,
        {
            push_event_text(&mut json, &stacks[k], profile.samples[k].cost, false);
            proof {
                assert(samples.take(k + 1).drop_last() =~= samples.take(k as int));
                assert(stacks@[k as int]@.map_values(|x: usize| x as int) == stack_positions(
                    samples[k as int],
                    t,
                ));
            }
            k = k + 1;
        }
        push_event_text(&mut json, &stacks[m - 1], profile.samples[m - 1].cost, true);
        proof {
            assert(samples.take(m - 1) =~= samples.drop_last());
            assert(stacks@[m - 1]@.map_values(|x: usize| x as int) == stack_positions(
                samples[m - 1],
                t,
            ));
        }
    }
    proof {
        assert(json@ =~= mid + events_text(samples, t));
    }
    json.append("      ]\n    }\n  ],\n  \"shared\": {\n    \"frames\": []\n  }\n}\n");
    proof {
        assert(json@ =~= speedscope_json(*profile));
    }
    json
}

/// The colour of flamegraph rectangles at `depth`, cycling through a palette
/// of five.
pub open spec fn depth_colour(depth: int) -> Seq<char> {
    let k = depth % 5;
    if k == 0 {
        "#e6194b"@
    } else if k == 1 {
        "#3cb44b"@
    } else if k == 2 {
        "#ffe119"@
    } else if k == 3 {
        "#4363d8"@
    } else {
        "#f58231"@
    }
}

/// The colour of flamegraph rectangles at `depth`.
pub fn hue_for_depth(depth: usize) -> (r: &'static str)
    ensures
        r@ == depth_colour(depth as int),
{
    let k = depth % 5;
    if k == 0 {
        "#e6194b"
    } else if k == 1 {
        "#3cb44b"
    } else if k == 2 {
        "#ffe119"
    } else if k == 3 {
        "#4363d8"
    } else {
        "#f58231"
    }
}

/// `s` when it has at most `max_len` characters; else its first `max_len - 1`
/// characters (none when `max_len` is 0) followed by an ellipsis.
pub fn truncate(s: &str, max_len: usize) -> (r: String)
    ensures
        r@ == if s@.len() <= max_len {
            s@
        } else {
            s@.take(if max_len == 0 {
                0
            } else {
                max_len - 1
            }) + "\u{2026}"@
        },
{
    let cs = chars_of(s);
    if cs.len() <= max_len {
        return String::from_str(s);
    }
    let keep = if max_len == 0 {
        0
    } else {
        max_len - 1
    };
    let mut out = String::new();
    let mut i: usize = 0;
    while i < keep
        invariant
            keep < cs@.len(),
            cs@ == s@,
            i <= keep,
            out@ == cs@.take(i as int),
        decreases keep - i,
    {
        push_char(&mut out, cs[i]);
        proof {
            assert(cs@.take(i + 1) =~= cs@.take(i as int).push(cs@[i as int]));
        }
        i = i + 1;
    }
    out.append("\u{2026}");
    out
}

// ── Laws of the frame table ─────────────────────────────────────────────────

proof fn lemma_distinct_frames_distinct(fs: Seq<Frame>)
    ensures
        forall|i: int, j: int|
            0 <= i < j < distinct_frames(fs).len() ==> frame_key(#[trigger] distinct_frames(fs)[i])
                != frame_key(#[trigger] distinct_frames(fs)[j]),
    decreases fs.len(),
{
    if fs.len() > 0 {
        let t = distinct_frames(fs.drop_last());
        lemma_distinct_frames_distinct(fs.drop_last());
        lemma_key_position_bounds(t, frame_key(fs.last()));
        let d = distinct_frames(fs);
        assert forall|i: int, j: int| 0 <= i < j < d.len() implies frame_key(#[trigger] d[i])
            != frame_key(#[trigger] d[j]) by {
            if j < t.len() {
                assert(d[i] == t[i] && d[j] == t[j]);
            } else {
                assert(d[i] == t[i]);
            }
        }
    }
}

proof fn lemma_distinct_frames_cover(fs: Seq<Frame>)
    ensures
        forall|i: int|
            0 <= i < fs.len() ==> key_position(distinct_frames(fs), frame_key(#[trigger] fs[i]))
                >= 0,
    decreases fs.len(),
{
    if fs.len() > 0 {
        let init = fs.drop_last();
        let t = distinct_frames(init);
        lemma_distinct_frames_cover(init);
        assert forall|i: int| 0 <= i < fs.len() implies key_position(
            distinct_frames(fs),
            frame_key(#[trigger] fs[i]),
        ) >= 0 by {
            lemma_key_position_push(t, fs.last(), frame_key(fs[i]));
            if i < init.len() {
                assert(fs[i] == init[i]);
            }
        }
    }
}

proof fn lemma_sampled_frames_index(samples: Seq<Sample>, m: int, q: int)
    requires
        0 <= m < samples.len(),
        0 <= q < samples[m].stack@.len(),
    ensures
        exists|i: int|
            0 <= i < sampled_frames(samples).len() && #[trigger] sampled_frames(samples)[i]
                == samples[m].stack@[q],
    decreases samples.len(),
{
    let init = samples.drop_last();
    if m < samples.len() - 1 {
        lemma_sampled_frames_index(init, m, q);
        let i = choose|i: int|
            0 <= i < sampled_frames(init).len() && #[trigger] sampled_frames(init)[i]
                == init[m].stack@[q];
        assert(sampled_frames(samples)[i] == sampled_frames(init)[i]);
    } else {
        let i = sampled_frames(init).len() + q;
        assert(sampled_frames(samples)[i] == samples[m].stack@[q]);
    }
}

/// The exported frame table holds each frame key once, and every frame of
/// every sample is numbered by the position of a table frame with its key.
pub proof fn lemma_speedscope_numbering(p: Profile, m: int, q: int)
    requires
        0 <= m < p.samples@.len(),
        0 <= q < p.samples@[m].stack@.len(),
    ensures
        forall|i: int, j: int|
            0 <= i < j < frame_table(p).len() ==> frame_key(#[trigger] frame_table(p)[i])
                != frame_key(#[trigger] frame_table(p)[j]),
        0 <= stack_positions(p.samples@[m], frame_table(p))[q] < frame_table(p).len(),
        frame_key(frame_table(p)[stack_positions(p.samples@[m], frame_table(p))[q]])
            == frame_key(p.samples@[m].stack@[q]),
{
    let fs = sampled_frames(p.samples@);
    lemma_distinct_frames_distinct(fs);
    lemma_distinct_frames_cover(fs);
    lemma_sampled_frames_index(p.samples@, m, q);
    let i = choose|i: int| 0 <= i < fs.len() && #[trigger] fs[i] == p.samples@[m].stack@[q];
    assert(key_position(distinct_frames(fs), frame_key(fs[i])) >= 0);
    lemma_key_position_bounds(frame_table(p), frame_key(p.samples@[m].stack@[q]));
}

/// `a + "/" + b` splits back into `a` and `b` when `a` holds no `/`.
proof fn lemma_slash_join_injective(a1: Seq<char>, b1: Seq<char>, a2: Seq<char>, b2: Seq<char>)
    requires
        !a1.contains('/'),
        !a2.contains('/'),
    ensures
        (a1 + seq!['/'] + b1 == a2 + seq!['/'] + b2) <==> (a1 == a2 && b1 == b2),
{
    let l = a1 + seq!['/'] + b1;
    let r = a2 + seq!['/'] + b2;
    if l == r {
        if a1.len() < a2.len() {
            assert(l[a1.len() as int] == '/');
            assert(r[a1.len() as int] == a2[a1.len() as int]);
            assert(a2.contains(a2[a1.len() as int]));
        } else if a2.len() < a1.len() {
            assert(r[a2.len() as int] == '/');
            assert(l[a2.len() as int] == a1[a2.len() as int]);
            assert(a1.contains(a1[a2.len() as int]));
        }
        assert(a1.len() == a2.len());
        assert(a1 =~= l.take(a1.len() as int));
        assert(a2 =~= r.take(a2.len() as int));
        assert(b1 =~= l.skip(a1.len() as int + 1));
        assert(b2 =~= r.skip(a2.len() as int + 1));
    }
}

/// In the exported document, two frames of the profile's samples are given
/// the same frame-table index exactly when `function + "/" + name` reads the
/// same for both; so frames with equal function and name share an index,
/// and, where the functions hold no `/`, frames that differ in function or
/// in name never do.
pub proof fn lemma_speedscope_index_identifies_function_and_name(
    p: Profile,
    m1: int,
    q1: int,
    m2: int,
    q2: int,
)
    requires
        0 <= m1 < p.samples@.len(),
        0 <= q1 < p.samples@[m1].stack@.len(),
        0 <= m2 < p.samples@.len(),
        0 <= q2 < p.samples@[m2].stack@.len(),
    ensures
        ({
            let f = p.samples@[m1].stack@[q1];
            let g = p.samples@[m2].stack@[q2];
            let same_index = stack_positions(p.samples@[m1], frame_table(p))[q1] == stack_positions(
                p.samples@[m2],
                frame_table(p),
            )[q2];
            &&& same_index <==> (f.function@ + seq!['/'] + f.name@ == g.function@ + seq!['/']
                + g.name@)
            &&& (f.function@ == g.function@ && f.name@ == g.name@) ==> same_index
            &&& (!f.function@.contains('/') && !g.function@.contains('/')) ==> (same_index <==> (
            f.function@ == g.function@ && f.name@ == g.name@))
        }),
{
    let f = p.samples@[m1].stack@[q1];
    let g = p.samples@[m2].stack@[q2];
    reveal_strlit("/");
    assert("/"@ =~= seq!['/']);
    lemma_speedscope_numbering(p, m1, q1);
    lemma_speedscope_numbering(p, m2, q2);
    if !f.function@.contains('/') && !g.function@.contains('/') {
        lemma_slash_join_injective(f.function@, f.name@, g.function@, g.name@);
    }
}

} // verus!
