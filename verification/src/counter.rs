//! The words-per-minute sampler: it starts on the first key press, takes a
//! sample of the typing speed at fixed intervals, and finishes once with the
//! whole series.
//!
//! Time is counted in milliseconds, and speed in thousandths of a word per
//! minute, so that all of it is integer arithmetic.

use vstd::prelude::*;

verus! {

/// One word per millisecond, in thousandths of a word per minute.
pub const WORD_PER_MS: u64 = 60_000_000;

/// The longest pause between two ticks, in milliseconds.
pub const MAX_TICK_MS: u64 = 100;

/// Where the sampler stands.
#[derive(Clone, Copy, Debug, PartialEq, Eq, Structural)]
pub enum Phase {
    /// No key was pressed yet.
    Idle,
    /// Samples are being taken.
    Running,
    /// The series is complete and was handed out.
    Finished,
}

/// The series of samples, handed out when the sampler finishes.
#[derive(Debug)]
pub struct CounterFinishedEvent {
    /// One sample per interval, in thousandths of a word per minute.
    pub wpm_measurements: Vec<u64>,
}

/// What the caller of `tick` does next.
#[derive(Debug)]
pub enum Tick {
    /// The sampler is not running: no tick is due.
    Stopped,
    /// Tick again after the tick interval.
    Continue,
    /// The series is complete: hand it on and stop ticking.
    Finished(CounterFinishedEvent),
}

/// The speed, in thousandths of a word per minute, of `chars` code points
/// typed within `interval_ms` milliseconds, at `chars_per_word` code points
/// to the word; rounded down, and no more than `u64::MAX`.
pub open spec fn milli_wpm(chars: nat, chars_per_word: nat, interval_ms: nat) -> nat {
    let exact = (chars * WORD_PER_MS) as nat / (chars_per_word * interval_ms);
    if exact > u64::MAX {
        u64::MAX as nat
    } else {
        exact as nat
    }
}

/// Computes `milli_wpm`.
pub fn sample_speed(chars: u64, chars_per_word: u64, interval_ms: u64) -> (speed: u64)
    requires
        chars_per_word > 0,
        interval_ms > 0,
    ensures
        speed == milli_wpm(chars as nat, chars_per_word as nat, interval_ms as nat),
{
    assert(chars * WORD_PER_MS <= u128::MAX && chars_per_word * interval_ms <= u128::MAX
        && chars_per_word * interval_ms > 0) by (nonlinear_arith)
        requires
            chars <= u64::MAX,
            WORD_PER_MS == 60_000_000,
            0 < chars_per_word <= u64::MAX,
            0 < interval_ms <= u64::MAX,
    ;
    let scaled: u128 = (chars as u128) * (WORD_PER_MS as u128);
    let per: u128 = (chars_per_word as u128) * (interval_ms as u128);
    let exact: u128 = scaled / per;
    if exact > u64::MAX as u128 {
        u64::MAX
    } else {
        exact as u64
    }
}

/// The sampler.
pub struct Counter {
    start_time: Option<u64>,
    finished: bool,
    duration: usize,
    sample_interval_ms: u64,
    chars_per_word: u64,
    last_typed_count: u64,
    wpm_measurements: Vec<u64>,
}

/// The sampler as the contracts see it.
pub struct CounterState {
    pub phase: Phase,
    /// When the sampler started, where it has.
    pub start_time: Option<u64>,
    /// How many samples make the series.
    pub duration: nat,
    pub sample_interval_ms: nat,
    pub chars_per_word: nat,
    /// The count of typed code points at the last sample.
    pub last_typed_count: nat,
    /// The samples taken so far.
    pub wpm_measurements: Seq<u64>,
}

impl CounterState {
    /// Milliseconds from the start to `now`; none before the start.
    pub open spec fn elapsed(self, now: u64) -> nat {
        match self.start_time {
            Some(start) => if now >= start {
                (now - start) as nat
            } else {
                0
            },
            None => 0,
        }
    }

    /// The series has all its samples. A running sampler finds it so only
    /// where the series is to have none.
    pub open spec fn series_full(self) -> bool {
        self.wpm_measurements.len() >= self.duration
    }

    /// A tick at `now` finds the end of the current sample interval behind
    /// it, and the series wants the sample.
    pub open spec fn sample_due(self, now: u64) -> bool {
        self.phase == Phase::Running && !self.series_full() && self.elapsed(now) >= (
        self.wpm_measurements.len() + 1) * self.sample_interval_ms
    }

    /// The sample that a tick takes when the count of typed code points
    /// stands at `typed`. A count that went down counts as no typing.
    pub open spec fn next_sample(self, typed: u64) -> u64 {
        milli_wpm(
            if typed >= self.last_typed_count {
                (typed - self.last_typed_count) as nat
            } else {
                0
            },
            self.chars_per_word,
            self.sample_interval_ms,
        ) as u64
    }

    /// The state after a tick at `now`, with `typed` code points typed so
    /// far: nothing changes unless a sample is due; a due sample joins the
    /// series, and the sample that completes the series finishes the
    /// sampler. A running sampler whose series is to have no samples
    /// finishes at its first tick.
    pub open spec fn tick(self, now: u64, typed: u64) -> CounterState {
        if self.phase == Phase::Running && self.series_full() {
            CounterState { phase: Phase::Finished, ..self }
        } else if self.sample_due(now) {
            CounterState {
                phase: if self.wpm_measurements.len() + 1 >= self.duration {
                    Phase::Finished
                } else {
                    Phase::Running
                },
                last_typed_count: typed as nat,
                wpm_measurements: self.wpm_measurements.push(self.next_sample(typed)),
                ..self
            }
        } else {
            self
        }
    }

    /// The state after the start signal at `now`: an idle sampler runs from
    /// `now` on, any other stays as it is.
    pub open spec fn start(self, now: u64) -> CounterState {
        if self.phase == Phase::Idle {
            CounterState { phase: Phase::Running, start_time: Some(now), ..self }
        } else {
            self
        }
    }

    /// Whole seconds of the series that are still to come at `now`, no more
    /// than `u64::MAX`; `None` while the sampler is idle.
    pub open spec fn remaining_secs(self, now: u64) -> Option<u64> {
        if self.start_time is None {
            None
        } else {
            let total = self.duration * self.sample_interval_ms;
            if total < self.elapsed(now) {
                Some(0)
            } else if (total - self.elapsed(now)) / 1000 > u64::MAX {
                Some(u64::MAX)
            } else {
                Some(((total - self.elapsed(now)) / 1000) as u64)
            }
        }
    }

    /// A sampler has a start time unless it is idle, an interval and a word
    /// length to divide by, and never more samples than make its series; a
    /// full series means it has finished.
    pub open spec fn wf(self) -> bool {
        &&& self.sample_interval_ms > 0
        &&& self.chars_per_word > 0
        &&& (self.phase == Phase::Idle <==> self.start_time is None)
        &&& self.phase == Phase::Idle ==> self.wpm_measurements.len() == 0
        &&& self.phase == Phase::Running ==> self.wpm_measurements.len() < self.duration
            || self.duration == 0
        &&& self.wpm_measurements.len() <= self.duration
        &&& self.phase == Phase::Finished ==> self.wpm_measurements.len() == self.duration
    }
}

impl View for Counter {
    type V = CounterState;

    closed spec fn view(&self) -> CounterState {
        CounterState {
            phase: if self.start_time is None {
                Phase::Idle
            } else if self.finished {
                Phase::Finished
            } else {
                Phase::Running
            },
            start_time: self.start_time,
            duration: self.duration as nat,
            sample_interval_ms: self.sample_interval_ms as nat,
            chars_per_word: self.chars_per_word as nat,
            last_typed_count: self.last_typed_count as nat,
            wpm_measurements: self.wpm_measurements@,
        }
    }
}

/// A copy of a series of samples.
fn copy_samples(samples: &Vec<u64>) -> (copy: Vec<u64>)
    ensures
        copy@ == samples@,
{
    let mut copy: Vec<u64> = Vec::new();
    let mut i: usize = 0;
    while i < samples.len()
        invariant
            i <= samples.len(),
            copy@ == samples@.subrange(0, i as int),
        decreases samples.len() - i,
    {
        copy.push(samples[i]);
        i = i + 1;
        assert(copy@ =~= samples@.subrange(0, i as int));
    }
    assert(samples@.subrange(0, samples@.len() as int) =~= samples@);
    copy
}

impl Counter {
    /// A sampler that has not started has not finished.
    pub closed spec fn ordered(&self) -> bool {
        self.start_time is None ==> !self.finished
    }

    /// The sampler is well formed.
    pub open spec fn wf(&self) -> bool {
        &&& self@.wf()
        &&& self.ordered()
    }

    /// An idle sampler for a series of `duration` samples, one every
    /// `sample_interval_ms` milliseconds. A sample divides by the interval
    /// and by the length of a word, so neither may be zero.
    pub fn new(duration: usize, sample_interval_ms: u64, chars_per_word: u64) -> (counter: Counter)
        requires
            sample_interval_ms > 0,
            chars_per_word > 0,
        ensures
            counter.wf(),
            counter@ == (CounterState {
                phase: Phase::Idle,
                start_time: None,
                duration: duration as nat,
                sample_interval_ms: sample_interval_ms as nat,
                chars_per_word: chars_per_word as nat,
                last_typed_count: 0,
                wpm_measurements: Seq::empty(),
            }),
    {
        Counter {
            start_time: None,
            finished: false,
            duration,
            sample_interval_ms,
            chars_per_word,
            last_typed_count: 0,
            wpm_measurements: Vec::new(),
        }
    }

    /// Where the sampler stands.
    pub fn phase(&self) -> (phase: Phase)
        ensures
            phase == self@.phase,
    {
        if self.start_time.is_none() {
            Phase::Idle
        } else if self.finished {
            Phase::Finished
        } else {
            Phase::Running
        }
    }

    /// The samples taken so far.
    pub fn wpm_measurements(&self) -> (samples: &Vec<u64>)
        ensures
            samples@ == self@.wpm_measurements,
    {
        &self.wpm_measurements
    }

    /// The pause between two ticks, in milliseconds: the sample interval,
    /// but no more than `MAX_TICK_MS`.
    pub fn tick_interval_ms(&self) -> (ms: u64)
        requires
            self.wf(),
        ensures
            ms == if self@.sample_interval_ms <= MAX_TICK_MS {
                self@.sample_interval_ms
            } else {
                MAX_TICK_MS as nat
            },
            0 < ms <= self@.sample_interval_ms,
    {
        if self.sample_interval_ms <= MAX_TICK_MS {
            self.sample_interval_ms
        } else {
            MAX_TICK_MS
        }
    }

    /// Starts the sampler if it has not started yet, and tells whether it
    /// did: only then does the caller begin to tick.
    pub fn start_timer(&mut self, now: u64) -> (started: bool)
        requires
            old(self).wf(),
        ensures
            final(self).wf(),
            started == (old(self)@.phase == Phase::Idle),
            final(self)@ == old(self)@.start(now),
    {
        if self.start_time.is_some() {
            return false;
        }
        self.start_time = Some(now);
        true
    }

    /// Whole seconds of the series that are still to come at `now`.
    pub fn remaining_secs(&self, now: u64) -> (left: Option<u64>)
        requires
            self.wf(),
        ensures
            left == self@.remaining_secs(now),
    {
        match self.start_time {
            None => None,
            Some(start) => {
                let elapsed: u64 = if now >= start {
                    now - start
                } else {
                    0
                };
                assert(self.duration * self.sample_interval_ms <= u128::MAX) by (nonlinear_arith)
                    requires
                        self.duration <= u64::MAX,
                        self.sample_interval_ms <= u64::MAX,
                ;
                let total: u128 = (self.duration as u128) * (self.sample_interval_ms as u128);
                if total >= elapsed as u128 {
                    let left: u128 = (total - elapsed as u128) / 1000;
                    if left > u64::MAX as u128 {
                        Some(u64::MAX)
                    } else {
                        Some(left as u64)
                    }
                } else {
                    Some(0)
                }
            },
        }
    }

    /// One tick of the timer at `now`, with `typed` code points typed so
    /// far. A sampler that is idle or has finished stays as it is and asks
    /// for no further tick. A running sampler takes a sample whenever the
    /// end of a sample interval lies behind it, and hands out the series
    /// with the sample that completes it.
    pub fn tick(&mut self, now: u64, typed: u64) -> (next: Tick)
        requires
            old(self).wf(),
        ensures
            final(self).wf(),
            final(self)@ == old(self)@.tick(now, typed),
            match next {
                Tick::Stopped => old(self)@.phase != Phase::Running,
                Tick::Continue => final(self)@.phase == Phase::Running,
                Tick::Finished(event) => old(self)@.phase == Phase::Running && final(self)@.phase
                    == Phase::Finished && event.wpm_measurements@ == final(self)@.wpm_measurements,
            },
    {
        let start = match self.start_time {
            None => {
                return Tick::Stopped;
            },
            Some(start) => start,
        };
        if self.finished {
            return Tick::Stopped;
        }
        if self.wpm_measurements.len() >= self.duration {
            self.finished = true;
            return Tick::Finished(
                CounterFinishedEvent { wpm_measurements: copy_samples(&self.wpm_measurements) },
            );
        }
        let elapsed: u64 = if now >= start {
            now - start
        } else {
            0
        };
        let taken = self.wpm_measurements.len();
        assert((taken + 1) * self.sample_interval_ms <= u128::MAX) by (nonlinear_arith)
            requires
                taken + 1 <= u64::MAX,
                self.sample_interval_ms <= u64::MAX,
        ;
        let due: u128 = ((taken as u128) + 1) * (self.sample_interval_ms as u128);
        if (elapsed as u128) < due {
            return Tick::Continue;
        }
        let chars: u64 = if typed >= self.last_typed_count {
            typed - self.last_typed_count
        } else {
            0
        };
        let speed = sample_speed(chars, self.chars_per_word, self.sample_interval_ms);
        self.wpm_measurements.push(speed);
        self.last_typed_count = typed;
        if self.wpm_measurements.len() >= self.duration {
            self.finished = true;
            Tick::Finished(
                CounterFinishedEvent { wpm_measurements: copy_samples(&self.wpm_measurements) },
            )
        } else {
            Tick::Continue
        }
    }
}

/// A sampler that has finished stays finished: a tick changes nothing, and
/// the start signal changes nothing, so the series is handed out once.
pub proof fn lemma_finished_is_final(s: CounterState, now: u64, typed: u64)
    requires
        s.phase == Phase::Finished,
    ensures
        s.tick(now, typed) == s,
        s.start(now) == s,
{
}

/// While the sampler runs, each tick at which a sample is due adds one
/// sample, and after a tick the sampler has finished if and only if the
/// series is `duration` long.
pub proof fn lemma_tick_counts(s: CounterState, now: u64, typed: u64)
    requires
        s.wf(),
    ensures
        s.tick(now, typed).wf(),
        s.sample_due(now) ==> s.tick(now, typed).wpm_measurements.len()
            == s.wpm_measurements.len() + 1,
        s.phase != Phase::Idle ==> (s.tick(now, typed).phase == Phase::Finished <==> s.tick(
            now,
            typed,
        ).wpm_measurements.len() == s.duration),
{
}

} // verus!
