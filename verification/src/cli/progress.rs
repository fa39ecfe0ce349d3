//! Progress of long operations: when to report and what, for a counter of steps and for
//! a spinner. Printing the reports is left to the caller.

use vstd::prelude::*;
use vstd::string::*;
use crate::constants::PerformanceConstants;
use crate::support::current_time_millis;

verus! {

/// What a progress report says: the step reached, out of how many if known, the message,
/// and the milliseconds since the operation began.
#[derive(Debug)]
pub struct ProgressLine {
    pub current_step: usize,
    pub total_steps: Option<usize>,
    pub message: String,
    pub elapsed_ms: u64,
}

/// A counter of the steps of a long operation that reports at most once per
/// `PROGRESS_UPDATE_INTERVAL_MS` milliseconds.
pub struct ProgressReporter {
    start_time: u64,
    last_update: u64,
    total_steps: Option<usize>,
    current_step: usize,
    message: String,
}

/// Milliseconds from `from` to `to`, zero when `to` comes first.
pub open spec fn millis_between(from: u64, to: u64) -> int {
    if to >= from { to - from } else { 0 }
}

impl ProgressReporter {
    pub closed spec fn start(&self) -> u64 {
        self.start_time
    }

    pub closed spec fn last(&self) -> u64 {
        self.last_update
    }

    pub closed spec fn total(&self) -> Option<usize> {
        self.total_steps
    }

    pub closed spec fn step_count(&self) -> usize {
        self.current_step
    }

    pub closed spec fn text(&self) -> Seq<char> {
        self.message@
    }

    /// A counter at step 0 with no known total, started now.
    pub fn new(message: String) -> (p: ProgressReporter)
        ensures
            p.step_count() == 0,
            p.total() is None,
            p.text() == message@,
            p.last() == p.start(),
    {
        let now = current_time_millis();
        ProgressReporter { start_time: now, last_update: now, total_steps: None, current_step: 0, message }
    }

    /// A counter at step 0 out of `total_steps`, started now.
    pub fn with_total(message: String, total_steps: usize) -> (p: ProgressReporter)
        ensures
            p.step_count() == 0,
            p.total() == Some(total_steps),
            p.text() == message@,
            p.last() == p.start(),
    {
        let now = current_time_millis();
        ProgressReporter { start_time: now, last_update: now, total_steps: Some(total_steps), current_step: 0, message }
    }

    /// Reports at time `now` unless the last report was less than the update interval
    /// ago; a report moves the time of the last report to `now`.
    pub fn update_at(&mut self, now: u64) -> (r: Option<ProgressLine>)
        ensures
            final(self).start() == old(self).start(),
            final(self).total() == old(self).total(),
            final(self).step_count() == old(self).step_count(),
            final(self).text() == old(self).text(),
            millis_between(old(self).last(), now) < PerformanceConstants::PROGRESS_UPDATE_INTERVAL_MS ==> {
                &&& r is None
                &&& final(self).last() == old(self).last()
            },
            millis_between(old(self).last(), now) >= PerformanceConstants::PROGRESS_UPDATE_INTERVAL_MS ==> {
                &&& final(self).last() == now
                &&& r matches Some(line) && {
                    &&& line.current_step == old(self).step_count()
                    &&& line.total_steps == old(self).total()
                    &&& line.message@ == old(self).text()
                    &&& line.elapsed_ms == millis_between(old(self).start(), now)
                }
            },
    {
        let since_last = if now >= self.last_update { now - self.last_update } else { 0 };
        if since_last < PerformanceConstants::PROGRESS_UPDATE_INTERVAL_MS {
            return None;
        }
        self.last_update = now;
        let elapsed = if now >= self.start_time { now - self.start_time } else { 0 };
        Some(ProgressLine {
            current_step: self.current_step,
            total_steps: self.total_steps,
            message: self.message.clone(),
            elapsed_ms: elapsed,
        })
    }

    /// Moves to the next step and reports, as `update_at` decides with the current time.
    pub fn step(&mut self) -> (r: Option<ProgressLine>)
        requires
            old(self).step_count() < usize::MAX,
        ensures
            final(self).step_count() == old(self).step_count() + 1,
            final(self).total() == old(self).total(),
            final(self).text() == old(self).text(),
            final(self).start() == old(self).start(),
            r matches Some(line) ==> line.current_step == old(self).step_count() + 1 && line.message@ == old(self).text()
                && line.total_steps == old(self).total() && final(self).last() >= old(self).last(),
    {
        self.current_step = self.current_step + 1;
        let now = current_time_millis();
        self.update_at(now)
    }

    /// Moves to the next step with a new message and reports, as `update_at` decides.
    pub fn step_with_message(&mut self, message: String) -> (r: Option<ProgressLine>)
        requires
            old(self).step_count() < usize::MAX,
        ensures
            final(self).step_count() == old(self).step_count() + 1,
            final(self).total() == old(self).total(),
            final(self).text() == message@,
            final(self).start() == old(self).start(),
            r matches Some(line) ==> line.current_step == old(self).step_count() + 1 && line.message@ == message@
                && line.total_steps == old(self).total(),
    {
        self.current_step = self.current_step + 1;
        self.message = message;
        let now = current_time_millis();
        self.update_at(now)
    }

    /// Sets the step reached and reports, as `update_at` decides.
    pub fn set_step(&mut self, step: usize) -> (r: Option<ProgressLine>)
        ensures
            final(self).step_count() == step,
            final(self).total() == old(self).total(),
            final(self).text() == old(self).text(),
            final(self).start() == old(self).start(),
            r matches Some(line) ==> line.current_step == step && line.message@ == old(self).text()
                && line.total_steps == old(self).total(),
    {
        self.current_step = step;
        let now = current_time_millis();
        self.update_at(now)
    }

    /// The closing report, with the time since the operation began.
    pub fn finish(&self) -> (line: ProgressLine)
        ensures
            line.current_step == self.step_count(),
            line.total_steps == self.total(),
            line.message@ == self.text(),
    {
        let now = current_time_millis();
        let elapsed = if now >= self.start_time { now - self.start_time } else { 0 };
        ProgressLine {
            current_step: self.current_step,
            total_steps: self.total_steps,
            message: self.message.clone(),
            elapsed_ms: elapsed,
        }
    }
}

/// The frames that a spinner shows, in turn.
pub open spec fn spinner_frames() -> Seq<char> {
    seq!['⠋', '⠙', '⠹', '⠸', '⠼', '⠴', '⠦', '⠧', '⠇', '⠏']
}

/// A spinner for an operation of unknown length.
pub struct Spinner {
    chars: Vec<char>,
    current: usize,
    message: String,
}

impl Spinner {
    #[verifier::type_invariant]
    spec fn frames_in_range(&self) -> bool {
        self.chars@ == spinner_frames() && self.current < 10
    }

    pub closed spec fn frame(&self) -> int {
        self.current as int
    }

    pub closed spec fn text(&self) -> Seq<char> {
        self.message@
    }

    /// A spinner at its first frame.
    pub fn new(message: String) -> (s: Spinner)
        ensures
            s.frame() == 0,
            s.text() == message@,
    {
        Spinner { chars: vec!['⠋', '⠙', '⠹', '⠸', '⠼', '⠴', '⠦', '⠧', '⠇', '⠏'], current: 0, message }
    }

    /// The line to show for the current frame: the frame, a space, the message; then
    /// the spinner moves to the next frame, after the last back to the first.
    pub fn tick(&mut self) -> (line: String)
        ensures
            line@ == seq![spinner_frames()[old(self).frame()], ' '] + old(self).text(),
            final(self).frame() == (old(self).frame() + 1) % 10,
            final(self).text() == old(self).text(),
    {
        proof { use_type_invariant(&*self); }
        let mut line = String::from_str(frame_text(self.current));
        proof { reveal_strlit(" "); }
        line.append(" ");
        line.append(self.message.as_str());
        proof { assert(self.chars@[self.current as int] == spinner_frames()[self.current as int]); }
        self.current = (self.current + 1) % self.chars.len();
        line
    }

    /// The closing line: a return to the line's start, a check mark and `message`.
    pub fn finish(&self, message: String) -> (line: String)
        ensures
            line@ == seq!['\r', '✓', ' '] + message@,
    {
        proof { reveal_strlit("\r✓ "); }
        let mut line = String::from_str("\r✓ ");
        line.append(message.as_str());
        line
    }
}

/// The text of frame `i` of a spinner.
fn frame_text(i: usize) -> (s: &'static str)
    requires
        i < 10,
    ensures
        s@ == seq![spinner_frames()[i as int]],
{
    match i {
        0 => { proof { reveal_strlit("⠋"); } "⠋" },
        1 => { proof { reveal_strlit("⠙"); } "⠙" },
        2 => { proof { reveal_strlit("⠹"); } "⠹" },
        3 => { proof { reveal_strlit("⠸"); } "⠸" },
        4 => { proof { reveal_strlit("⠼"); } "⠼" },
        5 => { proof { reveal_strlit("⠴"); } "⠴" },
        6 => { proof { reveal_strlit("⠦"); } "⠦" },
        7 => { proof { reveal_strlit("⠧"); } "⠧" },
        8 => { proof { reveal_strlit("⠇"); } "⠇" },
        _ => { proof { reveal_strlit("⠏"); } "⠏" },
    }
}

} // verus!
