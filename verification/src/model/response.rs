//! What the service answers: placed panels and their positions, the outcome of a
//! submission, status codes, and counts of tasks and threads.

use vstd::prelude::*;
use vstd::string::*;
use crate::model::tile::TileDimensions;
use crate::support::{current_time_millis, int_decimal, i64_to_string, push_i64_decimal, same_text};

verus! {

/// Where a panel lies on a stock sheet.
#[derive(Debug, Clone, Copy)]
pub struct PanelPosition {
    /// Left edge.
    pub x: i32,
    /// Top edge.
    pub y: i32,
    pub width: i32,
    pub height: i32,
    pub rotated: bool,
}

/// The half-open rectangles `[x, x + width) x [y, y + height)` of two positions overlap.
pub open spec fn positions_overlap(a: PanelPosition, b: PanelPosition) -> bool {
    !(a.x + a.width <= b.x || b.x + b.width <= a.x || a.y + a.height <= b.y || b.y + b.height <= a.y)
}

/// The right and bottom edges of a position fit in `i32`.
pub open spec fn edges_fit(p: PanelPosition) -> bool {
    p.x + p.width <= i32::MAX && p.x + p.width >= i32::MIN && p.y + p.height <= i32::MAX && p.y + p.height >= i32::MIN
}

impl PanelPosition {
    pub fn new(x: i32, y: i32, width: i32, height: i32, rotated: bool) -> (p: PanelPosition)
        ensures
            p.x == x,
            p.y == y,
            p.width == width,
            p.height == height,
            p.rotated == rotated,
    {
        PanelPosition { x, y, width, height, rotated }
    }

    /// The right edge.
    pub fn right(&self) -> (r: i32)
        requires
            i32::MIN <= self.x + self.width <= i32::MAX,
        ensures
            r == self.x + self.width,
    {
        self.x + self.width
    }

    /// The bottom edge.
    pub fn bottom(&self) -> (r: i32)
        requires
            i32::MIN <= self.y + self.height <= i32::MAX,
        ensures
            r == self.y + self.height,
    {
        self.y + self.height
    }

    /// The area covered.
    pub fn area(&self) -> (r: i32)
        requires
            i32::MIN <= self.width * self.height <= i32::MAX,
        ensures
            r == self.width * self.height,
    {
        self.width * self.height
    }

    /// Whether the two positions overlap.
    pub fn intersects(&self, other: &PanelPosition) -> (r: bool)
        requires
            edges_fit(*self),
            edges_fit(*other),
        ensures
            r == positions_overlap(*self, *other),
    {
        !(self.right() <= other.x || other.right() <= self.x || self.bottom() <= other.y || other.bottom() <= self.y)
    }
}

/// Overlap does not depend on the order in which two positions are compared.
pub proof fn lemma_overlap_symmetric(a: PanelPosition, b: PanelPosition)
    ensures
        positions_overlap(a, b) == positions_overlap(b, a),
{
}

/// A placed panel in an answer.
#[derive(Debug)]
pub struct OptimizedPanel {
    pub tile_dimensions: TileDimensions,
    pub position: PanelPosition,
    pub stock_panel_id: String,
    pub material: String,
    /// Further facts about the placement, by key.
    pub metadata: Vec<(String, String)>,
}

impl OptimizedPanel {
    /// A placed panel without further facts.
    pub fn new(tile_dimensions: TileDimensions, position: PanelPosition, stock_panel_id: String, material: String) -> (p: OptimizedPanel)
        ensures
            p.tile_dimensions == tile_dimensions,
            p.position == position,
            p.stock_panel_id == stock_panel_id,
            p.material == material,
            p.metadata@.len() == 0,
    {
        OptimizedPanel { tile_dimensions, position, stock_panel_id, material, metadata: Vec::new() }
    }
}

/// The outcome of an operation of the service.
#[derive(Debug, Clone, Copy, PartialEq, Eq, Structural)]
pub enum StatusCode {
    Success,
    InvalidTiles,
    InvalidStockTiles,
    TaskAlreadyRunning,
    ServerUnavailable,
    TooManyPanels,
    TooManyStockPanels,
}

/// The number of each status code: 0 for `Success`, then 1 to 6 in the order of the variants.
pub open spec fn status_number(c: StatusCode) -> int {
    match c {
        StatusCode::Success => 0,
        StatusCode::InvalidTiles => 1,
        StatusCode::InvalidStockTiles => 2,
        StatusCode::TaskAlreadyRunning => 3,
        StatusCode::ServerUnavailable => 4,
        StatusCode::TooManyPanels => 5,
        StatusCode::TooManyStockPanels => 6,
    }
}

/// The status code with a given number, if any.
pub open spec fn status_of_number(v: int) -> Option<StatusCode> {
    if v == 0 { Some(StatusCode::Success) }
    else if v == 1 { Some(StatusCode::InvalidTiles) }
    else if v == 2 { Some(StatusCode::InvalidStockTiles) }
    else if v == 3 { Some(StatusCode::TaskAlreadyRunning) }
    else if v == 4 { Some(StatusCode::ServerUnavailable) }
    else if v == 5 { Some(StatusCode::TooManyPanels) }
    else if v == 6 { Some(StatusCode::TooManyStockPanels) }
    else { None }
}

/// The description of each status code.
pub open spec fn status_description(c: StatusCode) -> Seq<char> {
    match c {
        StatusCode::Success => "Успешно"@,
        StatusCode::InvalidTiles => "Неверные панели"@,
        StatusCode::InvalidStockTiles => "Неверные складские панели"@,
        StatusCode::TaskAlreadyRunning => "Задача уже выполняется"@,
        StatusCode::ServerUnavailable => "Сервер недоступен"@,
        StatusCode::TooManyPanels => "Слишком много панелей"@,
        StatusCode::TooManyStockPanels => "Слишком много складских панелей"@,
    }
}

impl StatusCode {
    /// The number of the code.
    pub fn value(&self) -> (r: i32)
        ensures
            r == status_number(*self),
    {
        match self {
            StatusCode::Success => 0,
            StatusCode::InvalidTiles => 1,
            StatusCode::InvalidStockTiles => 2,
            StatusCode::TaskAlreadyRunning => 3,
            StatusCode::ServerUnavailable => 4,
            StatusCode::TooManyPanels => 5,
            StatusCode::TooManyStockPanels => 6,
        }
    }

    /// The number of the code.
    pub fn get_value(&self) -> (r: i32)
        ensures
            r == status_number(*self),
    {
        self.value()
    }

    /// The number of the code in decimal.
    pub fn to_string(&self) -> (r: String)
        ensures
            r@ == int_decimal(status_number(*self)),
    {
        let v = self.value();
        i64_to_string(v as i64)
    }

    /// The number of the code in decimal.
    pub fn get_string_value(&self) -> (r: String)
        ensures
            r@ == int_decimal(status_number(*self)),
    {
        self.to_string()
    }

    /// The code with number `value`, if there is one.
    pub fn from_value(value: i32) -> (r: Option<StatusCode>)
        ensures
            r == status_of_number(value as int),
    {
        match value {
            0 => Some(StatusCode::Success),
            1 => Some(StatusCode::InvalidTiles),
            2 => Some(StatusCode::InvalidStockTiles),
            3 => Some(StatusCode::TaskAlreadyRunning),
            4 => Some(StatusCode::ServerUnavailable),
            5 => Some(StatusCode::TooManyPanels),
            6 => Some(StatusCode::TooManyStockPanels),
            _ => None,
        }
    }

    /// What the code means, in words.
    pub fn description(&self) -> (r: &'static str)
        ensures
            r@ == status_description(*self),
    {
        match self {
            StatusCode::Success => "Успешно",
            StatusCode::InvalidTiles => "Неверные панели",
            StatusCode::InvalidStockTiles => "Неверные складские панели",
            StatusCode::TaskAlreadyRunning => "Задача уже выполняется",
            StatusCode::ServerUnavailable => "Сервер недоступен",
            StatusCode::TooManyPanels => "Слишком много панелей",
            StatusCode::TooManyStockPanels => "Слишком много складских панелей",
        }
    }
}

/// Reading back the number of a code gives the code.
pub proof fn lemma_status_round_trip(c: StatusCode)
    ensures
        status_of_number(status_number(c)) == Some(c),
{
}

/// What a submission of a calculation was answered.
#[derive(Debug)]
pub struct CalculationSubmissionResult {
    /// The decimal number of the status code.
    pub status_code: String,
    pub task_id: Option<String>,
    pub error_message: Option<String>,
    /// When the answer was made, in milliseconds since the Unix epoch.
    pub submission_time: u64,
}

impl CalculationSubmissionResult {
    /// An accepted submission, with the task it started.
    pub fn success(task_id: String) -> (r: CalculationSubmissionResult)
        ensures
            r.status_code@ == int_decimal(status_number(StatusCode::Success)),
            r.task_id == Some(task_id),
            r.error_message is None,
    {
        CalculationSubmissionResult {
            status_code: StatusCode::Success.to_string(),
            task_id: Some(task_id),
            error_message: None,
            submission_time: current_time_millis(),
        }
    }

    /// A refused submission, with its status code and message.
    pub fn error(status_code: StatusCode, error_message: Option<String>) -> (r: CalculationSubmissionResult)
        ensures
            r.status_code@ == int_decimal(status_number(status_code)),
            r.task_id is None,
            r.error_message == error_message,
    {
        CalculationSubmissionResult {
            status_code: status_code.to_string(),
            task_id: None,
            error_message,
            submission_time: current_time_millis(),
        }
    }

    /// Whether the status code is that of `Success`.
    pub fn is_success(&self) -> (r: bool)
        ensures
            r == (self.status_code@ == int_decimal(status_number(StatusCode::Success))),
    {
        let ok = StatusCode::Success.to_string();
        same_text(self.status_code.as_str(), ok.as_str())
    }
}

/// Only a code's own number reads back as it: a refused submission is never a success.
pub proof fn lemma_status_text_distinct(a: StatusCode, b: StatusCode)
    requires
        a != b,
    ensures
        int_decimal(status_number(a)) != int_decimal(status_number(b)),
{
    assert(int_decimal(status_number(a))[0] != int_decimal(status_number(b))[0]);
}

/// Counts of the tasks and threads of the service.
#[derive(Debug, Clone, Copy)]
pub struct Stats {
    pub nbr_idle_tasks: u64,
    pub nbr_running_tasks: u64,
    pub nbr_finished_tasks: u64,
    pub nbr_stopped_tasks: u64,
    pub nbr_terminated_tasks: u64,
    pub nbr_error_tasks: u64,
    pub nbr_running_threads: i32,
    pub nbr_queued_threads: i32,
    pub nbr_finished_threads: u64,
}

/// The number of tasks in every state.
pub open spec fn tasks_total(s: Stats) -> int {
    s.nbr_idle_tasks + s.nbr_running_tasks + s.nbr_finished_tasks + s.nbr_stopped_tasks
        + s.nbr_terminated_tasks + s.nbr_error_tasks
}

/// The number of threads: running, queued and finished, the last taken as an `i64`.
pub open spec fn threads_total(s: Stats) -> int {
    s.nbr_running_threads + s.nbr_queued_threads + (s.nbr_finished_threads as i64)
}

/// The one-line summary of the counts.
pub open spec fn stats_summary(s: Stats) -> Seq<char> {
    "Задачи: "@ + int_decimal(s.nbr_idle_tasks as int) + " ожидают, "@ + int_decimal(s.nbr_running_tasks as int)
        + " выполняются, "@ + int_decimal(s.nbr_finished_tasks as int) + " завершены | Потоки: "@
        + int_decimal(s.nbr_running_threads as int) + " выполняются, "@
        + int_decimal(s.nbr_queued_threads as int) + " в очереди"@
}

impl Stats {
    /// All counts zero.
    pub fn new() -> (s: Stats)
        ensures
            s.nbr_idle_tasks == 0,
            s.nbr_running_tasks == 0,
            s.nbr_finished_tasks == 0,
            s.nbr_stopped_tasks == 0,
            s.nbr_terminated_tasks == 0,
            s.nbr_error_tasks == 0,
            s.nbr_running_threads == 0,
            s.nbr_queued_threads == 0,
            s.nbr_finished_threads == 0,
    {
        Stats {
            nbr_idle_tasks: 0,
            nbr_running_tasks: 0,
            nbr_finished_tasks: 0,
            nbr_stopped_tasks: 0,
            nbr_terminated_tasks: 0,
            nbr_error_tasks: 0,
            nbr_running_threads: 0,
            nbr_queued_threads: 0,
            nbr_finished_threads: 0,
        }
    }

    /// The number of tasks in every state.
    pub fn total_tasks(&self) -> (r: u64)
        requires
            tasks_total(*self) <= u64::MAX,
        ensures
            r == tasks_total(*self),
    {
        self.nbr_idle_tasks + self.nbr_running_tasks + self.nbr_finished_tasks + self.nbr_stopped_tasks
            + self.nbr_terminated_tasks + self.nbr_error_tasks
    }

    /// The number of threads in every state.
    pub fn total_threads(&self) -> (r: i64)
        requires
            i64::MIN <= threads_total(*self) <= i64::MAX,
        ensures
            r == threads_total(*self),
    {
        let finished = self.nbr_finished_threads as i64;
        let running = self.nbr_running_threads as i64;
        let queued = self.nbr_queued_threads as i64;
        proof {
            assert(i64::MIN <= running + queued <= i64::MAX);
        }
        running + queued + finished
    }

    /// The counts of waiting, running and finished tasks and of running and queued
    /// threads, in one line.
    pub fn format_summary(&self) -> (r: String)
        ensures
            r@ == stats_summary(*self),
    {
        let mut s = String::new();
        proof {
            reveal_strlit("Задачи: ");
            reveal_strlit(" ожидают, ");
            reveal_strlit(" выполняются, ");
            reveal_strlit(" завершены | Потоки: ");
            reveal_strlit(" в очереди");
        }
        s.append("Задачи: ");
        push_u64_decimal(&mut s, self.nbr_idle_tasks);
        s.append(" ожидают, ");
        push_u64_decimal(&mut s, self.nbr_running_tasks);
        s.append(" выполняются, ");
        push_u64_decimal(&mut s, self.nbr_finished_tasks);
        s.append(" завершены | Потоки: ");
        push_i64_decimal(&mut s, self.nbr_running_threads as i64);
        s.append(" выполняются, ");
        push_i64_decimal(&mut s, self.nbr_queued_threads as i64);
        s.append(" в очереди");
        assert(s@ =~= stats_summary(*self));
        s
    }
}

fn push_u64_decimal(s: &mut String, n: u64)
    ensures
        final(s)@ == old(s)@ + int_decimal(n as int),
{
    crate::support::push_nat_digits(s, n);
}

} // verus!
