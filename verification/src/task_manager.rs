//! Long operations that run in the background: at most one for each DUT.

use crate::bridge::{clock_nanos, clock_start};
use crate::state_manager::SECOND;
use crate::text::{cat, decimal, decimal_text, eq_text, text_option};
use vstd::prelude::*;
use vstd::string::*;

verus! {

// ── Tasks ───────────────────────────────────────────────────────────────────

/// What a task does.
#[derive(Debug, Clone, Copy, PartialEq, Eq, Structural)]
pub enum TaskKind {
    ResetAndWait,
    EnterUboot,
    RebootUboot,
    EnterMaskrom,
    PowerCycle,
    Flash,
    WaitPattern,
}

impl TaskKind {
    /// The name of the kind.
    pub open spec fn name(self) -> Seq<char> {
        match self {
            TaskKind::ResetAndWait => "reset_and_wait"@,
            TaskKind::EnterUboot => "enter_uboot"@,
            TaskKind::RebootUboot => "reboot_uboot"@,
            TaskKind::EnterMaskrom => "enter_maskrom"@,
            TaskKind::PowerCycle => "power_cycle"@,
            TaskKind::Flash => "flash"@,
            TaskKind::WaitPattern => "wait_pattern"@,
        }
    }

    pub fn display_name(&self) -> (r: &'static str)
        ensures
            r@ == self.name(),
    {
        match self {
            TaskKind::ResetAndWait => "reset_and_wait",
            TaskKind::EnterUboot => "enter_uboot",
            TaskKind::RebootUboot => "reboot_uboot",
            TaskKind::EnterMaskrom => "enter_maskrom",
            TaskKind::PowerCycle => "power_cycle",
            TaskKind::Flash => "flash",
            TaskKind::WaitPattern => "wait_pattern",
        }
    }

    /// The operation that a tool starts, where it is a long one.
    pub open spec fn started_by(tool: Seq<char>) -> Option<TaskKind> {
        if tool == "serial_reset"@ {
            Some(TaskKind::ResetAndWait)
        } else if tool == "serial_enter_uboot"@ {
            Some(TaskKind::EnterUboot)
        } else if tool == "serial_reboot_uboot"@ {
            Some(TaskKind::RebootUboot)
        } else if tool == "serial_enter_maskrom"@ {
            Some(TaskKind::EnterMaskrom)
        } else if tool == "serial_power_cycle"@ {
            Some(TaskKind::PowerCycle)
        } else if tool == "serial_flash"@ {
            Some(TaskKind::Flash)
        } else if tool == "serial_wait_pattern"@ {
            Some(TaskKind::WaitPattern)
        } else {
            None
        }
    }

    pub fn of_tool(tool: &str) -> (r: Option<TaskKind>)
        ensures
            r == Self::started_by(tool@),
    {
        if eq_text(tool, "serial_reset") {
            Some(TaskKind::ResetAndWait)
        } else if eq_text(tool, "serial_enter_uboot") {
            Some(TaskKind::EnterUboot)
        } else if eq_text(tool, "serial_reboot_uboot") {
            Some(TaskKind::RebootUboot)
        } else if eq_text(tool, "serial_enter_maskrom") {
            Some(TaskKind::EnterMaskrom)
        } else if eq_text(tool, "serial_power_cycle") {
            Some(TaskKind::PowerCycle)
        } else if eq_text(tool, "serial_flash") {
            Some(TaskKind::Flash)
        } else if eq_text(tool, "serial_wait_pattern") {
            Some(TaskKind::WaitPattern)
        } else {
            None
        }
    }
}

/// How far a task is.
#[derive(Debug, Clone, Copy, PartialEq, Eq, Structural)]
pub enum TaskStatus {
    Working,
    InputRequired,
    Completed,
    Failed,
    Cancelled,
}

impl TaskStatus {
    /// A task with this status does nothing more.
    pub open spec fn terminal(self) -> bool {
        self == TaskStatus::Completed || self == TaskStatus::Failed || self
            == TaskStatus::Cancelled
    }

    pub fn is_terminal(&self) -> (r: bool)
        ensures
            r == self.terminal(),
    {
        match self {
            TaskStatus::Completed => true,
            TaskStatus::Failed => true,
            TaskStatus::Cancelled => true,
            _ => false,
        }
    }
}

/// The progress of a running task.
pub struct TaskProgress {
    /// The boot stage.
    pub stage: Option<String>,
    /// The part that is done, from 0 to 1: the bits of a single-precision number.
    pub percent: Option<u32>,
    /// What is going on.
    pub message: Option<String>,
}

/// The model of a `TaskProgress`.
pub struct ProgressView {
    pub stage: Option<Seq<char>>,
    pub percent: Option<u32>,
    pub message: Option<Seq<char>>,
}

impl View for TaskProgress {
    type V = ProgressView;

    open spec fn view(&self) -> ProgressView {
        ProgressView {
            stage: text_option(self.stage),
            percent: self.percent,
            message: text_option(self.message),
        }
    }
}

/// The bits of the single-precision number one.
pub const WHOLE: u32 = 0x3f80_0000;

/// A task.
pub struct Task {
    pub id: String,
    pub kind: TaskKind,
    pub status: TaskStatus,
    pub status_message: String,
    pub progress: Option<TaskProgress>,
    /// The result, as JSON.
    pub result: Option<String>,
    pub error: Option<String>,
    /// The executor was asked to stop.
    pub cancel_requested: bool,
    /// When the task was created, in nanoseconds on the manager's clock.
    pub created_at: u64,
    pub dut_alias: Option<String>,
}

/// The model of a `Task`.
pub struct TaskView {
    pub id: Seq<char>,
    pub kind: TaskKind,
    pub status: TaskStatus,
    pub status_message: Seq<char>,
    pub progress: Option<ProgressView>,
    pub result: Option<Seq<char>>,
    pub error: Option<Seq<char>>,
    pub cancel_requested: bool,
    pub created_at: u64,
    pub dut_alias: Option<Seq<char>>,
}

impl View for Task {
    type V = TaskView;

    open spec fn view(&self) -> TaskView {
        TaskView {
            id: self.id@,
            kind: self.kind,
            status: self.status,
            status_message: self.status_message@,
            progress: match self.progress {
                Some(p) => Some(p@),
                None => None,
            },
            result: text_option(self.result),
            error: text_option(self.error),
            cancel_requested: self.cancel_requested,
            created_at: self.created_at,
            dut_alias: text_option(self.dut_alias),
        }
    }
}

/// The models of the tasks.
pub open spec fn tasks_of(v: Seq<Task>) -> Seq<TaskView> {
    Seq::new(v.len(), |i: int| v[i]@)
}

/// The identifier of the `n`-th task.
pub open spec fn task_id(n: nat) -> Seq<char> {
    "task-"@ + decimal(n)
}

/// The identifier of the next task, and counts it.
pub fn new_task_id(next: &mut u64) -> (r: String)
    requires
        *old(next) < u64::MAX,
    ensures
        r@ == task_id(*old(next) as nat),
        *final(next) == *old(next) + 1,
{
    let r = cat("task-", &decimal_text(*next));
    *next = *next + 1;
    r
}

// ── What a client is told ───────────────────────────────────────────────────

/// What came of a task.
pub enum TaskPayload {
    Working,
    /// The result, as JSON.
    Completed(Option<String>),
    Failed(Option<String>),
    Cancelled,
}

/// The model of a `TaskPayload`.
pub enum PayloadView {
    Working,
    Completed(Option<Seq<char>>),
    Failed(Option<Seq<char>>),
    Cancelled,
}

impl View for TaskPayload {
    type V = PayloadView;

    open spec fn view(&self) -> PayloadView {
        match *self {
            TaskPayload::Working => PayloadView::Working,
            TaskPayload::Completed(r) => PayloadView::Completed(text_option(r)),
            TaskPayload::Failed(e) => PayloadView::Failed(text_option(e)),
            TaskPayload::Cancelled => PayloadView::Cancelled,
        }
    }
}

/// What a client is told of a task.
pub struct DetailedTask {
    pub id: String,
    pub status: TaskStatus,
    /// Nothing where there is no message.
    pub status_message: Option<String>,
    pub created_at: u64,
    pub payload: TaskPayload,
}

/// The model of a `DetailedTask`.
pub struct DetailedView {
    pub id: Seq<char>,
    pub status: TaskStatus,
    pub status_message: Option<Seq<char>>,
    pub created_at: u64,
    pub payload: PayloadView,
}

impl View for DetailedTask {
    type V = DetailedView;

    open spec fn view(&self) -> DetailedView {
        DetailedView {
            id: self.id@,
            status: self.status,
            status_message: text_option(self.status_message),
            created_at: self.created_at,
            payload: self.payload@,
        }
    }
}

/// The models of what a client is told.
pub open spec fn details_of(v: Seq<DetailedTask>) -> Seq<DetailedView> {
    Seq::new(v.len(), |i: int| v[i]@)
}

impl TaskView {
    /// The message, where there is one.
    pub open spec fn shown_message(self) -> Option<Seq<char>> {
        if self.status_message.len() == 0 {
            None
        } else {
            Some(self.status_message)
        }
    }

    /// What a client that asks is told. A task that waits for input counts as
    /// working.
    pub open spec fn detailed(self) -> DetailedView {
        DetailedView {
            id: self.id,
            status: if self.status == TaskStatus::InputRequired {
                TaskStatus::Working
            } else {
                self.status
            },
            status_message: self.shown_message(),
            created_at: self.created_at,
            payload: match self.status {
                TaskStatus::Completed => PayloadView::Completed(self.result),
                TaskStatus::Failed => PayloadView::Failed(self.error),
                TaskStatus::Cancelled => PayloadView::Cancelled,
                _ => PayloadView::Working,
            },
        }
    }

    /// What the client that created the task is told.
    pub open spec fn announced(self) -> DetailedView {
        DetailedView {
            id: self.id,
            status: self.status,
            status_message: self.shown_message(),
            created_at: self.created_at,
            payload: PayloadView::Working,
        }
    }
}

fn clone_option(o: &Option<String>) -> (r: Option<String>)
    ensures
        text_option(r) == text_option(*o),
{
    match o {
        Some(s) => Some(s.clone()),
        None => None,
    }
}

impl Task {
    fn shown(&self) -> (r: Option<String>)
        ensures
            text_option(r) == self@.shown_message(),
    {
        if self.status_message.as_str().is_empty() {
            None
        } else {
            Some(self.status_message.clone())
        }
    }

    /// What a client that asks is told.
    pub fn to_detailed_task(&self) -> (r: DetailedTask)
        ensures
            r@ == self@.detailed(),
    {
        let payload = match self.status {
            TaskStatus::Completed => TaskPayload::Completed(clone_option(&self.result)),
            TaskStatus::Failed => TaskPayload::Failed(clone_option(&self.error)),
            TaskStatus::Cancelled => TaskPayload::Cancelled,
            _ => TaskPayload::Working,
        };
        DetailedTask {
            id: self.id.clone(),
            status: if self.status == TaskStatus::InputRequired {
                TaskStatus::Working
            } else {
                self.status
            },
            status_message: self.shown(),
            created_at: self.created_at,
            payload,
        }
    }

    /// What the client that created the task is told.
    pub fn to_create_task_result(&self) -> (r: DetailedTask)
        ensures
            r@ == self@.announced(),
    {
        DetailedTask {
            id: self.id.clone(),
            status: self.status,
            status_message: self.shown(),
            created_at: self.created_at,
            payload: TaskPayload::Working,
        }
    }
}

// ── The manager ─────────────────────────────────────────────────────────────

/// The model of a `TaskManager`: the tasks, oldest first, and the number of the
/// next one.
pub struct TasksView {
    pub tasks: Seq<TaskView>,
    pub next: nat,
}

/// The identifier has a number below `next`.
pub open spec fn was_given(id: Seq<char>, next: nat) -> bool {
    exists|n: nat| n < next && id == #[trigger] task_id(n)
}

impl TasksView {
    /// The place of the first task with an identifier, from `i` on.
    pub open spec fn find_from(self, id: Seq<char>, i: int) -> Option<int>
        decreases self.tasks.len() - i,
    {
        if i < 0 || i >= self.tasks.len() {
            None
        } else if self.tasks[i].id == id {
            Some(i)
        } else {
            self.find_from(id, i + 1)
        }
    }

    /// The place of the task with an identifier.
    pub open spec fn find(self, id: Seq<char>) -> Option<int> {
        self.find_from(id, 0)
    }

    /// Whether a task of a DUT has not ended.
    pub open spec fn busy(self, alias: Seq<char>) -> bool {
        exists|i: int|
            0 <= i < self.tasks.len() && (#[trigger] self.tasks[i]).dut_alias == Some(alias)
                && !self.tasks[i].status.terminal()
    }

    /// At most one task of each DUT has not ended.
    pub open spec fn one_per_dut(self) -> bool {
        forall|i: int, j: int|
            0 <= i < j < self.tasks.len() && (#[trigger] self.tasks[i]).dut_alias is Some && (
            #[trigger] self.tasks[j]).dut_alias == self.tasks[i].dut_alias ==> (
            self.tasks[i].status.terminal() || self.tasks[j].status.terminal())
    }

    /// Each task has an identifier of its own, with a number below the next one.
    pub open spec fn numbered(self) -> bool {
        &&& forall|i: int|
            0 <= i < self.tasks.len() ==> was_given((#[trigger] self.tasks[i]).id, self.next)
        &&& forall|i: int, j: int|
            0 <= i < j < self.tasks.len() ==> (#[trigger] self.tasks[i]).id != (
            #[trigger] self.tasks[j]).id
    }

    /// The tasks with one more.
    pub open spec fn created(
        self,
        kind: TaskKind,
        alias: Option<Seq<char>>,
        message: Seq<char>,
        now: u64,
    ) -> TasksView {
        TasksView {
            tasks: self.tasks.push(
                TaskView {
                    id: task_id(self.next),
                    kind,
                    status: TaskStatus::Working,
                    status_message: message,
                    progress: None,
                    result: None,
                    error: None,
                    cancel_requested: false,
                    created_at: now,
                    dut_alias: alias,
                },
            ),
            next: self.next + 1,
        }
    }

    /// The tasks with one of them changed, where there is one with that identifier.
    pub open spec fn updated(self, id: Seq<char>, f: spec_fn(TaskView) -> TaskView) -> TasksView {
        match self.find(id) {
            Some(i) => TasksView { tasks: self.tasks.update(i, f(self.tasks[i])), ..self },
            None => self,
        }
    }

    /// With the progress of a task.
    pub open spec fn progressed(self, id: Seq<char>, p: ProgressView) -> TasksView {
        self.updated(id, |t: TaskView| TaskView { progress: Some(p), ..t })
    }

    /// With a task completed.
    pub open spec fn completed(self, id: Seq<char>, result: Seq<char>) -> TasksView {
        self.updated(
            id,
            |t: TaskView|
                TaskView {
                    status: TaskStatus::Completed,
                    result: Some(result),
                    progress: Some(
                        ProgressView {
                            stage: None,
                            percent: Some(WHOLE),
                            message: Some("Complete"@),
                        },
                    ),
                    ..t
                },
        )
    }

    /// With a task failed.
    pub open spec fn failed(self, id: Seq<char>, error: Seq<char>) -> TasksView {
        self.updated(
            id,
            |t: TaskView| TaskView { status: TaskStatus::Failed, error: Some(error), ..t },
        )
    }

    /// Whether a task can be cancelled: it is there and has not ended.
    pub open spec fn cancellable(self, id: Seq<char>) -> bool {
        self.find(id) matches Some(i) && !self.tasks[i].status.terminal()
    }

    /// With a task cancelled, where it can be.
    pub open spec fn cancelled(self, id: Seq<char>) -> TasksView {
        if self.cancellable(id) {
            self.updated(
                id,
                |t: TaskView|
                    TaskView { status: TaskStatus::Cancelled, cancel_requested: true, ..t },
            )
        } else {
            self
        }
    }

    /// Whether a task is dropped: it has ended, and is older than `max_age` whole
    /// seconds.
    pub open spec fn expired(t: TaskView, now: u64, max_age: u64) -> bool {
        t.status.terminal() && age_secs(now, t.created_at) > max_age
    }

    /// Without the tasks that are dropped.
    pub open spec fn cleaned(self, now: u64, max_age: u64) -> TasksView {
        TasksView { tasks: kept(self.tasks, now, max_age), ..self }
    }
}

/// The age of a task, in whole seconds.
pub open spec fn age_secs(now: u64, created_at: u64) -> nat {
    if now >= created_at {
        ((now - created_at) / (SECOND as int)) as nat
    } else {
        0
    }
}

/// The tasks that are not dropped.
pub open spec fn kept(tasks: Seq<TaskView>, now: u64, max_age: u64) -> Seq<TaskView>
    decreases tasks.len(),
{
    if tasks.len() == 0 {
        Seq::empty()
    } else {
        let rest = kept(tasks.drop_last(), now, max_age);
        if TasksView::expired(tasks.last(), now, max_age) {
            rest
        } else {
            rest.push(tasks.last())
        }
    }
}

/// What a client is told of the tasks that have not ended.
pub open spec fn active(tasks: Seq<TaskView>) -> Seq<DetailedView>
    decreases tasks.len(),
{
    if tasks.len() == 0 {
        Seq::empty()
    } else {
        let rest = active(tasks.drop_last());
        if tasks.last().status.terminal() {
            rest
        } else {
            rest.push(tasks.last().detailed())
        }
    }
}

/// The tasks of a server.
pub struct TaskManager {
    tasks: Vec<Task>,
    next: u64,
    clock: std::time::Instant,
}

impl View for TaskManager {
    type V = TasksView;

    closed spec fn view(&self) -> TasksView {
        TasksView { tasks: tasks_of(self.tasks@), next: self.next as nat }
    }
}

impl TaskManager {
    pub fn new() -> (r: Self)
        ensures
            r@.tasks.len() == 0,
            r@.next == 1,
    {
        TaskManager { tasks: Vec::new(), next: 1, clock: clock_start() }
    }

    /// Nanoseconds since the manager was made.
    pub fn now(&self) -> u64 {
        clock_nanos(&self.clock)
    }

    /// The place of a task.
    fn position(&self, id: &str) -> (r: Option<usize>)
        ensures
            match r {
                Some(i) => i < self.tasks@.len() && self@.find(id@) == Some(i as int),
                None => self@.find(id@) is None,
            },
    {
        let mut i: usize = 0;
        while i < self.tasks.len()
            invariant
                i <= self.tasks@.len(),
                self@.find(id@) == self@.find_from(id@, i as int),
            decreases self.tasks@.len() - i,
        {
            assert(self@.tasks[i as int] == self.tasks@[i as int]@);
            if eq_text(&self.tasks[i].id, id) {
                return Some(i);
            }
            i = i + 1;
        }
        None
    }

    /// Whether another task can be numbered.
    pub fn can_create(&self) -> (r: bool)
        ensures
            r == (self@.next < u64::MAX),
    {
        self.next < u64::MAX
    }

    /// Whether a task of a DUT has not ended.
    pub fn is_busy(&self, alias: &str) -> (r: bool)
        ensures
            r == self@.busy(alias@),
    {
        let mut i: usize = 0;
        while i < self.tasks.len()
            invariant
                i <= self.tasks@.len(),
                forall|j: int|
                    0 <= j < i ==> !((#[trigger] self@.tasks[j]).dut_alias == Some(alias@)
                        && !self@.tasks[j].status.terminal()),
            decreases self.tasks@.len() - i,
        {
            assert(self@.tasks[i as int] == self.tasks@[i as int]@);
            let same: bool = match &self.tasks[i].dut_alias {
                Some(a) => eq_text(a, alias),
                None => false,
            };
            if same && !self.tasks[i].status.is_terminal() {
                return true;
            }
            i = i + 1;
        }
        false
    }

    /// Creates a task and returns its identifier; nothing where a task of that DUT
    /// has not ended.
    pub fn create_at(
        &mut self,
        kind: TaskKind,
        dut_alias: Option<String>,
        status_message: String,
        now: u64,
    ) -> (r: Option<String>)
        requires
            old(self)@.next < u64::MAX,
        ensures
            match r {
                Some(id) => id@ == task_id(old(self)@.next) && final(self)@ == old(self)@.created(
                    kind,
                    text_option(dut_alias),
                    status_message@,
                    now,
                ) && (text_option(dut_alias) matches Some(a) ==> !old(self)@.busy(a)),
                None => final(self)@ == old(self)@ && (text_option(dut_alias) matches Some(a)
                    && old(self)@.busy(a)),
            },
    {
        if let Some(alias) = &dut_alias {
            if self.is_busy(alias) {
                return None;
            }
        }
        let ghost before = self.tasks@;
        let id = new_task_id(&mut self.next);
        let task = Task {
            id: id.clone(),
            kind,
            status: TaskStatus::Working,
            status_message,
            progress: None,
            result: None,
            error: None,
            cancel_requested: false,
            created_at: now,
            dut_alias,
        };
        let ghost view = task@;
        self.tasks.push(task);
        assert(tasks_of(self.tasks@) =~= tasks_of(before).push(view));
        Some(id)
    }

    /// Creates a task now.
    pub fn create(
        &mut self,
        kind: TaskKind,
        dut_alias: Option<String>,
        status_message: String,
    ) -> (r: Option<String>)
        requires
            old(self)@.next < u64::MAX,
        ensures
            match r {
                Some(id) => id@ == task_id(old(self)@.next) && (exists|now: u64|
                    final(self)@ == #[trigger] old(self)@.created(
                        kind,
                        text_option(dut_alias),
                        status_message@,
                        now,
                    )) && (text_option(dut_alias) matches Some(a) ==> !old(self)@.busy(a)),
                None => final(self)@ == old(self)@ && (text_option(dut_alias) matches Some(a)
                    && old(self)@.busy(a)),
            },
    {
        let now: u64 = self.now();
        self.create_at(kind, dut_alias, status_message, now)
    }

    /// What a client that asks is told of a task.
    pub fn get(&self, task_id: &str) -> (r: Option<DetailedTask>)
        ensures
            match self@.find(task_id@) {
                Some(i) => r matches Some(d) && d@ == self@.tasks[i].detailed(),
                None => r is None,
            },
    {
        match self.position(task_id) {
            Some(i) => {
                assert(self@.tasks[i as int] == self.tasks@[i as int]@);
                Some(self.tasks[i].to_detailed_task())
            },
            None => None,
        }
    }

    /// What the client that created a task is told.
    pub fn get_create_result(&self, task_id: &str) -> (r: Option<DetailedTask>)
        ensures
            match self@.find(task_id@) {
                Some(i) => r matches Some(d) && d@ == self@.tasks[i].announced(),
                None => r is None,
            },
    {
        match self.position(task_id) {
            Some(i) => {
                assert(self@.tasks[i as int] == self.tasks@[i as int]@);
                Some(self.tasks[i].to_create_task_result())
            },
            None => None,
        }
    }

    /// Sets the progress of a task.
    pub fn update_progress(&mut self, task_id: &str, progress: TaskProgress)
        ensures
            final(self)@ == old(self)@.progressed(task_id@, progress@),
    {
        if let Some(i) = self.position(task_id) {
            let ghost before = self.tasks@;
            let ghost p = progress@;
            self.tasks[i].progress = Some(progress);
            assert(tasks_of(self.tasks@) =~= tasks_of(before).update(
                i as int,
                TaskView { progress: Some(p), ..before[i as int]@ },
            ));
        }
    }

    /// Marks a task as completed.
    pub fn complete(&mut self, task_id: &str, result: String)
        ensures
            final(self)@ == old(self)@.completed(task_id@, result@),
    {
        if let Some(i) = self.position(task_id) {
            let ghost before = self.tasks@;
            let ghost res = result@;
            self.tasks[i].status = TaskStatus::Completed;
            self.tasks[i].result = Some(result);
            self.tasks[i].progress = Some(
                TaskProgress {
                    stage: None,
                    percent: Some(WHOLE),
                    message: Some("Complete".to_owned()),
                },
            );
            assert(tasks_of(self.tasks@) =~= tasks_of(before).update(
                i as int,
                TaskView {
                    status: TaskStatus::Completed,
                    result: Some(res),
                    progress: Some(
                        ProgressView {
                            stage: None,
                            percent: Some(WHOLE),
                            message: Some("Complete"@),
                        },
                    ),
                    ..before[i as int]@
                },
            ));
        }
    }

    /// Marks a task as failed.
    pub fn fail(&mut self, task_id: &str, error: String)
        ensures
            final(self)@ == old(self)@.failed(task_id@, error@),
    {
        if let Some(i) = self.position(task_id) {
            let ghost before = self.tasks@;
            let ghost e = error@;
            self.tasks[i].status = TaskStatus::Failed;
            self.tasks[i].error = Some(error);
            assert(tasks_of(self.tasks@) =~= tasks_of(before).update(
                i as int,
                TaskView { status: TaskStatus::Failed, error: Some(e), ..before[i as int]@ },
            ));
        }
    }

    /// Cancels a task. Whether it was there and had not ended.
    pub fn cancel(&mut self, task_id: &str) -> (r: bool)
        ensures
            r == old(self)@.cancellable(task_id@),
            final(self)@ == old(self)@.cancelled(task_id@),
    {
        match self.position(task_id) {
            Some(i) => {
                assert(self@.tasks[i as int] == self.tasks@[i as int]@);
                if self.tasks[i].status.is_terminal() {
                    return false;
                }
                let ghost before = self.tasks@;
                self.tasks[i].cancel_requested = true;
                self.tasks[i].status = TaskStatus::Cancelled;
                assert(tasks_of(self.tasks@) =~= tasks_of(before).update(
                    i as int,
                    TaskView {
                        status: TaskStatus::Cancelled,
                        cancel_requested: true,
                        ..before[i as int]@
                    },
                ));
                true
            },
            None => false,
        }
    }

    /// Whether the executor of a task was asked to stop; nothing where there is no
    /// such task.
    pub fn cancel_token(&self, task_id: &str) -> (r: Option<bool>)
        ensures
            r == match self@.find(task_id@) {
                Some(i) => Some(self@.tasks[i].cancel_requested),
                None => None,
            },
    {
        match self.position(task_id) {
            Some(i) => {
                assert(self@.tasks[i as int] == self.tasks@[i as int]@);
                Some(self.tasks[i].cancel_requested)
            },
            None => None,
        }
    }

    /// Drops the tasks that have ended and are older than `max_age_secs` whole
    /// seconds.
    pub fn cleanup_at(&mut self, max_age_secs: u64, now: u64)
        ensures
            final(self)@ == old(self)@.cleaned(now, max_age_secs),
    {
        let ghost all = tasks_of(self.tasks@);
        let mut rest: Vec<Task> = Vec::new();
        let mut old_tasks: Vec<Task> = Vec::new();
        std::mem::swap(&mut old_tasks, &mut self.tasks);
        let ghost start = old_tasks@;
        let n: usize = old_tasks.len();
        let mut i: usize = 0;
        assert(tasks_of(rest@) =~= kept(all.subrange(0, 0), now, max_age_secs));
        while i < n
            invariant
                i <= n,
                n == start.len(),
                all == tasks_of(start),
                old_tasks@ == start.subrange(i as int, n as int),
                tasks_of(rest@) == kept(all.subrange(0, i as int), now, max_age_secs),
            decreases n - i,
        {
            let t = old_tasks.remove(0);
            assert(t == start[i as int]);
            assert(old_tasks@ =~= start.subrange(i + 1, n as int));
            let ghost part = all.subrange(0, i + 1);
            assert(part.drop_last() =~= all.subrange(0, i as int));
            assert(part.last() == t@);
            let age: u64 = if now >= t.created_at {
                (now - t.created_at) / SECOND
            } else {
                0
            };
            if !(t.status.is_terminal() && age > max_age_secs) {
                let ghost before = rest@;
                let ghost view = t@;
                rest.push(t);
                assert(tasks_of(rest@) =~= tasks_of(before).push(view));
            }
            i = i + 1;
        }
        assert(all.subrange(0, n as int) =~= all);
        self.tasks = rest;
    }

    /// Drops old tasks now.
    pub fn cleanup(&mut self, max_age_secs: u64)
        ensures
            exists|now: u64| final(self)@ == #[trigger] old(self)@.cleaned(now, max_age_secs),
    {
        let now: u64 = self.now();
        self.cleanup_at(max_age_secs, now)
    }

    /// What a client is told of the tasks that have not ended.
    pub fn list_active(&self) -> (r: Vec<DetailedTask>)
        ensures
            details_of(r@) == active(self@.tasks),
    {
        let mut r: Vec<DetailedTask> = Vec::new();
        let mut i: usize = 0;
        assert(details_of(r@) =~= active(self@.tasks.subrange(0, 0)));
        while i < self.tasks.len()
            invariant
                i <= self.tasks@.len(),
                details_of(r@) == active(self@.tasks.subrange(0, i as int)),
            decreases self.tasks@.len() - i,
        {
            let ghost part = self@.tasks.subrange(0, i + 1);
            assert(part.drop_last() =~= self@.tasks.subrange(0, i as int));
            assert(part.last() == self.tasks@[i as int]@);
            if !self.tasks[i].status.is_terminal() {
                let ghost before = r@;
                let d = self.tasks[i].to_detailed_task();
                let ghost view = d@;
                r.push(d);
                assert(details_of(r@) =~= details_of(before).push(view));
            }
            i = i + 1;
        }
        assert(self@.tasks.subrange(0, self@.tasks.len() as int) =~= self@.tasks);
        r
    }
}

// ── Laws ────────────────────────────────────────────────────────────────────

/// What `find` returns is a place of the identifier; where it returns nothing there
/// is none.
proof fn lemma_find(v: TasksView, id: Seq<char>, i: int)
    requires
        0 <= i <= v.tasks.len(),
    ensures
        match v.find_from(id, i) {
            Some(k) => i <= k < v.tasks.len() && v.tasks[k].id == id,
            None => forall|k: int| i <= k < v.tasks.len() ==> (#[trigger] v.tasks[k]).id != id,
        },
    decreases v.tasks.len() - i,
{
    if i < v.tasks.len() && v.tasks[i].id != id {
        lemma_find(v, id, i + 1);
    }
}

/// Law: creating a task leaves at most one task of each DUT that has not ended,
/// where it is created only for a DUT that is not busy.
pub proof fn law_creation_keeps_one_per_dut(
    v: TasksView,
    kind: TaskKind,
    alias: Option<Seq<char>>,
    message: Seq<char>,
    now: u64,
)
    requires
        v.one_per_dut(),
        alias matches Some(a) ==> !v.busy(a),
    ensures
        v.created(kind, alias, message, now).one_per_dut(),
{
    let w = v.created(kind, alias, message, now);
    assert forall|i: int, j: int|
        0 <= i < j < w.tasks.len() && (#[trigger] w.tasks[i]).dut_alias is Some && (
        #[trigger] w.tasks[j]).dut_alias == w.tasks[i].dut_alias implies (
    w.tasks[i].status.terminal() || w.tasks[j].status.terminal()) by {
        assert(w.tasks[i] == v.tasks[i]);
        if j < v.tasks.len() {
            assert(w.tasks[j] == v.tasks[j]);
        } else {
            assert(alias == w.tasks[i].dut_alias);
            assert(v.tasks[i].dut_alias == Some(alias->0));
        }
    }
}

/// Law: no other operation makes a DUT busy with a second task.
pub proof fn law_changes_keep_one_per_dut(
    v: TasksView,
    id: Seq<char>,
    p: ProgressView,
    text: Seq<char>,
    now: u64,
    max_age: u64,
)
    requires
        v.one_per_dut(),
    ensures
        v.progressed(id, p).one_per_dut(),
        v.completed(id, text).one_per_dut(),
        v.failed(id, text).one_per_dut(),
        v.cancelled(id).one_per_dut(),
        v.cleaned(now, max_age).one_per_dut(),
{
    lemma_find(v, id, 0);
    lemma_kept(v.tasks, now, max_age);
    let w = v.cleaned(now, max_age);
    assert forall|i: int, j: int|
        0 <= i < j < w.tasks.len() && (#[trigger] w.tasks[i]).dut_alias is Some && (
        #[trigger] w.tasks[j]).dut_alias == w.tasks[i].dut_alias implies (
    w.tasks[i].status.terminal() || w.tasks[j].status.terminal()) by {
        assert(ordered_in(v.tasks, w.tasks[i], w.tasks[j]));
        let (a, b) = choose|a: int, b: int|
            0 <= a < b < v.tasks.len() && #[trigger] v.tasks[a] == w.tasks[i]
                && #[trigger] v.tasks[b] == w.tasks[j];
        assert(v.tasks[a].dut_alias == v.tasks[b].dut_alias);
    }
}

/// The kept tasks are tasks, in the same order, and every task that has not ended
/// is kept.
proof fn lemma_kept(tasks: Seq<TaskView>, now: u64, max_age: u64)
    ensures
        kept(tasks, now, max_age).len() <= tasks.len(),
        forall|i: int|
            0 <= i < kept(tasks, now, max_age).len() ==> tasks.contains(
                #[trigger] kept(tasks, now, max_age)[i],
            ),
        forall|i: int, j: int|
            0 <= i < j < kept(tasks, now, max_age).len() ==> ordered_in(
                tasks,
                #[trigger] kept(tasks, now, max_age)[i],
                #[trigger] kept(tasks, now, max_age)[j],
            ),
        forall|i: int|
            0 <= i < tasks.len() && !TasksView::expired(#[trigger] tasks[i], now, max_age) ==> kept(
                tasks,
                now,
                max_age,
            ).contains(tasks[i]),
    decreases tasks.len(),
{
    let k = kept(tasks, now, max_age);
    if tasks.len() > 0 {
        let short = tasks.drop_last();
        let rest = kept(short, now, max_age);
        lemma_kept(short, now, max_age);
        let n = tasks.len() - 1;
        assert(tasks[n] == tasks.last());
        assert forall|i: int| 0 <= i < k.len() implies tasks.contains(#[trigger] k[i]) by {
            if i < rest.len() {
                assert(k[i] == rest[i]);
                let a = choose|a: int| 0 <= a < short.len() && short[a] == rest[i];
                assert(tasks[a] == k[i]);
            }
        }
        assert forall|i: int, j: int| 0 <= i < j < k.len() implies ordered_in(
            tasks,
            #[trigger] k[i],
            #[trigger] k[j],
        ) by {
            assert(k[i] == rest[i]);
            if j < rest.len() {
                assert(k[j] == rest[j]);
                assert(ordered_in(short, rest[i], rest[j]));
                let (a, b) = choose|a: int, b: int|
                    0 <= a < b < short.len() && #[trigger] short[a] == rest[i]
                        && #[trigger] short[b] == rest[j];
                assert(tasks[a] == k[i] && tasks[b] == k[j]);
            } else {
                let a = choose|a: int| 0 <= a < short.len() && short[a] == rest[i];
                assert(tasks[a] == k[i] && tasks[n] == k[j]);
            }
        }
        assert forall|i: int|
            0 <= i < tasks.len() && !TasksView::expired(
                #[trigger] tasks[i],
                now,
                max_age,
            ) implies k.contains(tasks[i]) by {
            if i < n {
                assert(short[i] == tasks[i]);
                let a = choose|a: int| 0 <= a < rest.len() && rest[a] == short[i];
                assert(k[a] == tasks[i]);
            } else {
                assert(k[rest.len() as int] == tasks[i]);
            }
        }
    }
}

/// One task comes before another.
spec fn ordered_in(tasks: Seq<TaskView>, x: TaskView, y: TaskView) -> bool {
    exists|a: int, b: int|
        0 <= a < b < tasks.len() && #[trigger] tasks[a] == x && #[trigger] tasks[b] == y
}

/// Law: cleaning up drops no task that has not ended, and adds none.
pub proof fn law_running_tasks_are_kept(v: TasksView, now: u64, max_age: u64, i: int)
    requires
        0 <= i < v.tasks.len(),
        !v.tasks[i].status.terminal(),
    ensures
        v.cleaned(now, max_age).tasks.contains(v.tasks[i]),
{
    lemma_kept(v.tasks, now, max_age);
}

/// Law: a task that has ended stays ended.
pub proof fn law_ended_tasks_stay_ended(
    v: TasksView,
    id: Seq<char>,
    p: ProgressView,
    text: Seq<char>,
    i: int,
)
    requires
        0 <= i < v.tasks.len(),
        v.tasks[i].status.terminal(),
    ensures
        v.progressed(id, p).tasks[i].status.terminal(),
        v.completed(id, text).tasks[i].status.terminal(),
        v.failed(id, text).tasks[i].status.terminal(),
        v.cancelled(id).tasks[i].status.terminal(),
{
    lemma_find(v, id, 0);
}

/// Identifiers with different numbers differ.
proof fn lemma_ids_differ(m: nat, n: nat)
    requires
        task_id(m) == task_id(n),
    ensures
        m == n,
{
    let k = "task-"@.len() as int;
    assert(task_id(m).subrange(k, task_id(m).len() as int) =~= decimal(m));
    assert(task_id(n).subrange(k, task_id(n).len() as int) =~= decimal(n));
    crate::text::lemma_decimal_round_trip(m, m + n);
    crate::text::lemma_decimal_round_trip(n, m + n);
}

/// Law: a task that was just created is found under its identifier, and no other
/// task has that identifier.
pub proof fn law_new_task_is_found(
    v: TasksView,
    kind: TaskKind,
    alias: Option<Seq<char>>,
    message: Seq<char>,
    now: u64,
)
    requires
        v.numbered(),
    ensures
        v.created(kind, alias, message, now).find(task_id(v.next)) == Some(v.tasks.len() as int),
        v.created(kind, alias, message, now).numbered(),
{
    let w = v.created(kind, alias, message, now);
    let id = task_id(v.next);
    let n = v.tasks.len() as int;
    lemma_find(w, id, 0);
    assert(w.tasks[n].id == id);
    assert forall|i: int| 0 <= i < w.tasks.len() implies was_given(
        (#[trigger] w.tasks[i]).id,
        w.next,
    ) by {
        if i < n {
            assert(w.tasks[i] == v.tasks[i]);
            let m = choose|m: nat| m < v.next && v.tasks[i].id == #[trigger] task_id(m);
            assert(m < w.next && w.tasks[i].id == task_id(m));
        } else {
            assert(v.next < w.next && w.tasks[i].id == task_id(v.next));
        }
    }
    assert forall|i: int| 0 <= i < n implies (#[trigger] v.tasks[i]).id != id by {
        let m = choose|m: nat| m < v.next && v.tasks[i].id == #[trigger] task_id(m);
        if v.tasks[i].id == id {
            lemma_ids_differ(m, v.next);
        }
    }
    assert forall|i: int, j: int| 0 <= i < j < w.tasks.len() implies (#[trigger] w.tasks[i]).id != (
    #[trigger] w.tasks[j]).id by {
        assert(w.tasks[i] == v.tasks[i]);
        if j < n {
            assert(w.tasks[j] == v.tasks[j]);
        }
    }
    let k = w.find(id)->0;
    if k < n {
        assert(w.tasks[k] == v.tasks[k]);
    }
}

/// Law: nothing that happens to tasks gives one an identifier of another or one
/// that is still to be given.
pub proof fn law_changes_keep_identifiers(
    v: TasksView,
    id: Seq<char>,
    p: ProgressView,
    text: Seq<char>,
    now: u64,
    max_age: u64,
)
    requires
        v.numbered(),
    ensures
        v.progressed(id, p).numbered(),
        v.completed(id, text).numbered(),
        v.failed(id, text).numbered(),
        v.cancelled(id).numbered(),
        v.cleaned(now, max_age).numbered(),
{
    lemma_find(v, id, 0);
    lemma_same_identifiers(v, v.progressed(id, p));
    lemma_same_identifiers(v, v.completed(id, text));
    lemma_same_identifiers(v, v.failed(id, text));
    lemma_same_identifiers(v, v.cancelled(id));
    lemma_kept(v.tasks, now, max_age);
    let w = v.cleaned(now, max_age);
    assert forall|i: int| 0 <= i < w.tasks.len() implies was_given(
        (#[trigger] w.tasks[i]).id,
        w.next,
    ) by {
        assert(v.tasks.contains(w.tasks[i]));
        let a = choose|a: int| 0 <= a < v.tasks.len() && v.tasks[a] == w.tasks[i];
        let m = choose|m: nat| m < v.next && v.tasks[a].id == #[trigger] task_id(m);
        assert(m < w.next && w.tasks[i].id == task_id(m));
    }
    assert forall|i: int, j: int| 0 <= i < j < w.tasks.len() implies (#[trigger] w.tasks[i]).id != (
    #[trigger] w.tasks[j]).id by {
        assert(ordered_in(v.tasks, w.tasks[i], w.tasks[j]));
        let (a, b) = choose|a: int, b: int|
            0 <= a < b < v.tasks.len() && #[trigger] v.tasks[a] == w.tasks[i]
                && #[trigger] v.tasks[b] == w.tasks[j];
        assert(v.tasks[a].id != v.tasks[b].id);
    }
}

/// Tasks with the same identifiers are numbered alike.
proof fn lemma_same_identifiers(v: TasksView, w: TasksView)
    requires
        v.numbered(),
        v.next == w.next,
        v.tasks.len() == w.tasks.len(),
        forall|i: int| 0 <= i < v.tasks.len() ==> (#[trigger] w.tasks[i]).id == v.tasks[i].id,
    ensures
        w.numbered(),
{
    assert forall|i: int| 0 <= i < w.tasks.len() implies was_given(
        (#[trigger] w.tasks[i]).id,
        w.next,
    ) by {
        let m = choose|m: nat| m < v.next && v.tasks[i].id == #[trigger] task_id(m);
        assert(m < w.next && w.tasks[i].id == task_id(m));
    }
    assert forall|i: int, j: int| 0 <= i < j < w.tasks.len() implies (#[trigger] w.tasks[i]).id != (
    #[trigger] w.tasks[j]).id by {
        assert(v.tasks[i].id != v.tasks[j].id);
    }
}

/// Law: each tool that starts a task starts one of its own kind, and no other tool
/// starts one.
pub proof fn law_tools_start_tasks(tool: Seq<char>)
    ensures
        TaskKind::started_by(tool) == Some(TaskKind::ResetAndWait) <==> tool == "serial_reset"@,
        TaskKind::started_by(tool) == Some(TaskKind::EnterUboot) <==> tool == "serial_enter_uboot"@,
        TaskKind::started_by(tool) == Some(TaskKind::RebootUboot) <==> tool
            == "serial_reboot_uboot"@,
        TaskKind::started_by(tool) == Some(TaskKind::EnterMaskrom) <==> tool
            == "serial_enter_maskrom"@,
        TaskKind::started_by(tool) == Some(TaskKind::PowerCycle) <==> tool == "serial_power_cycle"@,
        TaskKind::started_by(tool) == Some(TaskKind::Flash) <==> tool == "serial_flash"@,
        TaskKind::started_by(tool) == Some(TaskKind::WaitPattern) <==> tool
            == "serial_wait_pattern"@,
        TaskKind::ResetAndWait.name() == "reset_and_wait"@,
        TaskKind::EnterUboot.name() == "enter_uboot"@,
        TaskKind::RebootUboot.name() == "reboot_uboot"@,
        TaskKind::EnterMaskrom.name() == "enter_maskrom"@,
        TaskKind::PowerCycle.name() == "power_cycle"@,
        TaskKind::Flash.name() == "flash"@,
        TaskKind::WaitPattern.name() == "wait_pattern"@,
{
    reveal_strlit("serial_reset");
    reveal_strlit("serial_enter_uboot");
    reveal_strlit("serial_reboot_uboot");
    reveal_strlit("serial_enter_maskrom");
    reveal_strlit("serial_power_cycle");
    reveal_strlit("serial_flash");
    reveal_strlit("serial_wait_pattern");
    assert("serial_reset"@.len() == 12 && "serial_flash"@.len() == 12);
    assert("serial_reset"@[7] == 'r' && "serial_flash"@[7] == 'f');
    assert("serial_enter_uboot"@.len() == 18 && "serial_power_cycle"@.len() == 18);
    assert("serial_enter_uboot"@[7] == 'e' && "serial_power_cycle"@[7] == 'p');
    assert("serial_reboot_uboot"@.len() == 19 && "serial_wait_pattern"@.len() == 19);
    assert("serial_reboot_uboot"@[7] == 'r' && "serial_wait_pattern"@[7] == 'w');
    assert("serial_enter_maskrom"@.len() == 20);
}

/// Law: a task is found by its number: the first that carries it.
pub proof fn law_tasks_are_found(v: TasksView, id: Seq<char>, i: int)
    ensures
        0 <= i < v.tasks.len() && v.tasks[i].id == id && (forall|j: int|
            0 <= j < i ==> (#[trigger] v.tasks[j]).id != id) ==> v.find(id) == Some(i),
        (forall|j: int| 0 <= j < v.tasks.len() ==> (#[trigger] v.tasks[j]).id != id) ==> v.find(id)
            is None,
{
    lemma_finds(v, id, i, 0);
}

proof fn lemma_finds(v: TasksView, id: Seq<char>, i: int, from: int)
    requires
        0 <= from,
    ensures
        from <= i < v.tasks.len() && v.tasks[i].id == id && (forall|j: int|
            from <= j < i ==> (#[trigger] v.tasks[j]).id != id) ==> v.find_from(id, from) == Some(
            i,
        ),
        (forall|j: int| from <= j < v.tasks.len() ==> (#[trigger] v.tasks[j]).id != id)
            ==> v.find_from(id, from) is None,
    decreases v.tasks.len() - from,
{
    if from < v.tasks.len() {
        let x = v.tasks[from];
        lemma_finds(v, id, i, from + 1);
    }
}

/// Law: a new task waits under the next number, working, without a result; the others
/// stay as they are.
pub proof fn law_tasks_are_created(
    v: TasksView,
    kind: TaskKind,
    alias: Option<Seq<char>>,
    message: Seq<char>,
    now: u64,
)
    ensures
        ({
            let w = v.created(kind, alias, message, now);
            let t = w.tasks.last();
            &&& w.tasks.drop_last() == v.tasks
            &&& t.id == "task-"@ + decimal(v.next) && w.next == v.next + 1
            &&& t.kind == kind && t.status == TaskStatus::Working && t.status_message == message
            &&& t.dut_alias == alias && t.created_at == now && !t.cancel_requested
            &&& t.result is None && t.error is None && t.progress is None
        }),
{
    assert(v.created(kind, alias, message, now).tasks.drop_last() =~= v.tasks);
}

/// Law: a task that ends keeps what it was, with its result or its error; a task that
/// has ended cannot be cancelled; all other tasks stay as they are.
#[verifier::rlimit(50)]
pub proof fn law_tasks_end(
    v: TasksView,
    id: Seq<char>,
    i: int,
    text: Seq<char>,
    p: ProgressView,
)
    requires
        v.find(id) == Some(i),
        0 <= i < v.tasks.len(),
    ensures
        ({
            let t = v.tasks[i];
            let done = v.completed(id, text).tasks;
            let failed = v.failed(id, text).tasks;
            let cancelled = v.cancelled(id).tasks;
            let moved = v.progressed(id, p).tasks;
            let ended = t.status == TaskStatus::Completed || t.status == TaskStatus::Failed
                || t.status == TaskStatus::Cancelled;
            &&& done[i].status == TaskStatus::Completed && done[i].result == Some(text)
                && done[i].error == t.error && done[i].id == t.id && done[i].kind == t.kind
                && done[i].dut_alias == t.dut_alias && done[i].created_at == t.created_at
            &&& done[i].progress is Some && done[i].progress->0.percent == Some(0x3f80_0000u32)
                && done[i].progress->0.message == Some("Complete"@)
            &&& failed[i].status == TaskStatus::Failed && failed[i].error == Some(text)
                && failed[i].result == t.result && failed[i].progress == t.progress
                && failed[i].id == t.id && failed[i].kind == t.kind
            &&& ended ==> v.cancelled(id) == v
            &&& !ended ==> cancelled[i].status == TaskStatus::Cancelled
                && cancelled[i].cancel_requested && cancelled[i].result == t.result
                && cancelled[i].error == t.error && cancelled[i].id == t.id
            &&& moved[i] == (TaskView { progress: Some(p), ..t })
            &&& forall|j: int|
                #![trigger v.tasks[j]]
                0 <= j < v.tasks.len() && j != i ==> done[j] == v.tasks[j] && failed[j]
                    == v.tasks[j] && cancelled[j] == v.tasks[j] && moved[j] == v.tasks[j]
            &&& done.len() == v.tasks.len() && failed.len() == v.tasks.len() && cancelled.len()
                == v.tasks.len() && moved.len() == v.tasks.len()
        }),
{
}

/// Law: a task that is not there is not changed.
pub proof fn law_unknown_tasks_are_left(
    v: TasksView,
    id: Seq<char>,
    text: Seq<char>,
    p: ProgressView,
)
    requires
        v.find(id) is None,
    ensures
        v.completed(id, text) == v,
        v.failed(id, text) == v,
        v.cancelled(id) == v,
        v.progressed(id, p) == v,
{
}

/// Law: cleaning drops exactly the tasks that have ended and are older than the limit
/// in seconds.
pub proof fn law_old_tasks_are_dropped(v: TasksView, t: TaskView, now: u64, max_age: u64)
    requires
        t.created_at <= now,
    ensures
        ({
            let w = TasksView { tasks: v.tasks.push(t), ..v };
            let ended = t.status == TaskStatus::Completed || t.status == TaskStatus::Failed
                || t.status == TaskStatus::Cancelled;
            let old = now - t.created_at >= (max_age + 1) * 1_000_000_000;
            &&& ended && old ==> w.cleaned(now, max_age).tasks == v.cleaned(now, max_age).tasks
            &&& !(ended && old) ==> w.cleaned(now, max_age).tasks == v.cleaned(
                now,
                max_age,
            ).tasks.push(t)
            &&& w.cleaned(now, max_age).next == v.next
        }),
        (TasksView { tasks: Seq::empty(), ..v }).cleaned(now, max_age).tasks.len() == 0,
{
    assert(v.tasks.push(t).drop_last() =~= v.tasks);
}

/// Law: the active tasks are those that have not ended, in order.
pub proof fn law_active_tasks(tasks: Seq<TaskView>, t: TaskView)
    ensures
        ({
            let ended = t.status == TaskStatus::Completed || t.status == TaskStatus::Failed
                || t.status == TaskStatus::Cancelled;
            &&& ended ==> active(tasks.push(t)) == active(tasks)
            &&& !ended ==> active(tasks.push(t)) == active(tasks).push(t.detailed())
            &&& active(Seq::empty()).len() == 0
        }),
{
    assert(tasks.push(t).drop_last() =~= tasks);
}

/// Law: a task is shown by its number, its state and its message, with its result
/// once it is completed and its error once it failed.
pub proof fn law_tasks_are_shown(t: TaskView)
    ensures
        ({
            let d = t.detailed();
            &&& d.id == t.id && d.created_at == t.created_at
            &&& t.status == TaskStatus::Completed ==> d.payload == PayloadView::Completed(t.result)
                && d.status == TaskStatus::Completed
            &&& t.status == TaskStatus::Failed ==> d.payload == PayloadView::Failed(t.error)
                && d.status == TaskStatus::Failed
            &&& t.status == TaskStatus::Cancelled ==> d.payload == PayloadView::Cancelled
                && d.status == TaskStatus::Cancelled
            &&& t.status == TaskStatus::Working || t.status == TaskStatus::InputRequired
                ==> d.payload == PayloadView::Working && d.status == TaskStatus::Working
            &&& t.status_message.len() == 0 ==> d.status_message is None
                && t.announced().status_message is None
            &&& t.status_message.len() > 0 ==> d.status_message == Some(t.status_message)
                && t.announced().status_message == Some(t.status_message)
            &&& t.announced().id == t.id && t.announced().status == t.status
                && t.announced().payload == PayloadView::Working
        }),
{
}

/// Law: a task is created under the next number unless its DUT is busy; then nothing
/// changes.
pub proof fn law_creating_a_task(
    m: &mut TaskManager,
    kind: TaskKind,
    alias: Option<String>,
    message: String,
    now: u64,
    r: Option<String>,
)
    requires
        call_ensures(TaskManager::create_at, (m, kind, alias, message, now), r),
    ensures
        r is None <==> alias is Some && old(m)@.busy(alias->0@),
        r is None ==> final(m)@ == old(m)@,
        r matches Some(id) ==> id@ == "task-"@ + decimal(old(m)@.next) && final(m)@.tasks.len()
            == old(m)@.tasks.len() + 1 && final(m)@.tasks.last().id == id@
            && final(m)@.tasks.last().kind == kind && final(m)@.tasks.last().status
            == TaskStatus::Working && final(m)@.next == old(m)@.next + 1,
{
}

} // verus!
