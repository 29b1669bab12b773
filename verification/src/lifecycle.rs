//! The plugin's life in a process, as steps: what the process-wide status
//! holds after each one and what is to be done next. The GTK and Tauri work
//! between the steps (watching the application, realizing windows, asking
//! GDK for a GL context) is done by the host side, which hands each outcome
//! back here.

use vstd::prelude::*;

use crate::detect::{Decision, DecisionView};
use crate::status::{Error, NotAffectedReason, SessionType, Status, StatusView};

verus! {

/// What the detection matched on, carried to whichever window arrives first.
#[derive(Debug, Clone)]
pub struct Matched {
    /// The matched GPU's vendor id, e.g. `0x10de`.
    pub gpu: String,
    /// The matched GPU's kernel driver, e.g. `nvidia`.
    pub driver: String,
    /// The session that was detected.
    pub session: SessionType,
}

/// The status that arming a window with `m` records.
pub open spec fn applied_status(m: Matched) -> StatusView {
    StatusView::Applied { gpu: m.gpu@, driver: m.driver@, session: m.session }
}

impl Matched {
    /// The status once a window is armed.
    pub fn status(&self) -> (r: Status)
        ensures
            r@ == applied_status(*self),
    {
        Status::Applied { gpu: self.gpu.clone(), driver: self.driver.clone(), session: self.session }
    }
}

/// What to do after the decision has been consulted.
#[derive(Debug, Clone)]
pub enum Plan {
    /// Nothing to arm; the status already says why.
    StandDown,
    /// Arm the windows with what was matched.
    Arm(Matched),
}

/// The status after the decision has been consulted: a decision to stand
/// down is recorded, a decision to apply leaves the status as it was until
/// a window is armed.
pub open spec fn planned_status(d: DecisionView, current: StatusView) -> StatusView {
    match d {
        DecisionView::Overridden(by) => StatusView::Overridden { by },
        DecisionView::NotAffected(reason) => StatusView::NotAffected { reason },
        DecisionView::Apply { .. } => current,
    }
}

/// The first step of both the setup hook and `apply`: stand down and record
/// why, or go on to arm windows with what was matched.
pub fn plan(decision: &Decision, status: &mut Status) -> (p: Plan)
    ensures
        final(status)@ == planned_status(decision@, old(status)@),
        match decision@ {
            DecisionView::Apply { gpu, driver, session } => p matches Plan::Arm(m) && m.gpu@ == gpu
                && m.driver@ == driver && m.session == session,
            _ => p is StandDown,
        },
{
    match decision {
        Decision::Overridden(by) => {
            *status = Status::Overridden { by: by.clone() };
            Plan::StandDown
        },
        Decision::NotAffected(reason) => {
            *status = Status::NotAffected { reason: *reason };
            Plan::StandDown
        },
        Decision::Apply { gpu, driver, session } => Plan::Arm(
            Matched { gpu: gpu.clone(), driver: driver.clone(), session: *session },
        ),
    }
}

/// Why the windows of the application cannot be watched.
#[derive(Debug, Clone, Copy, PartialEq, Eq, Structural)]
pub enum WatchFailure {
    /// The process has no default `GApplication`.
    NoApplication,
    /// The default `GApplication` is not a `GtkApplication`.
    NotGtkApplication,
}

impl WatchFailure {
    /// How the failure is reported.
    pub open spec fn describe(self) -> Seq<char> {
        match self {
            WatchFailure::NoApplication => "no GtkApplication in this process"@,
            WatchFailure::NotGtkApplication => "the default GApplication is not a GtkApplication"@,
        }
    }

    /// How the failure is reported.
    pub fn message(&self) -> (r: String)
        ensures
            r@ == self.describe(),
    {
        match self {
            WatchFailure::NoApplication => String::from_str("no GtkApplication in this process"),
            WatchFailure::NotGtkApplication => String::from_str(
                "the default GApplication is not a GtkApplication",
            ),
        }
    }
}

/// Records that the application's windows cannot be watched.
pub fn watch_failed(failure: WatchFailure, status: &mut Status)
    ensures
        final(status)@ == (StatusView::Failed { error: failure.describe() }),
{
    *status = Status::Failed { error: failure.message() };
}

/// Records that Tauri could not hand back the GTK window, for the reason
/// given, and returns the error for the caller.
pub fn window_unavailable(reason: String, status: &mut Status) -> (e: Error)
    ensures
        e matches Error::Window(r) && r@ == reason@,
        final(status)@ == (StatusView::Failed { error: e.describe() }),
{
    let e = Error::Window(reason);
    *status = Status::Failed { error: e.message() };
    e
}

/// How asking GDK for a GL context went.
#[derive(Debug, Clone)]
pub enum GlAttempt {
    /// The widget has no `GdkWindow` to ask.
    NoGdkWindow,
    /// GDK refused, with this message.
    Refused(String),
    /// GDK created the context, and with it the paint context.
    Created,
}

/// The outcome of asking GDK for a GL context, as an error of this crate.
pub fn gl_context_result(attempt: GlAttempt) -> (r: Result<(), Error>)
    ensures
        match attempt {
            GlAttempt::NoGdkWindow => r matches Err(Error::Window(m)) && m@
                == "the widget has no GdkWindow"@,
            GlAttempt::Refused(e) => r matches Err(Error::GlContext(m)) && m@ == e@,
            GlAttempt::Created => r is Ok,
        },
{
    match attempt {
        GlAttempt::NoGdkWindow => Err(Error::Window(String::from_str("the widget has no GdkWindow"))),
        GlAttempt::Refused(e) => Err(Error::GlContext(e)),
        GlAttempt::Created => Ok(()),
    }
}

/// The status that arming a window records: applied on success, failed with
/// the error's message otherwise.
pub open spec fn recorded_status(result: Result<(), Error>, m: Matched) -> StatusView {
    match result {
        Ok(()) => applied_status(m),
        Err(e) => StatusView::Failed { error: e.describe() },
    }
}

/// Records how arming a window went, and passes the result on.
pub fn record(result: Result<(), Error>, matched: &Matched, status: &mut Status) -> (r: Result<
    (),
    Error,
>)
    ensures
        r == result,
        final(status)@ == recorded_status(result, *matched),
{
    match &result {
        Ok(()) => {
            *status = matched.status();
        },
        Err(e) => {
            *status = Status::Failed { error: e.message() };
        },
    }
    result
}

/// The status that arming a window with what was matched records, from how
/// asking GDK for the GL context went.
pub open spec fn armed_status(
    attempt: GlAttempt,
    gpu: Seq<char>,
    driver: Seq<char>,
    session: SessionType,
) -> StatusView {
    match attempt {
        GlAttempt::Created => StatusView::Applied { gpu, driver, session },
        GlAttempt::NoGdkWindow => StatusView::Failed {
            error: "no GTK window for this Tauri window: "@ + "the widget has no GdkWindow"@,
        },
        GlAttempt::Refused(e) => StatusView::Failed { error: "no GL context for the window: "@ + e@ },
    }
}

/// Arms a window: given how asking GDK for the GL context went, records it
/// and returns the outcome as an error of this crate.
pub fn arm(attempt: GlAttempt, matched: &Matched, status: &mut Status) -> (r: Result<(), Error>)
    ensures
        r is Ok <==> attempt is Created,
        final(status)@ == armed_status(attempt, matched.gpu@, matched.driver@, matched.session),
        r matches Err(e) ==> final(status)@ == (StatusView::Failed { error: e.describe() }),
{
    let result = gl_context_result(attempt);
    record(result, matched, status)
}

/// One step of the plugin's life in a process, as it changes the status:
/// consulting the decision (the setup hook, or `apply`), failing to watch
/// the application's windows, failing to get a window's GTK window, or
/// arming a window after a decision to apply.
pub enum Step {
    Consult,
    WatchFailed(WatchFailure),
    WindowUnavailable(String),
    Armed(GlAttempt),
}

/// The status after one step, under decision `d`: what `plan`,
/// `watch_failed`, `window_unavailable` and `arm` record. A window is armed
/// only after `plan` handed over what a decision to apply matched; under any
/// other decision nothing is armed.
pub open spec fn step_status(d: DecisionView, s: StatusView, step: Step) -> StatusView {
    match step {
        Step::Consult => planned_status(d, s),
        Step::WatchFailed(f) => StatusView::Failed { error: f.describe() },
        Step::WindowUnavailable(reason) => StatusView::Failed {
            error: Error::Window(reason).describe(),
        },
        Step::Armed(attempt) => match d {
            DecisionView::Apply { gpu, driver, session } => armed_status(
                attempt,
                gpu,
                driver,
                session,
            ),
            _ => s,
        },
    }
}

/// The status after a sequence of steps under decision `d`, from `s`.
pub open spec fn run_steps(d: DecisionView, s: StatusView, steps: Seq<Step>) -> StatusView
    decreases steps.len(),
{
    if steps.len() == 0 {
        s
    } else {
        step_status(d, run_steps(d, s, steps.drop_last()), steps.last())
    }
}

/// When to ask GDK for the GL context.
#[derive(Debug, Clone, Copy, PartialEq, Eq, Structural)]
pub enum ArmTiming {
    /// The window is realized: ask now.
    Now,
    /// Ask from the window's `realize` handler, which runs before its first
    /// frame.
    OnRealize,
}

/// GTK3 picks GL or shared memory per frame based on whether the window
/// already has a paint GL context, so the context has to exist before the
/// first frame: at once for a realized window, else as it is realized.
pub fn arm_timing(realized: bool) -> (t: ArmTiming)
    ensures
        t == (if realized {
            ArmTiming::Now
        } else {
            ArmTiming::OnRealize
        }),
{
    if realized {
        ArmTiming::Now
    } else {
        ArmTiming::OnRealize
    }
}

/// What the quirk decided and whether it worked: off Linux it never runs;
/// on Linux it is what was last recorded, or `NotRun` where the record
/// cannot be read.
pub fn status(on_linux: bool, recorded: Option<&Status>) -> (r: Status)
    ensures
        !on_linux ==> r@ == (StatusView::NotAffected { reason: NotAffectedReason::NotLinux }),
        on_linux ==> r@ == match recorded {
            Some(s) => s@,
            None => StatusView::NotRun,
        },
{
    if !on_linux {
        return Status::NotAffected { reason: NotAffectedReason::NotLinux };
    }
    match recorded {
        Some(s) => s.duplicate(),
        None => Status::NotRun,
    }
}

} // verus!
