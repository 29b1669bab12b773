//! Types reported back to the host application.

use vstd::prelude::*;

verus! {

/// The display server the process decided it is talking to.
#[derive(Debug, Clone, Copy, PartialEq, Eq, Structural)]
pub enum SessionType {
    /// A Wayland session, where the bug lives.
    Wayland,
    /// An X11 session, including XWayland.
    X11,
    /// Nothing in the environment said either way.
    Unknown,
}

/// Why the quirk decided to stay out of the way.
#[derive(Debug, Clone, Copy, PartialEq, Eq, Structural)]
#[non_exhaustive]
pub enum NotAffectedReason {
    /// Built for a target that is not Linux.
    NotLinux,
    /// The session is X11, or no display server could be identified.
    NotWayland,
    /// No GPU bound to the `nvidia` kernel driver drives the display.
    NotNvidia,
}

/// What the quirk did, for diagnostics and bug reports.
#[derive(Debug, Clone, PartialEq, Eq)]
#[non_exhaustive]
pub enum Status {
    /// Nothing has run yet: the plugin's setup hook has not been reached.
    NotRun,
    /// A GL paint context was forced on at least one window.
    Applied {
        /// PCI vendor of the GPU that made this system a match, e.g. `0x10de`.
        gpu: String,
        /// Kernel driver bound to it, e.g. `nvidia`.
        driver: String,
        /// The display server that was detected.
        session: SessionType,
    },
    /// This system does not have the bug.
    NotAffected {
        /// Which check ruled this system out.
        reason: NotAffectedReason,
    },
    /// An environment variable told the quirk to stand down.
    Overridden {
        /// The variable and value that switched the quirk off, e.g.
        /// `WEBKIT_DISABLE_DMABUF_RENDERER=1`.
        by: String,
    },
    /// The system matched but GDK would not hand over a GL context. The app
    /// will most likely still hit the protocol error.
    Failed {
        /// What GDK reported.
        error: String,
    },
}

/// A [`Status`] with its texts as character sequences.
pub enum StatusView {
    NotRun,
    Applied { gpu: Seq<char>, driver: Seq<char>, session: SessionType },
    NotAffected { reason: NotAffectedReason },
    Overridden { by: Seq<char> },
    Failed { error: Seq<char> },
}

impl View for Status {
    type V = StatusView;

    open spec fn view(&self) -> StatusView {
        match self {
            Status::NotRun => StatusView::NotRun,
            Status::Applied { gpu, driver, session } => StatusView::Applied {
                gpu: gpu@,
                driver: driver@,
                session: *session,
            },
            Status::NotAffected { reason } => StatusView::NotAffected { reason: *reason },
            Status::Overridden { by } => StatusView::Overridden { by: by@ },
            Status::Failed { error } => StatusView::Failed { error: error@ },
        }
    }
}

impl Status {
    /// Whether the workaround is in effect.
    pub fn is_applied(&self) -> (r: bool)
        ensures
            r == (self is Applied),
    {
        matches!(self, Status::Applied { .. })
    }

    /// A copy of this status, field for field.
    pub fn duplicate(&self) -> (r: Status)
        ensures
            r@ == self@,
    {
        match self {
            Status::NotRun => Status::NotRun,
            Status::Applied { gpu, driver, session } => Status::Applied {
                gpu: gpu.clone(),
                driver: driver.clone(),
                session: *session,
            },
            Status::NotAffected { reason } => Status::NotAffected { reason: *reason },
            Status::Overridden { by } => Status::Overridden { by: by.clone() },
            Status::Failed { error } => Status::Failed { error: error.clone() },
        }
    }
}

/// Failure to apply the quirk to a specific window.
#[derive(Debug, Clone)]
#[non_exhaustive]
pub enum Error {
    /// Tauri could not hand back the underlying `gtk::ApplicationWindow`.
    Window(String),
    /// `gdk_window_create_gl_context()` failed.
    GlContext(String),
}

impl Error {
    /// The human-readable form of the error.
    pub open spec fn describe(&self) -> Seq<char> {
        match self {
            Error::Window(e) => "no GTK window for this Tauri window: "@ + e@,
            Error::GlContext(e) => "no GL context for the window: "@ + e@,
        }
    }

    /// The human-readable form of the error.
    pub fn message(&self) -> (r: String)
        ensures
            r@ == self.describe(),
    {
        match self {
            Error::Window(e) => {
                let mut r = String::from_str("no GTK window for this Tauri window: ");
                r.append(e.as_str());
                r
            },
            Error::GlContext(e) => {
                let mut r = String::from_str("no GL context for the window: ");
                r.append(e.as_str());
                r
            },
        }
    }
}

} // verus!
