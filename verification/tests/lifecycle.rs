use tauri_plugin_wayland_nvidia_quirk::detect::Decision;
use tauri_plugin_wayland_nvidia_quirk::lifecycle::{
    arm, arm_timing, gl_context_result, plan, record, watch_failed, window_unavailable, ArmTiming,
    GlAttempt, Matched, Plan, WatchFailure,
};
use tauri_plugin_wayland_nvidia_quirk::{status, Error, NotAffectedReason, SessionType, Status};

fn matched() -> Matched {
    Matched {
        gpu: "0x10de".into(),
        driver: "nvidia".into(),
        session: SessionType::Wayland,
    }
}

#[test]
fn standing_down_records_why() {
    let mut slot = Status::NotRun;
    let d = Decision::Overridden("WEBKIT_DISABLE_DMABUF_RENDERER=1".into());
    assert!(matches!(plan(&d, &mut slot), Plan::StandDown));
    assert_eq!(
        slot,
        Status::Overridden {
            by: "WEBKIT_DISABLE_DMABUF_RENDERER=1".into()
        }
    );
    assert!(!slot.is_applied());

    let d = Decision::NotAffected(NotAffectedReason::NotNvidia);
    assert!(matches!(plan(&d, &mut slot), Plan::StandDown));
    assert_eq!(
        slot,
        Status::NotAffected {
            reason: NotAffectedReason::NotNvidia
        }
    );
}

#[test]
fn a_match_arms_and_leaves_the_status() {
    let mut slot = Status::NotRun;
    let d = Decision::Apply {
        gpu: "0x10de".into(),
        driver: "nvidia".into(),
        session: SessionType::Wayland,
    };
    match plan(&d, &mut slot) {
        Plan::Arm(m) => {
            assert_eq!(m.gpu, "0x10de");
            assert_eq!(m.driver, "nvidia");
            assert_eq!(m.session, SessionType::Wayland);
        }
        Plan::StandDown => panic!("should arm"),
    }
    assert_eq!(slot, Status::NotRun);
}

#[test]
fn planning_twice_is_planning_once() {
    let d = Decision::NotAffected(NotAffectedReason::NotWayland);
    let mut once = Status::NotRun;
    plan(&d, &mut once);
    let mut twice = once.clone();
    plan(&d, &mut twice);
    assert_eq!(once, twice);
}

#[test]
fn arming_records_the_outcome() {
    let mut slot = Status::NotRun;
    assert!(record(gl_context_result(GlAttempt::Created), &matched(), &mut slot).is_ok());
    assert_eq!(
        slot,
        Status::Applied {
            gpu: "0x10de".into(),
            driver: "nvidia".into(),
            session: SessionType::Wayland,
        }
    );
    assert!(slot.is_applied());

    let r = record(
        gl_context_result(GlAttempt::Refused("Unable to create a GL context".into())),
        &matched(),
        &mut slot,
    );
    assert!(matches!(r, Err(Error::GlContext(ref e)) if e == "Unable to create a GL context"));
    assert_eq!(
        slot,
        Status::Failed {
            error: "no GL context for the window: Unable to create a GL context".into()
        }
    );

    let r = record(gl_context_result(GlAttempt::NoGdkWindow), &matched(), &mut slot);
    assert!(matches!(r, Err(Error::Window(ref e)) if e == "the widget has no GdkWindow"));
    assert_eq!(
        slot,
        Status::Failed {
            error: "no GTK window for this Tauri window: the widget has no GdkWindow".into()
        }
    );
}

#[test]
fn a_missing_gtk_window_is_reported() {
    let mut slot = Status::NotRun;
    let e = window_unavailable("window not found".into(), &mut slot);
    assert_eq!(e.message(), "no GTK window for this Tauri window: window not found");
    assert_eq!(
        slot,
        Status::Failed {
            error: "no GTK window for this Tauri window: window not found".into()
        }
    );
}

#[test]
fn watch_failures_are_reported() {
    let mut slot = Status::NotRun;
    watch_failed(WatchFailure::NoApplication, &mut slot);
    assert_eq!(
        slot,
        Status::Failed {
            error: "no GtkApplication in this process".into()
        }
    );
    watch_failed(WatchFailure::NotGtkApplication, &mut slot);
    assert_eq!(
        slot,
        Status::Failed {
            error: "the default GApplication is not a GtkApplication".into()
        }
    );
    assert_eq!(
        WatchFailure::NoApplication.message(),
        "no GtkApplication in this process"
    );
}

#[test]
fn windows_are_armed_before_their_first_frame() {
    assert_eq!(arm_timing(true), ArmTiming::Now);
    assert_eq!(arm_timing(false), ArmTiming::OnRealize);
}

#[test]
fn status_reads_the_record() {
    assert_eq!(status(true, None), Status::NotRun);
    let recorded = Status::Overridden {
        by: "TAURI_WAYLAND_NVIDIA_QUIRK=0".into(),
    };
    assert_eq!(status(true, Some(&recorded)), recorded);
    assert_eq!(
        status(false, Some(&recorded)),
        Status::NotAffected {
            reason: NotAffectedReason::NotLinux
        }
    );
    assert_eq!(matched().status(), Status::Applied {
        gpu: "0x10de".into(),
        driver: "nvidia".into(),
        session: SessionType::Wayland,
    });
}

#[test]
fn error_messages_name_the_failure() {
    assert_eq!(
        Error::Window("boom".into()).message(),
        "no GTK window for this Tauri window: boom"
    );
    assert_eq!(
        Error::GlContext("boom".into()).message(),
        "no GL context for the window: boom"
    );
    assert_eq!(Status::NotRun.duplicate(), Status::NotRun);
}

#[test]
fn arming_records_how_gdk_answered() {
    let mut slot = Status::NotRun;
    assert!(arm(GlAttempt::Created, &matched(), &mut slot).is_ok());
    assert!(slot.is_applied());
    let r = arm(GlAttempt::NoGdkWindow, &matched(), &mut slot);
    assert!(matches!(r, Err(Error::Window(_))));
    assert_eq!(
        slot,
        Status::Failed {
            error: "no GTK window for this Tauri window: the widget has no GdkWindow".into()
        }
    );
    let r = arm(GlAttempt::Refused("no EGL".into()), &matched(), &mut slot);
    assert!(matches!(r, Err(Error::GlContext(_))));
    assert_eq!(
        slot,
        Status::Failed {
            error: "no GL context for the window: no EGL".into()
        }
    );
}

#[test]
fn applied_needs_a_decision_to_apply() {
    // under a decision to stand down, consulting never reports applied
    let mut slot = Status::NotRun;
    for d in [
        Decision::Overridden("TAURI_WAYLAND_NVIDIA_QUIRK=0".into()),
        Decision::NotAffected(NotAffectedReason::NotWayland),
        Decision::NotAffected(NotAffectedReason::NotNvidia),
    ] {
        assert!(matches!(plan(&d, &mut slot), Plan::StandDown));
        assert!(!slot.is_applied());
        assert_ne!(
            slot,
            Status::NotAffected {
                reason: NotAffectedReason::NotLinux
            }
        );
    }
}
