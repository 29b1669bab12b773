use tauri_plugin_wayland_nvidia_quirk::detect::{
    decide, enumerate_gpus, gpu_from_entry, nvidia_target, parse_gdk_backend, session_type,
    Decision, DrmEntry, Env, Gpu,
};
use tauri_plugin_wayland_nvidia_quirk::{NotAffectedReason, SessionType};

fn wayland_env() -> Env {
    Env {
        xdg_session_type: Some("wayland".into()),
        ..Default::default()
    }
}

/// A card entry as `/sys/class/drm` shows it.
fn card(name: &str, vendor: &str, driver: Option<&str>, primary: bool) -> DrmEntry {
    DrmEntry {
        name: Some(name.to_string()),
        vendor: Some(format!("{vendor}\n")),
        boot_vga: if primary { Some("1\n".to_string()) } else { None },
        boot_display: None,
        driver_link: driver.map(|d| format!("../../../../bus/pci/drivers/{d}")),
    }
}

/// A connector or render node entry, with no `device` directory.
fn connector(name: &str) -> DrmEntry {
    DrmEntry {
        name: Some(name.to_string()),
        ..Default::default()
    }
}

#[test]
fn gdk_backend_first_recognized_entry_wins() {
    assert_eq!(parse_gdk_backend(None), None);
    assert_eq!(parse_gdk_backend(Some("")), None);
    assert_eq!(parse_gdk_backend(Some("*")), None);
    assert_eq!(
        parse_gdk_backend(Some("wayland")),
        Some(SessionType::Wayland)
    );
    assert_eq!(parse_gdk_backend(Some("x11")), Some(SessionType::X11));
    assert_eq!(
        parse_gdk_backend(Some("wayland,x11")),
        Some(SessionType::Wayland)
    );
    assert_eq!(
        parse_gdk_backend(Some("x11,wayland")),
        Some(SessionType::X11)
    );
    assert_eq!(
        parse_gdk_backend(Some(" wayland , x11 ")),
        Some(SessionType::Wayland)
    );
}

#[test]
fn unrecognized_gdk_backend_entries_are_skipped_not_fatal() {
    assert_eq!(
        parse_gdk_backend(Some("broadway,wayland")),
        Some(SessionType::Wayland)
    );
    assert_eq!(parse_gdk_backend(Some("broadway")), None);
}

#[test]
fn gdk_backend_outranks_session_type() {
    let env = Env {
        gdk_backend: Some("x11".into()),
        xdg_session_type: Some("wayland".into()),
        ..Default::default()
    };
    assert_eq!(session_type(&env), SessionType::X11);
}

#[test]
fn socket_variables_cover_a_scrubbed_environment() {
    let env = Env {
        wayland_display: Some("wayland-0".into()),
        ..Default::default()
    };
    assert_eq!(session_type(&env), SessionType::Wayland);

    let env = Env {
        wayland_socket: Some("7".into()),
        ..Default::default()
    };
    assert_eq!(session_type(&env), SessionType::Wayland);

    assert_eq!(session_type(&Env::default()), SessionType::Unknown);
}

#[test]
fn display_alone_means_x11() {
    let env = Env {
        display: Some(":0".into()),
        ..Default::default()
    };
    assert_eq!(session_type(&env), SessionType::X11);
}

#[test]
fn enumerates_cards_and_ignores_connectors() {
    let entries = vec![
        card("card1", "0x10de", Some("nvidia"), true),
        connector("card1-DP-1"),
        connector("renderD128"),
    ];

    let gpus = enumerate_gpus(&entries);
    assert_eq!(gpus.len(), 1);
    assert_eq!(gpus[0].card, "card1");
    assert_eq!(gpus[0].vendor, Some(0x10de));
    assert_eq!(gpus[0].driver.as_deref(), Some("nvidia"));
    assert!(gpus[0].primary);
}

#[test]
fn missing_drm_directory_is_not_a_panic() {
    assert!(enumerate_gpus(&[]).is_empty());
}

#[test]
fn nouveau_is_not_a_match() {
    let entries = vec![card("card0", "0x10de", Some("nouveau"), true)];
    assert_eq!(
        decide(&wayland_env(), &entries),
        Decision::NotAffected(NotAffectedReason::NotNvidia)
    );
}

#[test]
fn amd_is_not_a_match() {
    let entries = vec![card("card0", "0x1002", Some("amdgpu"), true)];
    assert_eq!(
        decide(&wayland_env(), &entries),
        Decision::NotAffected(NotAffectedReason::NotNvidia)
    );
}

#[test]
fn nvidia_on_wayland_is_a_match() {
    let entries = vec![card("card1", "0x10de", Some("nvidia"), true)];
    assert_eq!(
        decide(&wayland_env(), &entries),
        Decision::Apply {
            gpu: "0x10de".into(),
            driver: "nvidia".into(),
            session: SessionType::Wayland,
        }
    );
}

#[test]
fn nvidia_on_x11_is_left_alone() {
    let entries = vec![card("card1", "0x10de", Some("nvidia"), true)];
    let env = Env {
        xdg_session_type: Some("x11".into()),
        ..Default::default()
    };
    assert_eq!(
        decide(&env, &entries),
        Decision::NotAffected(NotAffectedReason::NotWayland)
    );
}

#[test]
fn hybrid_laptop_rendering_on_the_igpu_is_left_alone() {
    let entries = vec![
        card("card0", "0x8086", Some("i915"), true),
        card("card1", "0x10de", Some("nvidia"), false),
    ];
    assert_eq!(
        decide(&wayland_env(), &entries),
        Decision::NotAffected(NotAffectedReason::NotNvidia)
    );
}

#[test]
fn hybrid_laptop_under_prime_offload_is_a_match() {
    let entries = vec![
        card("card0", "0x8086", Some("i915"), true),
        card("card1", "0x10de", Some("nvidia"), false),
    ];
    let env = Env {
        prime_offload: Some("1".into()),
        ..wayland_env()
    };
    assert!(matches!(decide(&env, &entries), Decision::Apply { .. }));
}

#[test]
fn no_primary_marked_falls_back_to_any_nvidia() {
    let entries = vec![card("card1", "0x10de", Some("nvidia"), false)];
    assert!(matches!(
        decide(&wayland_env(), &entries),
        Decision::Apply { .. }
    ));
}

#[test]
fn quirk_can_be_switched_off() {
    let entries = vec![card("card1", "0x10de", Some("nvidia"), true)];
    let env = Env {
        force: Some("0".into()),
        ..wayland_env()
    };
    assert_eq!(
        decide(&env, &entries),
        Decision::Overridden("TAURI_WAYLAND_NVIDIA_QUIRK=0".into())
    );
}

#[test]
fn quirk_can_be_forced_on_undetected_hardware() {
    let env = Env {
        force: Some("1".into()),
        ..Default::default()
    };
    assert!(matches!(decide(&env, &[]), Decision::Apply { .. }));
}

#[test]
fn dmabuf_override_wins_over_detection() {
    let entries = vec![card("card1", "0x10de", Some("nvidia"), true)];
    let env = Env {
        webkit_disable_dmabuf: Some("1".into()),
        ..wayland_env()
    };
    assert_eq!(
        decide(&env, &entries),
        Decision::Overridden("WEBKIT_DISABLE_DMABUF_RENDERER=1".into())
    );
}

#[test]
fn explicit_on_beats_the_dmabuf_override() {
    let entries = vec![card("card1", "0x10de", Some("nvidia"), true)];
    let env = Env {
        force: Some("1".into()),
        webkit_disable_dmabuf: Some("1".into()),
        ..wayland_env()
    };
    assert!(matches!(decide(&env, &entries), Decision::Apply { .. }));
}

// ---------------------------------------------------------------------------

#[test]
fn forced_on_without_hardware_reports_unknown_gpu_and_the_session() {
    let env = Env {
        force: Some("1".into()),
        display: Some(":0".into()),
        ..Default::default()
    };
    assert_eq!(
        decide(&env, &[]),
        Decision::Apply {
            gpu: "unknown".into(),
            driver: "unknown".into(),
            session: SessionType::X11,
        }
    );
}

#[test]
fn forced_on_with_a_driverless_card_reports_unknown_driver() {
    let entries = vec![card("card0", "0x10de", None, true)];
    let env = Env {
        force: Some("1".into()),
        ..wayland_env()
    };
    assert_eq!(
        decide(&env, &entries),
        Decision::Apply {
            gpu: "unknown".into(),
            driver: "unknown".into(),
            session: SessionType::Wayland,
        }
    );
}

#[test]
fn forcing_a_match_changes_nothing() {
    let entries = vec![
        card("card0", "0x8086", Some("i915"), false),
        card("card1", "0x10de", Some("nvidia"), false),
    ];
    let detected = decide(&wayland_env(), &entries);
    assert!(matches!(detected, Decision::Apply { .. }));
    let env = Env {
        force: Some("1".into()),
        ..wayland_env()
    };
    assert_eq!(decide(&env, &entries), detected);
}

#[test]
fn other_force_values_do_not_force() {
    let entries = vec![card("card1", "0x10de", Some("nvidia"), true)];
    let env = Env {
        force: Some("yes".into()),
        xdg_session_type: Some("x11".into()),
        ..Default::default()
    };
    assert_eq!(
        decide(&env, &entries),
        Decision::NotAffected(NotAffectedReason::NotWayland)
    );
}

#[test]
fn xdg_session_type_beats_the_sockets() {
    let env = Env {
        xdg_session_type: Some("x11".into()),
        wayland_display: Some("wayland-0".into()),
        ..Default::default()
    };
    assert_eq!(session_type(&env), SessionType::X11);
    let env = Env {
        xdg_session_type: Some("tty".into()),
        display: Some(":0".into()),
        wayland_socket: Some("3".into()),
        ..Default::default()
    };
    assert_eq!(session_type(&env), SessionType::Wayland);
}

#[test]
fn unrecognized_gdk_backend_falls_through_to_session_type() {
    let env = Env {
        gdk_backend: Some("broadway".into()),
        xdg_session_type: Some("wayland".into()),
        ..Default::default()
    };
    assert_eq!(session_type(&env), SessionType::Wayland);
}

#[test]
fn gdk_backend_list_is_read_left_to_right() {
    // "a,b": the first of a's entries that names a backend wins
    assert_eq!(
        parse_gdk_backend(Some("broadway, x11 ,wayland")),
        Some(SessionType::X11)
    );
    assert_eq!(parse_gdk_backend(Some(",,\twayland\n")), Some(SessionType::Wayland));
    assert_eq!(parse_gdk_backend(Some("Wayland")), None);
    assert_eq!(parse_gdk_backend(Some("way land")), None);
}

#[test]
fn verbosity_needs_exactly_one() {
    let mut env = Env::default();
    assert!(!env.is_verbose());
    env.verbose = Some("1".into());
    assert!(env.is_verbose());
    env.verbose = Some("true".into());
    assert!(!env.is_verbose());
}

#[test]
fn gpus_come_out_ordered_by_card_name() {
    let entries = vec![
        card("card2", "0x1002", Some("amdgpu"), false),
        card("card10", "0x10de", Some("nvidia"), false),
        card("card1", "0x8086", Some("i915"), true),
    ];
    let gpus = enumerate_gpus(&entries);
    let names: Vec<&str> = gpus.iter().map(|g| g.card.as_str()).collect();
    assert_eq!(names, vec!["card1", "card10", "card2"]);
}

#[test]
fn gpus_with_the_same_card_name_keep_their_order() {
    let entries = vec![
        card("card1", "0x10de", Some("nvidia"), false),
        card("card0", "0x8086", Some("i915"), false),
        card("card1", "0x1002", Some("amdgpu"), false),
    ];
    let gpus = enumerate_gpus(&entries);
    let vendors: Vec<Option<u32>> = gpus.iter().map(|g| g.vendor).collect();
    assert_eq!(vendors, vec![Some(0x8086), Some(0x10de), Some(0x1002)]);
}

#[test]
fn entries_that_are_not_cards_are_skipped() {
    assert_eq!(gpu_from_entry(&connector("renderD128")), None);
    assert_eq!(gpu_from_entry(&connector("card0-eDP-1")), None);
    assert_eq!(gpu_from_entry(&DrmEntry::default()), None);
    assert_eq!(gpu_from_entry(&connector("Card0")), None);
}

#[test]
fn sysfs_files_are_read_leniently() {
    let entry = DrmEntry {
        name: Some("card0".into()),
        vendor: Some("  0x0x10DE \n".into()),
        boot_vga: Some("0\n".into()),
        boot_display: Some(" 1 ".into()),
        driver_link: Some("/sys/bus/pci/drivers/nvidia/".into()),
    };
    assert_eq!(
        gpu_from_entry(&entry),
        Some(Gpu {
            card: "card0".into(),
            vendor: Some(0x10de),
            driver: Some("nvidia".into()),
            primary: true,
        })
    );
    let entry = DrmEntry {
        name: Some("card0".into()),
        vendor: Some("vendor?\n".into()),
        boot_vga: Some("11\n".into()),
        boot_display: None,
        driver_link: Some("../drivers/..".into()),
    };
    assert_eq!(
        gpu_from_entry(&entry),
        Some(Gpu {
            card: "card0".into(),
            vendor: None,
            driver: None,
            primary: false,
        })
    );
}

#[test]
fn nvidia_target_prefers_the_primary_nvidia_gpu() {
    let gpu = |card: &str, vendor: u32, driver: &str, primary: bool| Gpu {
        card: card.into(),
        vendor: Some(vendor),
        driver: Some(driver.into()),
        primary,
    };
    let gpus = vec![
        gpu("card0", 0x10de, "nvidia", false),
        gpu("card1", 0x10de, "nvidia", true),
    ];
    assert_eq!(nvidia_target(&gpus, false).map(|g| g.card.as_str()), Some("card1"));
    assert_eq!(nvidia_target(&gpus, true).map(|g| g.card.as_str()), Some("card0"));
    let gpus = vec![gpu("card0", 0x10de, "nouveau", false), gpu("card1", 0x1002, "nvidia", false)];
    assert!(nvidia_target(&gpus, false).is_none());
    assert!(nvidia_target(&[], true).is_none());
    assert!(gpus[0].is_nvidia() == false);
    assert!(gpu("card2", 0x10de, "nvidia", false).is_nvidia());
}

#[test]
fn reported_vendor_reads_back() {
    let entries = vec![card("card3", "0x10de", Some("nvidia"), true)];
    let reported = match decide(&wayland_env(), &entries) {
        Decision::Apply { gpu, .. } => gpu,
        other => panic!("{other:?}"),
    };
    assert_eq!(reported, "0x10de");
    let again = gpu_from_entry(&card("card3", &reported, None, false)).unwrap();
    assert_eq!(again.vendor, Some(0x10de));
    let label = tauri_plugin_wayland_nvidia_quirk::text::format_hex_label(0xab);
    let again = gpu_from_entry(&card("card4", &label, None, false)).unwrap();
    assert_eq!(again.vendor, Some(0xab));
}

#[test]
fn directory_cards_come_once_in_ascending_order() {
    let entries = vec![
        card("card3", "0x1002", Some("amdgpu"), false),
        connector("card3-HDMI-A-1"),
        card("card0", "0x8086", Some("i915"), true),
        connector("renderD129"),
        card("card1", "0x10de", Some("nvidia"), false),
        connector("version"),
    ];
    let gpus = enumerate_gpus(&entries);
    let names: Vec<&str> = gpus.iter().map(|g| g.card.as_str()).collect();
    assert_eq!(names, vec!["card0", "card1", "card3"]);
}

#[test]
fn no_decision_says_not_linux() {
    let entries = vec![card("card1", "0x10de", Some("nvidia"), true)];
    for env in [
        Env::default(),
        wayland_env(),
        Env { force: Some("0".into()), ..Default::default() },
        Env { webkit_disable_dmabuf: Some("1".into()), ..wayland_env() },
    ] {
        assert_ne!(
            decide(&env, &entries),
            Decision::NotAffected(NotAffectedReason::NotLinux)
        );
    }
}
