use sapp_linux::config::{
    choose_config, config_attributes, default_request, initialization_result, ChannelSizes,
};
use sapp_linux::error::{BootstrapError, HandleKind};
use sapp_linux::registry::{interface_kind, registry_add_object, BindRequest, GlobalKind};
use sapp_linux::session::{Event, LoopAction, Request, Session, Stage, WINDOW_HEIGHT, WINDOW_WIDTH};

fn bound_session() -> Session {
    let mut s = Session::new(1).unwrap();
    let c = registry_add_object(1, b"wl_compositor", 4).unwrap();
    s.record_binding(c.kind, 100);
    let w = registry_add_object(7, b"xdg_wm_base", 2).unwrap();
    s.record_binding(w.kind, 200);
    s.finish_registry().unwrap();
    s
}

fn presentable_session() -> Session {
    let mut s = configured_session();
    s.dispatch(&vec![Event::Configure { serial: 5 }]);
    s.request_native_window();
    s.bind_presentation(600, 700, 800).unwrap();
    s
}

fn configured_session() -> Session {
    let mut s = bound_session();
    s.create_surface();
    s.surface_created(300).unwrap();
    s.shell_surface_created(400).unwrap();
    s.toplevel_created(500).unwrap();
    s
}

#[test]
fn interface_identifiers_are_classified() {
    assert_eq!(interface_kind(b"wl_compositor"), Some(GlobalKind::Compositor));
    assert_eq!(interface_kind(b"xdg_wm_base"), Some(GlobalKind::Shell));
    assert_eq!(interface_kind(b"wl_shm"), None);
    assert_eq!(interface_kind(b"wl_compositorx"), None);
    assert_eq!(interface_kind(b"wl_composito"), None);
    assert_eq!(interface_kind(b""), None);
}

#[test]
fn required_globals_are_bound_at_version_one() {
    assert_eq!(
        registry_add_object(3, b"wl_compositor", 5),
        Some(BindRequest { kind: GlobalKind::Compositor, name: 3, version: 1 })
    );
    assert_eq!(
        registry_add_object(9, b"xdg_wm_base", 6),
        Some(BindRequest { kind: GlobalKind::Shell, name: 9, version: 1 })
    );
    assert_eq!(registry_add_object(2, b"wl_seat", 7), None);
}

#[test]
fn no_display_is_fatal() {
    let r = Session::new(0);
    assert!(matches!(r, Err(BootstrapError::NoDisplay)));
    let s = Session::new(7).unwrap();
    assert_eq!(s.display(), 7);
    assert_eq!(s.stage(), Stage::Negotiating);
    assert_eq!((s.compositor(), s.shell(), s.surface()), (0, 0, 0));
    assert_eq!(BootstrapError::NoDisplay.diagnostic(), "cannot reach display server");
}

#[test]
fn both_globals_advertised_bind_two_handles() {
    let s = bound_session();
    assert_eq!(s.compositor(), 100);
    assert_eq!(s.shell(), 200);
    assert_eq!(s.stage(), Stage::Uncreated);
}

#[test]
fn only_compositor_advertised_reports_missing_shell() {
    let mut s = Session::new(1).unwrap();
    for (name, iface) in [(1u32, &b"wl_compositor"[..]), (2, &b"wl_output"[..])] {
        if let Some(b) = registry_add_object(name, iface, 1) {
            s.record_binding(b.kind, 100);
        }
    }
    let r = s.finish_registry();
    assert_eq!(r, Err(BootstrapError::NoShell));
    assert_eq!(r.unwrap_err().diagnostic(), "no windowing shell");
    assert_eq!(s.stage(), Stage::Negotiating);
}

#[test]
fn no_compositor_advertised_is_fatal() {
    let mut s = Session::new(1).unwrap();
    s.record_binding(GlobalKind::Shell, 200);
    let r = s.finish_registry();
    assert_eq!(r, Err(BootstrapError::NoCompositor));
    assert_eq!(r.unwrap_err().diagnostic(), "no compositor");
}

#[test]
fn bindings_are_fixed_after_the_round_trip() {
    let mut s = bound_session();
    s.record_binding(GlobalKind::Compositor, 0);
    s.record_binding(GlobalKind::Shell, 999);
    assert_eq!(s.compositor(), 100);
    assert_eq!(s.shell(), 200);
}

#[test]
fn attribute_list_requests_eight_bits_per_channel() {
    let a = config_attributes(&default_request());
    assert_eq!(a, vec![0x3024, 8, 0x3023, 8, 0x3022, 8, 0x3038]);
}

#[test]
fn five_six_five_does_not_satisfy_eight_bit_request() {
    let offered = vec![ChannelSizes { red: 5, green: 6, blue: 5 }];
    let r = choose_config(&offered, &default_request());
    assert_eq!(r, Err(BootstrapError::NoMatchingConfig));
    assert_eq!(r.unwrap_err().diagnostic(), "no matching framebuffer configuration");
}

#[test]
fn first_satisfying_config_is_chosen() {
    let offered = vec![
        ChannelSizes { red: 5, green: 6, blue: 5 },
        ChannelSizes { red: 10, green: 10, blue: 10 },
        ChannelSizes { red: 8, green: 8, blue: 8 },
    ];
    assert_eq!(choose_config(&offered, &default_request()), Ok(1));
    assert_eq!(choose_config(&Vec::new(), &default_request()), Err(BootstrapError::NoMatchingConfig));
}

#[test]
fn surface_lifecycle_issues_requests_in_order() {
    let mut s = bound_session();
    assert_eq!(s.create_surface(), Request::CreateSurface { compositor: 100 });
    assert_eq!(s.surface_created(0), Err(BootstrapError::NullHandle(HandleKind::Surface)));
    assert_eq!(s.stage(), Stage::Uncreated);
    assert_eq!(s.surface_created(300), Ok(Request::GetShellSurface { shell: 200, surface: 300 }));
    assert_eq!(s.shell_surface_created(0), Err(BootstrapError::NullHandle(HandleKind::ShellSurface)));
    assert_eq!(s.shell_surface_created(400), Ok(Request::GetToplevel { shell_surface: 400 }));
    assert_eq!(s.toplevel_created(0), Err(BootstrapError::NullHandle(HandleKind::Toplevel)));
    assert_eq!(s.toplevel_created(500), Ok(Request::Commit { surface: 300 }));
    assert_eq!(s.stage(), Stage::AwaitingConfigure);
}

#[test]
fn initial_commit_configure_is_acknowledged_with_its_serial() {
    let mut s = configured_session();
    let r = s.dispatch(&vec![Event::Configure { serial: 42 }]);
    assert_eq!(
        r,
        vec![
            Request::AckConfigure { shell_surface: 400, serial: 42 },
            Request::Commit { surface: 300 },
        ]
    );
    assert_eq!(s.stage(), Stage::Committed);
}

#[test]
fn every_configure_is_acknowledged_before_its_commit() {
    let mut s = configured_session();
    let r = s.dispatch(&vec![
        Event::Configure { serial: 1 },
        Event::ToplevelConfigure { width: 640, height: 480 },
        Event::Configure { serial: 2 },
    ]);
    assert_eq!(
        r,
        vec![
            Request::AckConfigure { shell_surface: 400, serial: 1 },
            Request::Commit { surface: 300 },
            Request::AckConfigure { shell_surface: 400, serial: 2 },
            Request::Commit { surface: 300 },
        ]
    );
}

#[test]
fn empty_drain_changes_nothing() {
    let mut s = presentable_session();
    let r = s.dispatch(&Vec::new());
    assert!(r.is_empty());
    assert_eq!(s.stage(), Stage::Presentable);
    assert!(!s.is_closed());
    assert_eq!(s.next_action(), LoopAction::RenderAndPresent);
}

#[test]
fn no_frame_before_presentation() {
    let mut s = configured_session();
    assert_eq!(s.next_action(), LoopAction::Exit);
    s.dispatch(&vec![Event::Configure { serial: 3 }]);
    assert_eq!(s.next_action(), LoopAction::Exit);
    s.request_native_window();
    assert_eq!(s.next_action(), LoopAction::Exit);
    s.bind_presentation(600, 700, 800).unwrap();
    assert_eq!(s.next_action(), LoopAction::RenderAndPresent);
}

#[test]
fn close_on_third_iteration_stops_before_the_frame() {
    let mut s = presentable_session();
    let queues = vec![vec![], vec![], vec![Event::Close], vec![]];
    let mut frames = 0;
    let mut presents = 0;
    let mut iterations = 0;
    for q in queues.iter() {
        iterations += 1;
        s.dispatch(q);
        if s.next_action() == LoopAction::Exit {
            break;
        }
        frames += 1;
        presents += 1;
    }
    assert_eq!(iterations, 3);
    assert_eq!(frames, 2);
    assert_eq!(presents, 2);
}

#[test]
fn close_flag_stays_set() {
    let mut s = presentable_session();
    s.dispatch(&vec![Event::Close]);
    assert_eq!(s.next_action(), LoopAction::Exit);
    s.dispatch(&vec![Event::Configure { serial: 9 }, Event::ToplevelConfigure { width: 1, height: 1 }]);
    assert!(s.is_closed());
    assert_eq!(s.next_action(), LoopAction::Exit);
}

#[test]
fn presentation_checks_each_handle() {
    let mut s = configured_session();
    s.dispatch(&vec![Event::Configure { serial: 11 }]);
    assert_eq!(s.stage(), Stage::Committed);
    assert_eq!(
        s.request_native_window(),
        Request::CreateNativeWindow { surface: 300, width: 512, height: 512 }
    );
    assert_eq!((WINDOW_WIDTH, WINDOW_HEIGHT), (512, 512));
    assert_eq!(s.stage(), Stage::WindowRequested);
    assert_eq!(s.bind_presentation(0, 1, 1), Err(BootstrapError::NullHandle(HandleKind::NativeWindow)));
    assert_eq!(s.bind_presentation(1, 0, 1), Err(BootstrapError::NullHandle(HandleKind::Drawable)));
    assert_eq!(s.bind_presentation(1, 1, 0), Err(BootstrapError::NullHandle(HandleKind::Context)));
    assert_eq!(s.stage(), Stage::WindowRequested);
    assert_eq!(
        s.bind_presentation(1, 2, 3),
        Ok(Request::MakeCurrent { native_window: 1, drawable: 2, context: 3 })
    );
    assert_eq!(s.stage(), Stage::Presentable);
    assert_eq!((s.native_window(), s.drawable(), s.context()), (1, 2, 3));
}

#[test]
fn render_init_failure_has_a_diagnostic() {
    assert_eq!(
        BootstrapError::RenderInitFailed.diagnostic(),
        "cannot initialize the rendering display"
    );
    assert_eq!(
        BootstrapError::NullHandle(HandleKind::Surface).diagnostic(),
        "display server returned a null handle"
    );
}

#[test]
fn initialization_status_decides_success() {
    assert_eq!(initialization_result(0), Err(BootstrapError::RenderInitFailed));
    assert_eq!(initialization_result(1), Ok(()));
}

#[test]
fn globals_among_others_in_any_order_are_bound() {
    let mut s = Session::new(1).unwrap();
    let adverts: [(&[u8], u64); 4] =
        [(b"wl_shm", 11), (b"xdg_wm_base", 22), (b"wl_seat", 33), (b"wl_compositor", 44)];
    for (name, (iface, h)) in adverts.iter().enumerate() {
        if let Some(b) = registry_add_object(name as u32, iface, 3) {
            s.record_binding(b.kind, *h);
        }
    }
    assert_eq!(s.finish_registry(), Ok(()));
    assert_eq!((s.compositor(), s.shell()), (44, 22));
}
