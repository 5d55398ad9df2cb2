use dwmrs::bar::{
    bar_title, rust_draw_bar, rust_draw_bars, rust_resize_bar_window, BarMetrics, BarText, Color,
    DrawCmd, Scheme,
};
use dwmrs::client::Client;
use dwmrs::events::{
    event_kind, run_step, rust_configure, rust_expose_event, rust_focus_in_event,
    rust_mapping_notify_event, rust_scan, x_error, EventKind, ExposeAction, RunAction, RunPhase,
    WindowInfo, BAD_ACCESS, BAD_DRAWABLE, BAD_MATCH, BAD_WINDOW, BUTTON_PRESS, CLIENT_MESSAGE,
    CONFIGURE_NOTIFY, CONFIGURE_REQUEST, DESTROY_NOTIFY, ENTER_NOTIFY, EXPOSE, FOCUS_IN, KEY_PRESS,
    MAPPING_KEYBOARD, MAPPING_NOTIFY, MAP_REQUEST, MOTION_NOTIFY, PROPERTY_NOTIFY, RESIZE_REQUEST,
    UNMAP_NOTIFY, X_CONFIGURE_WINDOW, X_GRAB_KEY, X_POLY_TEXT_8, X_SET_INPUT_FOCUS,
};
use dwmrs::geometry::Rect;
use dwmrs::monitor::Monitor;
use dwmrs::wm::{manage, Wm};

fn wm_with(n: usize) -> Wm {
    let mut mons = Vec::new();
    for i in 0..n {
        mons.push(Monitor::new(i as i32, Rect::new(1000 * i as i32, 0, 1000, 700)));
    }
    Wm::new(mons)
}

fn metrics() -> BarMetrics {
    BarMetrics { bh: 20, lrpad: 10, status_width: 100, arrow_width: 10, symbol_width: 24, font_height: 18 }
}

#[test]
fn protocol_codes_match_xlib() {
    assert_eq!(BAD_WINDOW, x11::xlib::BadWindow);
    assert_eq!(BAD_MATCH, x11::xlib::BadMatch);
    assert_eq!(BAD_DRAWABLE, x11::xlib::BadDrawable);
    assert_eq!(BAD_ACCESS, x11::xlib::BadAccess);
    assert_eq!(KEY_PRESS, x11::xlib::KeyPress);
    assert_eq!(BUTTON_PRESS, x11::xlib::ButtonPress);
    assert_eq!(MOTION_NOTIFY, x11::xlib::MotionNotify);
    assert_eq!(ENTER_NOTIFY, x11::xlib::EnterNotify);
    assert_eq!(FOCUS_IN, x11::xlib::FocusIn);
    assert_eq!(EXPOSE, x11::xlib::Expose);
    assert_eq!(DESTROY_NOTIFY, x11::xlib::DestroyNotify);
    assert_eq!(UNMAP_NOTIFY, x11::xlib::UnmapNotify);
    assert_eq!(MAP_REQUEST, x11::xlib::MapRequest);
    assert_eq!(CONFIGURE_NOTIFY, x11::xlib::ConfigureNotify);
    assert_eq!(CONFIGURE_REQUEST, x11::xlib::ConfigureRequest);
    assert_eq!(RESIZE_REQUEST, x11::xlib::ResizeRequest);
    assert_eq!(PROPERTY_NOTIFY, x11::xlib::PropertyNotify);
    assert_eq!(CLIENT_MESSAGE, x11::xlib::ClientMessage);
    assert_eq!(MAPPING_NOTIFY, x11::xlib::MappingNotify);
    assert_eq!(MAPPING_KEYBOARD, x11::xlib::MappingKeyboard);
}

#[test]
fn benign_errors_are_dropped() {
    assert!(x_error(0, BAD_WINDOW));
    assert!(x_error(X_SET_INPUT_FOCUS, BAD_MATCH));
    assert!(x_error(X_POLY_TEXT_8, BAD_DRAWABLE));
    assert!(x_error(X_CONFIGURE_WINDOW, BAD_MATCH));
    assert!(x_error(X_GRAB_KEY, BAD_ACCESS));
    assert!(!x_error(X_GRAB_KEY, BAD_MATCH));
    assert!(!x_error(X_CONFIGURE_WINDOW, BAD_ACCESS));
    assert!(!x_error(1, 2));
}

#[test]
fn events_route_to_their_handler() {
    assert_eq!(event_kind(EXPOSE), EventKind::Expose);
    assert_eq!(event_kind(MAP_REQUEST), EventKind::MapRequest);
    assert_eq!(event_kind(UNMAP_NOTIFY), EventKind::UnmapNotify);
    assert_eq!(event_kind(CLIENT_MESSAGE), EventKind::ClientMessage);
    assert_eq!(event_kind(3), EventKind::Ignored);
    assert_eq!(event_kind(99), EventKind::Ignored);
}

#[test]
fn run_loop_steps() {
    assert_eq!(run_step(RunPhase::Check, true, false), (RunPhase::Drain, RunAction::Continue));
    assert_eq!(run_step(RunPhase::Check, false, true), (RunPhase::Stopped, RunAction::Stop));
    assert_eq!(run_step(RunPhase::Drain, false, true), (RunPhase::Drain, RunAction::HandleEvent));
    assert_eq!(run_step(RunPhase::Drain, true, false), (RunPhase::Check, RunAction::DrawBarsAndSleep));
    assert_eq!(run_step(RunPhase::Stopped, true, true), (RunPhase::Stopped, RunAction::Stop));
}

#[test]
fn expose_redraws_on_last_of_series() {
    let wm = wm_with(2);
    assert_eq!(rust_expose_event(&wm, Some(0), 0), ExposeAction { redraw: Some(0), update_systray: true });
    assert_eq!(rust_expose_event(&wm, Some(1), 0), ExposeAction { redraw: Some(1), update_systray: false });
    assert_eq!(rust_expose_event(&wm, Some(1), 2), ExposeAction { redraw: None, update_systray: false });
    assert_eq!(rust_expose_event(&wm, None, 0), ExposeAction { redraw: None, update_systray: false });
}

#[test]
fn focus_in_returns_focus_to_selection() {
    let mut wm = wm_with(1);
    assert_eq!(rust_focus_in_event(&wm, 5), None);
    let a = manage(&mut wm, Client::new(42, Rect::new(0, 0, 10, 10), 1, 1, 0));
    assert_eq!(rust_focus_in_event(&wm, 42), None);
    assert_eq!(rust_focus_in_event(&wm, 43), Some(a));
}

#[test]
fn mapping_notify_regrabs_on_keyboard_change() {
    assert!(rust_mapping_notify_event(MAPPING_KEYBOARD));
    assert!(!rust_mapping_notify_event(0));
    assert!(!rust_mapping_notify_event(2));
}

#[test]
fn configure_reports_current_geometry() {
    let mut wm = wm_with(1);
    let a = manage(&mut wm, Client::new(42, Rect::new(3, 4, 50, 60), 2, 1, 0));
    let n = rust_configure(&wm, a);
    assert_eq!((n.window, n.x, n.y, n.width, n.height, n.border_width), (42, 3, 4, 50, 60, 2));
}

fn info(window: u64, transient: bool, viewable: bool, iconic: bool) -> WindowInfo {
    WindowInfo { window, attrs_ok: true, override_redirect: false, transient, viewable, iconic }
}

#[test]
fn scan_manages_transients_last() {
    let mut unreadable = info(5, false, true, false);
    unreadable.attrs_ok = false;
    let mut popup = info(6, false, true, false);
    popup.override_redirect = true;
    let ws = vec![
        info(1, true, true, false),
        info(2, false, true, false),
        info(3, false, false, true),
        info(4, false, false, false),
        unreadable,
        popup,
        info(7, true, false, false),
        info(8, true, false, true),
    ];
    assert_eq!(rust_scan(&ws), vec![2, 3, 1, 8]);
    assert!(rust_scan(&vec![]).is_empty());
}

#[test]
fn bar_head_plan() {
    let mut wm = wm_with(2);
    wm.monitors[0].tagset[0] = 0b011;
    let c = manage(&mut wm, Client::new(42, Rect::new(0, 0, 10, 10), 1, 0b100, 0));
    wm.clients[c].as_mut().unwrap().is_urgent = true;
    let plan = rust_draw_bar(&wm, 0, metrics());
    assert_eq!(plan.tw, 100 + 10 - 5 + 2);
    assert_eq!(plan.blw, 34);
    assert_eq!(plan.cmds.len(), 1 + 18 + 1);
    assert_eq!(
        plan.cmds[0],
        DrawCmd::Text { scheme: Scheme::Norm, x: 1000 - 107, y: 0, w: 107, h: 20, lpad: 3, text: BarText::Status, invert: false }
    );
    assert_eq!(
        plan.cmds[1],
        DrawCmd::Text { scheme: Scheme::Sel, x: 0, y: 0, w: 35, h: 20, lpad: 13, text: BarText::Tag(0), invert: false }
    );
    assert_eq!(
        plan.cmds[2],
        DrawCmd::Text {
            scheme: Scheme::Arrow { fg: Color::SelBg, bg: Color::NormBg },
            x: 35, y: 0, w: 10, h: 20, lpad: 0, text: BarText::Arrow, invert: false
        }
    );
    assert_eq!(
        plan.cmds[5],
        DrawCmd::Text { scheme: Scheme::Norm, x: 85, y: 0, w: 30, h: 20, lpad: 8, text: BarText::Tag(2), invert: true }
    );
    assert_eq!(
        plan.cmds[6],
        DrawCmd::Text {
            scheme: Scheme::Arrow { fg: Color::NormBg, bg: Color::NormBg },
            x: 115, y: 0, w: 10, h: 20, lpad: 0, text: BarText::Arrow, invert: false
        }
    );
    assert_eq!(
        plan.cmds[19],
        DrawCmd::Text { scheme: Scheme::Norm, x: 357, y: 0, w: 34, h: 20, lpad: 5, text: BarText::Symbol, invert: false }
    );
    let other = rust_draw_bar(&wm, 1, metrics());
    assert_eq!(other.tw, 0);
    assert_eq!(other.cmds.len(), 19);
    assert_eq!(rust_draw_bars(&wm, metrics()).len(), 2);
}

#[test]
fn bar_arrow_leads_into_selected_tag() {
    let mut wm = wm_with(1);
    wm.monitors[0].tagset[0] = 0b010;
    let plan = rust_draw_bar(&wm, 0, metrics());
    assert_eq!(
        plan.cmds[2],
        DrawCmd::Text {
            scheme: Scheme::Arrow { fg: Color::NormBg, bg: Color::SelBg },
            x: 35, y: 0, w: 10, h: 20, lpad: 0, text: BarText::Arrow, invert: false
        }
    );
}

#[test]
fn bar_tail_title_and_empty() {
    let mut wm = wm_with(1);
    let empty = bar_title(&wm, 0, metrics(), 107, 391);
    assert_eq!(
        empty,
        vec![DrawCmd::Rect { scheme: Scheme::Norm, x: 391, y: 0, w: 502, h: 20, filled: true, invert: true }]
    );
    let c = manage(&mut wm, Client::new(42, Rect::new(0, 0, 10, 10), 1, 1, 0));
    let title = bar_title(&wm, 0, metrics(), 107, 391);
    assert_eq!(
        title,
        vec![DrawCmd::Text { scheme: Scheme::Norm, x: 391, y: 0, w: 502, h: 20, lpad: 5, text: BarText::Title, invert: false }]
    );
    wm.clients[c].as_mut().unwrap().is_floating = true;
    wm.clients[c].as_mut().unwrap().is_fixed = true;
    let boxed = bar_title(&wm, 0, metrics(), 107, 391);
    assert_eq!(boxed[1], DrawCmd::Rect { scheme: Scheme::Norm, x: 393, y: 2, w: 5, h: 5, filled: true, invert: false });
    assert!(bar_title(&wm, 0, metrics(), 107, 880).is_empty());
}

#[test]
fn bar_window_geometry() {
    let mut wm = wm_with(2);
    wm.monitors[1].by = 680;
    assert_eq!(rust_resize_bar_window(&wm, 1, 20), Rect::new(1000, 680, 1000, 20));
}

use dwmrs::events::{configure_request, ConfigureAction, ConfigureRequest, CW_BORDER_WIDTH, CW_HEIGHT, CW_WIDTH, CW_X, CW_Y};

fn request(window: u64, value_mask: u32, x: i32, y: i32, width: i32, height: i32, border_width: i32) -> ConfigureRequest {
    ConfigureRequest { window, value_mask, x, y, width, height, border_width }
}

#[test]
fn configure_request_of_unmanaged_window_is_forwarded() {
    let mut wm = wm_with(1);
    assert_eq!(configure_request(&mut wm, request(9, CW_X, 1, 2, 3, 4, 5)), ConfigureAction::Forward);
}

#[test]
fn configure_request_border_width() {
    let mut wm = wm_with(1);
    let a = manage(&mut wm, Client::new(42, Rect::new(0, 0, 10, 10), 1, 1, 0));
    assert_eq!(configure_request(&mut wm, request(42, CW_BORDER_WIDTH, 0, 0, 0, 0, 4)), ConfigureAction::Border(a));
    assert_eq!(wm.clients[a].as_ref().unwrap().border_width, 4);
    assert_eq!(configure_request(&mut wm, request(42, CW_BORDER_WIDTH, 0, 0, 0, 0, -1)), ConfigureAction::Notify(a));
    assert_eq!(wm.clients[a].as_ref().unwrap().border_width, 4);
}

#[test]
fn configure_request_of_tiled_client_is_answered_with_geometry() {
    let mut wm = wm_with(1);
    let a = manage(&mut wm, Client::new(42, Rect::new(0, 0, 10, 10), 1, 1, 0));
    assert_eq!(configure_request(&mut wm, request(42, CW_WIDTH, 0, 0, 500, 0, 0)), ConfigureAction::Notify(a));
    assert_eq!(wm.clients[a].as_ref().unwrap().width, 10);
}

#[test]
fn configure_request_of_floating_client_moves_it() {
    let mut wm = wm_with(2);
    let a = manage(&mut wm, Client::new(42, Rect::new(1000, 0, 10, 10), 1, 1, 1));
    wm.clients[a].as_mut().unwrap().is_floating = true;
    let r = configure_request(&mut wm, request(42, CW_X | CW_Y, 20, 30, 0, 0, 0));
    assert_eq!(r, ConfigureAction::Moved { client: a, notify: true, visible: true });
    let c = wm.clients[a].as_ref().unwrap();
    assert_eq!((c.x, c.y, c.width, c.height, c.old_x, c.old_y), (1020, 30, 10, 10, 1000, 0));
    let r = configure_request(&mut wm, request(42, CW_X | CW_WIDTH | CW_HEIGHT, 900, 0, 300, 200, 0));
    assert_eq!(r, ConfigureAction::Moved { client: a, notify: false, visible: true });
    let c = wm.clients[a].as_ref().unwrap();
    assert_eq!((c.x, c.y, c.width, c.height), (1000 + 500 - 151, 30, 300, 200));
    let r = configure_request(&mut wm, request(42, CW_Y, 0, 0x7fff_fff0, 0, 0, 0));
    assert_eq!(r, ConfigureAction::Moved { client: a, notify: true, visible: true });
    assert_eq!(wm.clients[a].as_ref().unwrap().y, 350 - 101);
}

#[test]
fn scan_skips_override_redirect_transients() {
    let mut popup = info(11, true, true, false);
    popup.override_redirect = true;
    let ws = vec![popup, info(12, true, true, false)];
    assert_eq!(rust_scan(&ws), vec![12]);
}

#[test]
fn bar_on_other_monitor_needs_no_status_padding() {
    let mut wm = wm_with(2);
    wm.monitors[1].tagset[0] = 1;
    let small = BarMetrics { bh: 20, lrpad: 0, status_width: 100, arrow_width: 10, symbol_width: 24, font_height: 18 };
    let plan = rust_draw_bar(&wm, 1, small);
    assert_eq!(plan.tw, 0);
    assert_eq!(plan.blw, 24);
    assert_eq!(
        plan.cmds[18],
        DrawCmd::Text { scheme: Scheme::Norm, x: 357, y: 0, w: 24, h: 20, lpad: 0, text: BarText::Symbol, invert: false }
    );
}
