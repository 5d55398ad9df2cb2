use vstd::prelude::*;
use crate::client::Client;
use crate::monitor::Monitor;
use crate::wm::{rust_window_to_client, shows, Wm};

verus! {

/// X protocol error code: the window does not exist.
pub const BAD_WINDOW: u8 = 3;
/// X protocol error code: a parameter does not match.
pub const BAD_MATCH: u8 = 8;
/// X protocol error code: the drawable does not exist.
pub const BAD_DRAWABLE: u8 = 9;
/// X protocol error code: access denied.
pub const BAD_ACCESS: u8 = 10;

/// X protocol request codes.
pub const X_CONFIGURE_WINDOW: u8 = 12;
pub const X_GRAB_BUTTON: u8 = 28;
pub const X_GRAB_KEY: u8 = 33;
pub const X_SET_INPUT_FOCUS: u8 = 42;
pub const X_COPY_AREA: u8 = 62;
pub const X_POLY_SEGMENT: u8 = 66;
pub const X_POLY_FILL_RECTANGLE: u8 = 70;
pub const X_POLY_TEXT_8: u8 = 74;

/// X event type codes.
pub const KEY_PRESS: i32 = 2;
pub const BUTTON_PRESS: i32 = 4;
pub const MOTION_NOTIFY: i32 = 6;
pub const ENTER_NOTIFY: i32 = 7;
pub const FOCUS_IN: i32 = 9;
pub const EXPOSE: i32 = 12;
pub const DESTROY_NOTIFY: i32 = 17;
pub const UNMAP_NOTIFY: i32 = 18;
pub const MAP_REQUEST: i32 = 20;
pub const CONFIGURE_NOTIFY: i32 = 22;
pub const CONFIGURE_REQUEST: i32 = 23;
pub const RESIZE_REQUEST: i32 = 25;
pub const PROPERTY_NOTIFY: i32 = 28;
pub const CLIENT_MESSAGE: i32 = 33;
pub const MAPPING_NOTIFY: i32 = 34;

/// Mapping-notify request: the keyboard mapping changed.
pub const MAPPING_KEYBOARD: i32 = 1;

/// An error that comes from a benign race (a window gone mid-request) and is
/// dropped: any bad-window error, and the listed request and error pairs.
pub open spec fn benign_error(request_code: u8, error_code: u8) -> bool {
    ||| error_code == BAD_WINDOW
    ||| (request_code == X_SET_INPUT_FOCUS && error_code == BAD_MATCH)
    ||| (request_code == X_POLY_TEXT_8 && error_code == BAD_DRAWABLE)
    ||| (request_code == X_POLY_FILL_RECTANGLE && error_code == BAD_DRAWABLE)
    ||| (request_code == X_POLY_SEGMENT && error_code == BAD_DRAWABLE)
    ||| (request_code == X_CONFIGURE_WINDOW && error_code == BAD_MATCH)
    ||| (request_code == X_GRAB_BUTTON && error_code == BAD_ACCESS)
    ||| (request_code == X_GRAB_KEY && error_code == BAD_ACCESS)
    ||| (request_code == X_COPY_AREA && error_code == BAD_DRAWABLE)
}

/// Whether a protocol error is to be dropped; any other is fatal.
pub fn x_error(request_code: u8, error_code: u8) -> (r: bool)
    ensures
        r == benign_error(request_code, error_code),
{
    error_code == BAD_WINDOW || (request_code == X_SET_INPUT_FOCUS && error_code == BAD_MATCH)
        || (request_code == X_POLY_TEXT_8 && error_code == BAD_DRAWABLE) || (request_code
        == X_POLY_FILL_RECTANGLE && error_code == BAD_DRAWABLE) || (request_code == X_POLY_SEGMENT
        && error_code == BAD_DRAWABLE) || (request_code == X_CONFIGURE_WINDOW && error_code
        == BAD_MATCH) || (request_code == X_GRAB_BUTTON && error_code == BAD_ACCESS) || (
    request_code == X_GRAB_KEY && error_code == BAD_ACCESS) || (request_code == X_COPY_AREA
        && error_code == BAD_DRAWABLE)
}

/// The handler an event goes to.
#[derive(Clone, Copy, Debug, PartialEq, Eq, Structural)]
pub enum EventKind {
    ButtonPress,
    ClientMessage,
    ConfigureRequest,
    ConfigureNotify,
    DestroyNotify,
    EnterNotify,
    Expose,
    FocusIn,
    KeyPress,
    MappingNotify,
    MapRequest,
    MotionNotify,
    PropertyNotify,
    ResizeRequest,
    UnmapNotify,
    /// Events without a handler; they are dropped.
    Ignored,
}

pub open spec fn kind_of(t: i32) -> EventKind {
    if t == BUTTON_PRESS {
        EventKind::ButtonPress
    } else if t == CLIENT_MESSAGE {
        EventKind::ClientMessage
    } else if t == CONFIGURE_REQUEST {
        EventKind::ConfigureRequest
    } else if t == CONFIGURE_NOTIFY {
        EventKind::ConfigureNotify
    } else if t == DESTROY_NOTIFY {
        EventKind::DestroyNotify
    } else if t == ENTER_NOTIFY {
        EventKind::EnterNotify
    } else if t == EXPOSE {
        EventKind::Expose
    } else if t == FOCUS_IN {
        EventKind::FocusIn
    } else if t == KEY_PRESS {
        EventKind::KeyPress
    } else if t == MAPPING_NOTIFY {
        EventKind::MappingNotify
    } else if t == MAP_REQUEST {
        EventKind::MapRequest
    } else if t == MOTION_NOTIFY {
        EventKind::MotionNotify
    } else if t == PROPERTY_NOTIFY {
        EventKind::PropertyNotify
    } else if t == RESIZE_REQUEST {
        EventKind::ResizeRequest
    } else if t == UNMAP_NOTIFY {
        EventKind::UnmapNotify
    } else {
        EventKind::Ignored
    }
}

/// Routes an event by its type code to the handler that owns it.
pub fn event_kind(t: i32) -> (r: EventKind)
    ensures
        r == kind_of(t),
{
    if t == BUTTON_PRESS {
        EventKind::ButtonPress
    } else if t == CLIENT_MESSAGE {
        EventKind::ClientMessage
    } else if t == CONFIGURE_REQUEST {
        EventKind::ConfigureRequest
    } else if t == CONFIGURE_NOTIFY {
        EventKind::ConfigureNotify
    } else if t == DESTROY_NOTIFY {
        EventKind::DestroyNotify
    } else if t == ENTER_NOTIFY {
        EventKind::EnterNotify
    } else if t == EXPOSE {
        EventKind::Expose
    } else if t == FOCUS_IN {
        EventKind::FocusIn
    } else if t == KEY_PRESS {
        EventKind::KeyPress
    } else if t == MAPPING_NOTIFY {
        EventKind::MappingNotify
    } else if t == MAP_REQUEST {
        EventKind::MapRequest
    } else if t == MOTION_NOTIFY {
        EventKind::MotionNotify
    } else if t == PROPERTY_NOTIFY {
        EventKind::PropertyNotify
    } else if t == RESIZE_REQUEST {
        EventKind::ResizeRequest
    } else if t == UNMAP_NOTIFY {
        EventKind::UnmapNotify
    } else {
        EventKind::Ignored
    }
}

/// Where the event loop stands.
#[derive(Clone, Copy, Debug, PartialEq, Eq, Structural)]
pub enum RunPhase {
    /// Between iterations: the running flag is read here.
    Check,
    /// Draining the queued events.
    Drain,
    /// The loop has ended.
    Stopped,
}

/// What the event loop does next.
#[derive(Clone, Copy, Debug, PartialEq, Eq, Structural)]
pub enum RunAction {
    /// Go on to the next step.
    Continue,
    /// Take the next queued event and dispatch it.
    HandleEvent,
    /// Repaint every bar, then sleep for the polling interval.
    DrawBarsAndSleep,
    /// Leave the loop.
    Stop,
}

/// One step of the event loop, from its phase, the running flag and whether
/// events are queued. The flag is read only between iterations: an iteration
/// drains the queue, then repaints the bars and sleeps.
pub fn run_step(phase: RunPhase, running: bool, pending: bool) -> (r: (RunPhase, RunAction))
    ensures
        r == match phase {
            RunPhase::Check => if running {
                (RunPhase::Drain, RunAction::Continue)
            } else {
                (RunPhase::Stopped, RunAction::Stop)
            },
            RunPhase::Drain => if pending {
                (RunPhase::Drain, RunAction::HandleEvent)
            } else {
                (RunPhase::Check, RunAction::DrawBarsAndSleep)
            },
            RunPhase::Stopped => (RunPhase::Stopped, RunAction::Stop),
        },
{
    match phase {
        RunPhase::Check => if running {
            (RunPhase::Drain, RunAction::Continue)
        } else {
            (RunPhase::Stopped, RunAction::Stop)
        },
        RunPhase::Drain => if pending {
            (RunPhase::Drain, RunAction::HandleEvent)
        } else {
            (RunPhase::Check, RunAction::DrawBarsAndSleep)
        },
        RunPhase::Stopped => (RunPhase::Stopped, RunAction::Stop),
    }
}

/// What an expose event asks for.
#[derive(Clone, Copy, Debug, PartialEq, Eq, Structural)]
pub struct ExposeAction {
    /// The monitor whose bar is to be redrawn.
    pub redraw: Option<usize>,
    /// Whether the system tray is to be updated too.
    pub update_systray: bool,
}

/// Handles an expose event on the window of monitor `monitor` (as the
/// protocol side resolved it): on the last expose of a series (`count` 0),
/// that monitor's bar is redrawn, and the tray too when it is the selected
/// monitor.
pub fn rust_expose_event(wm: &Wm, monitor: Option<usize>, count: i32) -> (r: ExposeAction)
    ensures
        r == if count == 0 && monitor is Some {
            ExposeAction { redraw: monitor, update_systray: monitor == Some(wm.selmon) }
        } else {
            ExposeAction { redraw: None, update_systray: false }
        },
{
    match monitor {
        Some(m) => if count == 0 {
            ExposeAction { redraw: Some(m), update_systray: m == wm.selmon }
        } else {
            ExposeAction { redraw: None, update_systray: false }
        },
        None => ExposeAction { redraw: None, update_systray: false },
    }
}

/// Handles a focus-in event on `window`: when the selected monitor has a
/// selected client other than that window's, the input focus is to go back
/// to that client, which is returned.
pub fn rust_focus_in_event(wm: &Wm, window: u64) -> (r: Option<usize>)
    requires
        wm.wf(),
    ensures
        r == match wm.mon(wm.selmon).sel {
            Some(s) => if wm.client(s).window != window {
                Some(s)
            } else {
                None
            },
            None => None,
        },
{
    assert(wm.sel_ok(wm.selmon));
    match wm.monitors[wm.selmon].sel {
        Some(s) => {
            let w = match &wm.clients[s] {
                Some(c) => c.window,
                None => window,
            };
            if w != window {
                Some(s)
            } else {
                None
            }
        },
        None => None,
    }
}

/// Handles a mapping-notify event: whether the key bindings are to be grabbed
/// again, which is when the keyboard mapping changed.
pub fn rust_mapping_notify_event(request: i32) -> (r: bool)
    ensures
        r == (request == MAPPING_KEYBOARD),
{
    request == MAPPING_KEYBOARD
}

/// The synthetic configure notification that tells a client its geometry.
#[derive(Clone, Copy, Debug, PartialEq, Eq, Structural)]
pub struct ConfigureNotice {
    pub window: u64,
    pub x: i32,
    pub y: i32,
    pub width: i32,
    pub height: i32,
    pub border_width: i32,
}

/// The configure notification for client `c`, from its current geometry.
pub fn rust_configure(wm: &Wm, c: usize) -> (r: ConfigureNotice)
    requires
        wm.has(c),
    ensures
        r == (ConfigureNotice {
            window: wm.client(c).window,
            x: wm.client(c).x,
            y: wm.client(c).y,
            width: wm.client(c).width,
            height: wm.client(c).height,
            border_width: wm.client(c).border_width,
        }),
{
    match &wm.clients[c] {
        Some(cl) => ConfigureNotice {
            window: cl.window,
            x: cl.x,
            y: cl.y,
            width: cl.width,
            height: cl.height,
            border_width: cl.border_width,
        },
        None => ConfigureNotice { window: 0, x: 0, y: 0, width: 0, height: 0, border_width: 0 },
    }
}

/// What the startup scan learned of a top-level window.
#[derive(Clone, Copy, Debug, PartialEq, Eq, Structural)]
pub struct WindowInfo {
    pub window: u64,
    /// Its attributes could be read.
    pub attrs_ok: bool,
    pub override_redirect: bool,
    /// It is transient for another window.
    pub transient: bool,
    pub viewable: bool,
    /// Its state is iconic.
    pub iconic: bool,
}

/// Managed in the first pass: readable, not override-redirect, not transient,
/// and viewable or iconic.
pub open spec fn first_pass(w: WindowInfo) -> bool {
    w.attrs_ok && !w.override_redirect && !w.transient && (w.viewable || w.iconic)
}

/// Managed in the second pass: readable, not override-redirect, transient,
/// and viewable or iconic.
pub open spec fn second_pass(w: WindowInfo) -> bool {
    w.attrs_ok && !w.override_redirect && w.transient && (w.viewable || w.iconic)
}

/// The windows of `ws` that the first pass (`first`) or the second pass
/// manages, in order.
pub open spec fn picked(ws: Seq<WindowInfo>, first: bool) -> Seq<u64>
    decreases ws.len(),
{
    if ws.len() == 0 {
        seq![]
    } else {
        let p = picked(ws.drop_last(), first);
        let w = ws.last();
        if (first && first_pass(w)) || (!first && second_pass(w)) {
            p.push(w.window)
        } else {
            p
        }
    }
}

fn pick(ws: &Vec<WindowInfo>, first: bool, out: &mut Vec<u64>)
    ensures
        final(out)@ == old(out)@ + picked(ws@, first),
{
    let mut i: usize = 0;
    let ghost start = out@;
    while i < ws.len()
        invariant
            i <= ws@.len(),
            out@ == start + picked(ws@.subrange(0, i as int), first),
        decreases ws@.len() - i,
    {
        let w = ws[i];
        assert(ws@.subrange(0, i + 1).drop_last() =~= ws@.subrange(0, i as int));
        let keep = if first {
            w.attrs_ok && !w.override_redirect && !w.transient && (w.viewable || w.iconic)
        } else {
            w.attrs_ok && !w.override_redirect && w.transient && (w.viewable || w.iconic)
        };
        if keep {
            out.push(w.window);
            assert(out@ =~= start + picked(ws@.subrange(0, i + 1), first));
        }
        i = i + 1;
    }
    assert(ws@.subrange(0, ws@.len() as int) =~= ws@);
}

/// The windows the startup scan manages, in order: override-redirect and
/// unreadable windows are skipped; first the ordinary windows that are
/// viewable or iconic, then the transient ones, so that a
/// transient window comes after the window it belongs to.
pub fn rust_scan(ws: &Vec<WindowInfo>) -> (r: Vec<u64>)
    ensures
        r@ == picked(ws@, true) + picked(ws@, false),
{
    let mut out: Vec<u64> = Vec::new();
    pick(ws, true, &mut out);
    pick(ws, false, &mut out);
    assert(out@ =~= picked(ws@, true) + picked(ws@, false));
    out
}

/// Bits of a configure request's value mask.
pub const CW_X: u32 = 1;
pub const CW_Y: u32 = 2;
pub const CW_WIDTH: u32 = 4;
pub const CW_HEIGHT: u32 = 8;
pub const CW_BORDER_WIDTH: u32 = 16;

/// A window's request to change its geometry; `value_mask` says which
/// fields it asks for.
#[derive(Clone, Copy, Debug, PartialEq, Eq, Structural)]
pub struct ConfigureRequest {
    pub window: u64,
    pub value_mask: u32,
    pub x: i32,
    pub y: i32,
    pub width: i32,
    pub height: i32,
    pub border_width: i32,
}

/// What answering a configure request takes on the protocol side.
#[derive(Clone, Copy, Debug, PartialEq, Eq, Structural)]
pub enum ConfigureAction {
    /// The window is not managed: pass the request on unmodified.
    Forward,
    /// Tell the client its current geometry.
    Notify(usize),
    /// The client took the requested border width.
    Border(usize),
    /// The client took the requested geometry: move its window there when
    /// `visible`, and tell it its geometry when `notify`.
    Moved { client: usize, notify: bool, visible: bool },
}

/// `v` clamped into the range of `i32`.
pub open spec fn clamped(v: int) -> i32 {
    if v < i32::MIN {
        i32::MIN
    } else if v > i32::MAX {
        i32::MAX
    } else {
        v as i32
    }
}

/// Half of `v`, rounded toward zero.
pub open spec fn half(v: int) -> int {
    if v >= 0 {
        v / 2
    } else {
        -((-v) / 2)
    }
}

fn clamp_i32(v: i64) -> (r: i32)
    ensures
        r == clamped(v as int),
{
    if v < i32::MIN as i64 {
        i32::MIN
    } else if v > i32::MAX as i64 {
        i32::MAX
    } else {
        v as i32
    }
}

fn half_i64(v: i64) -> (r: i64)
    requires
        v > i64::MIN,
    ensures
        r == half(v as int),
{
    if v >= 0 {
        v / 2
    } else {
        -((-v) / 2)
    }
}

/// A border width that the layouts can take.
pub open spec fn border_ok(bw: i32) -> bool {
    0 <= bw <= 0x3fff_ffff
}

/// The geometry a floating client on monitor `m` takes from `req`: each
/// field asked for, the position relative to the monitor; a floating client
/// that would stick out past the monitor's right or bottom edge is centred
/// on it in that direction. Every value is clamped into `i32`.
pub open spec fn requested(c: Client, m: Monitor, req: ConfigureRequest) -> Client {
    let x1 = if req.value_mask & CW_X != 0 { clamped(m.mx + req.x) } else { c.x };
    let y1 = if req.value_mask & CW_Y != 0 { clamped(m.my + req.y) } else { c.y };
    let w1 = if req.value_mask & CW_WIDTH != 0 { req.width } else { c.width };
    let h1 = if req.value_mask & CW_HEIGHT != 0 { req.height } else { c.height };
    let x2 = if x1 + w1 > m.mx + m.mw && c.is_floating {
        clamped(m.mx + (half(m.mw as int) - half(w1 + 2 * c.border_width)))
    } else {
        x1
    };
    let y2 = if y1 + h1 > m.my + m.mh && c.is_floating {
        clamped(m.my + (half(m.mh as int) - half(h1 + 2 * c.border_width)))
    } else {
        y1
    };
    Client {
        old_x: if req.value_mask & CW_X != 0 { c.x } else { c.old_x },
        old_y: if req.value_mask & CW_Y != 0 { c.y } else { c.old_y },
        old_width: if req.value_mask & CW_WIDTH != 0 { c.width } else { c.old_width },
        old_height: if req.value_mask & CW_HEIGHT != 0 { c.height } else { c.old_height },
        x: x2,
        y: y2,
        width: w1,
        height: h1,
        ..c
    }
}

/// Answers a configure request. An unmanaged window's request is passed on
/// unmodified. A managed client that asks for a border width takes it when
/// the layouts can use it, and is told its geometry otherwise. Otherwise a
/// floating client, or any client while the selected monitor floats, takes
/// the requested geometry (see `requested`); a tiled client is told its
/// geometry instead.
pub fn configure_request(wm: &mut Wm, req: ConfigureRequest) -> (r: ConfigureAction)
    requires
        old(wm).wf(),
    ensures
        final(wm).wf(),
        match r {
            ConfigureAction::Forward => {
                &&& forall|m: int, i: int| !#[trigger] old(wm).window_at(req.window, m, i)
                &&& *final(wm) == *old(wm)
            },
            ConfigureAction::Notify(c) => {
                let cl = old(wm).client(c);
                &&& exists|m: int, i: int| #[trigger] old(wm).first_window_at(req.window, m, i)
                    && old(wm).monitors@[m].clients@[i] == c
                &&& if req.value_mask & CW_BORDER_WIDTH != 0 {
                    !border_ok(req.border_width)
                } else {
                    !cl.is_floating && old(wm).mon(old(wm).selmon).layout().arrange is Some
                }
                &&& *final(wm) == *old(wm)
            },
            ConfigureAction::Border(c) => {
                let cl = old(wm).client(c);
                &&& exists|m: int, i: int| #[trigger] old(wm).first_window_at(req.window, m, i)
                    && old(wm).monitors@[m].clients@[i] == c
                &&& req.value_mask & CW_BORDER_WIDTH != 0 && border_ok(req.border_width)
                &&& final(wm).clients@ == old(wm).clients@.update(
                    c as int,
                    Some(Client { border_width: req.border_width, ..cl }),
                )
                &&& *final(wm) == (Wm { clients: final(wm).clients, ..*old(wm) })
            },
            ConfigureAction::Moved { client: c, notify, visible } => {
                let cl = old(wm).client(c);
                let nc = requested(cl, old(wm).mon(cl.monitor), req);
                &&& exists|m: int, i: int| #[trigger] old(wm).first_window_at(req.window, m, i)
                    && old(wm).monitors@[m].clients@[i] == c
                &&& req.value_mask & CW_BORDER_WIDTH == 0
                &&& cl.is_floating || old(wm).mon(old(wm).selmon).layout().arrange is None
                &&& final(wm).clients@ == old(wm).clients@.update(c as int, Some(nc))
                &&& *final(wm) == (Wm { clients: final(wm).clients, ..*old(wm) })
                &&& notify == (req.value_mask & (CW_X | CW_Y) != 0 && req.value_mask & (CW_WIDTH
                    | CW_HEIGHT) == 0)
                &&& visible == final(wm).shown_on(c, cl.monitor)
            },
        },
{
    let found = rust_window_to_client(wm, req.window);
    let c = match found {
        None => {
            return ConfigureAction::Forward;
        },
        Some(c) => c,
    };
    let ghost w0 = *wm;
    proof {
        let (m, i) = choose|m: int, i: int| #[trigger] w0.first_window_at(req.window, m, i) && w0.monitors@[m].clients@[i] == c;
        assert(w0.window_at(req.window, m, i));
        assert(w0.has(c));
        assert(w0.client_ok(c));
    }
    let (floating, bw, mon) = match &wm.clients[c] {
        Some(cl) => (cl.is_floating, cl.border_width, cl.monitor),
        None => (false, 0, 0),
    };
    if req.value_mask & CW_BORDER_WIDTH != 0 {
        if !(0 <= req.border_width && req.border_width <= 0x3fff_ffff) {
            return ConfigureAction::Notify(c);
        }
        match &mut wm.clients[c] {
            Some(cl) => {
                cl.border_width = req.border_width;
            },
            None => {},
        }
        proof {
            assert(wm.clients@ =~= w0.clients@.update(
                c as int,
                Some(Client { border_width: req.border_width, ..w0.client(c) }),
            ));
            lemma_slots_frame(w0, *wm, c);
        }
        return ConfigureAction::Border(c);
    }
    proof {
        assert(w0.mon_base(w0.selmon));
    }
    let sel_layout = wm.monitors[wm.selmon].lt[wm.monitors[wm.selmon].sellt];
    if !(floating || sel_layout.arrange.is_none()) {
        return ConfigureAction::Notify(c);
    }
    proof {
        assert(w0.mon_base(mon));
    }
    let active = wm.monitors[mon].tagset[wm.monitors[mon].seltags];
    take_request(wm, c, mon, req);
    let notify = req.value_mask & (CW_X | CW_Y) != 0 && req.value_mask & (CW_WIDTH | CW_HEIGHT)
        == 0;
    let tags = match &wm.clients[c] {
        Some(cl) => cl.tags,
        None => 0,
    };
    ConfigureAction::Moved { client: c, notify, visible: tags & active != 0 }
}

/// The position and size that `c` on `m` takes from `req` (see `requested`).
fn new_geometry(c: &Client, m: &Monitor, req: ConfigureRequest) -> (r: (i32, i32, i32, i32))
    requires
        border_ok(c.border_width),
    ensures
        r.0 == requested(*c, *m, req).x,
        r.1 == requested(*c, *m, req).y,
        r.2 == requested(*c, *m, req).width,
        r.3 == requested(*c, *m, req).height,
{
    let (mx, my, mw, mh) = (m.mx as i64, m.my as i64, m.mw as i64, m.mh as i64);
    let bw = c.border_width as i64;
    let x1: i32 = if req.value_mask & CW_X != 0 {
        clamp_i32(mx + req.x as i64)
    } else {
        c.x
    };
    let y1: i32 = if req.value_mask & CW_Y != 0 {
        clamp_i32(my + req.y as i64)
    } else {
        c.y
    };
    let w1: i32 = if req.value_mask & CW_WIDTH != 0 {
        req.width
    } else {
        c.width
    };
    let h1: i32 = if req.value_mask & CW_HEIGHT != 0 {
        req.height
    } else {
        c.height
    };
    let x2: i32 = if x1 as i64 + w1 as i64 > mx + mw && c.is_floating {
        clamp_i32(mx + (half_i64(mw) - half_i64(w1 as i64 + 2 * bw)))
    } else {
        x1
    };
    let y2: i32 = if y1 as i64 + h1 as i64 > my + mh && c.is_floating {
        clamp_i32(my + (half_i64(mh) - half_i64(h1 as i64 + 2 * bw)))
    } else {
        y1
    };
    (x2, y2, w1, h1)
}

/// Client `c` of monitor `mon` takes the geometry `req` asks for.
fn take_request(wm: &mut Wm, c: usize, mon: usize, req: ConfigureRequest)
    requires
        old(wm).wf(),
        old(wm).has(c),
        old(wm).client(c).monitor == mon,
    ensures
        final(wm).clients@ == old(wm).clients@.update(
            c as int,
            Some(requested(old(wm).client(c), old(wm).mon(mon), req)),
        ),
        *final(wm) == (Wm { clients: final(wm).clients, ..*old(wm) }),
        final(wm).wf(),
{
    let ghost w0 = *wm;
    proof {
        assert(w0.client_ok(c));
    }
    let (x2, y2, w1, h1) = match &wm.clients[c] {
        Some(cl) => new_geometry(cl, &wm.monitors[mon], req),
        None => (0, 0, 0, 0),
    };
    match &mut wm.clients[c] {
        Some(cl) => {
            if req.value_mask & CW_X != 0 {
                cl.old_x = cl.x;
            }
            if req.value_mask & CW_Y != 0 {
                cl.old_y = cl.y;
            }
            if req.value_mask & CW_WIDTH != 0 {
                cl.old_width = cl.width;
            }
            if req.value_mask & CW_HEIGHT != 0 {
                cl.old_height = cl.height;
            }
            cl.x = x2;
            cl.y = y2;
            cl.width = w1;
            cl.height = h1;
        },
        None => {},
    }
    proof {
        let nc = requested(w0.client(c), w0.mon(mon), req);
        assert(wm.clients@ =~= w0.clients@.update(c as int, Some(nc)));
        lemma_slots_frame(w0, *wm, c);
    }
}

/// Consistency survives a change of one client's slot that keeps its
/// monitor and tags and a usable border.
proof fn lemma_slots_frame(old: Wm, new: Wm, c: usize)
    requires
        old.wf(),
        old.has(c),
        new.monitors == old.monitors,
        new.selmon == old.selmon,
        new.clients@.len() == old.clients@.len(),
        new.clients@[c as int] is Some,
        new.client(c).monitor == old.client(c).monitor,
        new.client(c).tags == old.client(c).tags,
        border_ok(new.client(c).border_width),
        forall|y: int| 0 <= y < old.clients@.len() && y != c ==> #[trigger] new.clients@[y] == old.clients@[y],
    ensures
        new.wf(),
{
    assert forall|y: usize| #[trigger] new.has(y) == old.has(y) && (old.has(y) ==> new.client(y).monitor == old.client(y).monitor && new.client(y).tags == old.client(y).tags) by {
        if y < old.clients@.len() && y != c {
            assert(new.clients@[y as int] == old.clients@[y as int]);
        }
    }
    assert forall|y: usize, a: u32| #[trigger] shows(new.clients@, y, a) == shows(old.clients@, y, a) by {
        if y < old.clients@.len() && y != c {
            assert(new.clients@[y as int] == old.clients@[y as int]);
        }
    }
    assert forall|k: usize| k < new.monitors@.len() implies #[trigger] new.mon_base(k) by {
        assert(old.mon_base(k));
        assert(old.lists_owned(k));
    }
    assert forall|y: usize| #[trigger] new.client_ok(y) by {
        assert(old.client_ok(y));
        if y != c && y < old.clients@.len() {
            assert(new.clients@[y as int] == old.clients@[y as int]);
        }
    }
    assert forall|k: usize| k < new.monitors@.len() implies #[trigger] new.sel_ok(k) by {
        assert(old.sel_ok(k));
    }
}

} // verus!
