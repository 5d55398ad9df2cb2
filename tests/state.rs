use dwmrs::client::Client;
use dwmrs::geometry::{Placement, Rect};
use dwmrs::monitor::{Layout, Monitor};
use dwmrs::wm::{
    arrange, focus, manage, rust_attach, rust_attach_stack, rust_detach, rust_detach_stack,
    rust_monocle, rust_send_to_monitor, rust_tile, rust_view, rust_window_to_client, rust_zoom,
    unmanage, Wm,
};

fn area(w: i32, h: i32) -> Rect {
    Rect::new(0, 0, w, h)
}

fn one_monitor() -> Wm {
    Wm::new(vec![Monitor::new(0, area(1280, 800))])
}

fn two_monitors() -> Wm {
    Wm::new(vec![Monitor::new(0, area(1280, 800)), Monitor::new(1, Rect::new(1280, 0, 1024, 768))])
}

fn new_client(wm: &mut Wm, window: u64, tags: u32, monitor: usize) -> usize {
    manage(wm, Client::new(window, area(100, 100), 2, tags, monitor))
}

fn in_lists(wm: &Wm, id: usize) -> Vec<usize> {
    let mut found = Vec::new();
    for (i, m) in wm.monitors.iter().enumerate() {
        if m.clients.contains(&id) || m.stack.contains(&id) {
            found.push(i);
        }
    }
    found
}

#[test]
fn scenario_tile_three_clients() {
    let mut wm = one_monitor();
    let a = new_client(&mut wm, 10, 1, 0);
    let b = new_client(&mut wm, 11, 1, 0);
    let c = new_client(&mut wm, 12, 1, 0);
    let ps = arrange(&mut wm, 0);
    assert_eq!(
        ps,
        vec![
            Placement { client: c, rect: Rect::new(0, 0, 700, 796) },
            Placement { client: b, rect: Rect::new(704, 0, 572, 396) },
            Placement { client: a, rect: Rect::new(704, 400, 572, 396) },
        ]
    );
    let cl = wm.clients[a].as_ref().unwrap();
    assert_eq!((cl.x, cl.y, cl.width, cl.height), (704, 400, 572, 396));
    assert_eq!((cl.old_x, cl.old_y, cl.old_width, cl.old_height), (0, 0, 100, 100));
}

#[test]
fn tile_skips_floating_and_hidden_clients() {
    let mut wm = one_monitor();
    let a = new_client(&mut wm, 10, 1, 0);
    let f = new_client(&mut wm, 11, 1, 0);
    wm.clients[f].as_mut().unwrap().is_floating = true;
    let _hidden = new_client(&mut wm, 12, 2, 0);
    let ps = rust_tile(&wm, 0);
    assert_eq!(ps, vec![Placement { client: a, rect: Rect::new(0, 0, 1276, 796) }]);
}

#[test]
fn monocle_counts_visible_and_places_tiled() {
    let mut wm = one_monitor();
    wm.monitors[0].lt[0] = Layout::monocle();
    let a = new_client(&mut wm, 10, 1, 0);
    let f = new_client(&mut wm, 11, 1, 0);
    wm.clients[f].as_mut().unwrap().is_floating = true;
    let _hidden = new_client(&mut wm, 12, 2, 0);
    let b = new_client(&mut wm, 13, 1, 0);
    let ps = rust_monocle(&mut wm, 0);
    assert_eq!(wm.monitors[0].ltsymbol, b"[3]".to_vec());
    assert_eq!(
        ps,
        vec![
            Placement { client: b, rect: Rect::new(0, 0, 1276, 796) },
            Placement { client: a, rect: Rect::new(0, 0, 1276, 796) },
        ]
    );
}

#[test]
fn monocle_without_visible_clients_keeps_symbol() {
    let mut wm = one_monitor();
    wm.monitors[0].lt[0] = Layout::monocle();
    let _hidden = new_client(&mut wm, 12, 2, 0);
    let before = wm.monitors[0].ltsymbol.clone();
    let ps = arrange(&mut wm, 0);
    assert!(ps.is_empty());
    assert_eq!(wm.monitors[0].ltsymbol, before);
}

#[test]
fn floating_layout_places_nothing() {
    let mut wm = one_monitor();
    wm.monitors[0].sellt = 1;
    new_client(&mut wm, 10, 1, 0);
    assert!(arrange(&mut wm, 0).is_empty());
}

#[test]
fn attach_detach_keep_single_owner() {
    let mut wm = two_monitors();
    let a = new_client(&mut wm, 10, 1, 0);
    let b = new_client(&mut wm, 11, 1, 1);
    rust_detach(&mut wm, a);
    rust_detach_stack(&mut wm, a);
    assert!(in_lists(&wm, a).is_empty());
    rust_detach(&mut wm, a);
    assert!(in_lists(&wm, a).is_empty());
    rust_attach(&mut wm, a);
    rust_attach_stack(&mut wm, a);
    assert_eq!(in_lists(&wm, a), vec![0]);
    assert_eq!(in_lists(&wm, b), vec![1]);
    assert_eq!(wm.monitors[0].clients, vec![a]);
    assert_eq!(wm.monitors[0].stack, vec![a]);
}

#[test]
fn detach_selected_picks_most_recent_visible() {
    let mut wm = one_monitor();
    let a = new_client(&mut wm, 10, 1, 0);
    let hidden = new_client(&mut wm, 11, 1, 0);
    let b = new_client(&mut wm, 12, 1, 0);
    assert_eq!(wm.monitors[0].sel, Some(b));
    assert_eq!(wm.monitors[0].stack, vec![b, hidden, a]);
    wm.clients[hidden].as_mut().unwrap().tags = 2;
    rust_detach_stack(&mut wm, b);
    assert_eq!(wm.monitors[0].stack, vec![hidden, a]);
    assert_eq!(wm.monitors[0].sel, Some(a));
}

#[test]
fn detach_selected_with_nothing_visible_clears_selection() {
    let mut wm = one_monitor();
    let _hidden = new_client(&mut wm, 11, 2, 0);
    let b = new_client(&mut wm, 12, 1, 0);
    rust_detach_stack(&mut wm, b);
    assert_eq!(wm.monitors[0].sel, None);
}

#[test]
fn scenario_unmanage_sole_selected_client() {
    let mut wm = one_monitor();
    let a = new_client(&mut wm, 10, 1, 0);
    assert_eq!(wm.monitors[0].sel, Some(a));
    let ps = unmanage(&mut wm, a);
    assert!(ps.is_empty());
    assert_eq!(wm.monitors[0].sel, None);
    assert!(wm.clients[a].is_none());
    assert!(wm.monitors[0].clients.is_empty() && wm.monitors[0].stack.is_empty());
    focus(&mut wm, 0, None);
    assert_eq!(wm.monitors[0].sel, None);
    assert!(wm.monitors[0].stack.is_empty());
}

#[test]
fn scenario_send_to_monitor() {
    let mut wm = two_monitors();
    wm.monitors[1].tagset[0] = 0b010;
    let other = new_client(&mut wm, 20, 0b010, 1);
    let c = new_client(&mut wm, 10, 0b001, 0);
    let redo = rust_send_to_monitor(&mut wm, c, 1);
    assert_eq!(redo, vec![0, 1]);
    let cl = wm.clients[c].as_ref().unwrap();
    assert_eq!(cl.tags, 0b010);
    assert_eq!(cl.monitor, 1);
    assert!(wm.monitors[0].clients.is_empty() && wm.monitors[0].stack.is_empty());
    assert_eq!(wm.monitors[0].sel, None);
    assert_eq!(wm.monitors[1].clients, vec![c, other]);
    assert_eq!(wm.monitors[1].stack, vec![c, other]);
    assert_eq!(wm.monitors[1].sel, Some(c));
}

#[test]
fn send_to_own_monitor_does_nothing() {
    let mut wm = two_monitors();
    let c = new_client(&mut wm, 10, 1, 0);
    assert!(rust_send_to_monitor(&mut wm, c, 0).is_empty());
    assert_eq!(wm.monitors[0].clients, vec![c]);
}

#[test]
fn view_and_toggle_back() {
    let mut wm = one_monitor();
    let a = new_client(&mut wm, 10, 1, 0);
    let b = new_client(&mut wm, 11, 2, 0);
    rust_view(&mut wm, 2);
    assert_eq!(wm.monitors[0].seltags, 1);
    assert_eq!(wm.monitors[0].tagset, [1, 2]);
    assert_eq!(wm.monitors[0].sel, Some(b));
    rust_view(&mut wm, 0);
    assert_eq!(wm.monitors[0].seltags, 0);
    assert_eq!(wm.monitors[0].tagset, [1, 2]);
    assert_eq!(wm.monitors[0].sel, Some(a));
    assert!(rust_view(&mut wm, 1).is_empty());
    assert_eq!(wm.monitors[0].seltags, 0);
}

#[test]
fn view_masks_to_known_tags() {
    let mut wm = one_monitor();
    rust_view(&mut wm, 0xffff_fe04);
    assert_eq!(wm.monitors[0].tagset[wm.monitors[0].seltags], 4);
}

#[test]
fn toggle_tagset_slot_twice_round_trips() {
    let mut m = Monitor::new(0, area(10, 10));
    m.tagset = [3, 8];
    m.toggle_tagset_slot();
    assert_eq!(m.active_tagset(), 8);
    m.toggle_tagset_slot();
    assert_eq!(m.active_tagset(), 3);
    assert_eq!(m.tagset, [3, 8]);
}

#[test]
fn zoom_swaps_master() {
    let mut wm = one_monitor();
    let a = new_client(&mut wm, 10, 1, 0);
    let b = new_client(&mut wm, 11, 1, 0);
    assert_eq!(wm.monitors[0].clients, vec![b, a]);
    focus(&mut wm, 0, Some(a));
    rust_zoom(&mut wm);
    assert_eq!(wm.monitors[0].clients, vec![a, b]);
    assert_eq!(wm.monitors[0].sel, Some(a));
    let ps = rust_zoom(&mut wm);
    assert_eq!(wm.monitors[0].clients, vec![b, a]);
    assert_eq!(wm.monitors[0].sel, Some(b));
    assert_eq!(ps[0], Placement { client: b, rect: Rect::new(0, 0, 700, 796) });
}

#[test]
fn zoom_does_nothing_on_floating_or_single() {
    let mut wm = one_monitor();
    let a = new_client(&mut wm, 10, 1, 0);
    assert!(rust_zoom(&mut wm).is_empty());
    wm.clients[a].as_mut().unwrap().is_floating = true;
    let _b = new_client(&mut wm, 11, 1, 0);
    focus(&mut wm, 0, Some(a));
    assert!(rust_zoom(&mut wm).is_empty());
    assert_eq!(wm.monitors[0].sel, Some(a));
}

#[test]
fn window_lookup_searches_monitors_in_order() {
    let mut wm = two_monitors();
    let a = new_client(&mut wm, 10, 1, 0);
    let b = new_client(&mut wm, 20, 1, 1);
    assert_eq!(rust_window_to_client(&wm, 10), Some(a));
    assert_eq!(rust_window_to_client(&wm, 20), Some(b));
    assert_eq!(rust_window_to_client(&wm, 30), None);
}

#[test]
fn manage_uses_active_tags_when_none_given() {
    let mut wm = one_monitor();
    let a = new_client(&mut wm, 10, 0x400, 0);
    assert_eq!(wm.clients[a].as_ref().unwrap().tags, 1);
    let b = new_client(&mut wm, 11, 0x402, 0);
    assert_eq!(wm.clients[b].as_ref().unwrap().tags, 2);
    assert_eq!(wm.monitors[0].sel, Some(a));
}

#[test]
fn client_full_size_and_visibility() {
    let c = Client::new(1, Rect::new(0, 0, 50, 40), 3, 0b100, 0);
    assert_eq!(c.full_width(), 56);
    assert_eq!(c.full_height(), 46);
    let mut m = Monitor::new(0, area(10, 10));
    assert!(!c.is_visable(&m));
    m.tagset[0] = 0b110;
    assert!(c.is_visable(&m));
}

#[test]
fn layout_symbols() {
    assert_eq!(Layout::tile().symbol(), b"[]=".to_vec());
    assert_eq!(Layout::monocle().symbol(), b"[M]".to_vec());
    assert_eq!(Layout::floating().symbol(), b"><>".to_vec());
}

#[test]
fn set_layout_toggles_last_layout() {
    let mut wm = one_monitor();
    let a = new_client(&mut wm, 10, 1, 0);
    let _b = new_client(&mut wm, 11, 1, 0);
    let ps = dwmrs::wm::set_layout(&mut wm, Some(Layout::monocle()));
    assert_eq!(wm.monitors[0].sellt, 1);
    assert_eq!(wm.monitors[0].lt, [Layout::tile(), Layout::monocle()]);
    assert_eq!(wm.monitors[0].ltsymbol, b"[2]".to_vec());
    assert_eq!(ps.len(), 2);
    assert!(ps.iter().all(|p| p.rect == Rect::new(0, 0, 1276, 796)));
    dwmrs::wm::set_layout(&mut wm, Some(Layout::monocle()));
    assert_eq!(wm.monitors[0].sellt, 1);
    let ps = dwmrs::wm::set_layout(&mut wm, None);
    assert_eq!(wm.monitors[0].sellt, 0);
    assert_eq!(wm.monitors[0].ltsymbol, b"[]=".to_vec());
    assert_eq!(ps.last().unwrap().client, a);
}

#[test]
fn set_layout_without_selection_places_nothing() {
    let mut wm = one_monitor();
    let ps = dwmrs::wm::set_layout(&mut wm, Some(Layout::floating()));
    assert!(ps.is_empty());
    assert_eq!(wm.monitors[0].ltsymbol, b"><>".to_vec());
}

#[test]
fn toggle_floating_flips_and_relayouts() {
    let mut wm = one_monitor();
    let a = new_client(&mut wm, 10, 1, 0);
    let b = new_client(&mut wm, 11, 1, 0);
    let ps = dwmrs::wm::toggle_floating(&mut wm);
    assert!(wm.clients[b].as_ref().unwrap().is_floating);
    assert_eq!(ps, vec![Placement { client: a, rect: Rect::new(0, 0, 1276, 796) }]);
    dwmrs::wm::toggle_floating(&mut wm);
    assert!(!wm.clients[b].as_ref().unwrap().is_floating);
    wm.clients[b].as_mut().unwrap().is_fixed = true;
    dwmrs::wm::toggle_floating(&mut wm);
    dwmrs::wm::toggle_floating(&mut wm);
    assert!(wm.clients[b].as_ref().unwrap().is_floating);
    wm.clients[b].as_mut().unwrap().is_fullscreen = true;
    wm.clients[b].as_mut().unwrap().is_fixed = false;
    assert!(dwmrs::wm::toggle_floating(&mut wm).is_empty());
    assert!(wm.clients[b].as_ref().unwrap().is_floating);
}

#[test]
fn view_without_tags_twice_keeps_everything() {
    let mut wm = one_monitor();
    let a = new_client(&mut wm, 10, 1, 0);
    let b = new_client(&mut wm, 11, 2, 0);
    rust_view(&mut wm, 2);
    let tagset = wm.monitors[0].tagset;
    let seltags = wm.monitors[0].seltags;
    rust_view(&mut wm, 0);
    rust_view(&mut wm, 0);
    assert_eq!(wm.monitors[0].tagset, tagset);
    assert_eq!(wm.monitors[0].seltags, seltags);
    assert_eq!(wm.clients[a].as_ref().unwrap().tags, 1);
    assert_eq!(wm.clients[b].as_ref().unwrap().tags, 2);
    assert!(wm.running);
}

#[test]
fn client_title_is_cut_to_capacity() {
    let mut c = Client::new(1, area(10, 10), 1, 1, 0);
    c.set_name(&b"term".to_vec());
    assert_eq!(c.name, b"term".to_vec());
    c.set_name(&vec![b'x'; 300]);
    assert_eq!(c.name.len(), dwmrs::client::NAME_CAPACITY - 1);
    assert_eq!(c.window, 1);
}
