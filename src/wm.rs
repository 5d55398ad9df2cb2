use vstd::prelude::*;
use crate::client::Client;
use crate::geometry::{Placement, Rect};
use crate::layout::{
    area_ok, borders_ok, count_label, count_symbol, monocle_cell, monocle_layout, tile_cell,
    tile_layout,
};
use crate::lists::{lemma_push_front, lemma_without_first, remove_first, without_first};
use crate::monitor::{layout_symbol, Arrange, Layout, Monitor, SYMBOL_CAPACITY, TAGMASK};

verus! {

/// Whether the client with id `id` exists in `cs` and shares a tag with `active`.
pub open spec fn shows(cs: Seq<Option<Client>>, id: usize, active: u32) -> bool {
    &&& id < cs.len()
    &&& cs[id as int] is Some
    &&& cs[id as int]->Some_0.tags & active != 0
}

/// `i` is the first position in `s` of a client shown under `active`.
pub open spec fn first_shown_at(cs: Seq<Option<Client>>, s: Seq<usize>, active: u32, i: int) -> bool {
    &&& 0 <= i < s.len()
    &&& shows(cs, s[i], active)
    &&& forall|j: int| 0 <= j < i ==> !shows(cs, s[j], active)
}

/// The first client of `s` shown under `active`, if any.
pub open spec fn first_shown(cs: Seq<Option<Client>>, s: Seq<usize>, active: u32) -> Option<usize> {
    if exists|i: int| first_shown_at(cs, s, active, i) {
        Some(s[choose|i: int| first_shown_at(cs, s, active, i)])
    } else {
        None
    }
}

/// The window manager's state: every client by id, the monitors, and which
/// monitor is selected.
#[derive(Debug)]
pub struct Wm {
    /// Client slots indexed by id; `None` once a client is unmanaged.
    pub clients: Vec<Option<Client>>,
    pub monitors: Vec<Monitor>,
    /// Index of the selected monitor.
    pub selmon: usize,
    /// The event loop goes on while this holds.
    pub running: bool,
}

impl Wm {
    pub open spec fn has(self, id: usize) -> bool {
        id < self.clients@.len() && self.clients@[id as int] is Some
    }

    pub open spec fn client(self, id: usize) -> Client {
        self.clients@[id as int]->Some_0
    }

    pub open spec fn mon(self, m: usize) -> Monitor {
        self.monitors@[m as int]
    }

    /// Client `id` exists and is visible under the active tagset of monitor `m`.
    pub open spec fn shown_on(self, id: usize, m: usize) -> bool {
        shows(self.clients@, id, self.mon(m).active_tags())
    }

    /// Every client in `s` exists and is owned by monitor `m`.
    pub open spec fn owns(self, s: Seq<usize>, m: usize) -> bool {
        forall|y: usize| #[trigger] s.contains(y) ==> self.has(y) && self.client(y).monitor == m
    }

    /// Both orderings of monitor `m` hold only clients that `m` owns.
    pub open spec fn lists_owned(self, m: usize) -> bool {
        self.owns(self.mon(m).clients@, m) && self.owns(self.mon(m).stack@, m)
    }

    /// Every monitor's orderings hold only clients that it owns.
    pub open spec fn owned(self) -> bool {
        forall|m: usize| m < self.monitors@.len() ==> #[trigger] self.lists_owned(m)
    }

    /// Monitor `m` is consistent, leaving its selection aside.
    pub open spec fn mon_base(self, m: usize) -> bool {
        let mon = self.mon(m);
        &&& mon.slots_ok()
        &&& mon.active_tags() != 0
        &&& mon.other_tags() != 0
        &&& area_ok(mon.spec_work_area())
        &&& self.lists_owned(m)
        &&& mon.clients@.no_duplicates()
        &&& mon.stack@.no_duplicates()
        &&& forall|id: usize| #[trigger] mon.clients@.contains(id) ==> mon.stack@.contains(id)
        &&& forall|id: usize| #[trigger] mon.stack@.contains(id) ==> mon.clients@.contains(id)
    }

    /// The selection of monitor `m` is empty, or a visible client of its stack.
    pub open spec fn sel_ok(self, m: usize) -> bool {
        match self.mon(m).sel {
            None => true,
            Some(s) => self.mon(m).stack@.contains(s) && self.shown_on(s, m),
        }
    }

    /// Client `id`, if it exists, has a sane border and is in the client list
    /// of the monitor that owns it.
    pub open spec fn client_ok(self, id: usize) -> bool {
        self.has(id) ==> {
            let c = self.client(id);
            &&& c.monitor < self.monitors@.len()
            &&& self.mon(c.monitor).clients@.contains(id)
            &&& 0 <= c.border_width <= 0x3fff_ffff
        }
    }

    /// Everything holds but possibly the selections.
    pub open spec fn base(self) -> bool {
        &&& 0 < self.monitors@.len()
        &&& self.selmon < self.monitors@.len()
        &&& forall|m: usize| m < self.monitors@.len() ==> #[trigger] self.mon_base(m)
        &&& forall|id: usize| #[trigger] self.client_ok(id)
    }

    /// The state is consistent: every client is in both orderings of exactly
    /// the monitor that owns it, and each selection is visible or empty.
    pub open spec fn wf(self) -> bool {
        &&& self.base()
        &&& forall|m: usize| m < self.monitors@.len() ==> #[trigger] self.sel_ok(m)
    }

    /// Monitor `m` has changed in its client list alone.
    pub open spec fn only_clients_changed(self, old: Wm, m: usize) -> bool {
        &&& self.monitors@ == old.monitors@.update(m as int, self.monitors@[m as int])
        &&& self.monitors@[m as int] == (Monitor {
            clients: self.monitors@[m as int].clients,
            ..old.monitors@[m as int]
        })
        &&& self == (Wm { monitors: self.monitors, ..old })
    }

    /// Monitor `m` has changed in its stack and selection alone.
    pub open spec fn only_stack_changed(self, old: Wm, m: usize) -> bool {
        &&& self.monitors@ == old.monitors@.update(m as int, self.monitors@[m as int])
        &&& self.monitors@[m as int] == (Monitor {
            stack: self.monitors@[m as int].stack,
            sel: self.monitors@[m as int].sel,
            ..old.monitors@[m as int]
        })
        &&& self == (Wm { monitors: self.monitors, ..old })
    }
}

/// The first client of `s` visible under `active`, if any.
pub fn first_visible(clients: &Vec<Option<Client>>, s: &Vec<usize>, active: u32) -> (r: Option<
    usize,
>)
    ensures
        r == first_shown(clients@, s@, active),
{
    let mut i: usize = 0;
    while i < s.len()
        invariant
            i <= s@.len(),
            forall|j: int| 0 <= j < i ==> !shows(clients@, s@[j], active),
        decreases s@.len() - i,
    {
        let id = s[i];
        let shown = if id < clients.len() {
            match &clients[id] {
                Some(c) => c.tags & active != 0,
                None => false,
            }
        } else {
            false
        };
        if shown {
            proof {
                assert(first_shown_at(clients@, s@, active, i as int));
                let k = choose|k: int| first_shown_at(clients@, s@, active, k);
                if k < i {
                    assert(!shows(clients@, s@[k], active));
                }
                if i < k {
                    assert(!shows(clients@, s@[i as int], active));
                }
            }
            return Some(id);
        }
        i = i + 1;
    }
    None
}

/// Puts client `c` at the head of its monitor's client list.
pub fn rust_attach(wm: &mut Wm, c: usize)
    requires
        old(wm).has(c),
        old(wm).client(c).monitor < old(wm).monitors@.len(),
    ensures
        ({
            let m = old(wm).client(c).monitor;
            &&& final(wm).mon(m).clients@ == seq![c] + old(wm).mon(m).clients@
            &&& final(wm).only_clients_changed(*old(wm), m)
        }),
        old(wm).owned() ==> final(wm).owned(),
{
    let m = match &wm.clients[c] {
        Some(cl) => cl.monitor,
        None => 0,
    };
    wm.monitors[m].clients.insert(0, c);
    proof {
        assert(final(wm).mon(m).clients@ =~= seq![c] + old(wm).mon(m).clients@);
        lemma_push_front(old(wm).mon(m).clients@, c);
        lemma_owned_frame(*old(wm), *wm, m);
    }
}

/// Puts client `c` at the head of its monitor's focus stack.
pub fn rust_attach_stack(wm: &mut Wm, c: usize)
    requires
        old(wm).has(c),
        old(wm).client(c).monitor < old(wm).monitors@.len(),
    ensures
        ({
            let m = old(wm).client(c).monitor;
            &&& final(wm).mon(m).stack@ == seq![c] + old(wm).mon(m).stack@
            &&& final(wm).mon(m).sel == old(wm).mon(m).sel
            &&& final(wm).only_stack_changed(*old(wm), m)
        }),
        old(wm).owned() ==> final(wm).owned(),
{
    let m = match &wm.clients[c] {
        Some(cl) => cl.monitor,
        None => 0,
    };
    wm.monitors[m].stack.insert(0, c);
    proof {
        assert(final(wm).mon(m).stack@ =~= seq![c] + old(wm).mon(m).stack@);
        lemma_push_front(old(wm).mon(m).stack@, c);
        lemma_owned_frame(*old(wm), *wm, m);
    }
}

/// Takes client `c` out of its monitor's client list; nothing happens if it
/// is not there.
pub fn rust_detach(wm: &mut Wm, c: usize)
    requires
        old(wm).has(c),
        old(wm).client(c).monitor < old(wm).monitors@.len(),
    ensures
        ({
            let m = old(wm).client(c).monitor;
            &&& final(wm).mon(m).clients@ == without_first(old(wm).mon(m).clients@, c)
            &&& final(wm).only_clients_changed(*old(wm), m)
        }),
        old(wm).owned() ==> final(wm).owned(),
{
    let m = match &wm.clients[c] {
        Some(cl) => cl.monitor,
        None => 0,
    };
    remove_first(&mut wm.monitors[m].clients, c);
    proof {
        lemma_without_first(old(wm).mon(m).clients@, c);
        lemma_owned_frame(*old(wm), *wm, m);
    }
}

/// Takes client `c` out of its monitor's focus stack. When `c` was the
/// selected client, the selection passes to the first client of the
/// remaining stack that is visible, or to none.
pub fn rust_detach_stack(wm: &mut Wm, c: usize)
    requires
        old(wm).has(c),
        old(wm).client(c).monitor < old(wm).monitors@.len(),
        old(wm).mon(old(wm).client(c).monitor).seltags < 2,
    ensures
        ({
            let m = old(wm).client(c).monitor;
            let rest = without_first(old(wm).mon(m).stack@, c);
            &&& final(wm).mon(m).stack@ == rest
            &&& final(wm).mon(m).sel == if old(wm).mon(m).sel == Some(c) {
                first_shown(old(wm).clients@, rest, old(wm).mon(m).active_tags())
            } else {
                old(wm).mon(m).sel
            }
            &&& final(wm).only_stack_changed(*old(wm), m)
        }),
        old(wm).owned() ==> final(wm).owned(),
{
    let m = match &wm.clients[c] {
        Some(cl) => cl.monitor,
        None => 0,
    };
    let ghost w0 = *wm;
    remove_first(&mut wm.monitors[m].stack, c);
    let ghost w1 = *wm;
    assert(w1.monitors@ == w0.monitors@.update(m as int, w1.monitors@[m as int]));
    if wm.monitors[m].sel == Some(c) {
        let active = wm.monitors[m].tagset[wm.monitors[m].seltags];
        let next = first_visible(&wm.clients, &wm.monitors[m].stack, active);
        wm.monitors[m].sel = next;
        assert(wm.monitors@ == w1.monitors@.update(m as int, wm.monitors@[m as int]));
    }
    assert(wm.monitors@ =~= w0.monitors@.update(m as int, wm.monitors@[m as int]));
    proof {
        lemma_without_first(old(wm).mon(m).stack@, c);
        lemma_owned_frame(*old(wm), *wm, m);
    }
}

/// Ownership survives a change of one monitor's orderings to values that
/// hold only clients it owned before.
proof fn lemma_owned_frame(old: Wm, new: Wm, m: usize)
    requires
        m < old.monitors@.len(),
        new.monitors@ == old.monitors@.update(m as int, new.monitors@[m as int]),
        new.clients == old.clients,
        forall|y: usize| #[trigger] new.mon(m).clients@.contains(y) ==> (old.mon(m).clients@.contains(y) || (old.has(y) && old.client(y).monitor == m)),
        forall|y: usize| #[trigger] new.mon(m).stack@.contains(y) ==> (old.mon(m).stack@.contains(y) || (old.has(y) && old.client(y).monitor == m)),
    ensures
        old.owned() ==> new.owned(),
{
    if old.owned() {
        assert forall|k: usize| k < new.monitors@.len() implies #[trigger] new.lists_owned(k) by {
            assert(old.lists_owned(k));
        }
    }
}

/// No client is in the orderings of two monitors: where the orderings hold
/// only clients that each monitor owns, which is kept by attaching and
/// detaching, a client found in the orderings of two monitors is found in one.
pub proof fn lemma_single_owner(wm: Wm, id: usize, m1: usize, m2: usize)
    requires
        wm.owned(),
        m1 < wm.monitors@.len(),
        m2 < wm.monitors@.len(),
        wm.mon(m1).clients@.contains(id) || wm.mon(m1).stack@.contains(id),
        wm.mon(m2).clients@.contains(id) || wm.mon(m2).stack@.contains(id),
    ensures
        m1 == m2,
{
    assert(wm.lists_owned(m1));
    assert(wm.lists_owned(m2));
}

/// What `first_shown` picks is a client of `s` shown under `active`.
pub proof fn lemma_first_shown(cs: Seq<Option<Client>>, s: Seq<usize>, active: u32)
    ensures
        match first_shown(cs, s, active) {
            Some(x) => s.contains(x) && shows(cs, x, active),
            None => forall|j: int| 0 <= j < s.len() ==> !shows(cs, #[trigger] s[j], active),
        },
{
    if exists|i: int| first_shown_at(cs, s, active, i) {
        let i = choose|i: int| first_shown_at(cs, s, active, i);
        assert(s[i] == s[i]);
    } else {
        assert forall|j: int| 0 <= j < s.len() implies !shows(cs, #[trigger] s[j], active) by {
            if shows(cs, s[j], active) {
                lemma_some_first_shown(cs, s, active, j);
            }
        }
    }
}

proof fn lemma_some_first_shown(cs: Seq<Option<Client>>, s: Seq<usize>, active: u32, k: int)
    requires
        0 <= k < s.len(),
        shows(cs, s[k], active),
    ensures
        exists|i: int| first_shown_at(cs, s, active, i),
    decreases k,
{
    if exists|j: int| 0 <= j < k && shows(cs, s[j], active) {
        let j = choose|j: int| 0 <= j < k && shows(cs, s[j], active);
        lemma_some_first_shown(cs, s, active, j);
    } else {
        assert(first_shown_at(cs, s, active, k));
    }
}

/// `first_shown` reads the client slots only at the ids in `s`.
pub proof fn lemma_first_shown_frame(
    cs1: Seq<Option<Client>>,
    cs2: Seq<Option<Client>>,
    s: Seq<usize>,
    active: u32,
)
    requires
        forall|y: usize| #[trigger] s.contains(y) ==> shows(cs1, y, active) == shows(cs2, y, active),
    ensures
        first_shown(cs1, s, active) == first_shown(cs2, s, active),
{
    assert forall|i: int| first_shown_at(cs1, s, active, i) <==> first_shown_at(cs2, s, active, i) by {
        if 0 <= i < s.len() {
            assert(s.contains(s[i]));
            assert forall|j: int| 0 <= j < i implies shows(cs1, s[j], active) == shows(
                cs2,
                s[j],
                active,
            ) by {
                assert(s.contains(s[j]));
            }
        }
    }
    if exists|i: int| first_shown_at(cs1, s, active, i) {
        let i = choose|i: int| first_shown_at(cs1, s, active, i);
        assert(first_shown_at(cs2, s, active, i));
    }
}

/// Two client slots agree on everything but geometry.
pub open spec fn same_but_geometry(a: Option<Client>, b: Option<Client>) -> bool {
    match (a, b) {
        (None, None) => true,
        (Some(c1), Some(c2)) => c2 == (Client {
            x: c2.x,
            y: c2.y,
            width: c2.width,
            height: c2.height,
            old_x: c2.old_x,
            old_y: c2.old_y,
            old_width: c2.old_width,
            old_height: c2.old_height,
            ..c1
        }),
        _ => false,
    }
}

/// `new` differs from `old` at most in client geometry and layout symbols.
pub open spec fn geometry_frame(old: Wm, new: Wm) -> bool {
    &&& new.selmon == old.selmon
    &&& new.running == old.running
    &&& new.monitors@.len() == old.monitors@.len()
    &&& forall|k: int|
        0 <= k < new.monitors@.len() ==> #[trigger] new.monitors@[k] == (Monitor {
            ltsymbol: new.monitors@[k].ltsymbol,
            ..old.monitors@[k]
        })
    &&& new.clients@.len() == old.clients@.len()
    &&& forall|id: int|
        0 <= id < new.clients@.len() ==> same_but_geometry(
            old.clients@[id],
            #[trigger] new.clients@[id],
        )
}

/// Consistency does not depend on client geometry or layout symbols.
pub proof fn lemma_geometry_frame(old: Wm, new: Wm)
    requires
        geometry_frame(old, new),
    ensures
        old.base() ==> new.base(),
        old.wf() ==> new.wf(),
{
    assert forall|id: usize| #[trigger] new.has(id) == old.has(id) && (new.has(id) ==> (
        new.client(id).monitor == old.client(id).monitor && new.client(id).tags == old.client(
            id,
        ).tags && new.client(id).border_width == old.client(id).border_width)) by {
        if id < new.clients@.len() {
            assert(same_but_geometry(old.clients@[id as int], new.clients@[id as int]));
        }
    }
    assert forall|id: usize, a: u32| #[trigger] shows(new.clients@, id, a) == shows(old.clients@, id, a) by {
        if id < new.clients@.len() {
            assert(same_but_geometry(old.clients@[id as int], new.clients@[id as int]));
        }
    }
    if old.base() {
        assert forall|m: usize| m < new.monitors@.len() implies #[trigger] new.mon_base(m) by {
            assert(old.mon_base(m));
            assert(new.monitors@[m as int] == (Monitor {
                ltsymbol: new.monitors@[m as int].ltsymbol,
                ..old.monitors@[m as int]
            }));
            assert(old.lists_owned(m));
        }
        assert forall|id: usize| #[trigger] new.client_ok(id) by {
            assert(old.client_ok(id));
            if new.has(id) {
                let k = old.client(id).monitor;
                if k < new.monitors@.len() {
                    assert(new.monitors@[k as int] == (Monitor {
                        ltsymbol: new.monitors@[k as int].ltsymbol,
                        ..old.monitors@[k as int]
                    }));
                }
            }
        }
    }
    if old.wf() {
        assert forall|m: usize| m < new.monitors@.len() implies #[trigger] new.sel_ok(m) by {
            assert(old.sel_ok(m));
            assert(new.monitors@[m as int] == (Monitor {
                ltsymbol: new.monitors@[m as int].ltsymbol,
                ..old.monitors@[m as int]
            }));
        }
    }
}

impl Wm {
    /// The client that focusing `target` on monitor `m` selects: `target`
    /// itself when it is a visible client of `m`, else the first visible
    /// client of `m`'s focus stack, if any.
    pub open spec fn focus_target(self, m: usize, target: Option<usize>) -> Option<usize> {
        if target is Some && self.has(target->Some_0) && self.client(target->Some_0).monitor == m
            && self.shown_on(target->Some_0, m) {
            target
        } else {
            first_shown(self.clients@, self.mon(m).stack@, self.mon(m).active_tags())
        }
    }
}

/// Moves the focus on monitor `m` to `target`, or, when `target` is `None`
/// or not a visible client of `m`, to the first visible client of `m`'s
/// focus stack. The client chosen goes to the head of the stack; with none
/// to choose, the selection becomes empty and the stack stays as it is.
pub fn focus(wm: &mut Wm, m: usize, target: Option<usize>)
    requires
        old(wm).base(),
        m < old(wm).monitors@.len(),
        forall|k: usize| k < old(wm).monitors@.len() && k != m ==> #[trigger] old(wm).sel_ok(k),
    ensures
        ({
            let t = old(wm).focus_target(m, target);
            &&& final(wm).mon(m).sel == t
            &&& final(wm).mon(m).stack@ == match t {
                Some(x) => seq![x] + without_first(old(wm).mon(m).stack@, x),
                None => old(wm).mon(m).stack@,
            }
            &&& final(wm).only_stack_changed(*old(wm), m)
        }),
        final(wm).wf(),
{
    assert(old(wm).mon_base(m));
    let active = wm.monitors[m].tagset[wm.monitors[m].seltags];
    let chosen = match target {
        Some(c) => {
            let ok = if c < wm.clients.len() {
                match &wm.clients[c] {
                    Some(cl) => cl.monitor == m && cl.tags & active != 0,
                    None => false,
                }
            } else {
                false
            };
            if ok {
                Some(c)
            } else {
                first_visible(&wm.clients, &wm.monitors[m].stack, active)
            }
        },
        None => first_visible(&wm.clients, &wm.monitors[m].stack, active),
    };
    assert(chosen == old(wm).focus_target(m, target));
    let ghost w0 = *wm;
    proof {
        assert(w0.mon_base(m));
        lemma_first_shown(w0.clients@, w0.mon(m).stack@, active);
        if chosen is Some {
            let x = chosen->Some_0;
            assert(w0.client_ok(x));
            assert(w0.mon(m).stack@.contains(x));
        }
    }
    match chosen {
        Some(x) => {
            remove_first(&mut wm.monitors[m].stack, x);
            wm.monitors[m].stack.insert(0, x);
            proof {
                let rest = without_first(w0.mon(m).stack@, x);
                lemma_without_first(w0.mon(m).stack@, x);
                lemma_push_front(rest, x);
                assert(wm.mon(m).stack@ =~= seq![x] + rest);
            }
        },
        None => {},
    }
    wm.monitors[m].sel = chosen;
    assert(wm.monitors@ =~= w0.monitors@.update(m as int, wm.monitors@[m as int]));
    proof {
        let w = *wm;
        assert forall|k: usize| k < w.monitors@.len() implies #[trigger] w.mon_base(k) by {
            assert(w0.mon_base(k));
            assert(w0.lists_owned(k));
            if k == m {
                assert(w.owns(w.mon(k).clients@, k));
                assert forall|y: usize| #[trigger] w.mon(k).stack@.contains(y) implies w.has(y)
                    && w.client(y).monitor == k by {
                    assert(w0.mon(k).stack@.contains(y));
                }
            }
        }
        assert forall|id: usize| #[trigger] w.client_ok(id) by {
            assert(w0.client_ok(id));
        }
        assert forall|k: usize| k < w.monitors@.len() implies #[trigger] w.sel_ok(k) by {
            if k != m {
                assert(w0.sel_ok(k));
            } else if chosen is Some {
                assert(w.mon(m).stack@[0] == chosen->Some_0);
            }
        }
    }
}

/// Client `id` exists, is shown under `active` and is not floating.
pub open spec fn tiled(cs: Seq<Option<Client>>, id: usize, active: u32) -> bool {
    shows(cs, id, active) && !cs[id as int]->Some_0.is_floating
}

/// The tiled clients of `s`, in order.
pub open spec fn tiled_ids(cs: Seq<Option<Client>>, s: Seq<usize>, active: u32) -> Seq<usize>
    decreases s.len(),
{
    if s.len() == 0 {
        seq![]
    } else {
        let p = tiled_ids(cs, s.drop_last(), active);
        if tiled(cs, s.last(), active) {
            p.push(s.last())
        } else {
            p
        }
    }
}

/// How many clients of `s` are shown under `active`, floating ones included.
pub open spec fn shown_count(cs: Seq<Option<Client>>, s: Seq<usize>, active: u32) -> nat
    decreases s.len(),
{
    if s.len() == 0 {
        0
    } else {
        shown_count(cs, s.drop_last(), active) + if shows(cs, s.last(), active) {
            1nat
        } else {
            0nat
        }
    }
}

/// The border widths of the clients `ids`.
pub open spec fn borders_of(cs: Seq<Option<Client>>, ids: Seq<usize>) -> Seq<i32> {
    ids.map_values(|id: usize| cs[id as int]->Some_0.border_width)
}

/// Client `c` moved to `r`, its previous geometry kept as the old one.
pub open spec fn placed(c: Client, r: Rect) -> Client {
    Client {
        old_x: c.x,
        old_y: c.y,
        old_width: c.width,
        old_height: c.height,
        x: r.x,
        y: r.y,
        width: r.w,
        height: r.h,
        ..c
    }
}

/// The client slots after carrying out the placements `ps` in order.
pub open spec fn applied(cs: Seq<Option<Client>>, ps: Seq<Placement>) -> Seq<Option<Client>>
    decreases ps.len(),
{
    if ps.len() == 0 {
        cs
    } else {
        let prev = applied(cs, ps.drop_last());
        let p = ps.last();
        if p.client < prev.len() && prev[p.client as int] is Some {
            prev.update(p.client as int, Some(placed(prev[p.client as int]->Some_0, p.rect)))
        } else {
            prev
        }
    }
}

impl Wm {
    /// The tiled clients of monitor `m`, in client-list order.
    pub open spec fn tiled_on(self, m: usize) -> Seq<usize> {
        tiled_ids(self.clients@, self.mon(m).clients@, self.mon(m).active_tags())
    }

    /// How many clients of monitor `m` are visible, floating ones included.
    pub open spec fn visible_count(self, m: usize) -> nat {
        shown_count(self.clients@, self.mon(m).clients@, self.mon(m).active_tags())
    }

    /// `r` places the tiled clients of `m`, in order, by the tile layout.
    pub open spec fn is_tiling(self, m: usize, r: Seq<Placement>) -> bool {
        let ids = self.tiled_on(m);
        let mon = self.mon(m);
        &&& r.len() == ids.len()
        &&& forall|i: int|
            0 <= i < r.len() ==> #[trigger] r[i].client == ids[i] && r[i].rect.is(
                tile_cell(mon.spec_work_area(), mon.nmaster, mon.mfact, borders_of(self.clients@, ids), i),
            )
    }

    /// `r` places the tiled clients of `m`, in order, each over the whole
    /// working area less its border.
    pub open spec fn is_monocle(self, m: usize, r: Seq<Placement>) -> bool {
        let ids = self.tiled_on(m);
        let mon = self.mon(m);
        &&& r.len() == ids.len()
        &&& forall|i: int|
            0 <= i < r.len() ==> #[trigger] r[i].client == ids[i] && r[i].rect.is(
                monocle_cell(mon.spec_work_area(), self.client(ids[i]).border_width),
            )
    }

    /// `r` is what the live layout of `m` makes of it; floating places nothing.
    pub open spec fn is_arrangement(self, m: usize, r: Seq<Placement>) -> bool {
        match self.mon(m).layout().arrange {
            Some(Arrange::Tile) => self.is_tiling(m, r),
            Some(Arrange::Monocle) => self.is_monocle(m, r),
            None => r.len() == 0,
        }
    }

    /// The layout symbol of `m` after the monocle layout has run on it: the
    /// count of visible clients when there is one and its label fits the
    /// symbol's capacity.
    pub open spec fn monocle_symbol(self, m: usize) -> Seq<u8> {
        if self.visible_count(m) > 0 && count_label(self.visible_count(m)).len() < SYMBOL_CAPACITY {
            count_label(self.visible_count(m))
        } else {
            self.mon(m).ltsymbol@
        }
    }
}

impl Wm {
    /// The layout symbol of `m` after its live layout has run, given the
    /// symbol `prev` it had before: the monocle layout may set its count;
    /// the others leave the symbol as it was.
    pub open spec fn symbol_after(self, m: usize, prev: Seq<u8>) -> Seq<u8> {
        if self.mon(m).layout().arrange == Some(Arrange::Monocle) && self.visible_count(m) > 0
            && count_label(self.visible_count(m)).len() < SYMBOL_CAPACITY {
            count_label(self.visible_count(m))
        } else {
            prev
        }
    }
}

/// The tiled clients of monitor `m` in list order, with their borders.
fn collect_tiled(wm: &Wm, m: usize) -> (r: (Vec<usize>, Vec<i32>))
    requires
        wm.wf(),
        m < wm.monitors@.len(),
    ensures
        r.0@ == wm.tiled_on(m),
        r.1@ == borders_of(wm.clients@, r.0@),
        borders_ok(r.1@),
        forall|j: int| 0 <= j < r.0@.len() ==> tiled(wm.clients@, #[trigger] r.0@[j], wm.mon(m).active_tags()),
{
    assert(wm.mon_base(m));
    let active = wm.monitors[m].tagset[wm.monitors[m].seltags];
    let s = &wm.monitors[m].clients;
    let mut ids: Vec<usize> = Vec::new();
    let mut borders: Vec<i32> = Vec::new();
    let mut i: usize = 0;
    while i < s.len()
        invariant
            wm.wf(),
            m < wm.monitors@.len(),
            s@ == wm.mon(m).clients@,
            active == wm.mon(m).active_tags(),
            i <= s@.len(),
            ids@ == tiled_ids(wm.clients@, s@.subrange(0, i as int), active),
            borders@ == borders_of(wm.clients@, ids@),
            borders_ok(borders@),
            forall|j: int| 0 <= j < ids@.len() ==> tiled(wm.clients@, #[trigger] ids@[j], active),
        decreases s@.len() - i,
    {
        let id = s[i];
        assert(s@.subrange(0, i + 1).drop_last() =~= s@.subrange(0, i as int));
        if id < wm.clients.len() {
            match &wm.clients[id] {
                Some(c) => {
                    if c.tags & active != 0 && !c.is_floating {
                        proof {
                            assert(wm.client_ok(id));
                        }
                        ids.push(id);
                        borders.push(c.border_width);
                        assert(borders@ =~= borders_of(wm.clients@, ids@));
                    }
                },
                None => {},
            }
        }
        i = i + 1;
    }
    assert(s@.subrange(0, s@.len() as int) =~= s@);
    (ids, borders)
}

/// Tile layout of monitor `m`: the geometry of each tiled client, in list order.
pub fn rust_tile(wm: &Wm, m: usize) -> (r: Vec<Placement>)
    requires
        wm.wf(),
        m < wm.monitors@.len(),
    ensures
        wm.is_tiling(m, r@),
{
    assert(wm.mon_base(m));
    let (ids, borders) = collect_tiled(wm, m);
    let mon = &wm.monitors[m];
    let rects = tile_layout(mon.work_area(), mon.nmaster, mon.mfact, &borders);
    let mut out: Vec<Placement> = Vec::new();
    let mut i: usize = 0;
    while i < ids.len()
        invariant
            rects@.len() == ids@.len(),
            i <= ids@.len(),
            out@.len() == i,
            forall|j: int|
                0 <= j < i ==> #[trigger] out@[j].client == ids@[j] && out@[j].rect == rects@[j],
        decreases ids@.len() - i,
    {
        out.push(Placement { client: ids[i], rect: rects[i] });
        i = i + 1;
    }
    proof {
        assert forall|j: int| 0 <= j < out@.len() implies #[trigger] out@[j].client == wm.tiled_on(
            m,
        )[j] && out@[j].rect.is(
            tile_cell(
                wm.mon(m).spec_work_area(),
                wm.mon(m).nmaster,
                wm.mon(m).mfact,
                borders_of(wm.clients@, wm.tiled_on(m)),
                j,
            ),
        ) by {
            assert(rects@[j].is(tile_cell(mon.spec_work_area(), mon.nmaster, mon.mfact, borders@, j)));
        }
    }
    out
}

/// Monocle layout of monitor `m`: the layout symbol becomes `[n]` for `n`
/// visible clients, floating ones included, when there is at least one and
/// `[n]` fits the symbol's capacity; each
/// tiled client, in list order, gets the whole working area less its border.
pub fn rust_monocle(wm: &mut Wm, m: usize) -> (r: Vec<Placement>)
    requires
        old(wm).wf(),
        m < old(wm).monitors@.len(),
    ensures
        old(wm).is_monocle(m, r@),
        final(wm).mon(m).ltsymbol@ == old(wm).monocle_symbol(m),
        final(wm).monitors@ == old(wm).monitors@.update(
            m as int,
            Monitor { ltsymbol: final(wm).monitors@[m as int].ltsymbol, ..old(wm).monitors@[m as int] },
        ),
        *final(wm) == (Wm { monitors: final(wm).monitors, ..*old(wm) }),
        final(wm).wf(),
{
    assert(old(wm).mon_base(m));
    let active = wm.monitors[m].tagset[wm.monitors[m].seltags];
    let mut count: usize = 0;
    let mut i: usize = 0;
    while i < wm.monitors[m].clients.len()
        invariant
            m < wm.monitors@.len(),
            active == wm.mon(m).active_tags(),
            i <= wm.mon(m).clients@.len(),
            count == shown_count(wm.clients@, wm.mon(m).clients@.subrange(0, i as int), active),
            count <= i,
        decreases wm.mon(m).clients@.len() - i,
    {
        let id = wm.monitors[m].clients[i];
        assert(wm.mon(m).clients@.subrange(0, i + 1).drop_last() =~= wm.mon(m).clients@.subrange(
            0,
            i as int,
        ));
        if id < wm.clients.len() {
            match &wm.clients[id] {
                Some(c) => {
                    if c.tags & active != 0 {
                        count = count + 1;
                    }
                },
                None => {},
            }
        }
        i = i + 1;
    }
    assert(wm.mon(m).clients@.subrange(0, wm.mon(m).clients@.len() as int) =~= wm.mon(m).clients@);
    let (ids, borders) = collect_tiled(wm, m);
    let rects = monocle_layout(wm.monitors[m].work_area(), &borders);
    let mut out: Vec<Placement> = Vec::new();
    let mut j: usize = 0;
    while j < ids.len()
        invariant
            rects@.len() == ids@.len(),
            j <= ids@.len(),
            out@.len() == j,
            forall|k: int|
                0 <= k < j ==> #[trigger] out@[k].client == ids@[k] && out@[k].rect == rects@[k],
        decreases ids@.len() - j,
    {
        out.push(Placement { client: ids[j], rect: rects[j] });
        j = j + 1;
    }
    proof {
        let w = *old(wm);
        assert forall|k: int| 0 <= k < out@.len() implies #[trigger] out@[k].client == w.tiled_on(
            m,
        )[k] && out@[k].rect.is(monocle_cell(w.mon(m).spec_work_area(), w.client(w.tiled_on(m)[k]).border_width)) by {
            assert(ids@ == w.tiled_on(m));
            assert(borders@[k] == w.client(ids@[k]).border_width);
            assert(rects@[k].is(monocle_cell(w.mon(m).spec_work_area(), borders@[k])));
        }
    }
    if count > 0 {
        let label = count_symbol(count);
        if label.len() < SYMBOL_CAPACITY {
            let ghost w0 = *wm;
            wm.monitors[m].ltsymbol = label;
            proof {
                lemma_geometry_frame(w0, *wm);
            }
        }
    }
    out
}

/// Moves each client named in `ps` to its rectangle, in order.
pub fn apply_placements(wm: &mut Wm, ps: &Vec<Placement>)
    ensures
        final(wm).clients@ == applied(old(wm).clients@, ps@),
        *final(wm) == (Wm { clients: final(wm).clients, ..*old(wm) }),
        geometry_frame(*old(wm), *final(wm)),
{
    let mut i: usize = 0;
    while i < ps.len()
        invariant
            i <= ps@.len(),
            wm.clients@ == applied(old(wm).clients@, ps@.subrange(0, i as int)),
            *wm == (Wm { clients: wm.clients, ..*old(wm) }),
            geometry_frame(*old(wm), *wm),
        decreases ps@.len() - i,
    {
        let p = ps[i];
        assert(ps@.subrange(0, i + 1).drop_last() =~= ps@.subrange(0, i as int));
        let ghost w0 = *wm;
        if p.client < wm.clients.len() {
            match &mut wm.clients[p.client] {
                Some(c) => {
                    c.old_x = c.x;
                    c.old_y = c.y;
                    c.old_width = c.width;
                    c.old_height = c.height;
                    c.x = p.rect.x;
                    c.y = p.rect.y;
                    c.width = p.rect.w;
                    c.height = p.rect.h;
                },
                None => {},
            }
            proof {
                if w0.clients@[p.client as int] is Some {
                    assert(wm.clients@ =~= w0.clients@.update(
                        p.client as int,
                        Some(placed(w0.clients@[p.client as int]->Some_0, p.rect)),
                    ));
                } else {
                    assert(wm.clients@ =~= w0.clients@);
                }
                assert forall|id: int| 0 <= id < wm.clients@.len() implies same_but_geometry(
                    old(wm).clients@[id],
                    #[trigger] wm.clients@[id],
                ) by {
                    assert(same_but_geometry(old(wm).clients@[id], w0.clients@[id]));
                }
            }
        }
        i = i + 1;
    }
    assert(ps@.subrange(0, ps@.len() as int) =~= ps@);
}

/// Which clients are tiled does not depend on geometry.
proof fn lemma_tiled_ids_frame(
    cs1: Seq<Option<Client>>,
    cs2: Seq<Option<Client>>,
    s: Seq<usize>,
    active: u32,
)
    requires
        cs1.len() == cs2.len(),
        forall|id: int| 0 <= id < cs1.len() ==> same_but_geometry(cs1[id], #[trigger] cs2[id]),
    ensures
        tiled_ids(cs1, s, active) == tiled_ids(cs2, s, active),
        shown_count(cs1, s, active) == shown_count(cs2, s, active),
    decreases s.len(),
{
    if s.len() > 0 {
        lemma_tiled_ids_frame(cs1, cs2, s.drop_last(), active);
        let y = s.last();
        if y < cs1.len() {
            assert(same_but_geometry(cs1[y as int], cs2[y as int]));
        }
    }
}

/// Every client that `tiled_ids` lists is tiled and comes from `s`.
pub proof fn lemma_tiled_ids_tiled(cs: Seq<Option<Client>>, s: Seq<usize>, active: u32)
    ensures
        forall|j: int|
            0 <= j < tiled_ids(cs, s, active).len() ==> tiled(cs, #[trigger] tiled_ids(cs, s, active)[j], active)
                && s.contains(tiled_ids(cs, s, active)[j]),
    decreases s.len(),
{
    if s.len() > 0 {
        let p = s.drop_last();
        lemma_tiled_ids_tiled(cs, p, active);
        assert forall|j: int| 0 <= j < tiled_ids(cs, s, active).len() implies tiled(
            cs,
            #[trigger] tiled_ids(cs, s, active)[j],
            active,
        ) && s.contains(tiled_ids(cs, s, active)[j]) by {
            let t = tiled_ids(cs, s, active);
            if j < tiled_ids(cs, p, active).len() {
                assert(t[j] == tiled_ids(cs, p, active)[j]);
                let k = choose|k: int| 0 <= k < p.len() && p[k] == t[j];
                assert(s[k] == t[j]);
            } else {
                assert(t[j] == s.last());
                assert(s[s.len() - 1] == t[j]);
            }
        }
    }
}

/// What a layout makes of a monitor does not depend on client geometry or
/// layout symbols.
pub proof fn lemma_arrangement_frame(old: Wm, new: Wm, m: usize, r: Seq<Placement>)
    requires
        geometry_frame(old, new),
        m < old.monitors@.len(),
    ensures
        old.is_arrangement(m, r) == new.is_arrangement(m, r),
        old.tiled_on(m) == new.tiled_on(m),
        old.visible_count(m) == new.visible_count(m),
{
    assert(new.monitors@[m as int] == (Monitor {
        ltsymbol: new.monitors@[m as int].ltsymbol,
        ..old.monitors@[m as int]
    }));
    let a = old.mon(m).active_tags();
    lemma_tiled_ids_frame(old.clients@, new.clients@, old.mon(m).clients@, a);
    let ids = old.tiled_on(m);
    lemma_tiled_ids_tiled(old.clients@, old.mon(m).clients@, a);
    assert forall|i: int| 0 <= i < ids.len() implies old.client(#[trigger] ids[i]).border_width
        == new.client(ids[i]).border_width by {
        let y = ids[i];
        if y < old.clients@.len() {
            assert(same_but_geometry(old.clients@[y as int], new.clients@[y as int]));
        }
    }
    assert(borders_of(old.clients@, ids) =~= borders_of(new.clients@, ids));
}

/// Runs the live layout of monitor `m`: computes the placements of its tiled
/// clients and moves them there. Floating places nothing.
pub fn arrange(wm: &mut Wm, m: usize) -> (r: Vec<Placement>)
    requires
        old(wm).wf(),
        m < old(wm).monitors@.len(),
    ensures
        old(wm).is_arrangement(m, r@),
        final(wm).is_arrangement(m, r@),
        final(wm).clients@ == applied(old(wm).clients@, r@),
        final(wm).monitors@ == old(wm).monitors@.update(
            m as int,
            Monitor { ltsymbol: final(wm).monitors@[m as int].ltsymbol, ..old(wm).monitors@[m as int] },
        ),
        final(wm).mon(m).ltsymbol@ == if old(wm).mon(m).layout().arrange == Some(Arrange::Monocle) {
            old(wm).monocle_symbol(m)
        } else {
            old(wm).mon(m).ltsymbol@
        },
        final(wm).mon(m).ltsymbol@ == final(wm).symbol_after(m, old(wm).mon(m).ltsymbol@),
        final(wm).selmon == old(wm).selmon,
        final(wm).running == old(wm).running,
        geometry_frame(*old(wm), *final(wm)),
        final(wm).wf(),
{
    assert(old(wm).mon_base(m));
    let layout = wm.monitors[m].lt[wm.monitors[m].sellt];
    let ps = match layout.arrange {
        Some(Arrange::Tile) => rust_tile(wm, m),
        Some(Arrange::Monocle) => rust_monocle(wm, m),
        None => Vec::new(),
    };
    let ghost w1 = *wm;
    proof {
        assert(geometry_frame(*old(wm), w1)) by {
            if layout.arrange == Some(Arrange::Monocle) {
                assert forall|id: int| 0 <= id < w1.clients@.len() implies same_but_geometry(
                    old(wm).clients@[id],
                    #[trigger] w1.clients@[id],
                ) by {
                    if old(wm).clients@[id] is Some {
                        assert(old(wm).clients@[id]->Some_0 == (Client {
                            x: old(wm).clients@[id]->Some_0.x,
                            ..old(wm).clients@[id]->Some_0
                        }));
                    }
                }
            } else {
                assert forall|id: int| 0 <= id < w1.clients@.len() implies same_but_geometry(
                    old(wm).clients@[id],
                    #[trigger] w1.clients@[id],
                ) by {
                    if old(wm).clients@[id] is Some {
                        assert(old(wm).clients@[id]->Some_0 == (Client {
                            x: old(wm).clients@[id]->Some_0.x,
                            ..old(wm).clients@[id]->Some_0
                        }));
                    }
                }
                assert(w1.monitors@ =~= old(wm).monitors@.update(
                    m as int,
                    Monitor { ltsymbol: w1.monitors@[m as int].ltsymbol, ..old(wm).monitors@[m as int] },
                ));
            }
        }
        lemma_geometry_frame(*old(wm), w1);
    }
    apply_placements(wm, &ps);
    proof {
        lemma_geometry_frame(w1, *wm);
        lemma_arrangement_frame(*old(wm), *wm, m, ps@);
        assert(geometry_frame(*old(wm), *wm)) by {
            assert forall|id: int| 0 <= id < wm.clients@.len() implies same_but_geometry(
                old(wm).clients@[id],
                #[trigger] wm.clients@[id],
            ) by {
                assert(same_but_geometry(old(wm).clients@[id], w1.clients@[id]));
                assert(same_but_geometry(w1.clients@[id], wm.clients@[id]));
            }
            assert forall|k: int| 0 <= k < wm.monitors@.len() implies #[trigger] wm.monitors@[k] == (Monitor {
                ltsymbol: wm.monitors@[k].ltsymbol,
                ..old(wm).monitors@[k]
            }) by {
                assert(wm.monitors@[k] == w1.monitors@[k]);
                assert(w1.monitors@[k] == (Monitor { ltsymbol: w1.monitors@[k].ltsymbol, ..old(wm).monitors@[k] }));
            }
        }
        assert(wm.monitors@ =~= old(wm).monitors@.update(
            m as int,
            Monitor { ltsymbol: wm.monitors@[m as int].ltsymbol, ..old(wm).monitors@[m as int] },
        ));
    }
    ps
}

/// The tags a new client gets: its own tags within the tag mask, or the
/// monitor's active tagset when none of them is a tag.
pub open spec fn managed_tags(tags: u32, active: u32) -> u32 {
    if tags & TAGMASK != 0 {
        tags & TAGMASK
    } else {
        active
    }
}

/// Takes a new client under management on its monitor `c.monitor`: it gets
/// the next id, goes to the head of the monitor's client list and focus
/// stack, and takes the focus when it is visible.
pub fn manage(wm: &mut Wm, c: Client) -> (id: usize)
    requires
        old(wm).wf(),
        c.monitor < old(wm).monitors@.len(),
        0 <= c.border_width <= 0x3fff_ffff,
        old(wm).clients@.len() < usize::MAX,
    ensures
        ({
            let m = c.monitor;
            let active = old(wm).mon(m).active_tags();
            &&& id == old(wm).clients@.len()
            &&& final(wm).clients@ == old(wm).clients@.push(
                Some(Client { tags: managed_tags(c.tags, active), ..c }),
            )
            &&& final(wm).mon(m).clients@ == seq![id] + old(wm).mon(m).clients@
            &&& final(wm).mon(m).stack@.contains(id)
            &&& final(wm).mon(m).sel == if managed_tags(c.tags, active) & active != 0 {
                Some(id)
            } else {
                first_shown(old(wm).clients@, old(wm).mon(m).stack@, active)
            }
            &&& final(wm).mon(m).stack@ == match final(wm).mon(m).sel {
                Some(x) => seq![x] + without_first(seq![id] + old(wm).mon(m).stack@, x),
                None => seq![id] + old(wm).mon(m).stack@,
            }
            &&& final(wm).mon(m) == (Monitor {
                clients: final(wm).mon(m).clients,
                stack: final(wm).mon(m).stack,
                sel: final(wm).mon(m).sel,
                ..old(wm).mon(m)
            })
            &&& forall|k: int|
                0 <= k < old(wm).monitors@.len() && k != m ==> #[trigger] final(wm).monitors@[k]
                    == old(wm).monitors@[k]
            &&& final(wm).monitors@.len() == old(wm).monitors@.len()
            &&& final(wm).selmon == old(wm).selmon
            &&& final(wm).running == old(wm).running
        }),
        final(wm).wf(),
{
    let m = c.monitor;
    assert(old(wm).mon_base(m));
    let active = wm.monitors[m].tagset[wm.monitors[m].seltags];
    let mut c = c;
    c.tags = if c.tags & TAGMASK != 0 {
        c.tags & TAGMASK
    } else {
        active
    };
    let ghost tags = c.tags;
    let id = wm.clients.len();
    wm.clients.push(Some(c));
    let ghost w1 = *wm;
    rust_attach(wm, id);
    rust_attach_stack(wm, id);
    let ghost w3 = *wm;
    proof {
        let w0 = *old(wm);
        assert(w3.clients == w1.clients);
        assert forall|y: usize| y != id implies #[trigger] w3.has(y) == w0.has(y) && (w0.has(y)
            ==> w3.client(y) == w0.client(y)) by {
            if y < w0.clients@.len() {
                assert(w3.clients@[y as int] == w0.clients@[y as int]);
            }
        }
        assert forall|k: usize| k < w0.monitors@.len() implies !(#[trigger] w0.mon(k)).clients@.contains(id)
            && !w0.mon(k).stack@.contains(id) by {
            assert(w0.mon_base(k));
            assert(w0.lists_owned(k));
        }
        assert forall|y: usize| w3.mon(m).clients@.contains(y) <==> y == id || w0.mon(m).clients@.contains(y) by {
            lemma_push_front(w0.mon(m).clients@, id);
        }
        assert forall|y: usize| w3.mon(m).stack@.contains(y) <==> y == id || w0.mon(m).stack@.contains(y) by {
            lemma_push_front(w0.mon(m).stack@, id);
        }
        lemma_push_front(w0.mon(m).clients@, id);
        lemma_push_front(w0.mon(m).stack@, id);
        assert forall|k: usize| k < w3.monitors@.len() implies #[trigger] w3.mon_base(k) by {
            assert(w0.mon_base(k));
            assert(w0.lists_owned(k));
            if k != m {
                assert(w3.mon(k) == w0.mon(k));
            }
            assert forall|y: usize| #[trigger] w3.mon(k).clients@.contains(y) implies w3.has(y)
                && w3.client(y).monitor == k by {
                if y != id {
                    assert(w0.mon(k).clients@.contains(y));
                }
            }
            assert forall|y: usize| #[trigger] w3.mon(k).stack@.contains(y) implies w3.has(y)
                && w3.client(y).monitor == k by {
                if y != id {
                    assert(w0.mon(k).stack@.contains(y));
                }
            }
        }
        assert forall|y: usize| #[trigger] w3.client_ok(y) by {
            assert(w0.client_ok(y));
            if y != id && w3.has(y) {
                let k = w0.client(y).monitor;
                if k != m {
                    assert(w3.mon(k) == w0.mon(k));
                }
            }
        }
        assert forall|k: usize| k < w3.monitors@.len() && k != m implies #[trigger] w3.sel_ok(k) by {
            assert(w0.sel_ok(k));
            assert(w3.mon(k) == w0.mon(k));
        }
    }
    focus(wm, m, Some(id));
    proof {
        if tags & active == 0 {
            let s0 = old(wm).mon(m).stack@;
            assert(!shows(w3.clients@, id, active));
            assert(w3.mon(m).stack@ == seq![id] + s0);
            lemma_first_shown_skip(w3.clients@, id, s0, active);
            assert forall|y: usize| #[trigger] s0.contains(y) implies shows(w3.clients@, y, active)
                == shows(old(wm).clients@, y, active) by {
                assert(old(wm).mon_base(m));
                assert(old(wm).lists_owned(m));
                assert(w3.clients@[y as int] == old(wm).clients@[y as int]);
            }
            lemma_first_shown_frame(w3.clients@, old(wm).clients@, s0, active);
        }
        if tags & active != 0 {
            assert(w3.focus_target(m, Some(id)) == Some(id));
            lemma_without_first(w3.mon(m).stack@, id);
            lemma_push_front(old(wm).mon(m).stack@, id);
            assert(w3.mon(m).stack@[0] == id);
            assert(without_first(w3.mon(m).stack@, id) =~= old(wm).mon(m).stack@) by {
                assert(crate::lists::first_at(w3.mon(m).stack@, id, 0));
                let j = choose|j: int| crate::lists::first_at(w3.mon(m).stack@, id, j);
                if j > 0 {
                    assert(w3.mon(m).stack@[0] != id);
                }
            }
        }
        assert(wm.mon_base(m));
        assert(wm.mon(m).clients@.contains(id));
    }
    id
}

/// Stops managing client `c`: it leaves both orderings of its monitor and its
/// slot is emptied. When it was selected, the selection passes to the first
/// visible client of the remaining focus stack, or to none. The monitor is
/// then laid out again.
pub fn unmanage(wm: &mut Wm, c: usize) -> (r: Vec<Placement>)
    requires
        old(wm).wf(),
        old(wm).has(c),
    ensures
        ({
            let m = old(wm).client(c).monitor;
            let rest = without_first(old(wm).mon(m).stack@, c);
            &&& !final(wm).has(c)
            &&& final(wm).clients@.len() == old(wm).clients@.len()
            &&& forall|y: usize| y != c ==> #[trigger] final(wm).has(y) == old(wm).has(y)
            &&& final(wm).mon(m).clients@ == without_first(old(wm).mon(m).clients@, c)
            &&& final(wm).mon(m).stack@ == rest
            &&& !final(wm).mon(m).clients@.contains(c)
            &&& final(wm).mon(m).sel == if old(wm).mon(m).sel == Some(c) {
                first_shown(old(wm).clients@, rest, old(wm).mon(m).active_tags())
            } else {
                old(wm).mon(m).sel
            }
            &&& final(wm).is_arrangement(m, r@)
            &&& final(wm).clients@ == applied(old(wm).clients@.update(c as int, None), r@)
            &&& final(wm).mon(m) == (Monitor {
                clients: final(wm).mon(m).clients,
                stack: final(wm).mon(m).stack,
                sel: final(wm).mon(m).sel,
                ltsymbol: final(wm).mon(m).ltsymbol,
                ..old(wm).mon(m)
            })
            &&& final(wm).mon(m).ltsymbol@ == final(wm).symbol_after(m, old(wm).mon(m).ltsymbol@)
            &&& forall|k: int|
                0 <= k < old(wm).monitors@.len() && k != m ==> #[trigger] final(wm).monitors@[k]
                    == old(wm).monitors@[k]
            &&& final(wm).monitors@.len() == old(wm).monitors@.len()
            &&& final(wm).selmon == old(wm).selmon
            &&& final(wm).running == old(wm).running
        }),
        final(wm).wf(),
{
    let ghost w0 = *wm;
    let m = match &wm.clients[c] {
        Some(cl) => cl.monitor,
        None => 0,
    };
    proof {
        assert(w0.client_ok(c));
        assert(w0.mon_base(m));
    }
    rust_detach(wm, c);
    rust_detach_stack(wm, c);
    wm.clients.set(c, None);
    let ghost w3 = *wm;
    proof {
        lemma_without_first(w0.mon(m).clients@, c);
        lemma_without_first(w0.mon(m).stack@, c);
        assert forall|y: usize| y != c implies #[trigger] w3.has(y) == w0.has(y) && (w0.has(y)
            ==> w3.client(y) == w0.client(y)) by {
            if y < w0.clients@.len() {
                assert(w3.clients@[y as int] == w0.clients@[y as int]);
            }
        }
        assert forall|y: usize, a: u32| y != c implies #[trigger] shows(w3.clients@, y, a) == shows(w0.clients@, y, a) by {
            if y < w0.clients@.len() {
                assert(w3.clients@[y as int] == w0.clients@[y as int]);
            }
        }
        assert forall|k: usize| k < w3.monitors@.len() implies #[trigger] w3.mon_base(k) by {
            assert(w0.mon_base(k));
            assert(w0.lists_owned(k));
            if k != m {
                assert(w3.mon(k) == w0.mon(k));
            }
            assert forall|y: usize| #[trigger] w3.mon(k).clients@.contains(y) implies w3.has(y)
                && w3.client(y).monitor == k by {
                assert(w0.mon(k).clients@.contains(y));
            }
            assert forall|y: usize| #[trigger] w3.mon(k).stack@.contains(y) implies w3.has(y)
                && w3.client(y).monitor == k by {
                assert(w0.mon(k).stack@.contains(y));
            }
        }
        assert forall|y: usize| #[trigger] w3.client_ok(y) by {
            assert(w0.client_ok(y));
            if y != c && w3.has(y) {
                let k = w0.client(y).monitor;
                if k != m {
                    assert(w3.mon(k) == w0.mon(k));
                }
            }
        }
        assert forall|k: usize| k < w3.monitors@.len() implies #[trigger] w3.sel_ok(k) by {
            assert(w0.sel_ok(k));
            if k != m {
                assert(w3.mon(k) == w0.mon(k));
                if w0.mon(k).sel is Some {
                    assert(w0.mon_base(k));
                    let x = w0.mon(k).sel->Some_0;
                    assert(w0.mon(k).stack@.contains(x));
                    assert(w0.client(x).monitor == k);
                }
            } else if w0.mon(m).sel == Some(c) {
                lemma_first_shown(w0.clients@, w3.mon(m).stack@, w0.mon(m).active_tags());
            }
        }
    }
    let r = arrange(wm, m);
    proof {
        assert forall|k: int| 0 <= k < w0.monitors@.len() && k != m implies #[trigger] wm.monitors@[k]
            == w0.monitors@[k] by {
            assert(wm.monitors@[k] == w3.monitors@[k]);
        }
        assert(w3.clients@ =~= w0.clients@.update(c as int, None));
        assert(w3.mon(m) == (Monitor {
            clients: w3.mon(m).clients,
            stack: w3.mon(m).stack,
            sel: w3.mon(m).sel,
            ..w0.mon(m)
        }));
    }
    r
}

/// Sends client `c` to monitor `b`: it leaves both orderings of its old
/// monitor (whose selection passes on as in `rust_detach_stack`), takes `b`'s
/// active tagset as its tags, goes to the head of both orderings of `b` and
/// becomes `b`'s selected client. Returns the monitors to lay out again: the
/// old one and `b`; none when `c` is on `b` already.
pub fn rust_send_to_monitor(wm: &mut Wm, c: usize, b: usize) -> (r: Vec<usize>)
    requires
        old(wm).wf(),
        old(wm).has(c),
        b < old(wm).monitors@.len(),
    ensures
        ({
            let a = old(wm).client(c).monitor;
            let rest = without_first(old(wm).mon(a).stack@, c);
            if a == b {
                &&& *final(wm) == *old(wm)
                &&& r@.len() == 0
            } else {
                &&& r@ == seq![a, b]
                &&& final(wm).client(c) == (Client {
                    monitor: b,
                    tags: old(wm).mon(b).active_tags(),
                    ..old(wm).client(c)
                })
                &&& forall|y: int|
                    0 <= y < old(wm).clients@.len() && y != c ==> #[trigger] final(wm).clients@[y]
                        == old(wm).clients@[y]
                &&& final(wm).clients@.len() == old(wm).clients@.len()
                &&& final(wm).mon(a).clients@ == without_first(old(wm).mon(a).clients@, c)
                &&& final(wm).mon(a).stack@ == rest
                &&& final(wm).mon(a).sel == if old(wm).mon(a).sel == Some(c) {
                    first_shown(old(wm).clients@, rest, old(wm).mon(a).active_tags())
                } else {
                    old(wm).mon(a).sel
                }
                &&& final(wm).mon(b).clients@ == seq![c] + old(wm).mon(b).clients@
                &&& final(wm).mon(b).stack@ == seq![c] + old(wm).mon(b).stack@
                &&& final(wm).mon(b).sel == Some(c)
                &&& final(wm).mon(a) == (Monitor {
                    clients: final(wm).mon(a).clients,
                    stack: final(wm).mon(a).stack,
                    sel: final(wm).mon(a).sel,
                    ..old(wm).mon(a)
                })
                &&& final(wm).mon(b) == (Monitor {
                    clients: final(wm).mon(b).clients,
                    stack: final(wm).mon(b).stack,
                    sel: final(wm).mon(b).sel,
                    ..old(wm).mon(b)
                })
                &&& final(wm).running == old(wm).running
                &&& forall|k: int|
                    0 <= k < old(wm).monitors@.len() && k != a && k != b
                        ==> #[trigger] final(wm).monitors@[k] == old(wm).monitors@[k]
                &&& final(wm).monitors@.len() == old(wm).monitors@.len()
                &&& final(wm).selmon == old(wm).selmon
            }
        }),
        final(wm).wf(),
{
    let ghost w0 = *wm;
    let a = match &wm.clients[c] {
        Some(cl) => cl.monitor,
        None => 0,
    };
    if a == b {
        return Vec::new();
    }
    proof {
        assert(w0.client_ok(c));
        assert(w0.mon_base(a));
        assert(w0.mon_base(b));
        assert(w0.lists_owned(b));
    }
    rust_detach(wm, c);
    rust_detach_stack(wm, c);
    let ghost w2 = *wm;
    let t = wm.monitors[b].tagset[wm.monitors[b].seltags];
    match &mut wm.clients[c] {
        Some(cl) => {
            cl.monitor = b;
            cl.tags = t;
        },
        None => {},
    }
    let ghost w2b = *wm;
    assert(w2b.clients@ =~= w2.clients@.update(c as int, Some(Client { monitor: b, tags: t, ..w0.client(c) })));
    rust_attach(wm, c);
    rust_attach_stack(wm, c);
    let ghost w3 = *wm;
    proof {
        lemma_without_first(w0.mon(a).clients@, c);
        lemma_without_first(w0.mon(a).stack@, c);
        lemma_push_front(w0.mon(b).clients@, c);
        lemma_push_front(w0.mon(b).stack@, c);
        assert(!w0.mon(b).clients@.contains(c));
        assert(!w0.mon(b).stack@.contains(c));
        assert(w3.mon(a) == w2.mon(a));
        assert forall|y: usize| y != c implies #[trigger] w3.has(y) == w0.has(y) && (w0.has(y)
            ==> w3.client(y) == w0.client(y)) by {
            if y < w0.clients@.len() {
                assert(w3.clients@[y as int] == w0.clients@[y as int]);
            }
        }
        assert forall|y: usize, x: u32| y != c implies #[trigger] shows(w3.clients@, y, x) == shows(w0.clients@, y, x) by {
            if y < w0.clients@.len() {
                assert(w3.clients@[y as int] == w0.clients@[y as int]);
            }
        }
        assert forall|k: usize| k < w3.monitors@.len() implies #[trigger] w3.mon_base(k) by {
            assert(w0.mon_base(k));
            assert(w0.lists_owned(k));
            if k != a && k != b {
                assert(w3.mon(k) == w0.mon(k));
            }
            assert forall|y: usize| #[trigger] w3.mon(k).clients@.contains(y) implies w3.has(y)
                && w3.client(y).monitor == k by {
                if y != c {
                    assert(w0.mon(k).clients@.contains(y));
                }
            }
            assert forall|y: usize| #[trigger] w3.mon(k).stack@.contains(y) implies w3.has(y)
                && w3.client(y).monitor == k by {
                if y != c {
                    assert(w0.mon(k).stack@.contains(y));
                }
            }
            if k == b {
                assert forall|y: usize| #[trigger] w3.mon(k).clients@.contains(y) implies w3.mon(k).stack@.contains(y) by {
                    if y != c {
                        assert(w0.mon(k).clients@.contains(y));
                    }
                }
                assert forall|y: usize| #[trigger] w3.mon(k).stack@.contains(y) implies w3.mon(k).clients@.contains(y) by {
                    if y != c {
                        assert(w0.mon(k).stack@.contains(y));
                    }
                }
            }
        }
        assert forall|y: usize| #[trigger] w3.client_ok(y) by {
            assert(w0.client_ok(y));
            if y != c && w3.has(y) {
                let k = w0.client(y).monitor;
                if k != a && k != b {
                    assert(w3.mon(k) == w0.mon(k));
                }
            }
        }
        assert forall|k: usize| k < w3.monitors@.len() && k != b implies #[trigger] w3.sel_ok(k) by {
            assert(w0.sel_ok(k));
            if k != a {
                assert(w3.mon(k) == w0.mon(k));
                if w0.mon(k).sel is Some {
                    assert(w0.mon_base(k));
                    let x = w0.mon(k).sel->Some_0;
                    assert(w0.mon(k).stack@.contains(x));
                    assert(w0.client(x).monitor == k);
                }
            } else if w0.mon(a).sel == Some(c) {
                lemma_first_shown(w0.clients@, w3.mon(a).stack@, w0.mon(a).active_tags());
            }
        }
        assert(w3.focus_target(b, None) == Some(c)) by {
            assert(t & t == t) by (bit_vector);
            assert(w3.mon(b).active_tags() == t);
            assert(w3.clients@[c as int] == w2b.clients@[c as int]);
            assert(w3.mon(b).stack@[0] == c);
            assert(shows(w3.clients@, c, t));
            assert(first_shown_at(w3.clients@, w3.mon(b).stack@, w3.mon(b).active_tags(), 0));
            let j = choose|j: int| first_shown_at(w3.clients@, w3.mon(b).stack@, w3.mon(b).active_tags(), j);
            if j > 0 {
                assert(!shows(w3.clients@, w3.mon(b).stack@[0], w3.mon(b).active_tags()));
            }
        }
    }
    focus(wm, b, None);
    proof {
        assert(without_first(w3.mon(b).stack@, c) =~= w0.mon(b).stack@) by {
            assert(crate::lists::first_at(w3.mon(b).stack@, c, 0));
            let j = choose|j: int| crate::lists::first_at(w3.mon(b).stack@, c, j);
            if j > 0 {
                assert(w3.mon(b).stack@[0] != c);
            }
        }
        assert(wm.clients == w3.clients);
        assert(w3.clients@ =~= w2b.clients@);
        assert(w2.clients == w0.clients);
        assert(wm.mon(a) == w3.mon(a));
        assert forall|k: int| 0 <= k < w0.monitors@.len() && k != a && k != b
            implies #[trigger] wm.monitors@[k] == w0.monitors@[k] by {
            assert(wm.monitors@[k] == w3.monitors@[k]);
        }
    }
    let mut r: Vec<usize> = Vec::new();
    r.push(a);
    r.push(b);
    r
}

/// Shows the tags `ui` on the selected monitor. Nothing happens when they are
/// shown already. Otherwise the other tagset slot becomes live and, unless
/// `ui` names no tag, takes `ui` as its tags: `ui` without tags goes back to
/// the previous view. The focus moves to the first visible client of the
/// focus stack and the monitor is laid out again.
pub fn rust_view(wm: &mut Wm, ui: u32) -> (r: Vec<Placement>)
    requires
        old(wm).wf(),
    ensures
        ({
            let m = old(wm).selmon;
            let t = ui & TAGMASK;
            let om = old(wm).mon(m);
            if t == om.active_tags() {
                &&& *final(wm) == *old(wm)
                &&& r@.len() == 0
            } else {
                let fm = final(wm).mon(m);
                &&& fm.seltags == 1 - om.seltags
                &&& fm.active_tags() == if t != 0 {
                    t
                } else {
                    om.other_tags()
                }
                &&& fm.other_tags() == om.active_tags()
                &&& fm == (Monitor {
                    seltags: fm.seltags,
                    tagset: fm.tagset,
                    stack: fm.stack,
                    sel: fm.sel,
                    ltsymbol: fm.ltsymbol,
                    ..om
                })
                &&& fm.ltsymbol@ == final(wm).symbol_after(m, om.ltsymbol@)
                &&& final(wm).clients@ == applied(old(wm).clients@, r@)
                &&& final(wm).running == old(wm).running
                &&& final(wm).monitors@.len() == old(wm).monitors@.len()
                &&& fm.sel == first_shown(old(wm).clients@, om.stack@, fm.active_tags())
                &&& fm.stack@ == match fm.sel {
                    Some(x) => seq![x] + without_first(om.stack@, x),
                    None => om.stack@,
                }
                &&& final(wm).is_arrangement(m, r@)
                &&& forall|k: int|
                    0 <= k < old(wm).monitors@.len() && k != m ==> #[trigger] final(wm).monitors@[k]
                        == old(wm).monitors@[k]
                &&& final(wm).selmon == m
            }
        }),
        final(wm).wf(),
{
    let m = wm.selmon;
    let t = ui & TAGMASK;
    proof {
        assert(old(wm).mon_base(m));
    }
    if t == wm.monitors[m].tagset[wm.monitors[m].seltags] {
        return Vec::new();
    }
    let ghost w0 = *wm;
    wm.monitors[m].toggle_tagset_slot();
    if t != 0 {
        let sl = wm.monitors[m].seltags;
        wm.monitors[m].tagset[sl] = t;
    }
    let ghost w1 = *wm;
    proof {
        assert(w1.monitors@ =~= w0.monitors@.update(m as int, w1.monitors@[m as int]));
        assert(w1.mon(m) == (Monitor { seltags: w1.mon(m).seltags, tagset: w1.mon(m).tagset, ..w0.mon(m) }));
        assert forall|k: usize| k < w1.monitors@.len() implies #[trigger] w1.mon_base(k) by {
            assert(w0.mon_base(k));
            assert(w0.lists_owned(k));
            if k != m {
                assert(w1.mon(k) == w0.mon(k));
            }
        }
        assert forall|y: usize| #[trigger] w1.client_ok(y) by {
            assert(w0.client_ok(y));
            if w1.has(y) {
                let k = w0.client(y).monitor;
                if k != m {
                    assert(w1.mon(k) == w0.mon(k));
                }
            }
        }
        assert forall|k: usize| k < w1.monitors@.len() && k != m implies #[trigger] w1.sel_ok(k) by {
            assert(w0.sel_ok(k));
            assert(w1.mon(k) == w0.mon(k));
        }
    }
    focus(wm, m, None);
    let ghost w2 = *wm;
    let r = arrange(wm, m);
    proof {
        assert forall|k: int| 0 <= k < w0.monitors@.len() && k != m implies #[trigger] wm.monitors@[k]
            == w0.monitors@[k] by {
            assert(wm.monitors@[k] == w2.monitors@[k]);
            assert(w2.monitors@[k] == w1.monitors@[k]);
        }
        assert(w2.clients == w0.clients);
        assert(w2.mon(m) == (Monitor { stack: w2.mon(m).stack, sel: w2.mon(m).sel, ..w1.mon(m) }));
    }
    r
}

impl Wm {
    /// The client that zooming on the selected monitor brings to the head of
    /// its client list: the selected client, or the next tiled one when the
    /// selected client heads the tiled clients already. None under the
    /// floating layout, without a selection, with a floating selection, or
    /// with no next tiled client.
    pub open spec fn zoom_target(self) -> Option<usize> {
        let m = self.selmon;
        let mon = self.mon(m);
        let ids = self.tiled_on(m);
        if mon.layout().arrange is None || mon.sel is None || self.client(
            mon.sel->Some_0,
        ).is_floating {
            None
        } else if ids.len() > 0 && ids[0] == mon.sel->Some_0 {
            if ids.len() > 1 {
                Some(ids[1])
            } else {
                None
            }
        } else {
            mon.sel
        }
    }
}

/// Swaps the selected client with the master: the zoom target (see
/// `zoom_target`) goes to the head of the client list, takes the focus, and
/// the monitor is laid out again. Nothing happens without a target.
pub fn rust_zoom(wm: &mut Wm) -> (r: Vec<Placement>)
    requires
        old(wm).wf(),
    ensures
        ({
            let m = old(wm).selmon;
            match old(wm).zoom_target() {
                None => *final(wm) == *old(wm) && r@.len() == 0,
                Some(t) => {
                    &&& final(wm).mon(m).clients@ == seq![t] + without_first(
                        old(wm).mon(m).clients@,
                        t,
                    )
                    &&& final(wm).mon(m).sel == Some(t)
                    &&& final(wm).mon(m).stack@ == seq![t] + without_first(
                        old(wm).mon(m).stack@,
                        t,
                    )
                    &&& final(wm).is_arrangement(m, r@)
                    &&& final(wm).mon(m) == (Monitor {
                        clients: final(wm).mon(m).clients,
                        stack: final(wm).mon(m).stack,
                        sel: final(wm).mon(m).sel,
                        ltsymbol: final(wm).mon(m).ltsymbol,
                        ..old(wm).mon(m)
                    })
                    &&& final(wm).mon(m).ltsymbol@ == final(wm).symbol_after(
                        m,
                        old(wm).mon(m).ltsymbol@,
                    )
                    &&& final(wm).clients@ == applied(old(wm).clients@, r@)
                    &&& forall|k: int|
                        0 <= k < old(wm).monitors@.len() && k != m ==> #[trigger] final(wm).monitors@[k]
                            == old(wm).monitors@[k]
                    &&& final(wm).monitors@.len() == old(wm).monitors@.len()
                    &&& final(wm).running == old(wm).running
                    &&& final(wm).selmon == m
                }
            }
        }),
        final(wm).wf(),
{
    let m = wm.selmon;
    proof {
        assert(old(wm).mon_base(m));
        assert(old(wm).sel_ok(m));
    }
    let layout = wm.monitors[m].lt[wm.monitors[m].sellt];
    if layout.arrange.is_none() {
        return Vec::new();
    }
    let sel = match wm.monitors[m].sel {
        Some(s) => s,
        None => {
            return Vec::new();
        },
    };
    let floating = match &wm.clients[sel] {
        Some(cl) => cl.is_floating,
        None => true,
    };
    if floating {
        return Vec::new();
    }
    let (ids, _borders) = collect_tiled(wm, m);
    let mut t = sel;
    if ids.len() > 0 && ids[0] == sel {
        if ids.len() > 1 {
            t = ids[1];
        } else {
            return Vec::new();
        }
    }
    let ghost w0 = *wm;
    proof {
        assert(w0.zoom_target() == Some(t));
        lemma_tiled_ids_tiled(w0.clients@, w0.mon(m).clients@, w0.mon(m).active_tags());
        assert(w0.mon(m).clients@.contains(t)) by {
            if t != sel {
                assert(w0.mon(m).clients@.contains(ids@[1]));
            } else {
                assert(w0.mon(m).stack@.contains(sel));
            }
        }
        assert(w0.lists_owned(m));
        assert(w0.shown_on(t, m)) by {
            if t != sel {
                assert(tiled(w0.clients@, ids@[1], w0.mon(m).active_tags()));
            }
        }
        lemma_without_first(w0.mon(m).clients@, t);
        lemma_push_front(without_first(w0.mon(m).clients@, t), t);
    }
    rust_detach(wm, t);
    rust_attach(wm, t);
    let ghost w2 = *wm;
    proof {
        assert(w2.clients == w0.clients);
        assert(w2.mon(m) == (Monitor { clients: w2.mon(m).clients, ..w0.mon(m) }));
        assert forall|y: usize| #[trigger] w2.mon(m).clients@.contains(y) <==> w0.mon(m).clients@.contains(y) by {
            if y != t {
                assert(without_first(w0.mon(m).clients@, t).contains(y) == w0.mon(m).clients@.contains(y));
            }
        }
        assert forall|k: usize| k < w2.monitors@.len() implies #[trigger] w2.mon_base(k) by {
            assert(w0.mon_base(k));
            assert(w0.lists_owned(k));
            if k != m {
                assert(w2.mon(k) == w0.mon(k));
            }
        }
        assert forall|y: usize| #[trigger] w2.client_ok(y) by {
            assert(w0.client_ok(y));
            if w2.has(y) {
                let k = w0.client(y).monitor;
                if k != m {
                    assert(w2.mon(k) == w0.mon(k));
                }
            }
        }
        assert forall|k: usize| k < w2.monitors@.len() && k != m implies #[trigger] w2.sel_ok(k) by {
            assert(w0.sel_ok(k));
            assert(w2.mon(k) == w0.mon(k));
        }
        assert(w2.focus_target(m, Some(t)) == Some(t));
    }
    focus(wm, m, Some(t));
    let ghost w3 = *wm;
    let r = arrange(wm, m);
    proof {
        assert(w3.clients == w0.clients);
        assert(w3.mon(m) == (Monitor { stack: w3.mon(m).stack, sel: w3.mon(m).sel, ..w2.mon(m) }));
        assert forall|k: int| 0 <= k < w0.monitors@.len() && k != m implies #[trigger] wm.monitors@[k]
            == w0.monitors@[k] by {
            assert(wm.monitors@[k] == w3.monitors@[k]);
            assert(w3.monitors@[k] == w2.monitors@[k]);
        }
    }
    r
}

/// The client whose window is `window`: monitors are searched in order, and
/// within each its client list; the first match wins.
pub fn rust_window_to_client(wm: &Wm, window: u64) -> (r: Option<usize>)
    ensures
        match r {
            Some(id) => exists|m: int, i: int| #[trigger] wm.first_window_at(window, m, i) && wm.monitors@[m].clients@[i] == id,
            None => forall|m: int, i: int| !#[trigger] wm.window_at(window, m, i),
        },
{
    let mut m: usize = 0;
    while m < wm.monitors.len()
        invariant
            m <= wm.monitors@.len(),
            forall|k: int, i: int| 0 <= k < m ==> !#[trigger] wm.window_at(window, k, i),
        decreases wm.monitors@.len() - m,
    {
        let list = &wm.monitors[m].clients;
        let mut i: usize = 0;
        while i < list.len()
            invariant
                m < wm.monitors@.len(),
                list@ == wm.monitors@[m as int].clients@,
                i <= list@.len(),
                forall|k: int, j: int| 0 <= k < m ==> !#[trigger] wm.window_at(window, k, j),
                forall|j: int| 0 <= j < i ==> !#[trigger] wm.window_at(window, m as int, j),
            decreases list@.len() - i,
        {
            let id = list[i];
            let found = if id < wm.clients.len() {
                match &wm.clients[id] {
                    Some(c) => c.window == window,
                    None => false,
                }
            } else {
                false
            };
            if found {
                assert(wm.first_window_at(window, m as int, i as int));
                return Some(id);
            }
            i = i + 1;
        }
        proof {
            assert forall|j: int| !#[trigger] wm.window_at(window, m as int, j) by {
                if 0 <= j < list@.len() {
                    assert(!wm.window_at(window, m as int, j));
                }
            }
        }
        m = m + 1;
    }
    None
}

impl Wm {
    /// Position `i` of monitor `m`'s client list holds a client with `window`.
    pub open spec fn window_at(self, window: u64, m: int, i: int) -> bool {
        &&& 0 <= m < self.monitors@.len()
        &&& 0 <= i < self.monitors@[m].clients@.len()
        &&& self.has(self.monitors@[m].clients@[i])
        &&& self.client(self.monitors@[m].clients@[i]).window == window
    }

    /// Position `i` of monitor `m` is the first match for `window` in search
    /// order.
    pub open spec fn first_window_at(self, window: u64, m: int, i: int) -> bool {
        &&& self.window_at(window, m, i)
        &&& forall|k: int, j: int| 0 <= k < m ==> !#[trigger] self.window_at(window, k, j)
        &&& forall|j: int| 0 <= j < i ==> !#[trigger] self.window_at(window, m, j)
    }

    /// A state with the given monitors, no clients, and the first monitor
    /// selected.
    pub fn new(monitors: Vec<Monitor>) -> (r: Wm)
        requires
            monitors@.len() > 0,
            forall|k: int| 0 <= k < monitors@.len() ==> {
                let mon = #[trigger] monitors@[k];
                &&& mon.slots_ok()
                &&& mon.active_tags() != 0
                &&& mon.other_tags() != 0
                &&& area_ok(mon.spec_work_area())
                &&& mon.clients@.len() == 0
                &&& mon.stack@.len() == 0
                &&& mon.sel is None
            },
        ensures
            r.monitors@ == monitors@,
            r.clients@.len() == 0,
            r.selmon == 0,
            r.running,
            r.wf(),
    {
        let r = Wm { clients: Vec::new(), monitors, selmon: 0, running: true };
        proof {
            assert forall|m: usize| m < r.monitors@.len() implies #[trigger] r.mon_base(m) by {
                assert(r.mon(m) == monitors@[m as int]);
            }
            assert forall|m: usize| m < r.monitors@.len() implies #[trigger] r.sel_ok(m) by {
                assert(r.mon(m) == monitors@[m as int]);
            }
        }
        r
    }
}

/// Detaching the selected client hands the selection to the most recently
/// focused client that is still visible: the successor is empty, or a
/// visible client of the remaining stack before which no client is visible.
pub proof fn lemma_successor_visible(cs: Seq<Option<Client>>, rest: Seq<usize>, active: u32)
    ensures
        match first_shown(cs, rest, active) {
            Some(x) => exists|i: int| #[trigger] first_shown_at(cs, rest, active, i) && rest[i] == x,
            None => forall|j: int| 0 <= j < rest.len() ==> !shows(cs, #[trigger] rest[j], active),
        },
{
    lemma_first_shown(cs, rest, active);
    if exists|i: int| first_shown_at(cs, rest, active, i) {
        let i = choose|i: int| first_shown_at(cs, rest, active, i);
        assert(first_shown_at(cs, rest, active, i) && rest[i] == first_shown(cs, rest, active)->Some_0);
    }
}

/// A client that is not shown does not change which client is shown first.
proof fn lemma_first_shown_skip(cs: Seq<Option<Client>>, x: usize, s: Seq<usize>, active: u32)
    requires
        !shows(cs, x, active),
    ensures
        first_shown(cs, seq![x] + s, active) == first_shown(cs, s, active),
{
    let t = seq![x] + s;
    assert forall|i: int| first_shown_at(cs, s, active, i) <==> first_shown_at(cs, t, active, i + 1) by {
        if 0 <= i < s.len() {
            assert(t[i + 1] == s[i]);
        }
        if first_shown_at(cs, s, active, i) {
            assert forall|j: int| 0 <= j < i + 1 implies !shows(cs, t[j], active) by {
                if j > 0 {
                    assert(t[j] == s[j - 1]);
                }
            }
        }
        if first_shown_at(cs, t, active, i + 1) {
            assert forall|j: int| 0 <= j < i implies !shows(cs, s[j], active) by {
                assert(t[j + 1] == s[j]);
            }
        }
    }
    assert(!first_shown_at(cs, t, active, 0));
    if exists|i: int| first_shown_at(cs, s, active, i) {
        let i = choose|i: int| first_shown_at(cs, s, active, i);
        assert(first_shown_at(cs, t, active, i + 1));
        let k = choose|k: int| first_shown_at(cs, t, active, k);
        assert(k > 0);
        assert(first_shown_at(cs, s, active, k - 1));
        if k - 1 < i {
            assert(!shows(cs, s[k - 1], active));
        }
        if i < k - 1 {
            assert(!shows(cs, s[i], active));
        }
    }
    if exists|k: int| first_shown_at(cs, t, active, k) {
        let k = choose|k: int| first_shown_at(cs, t, active, k);
        assert(k > 0);
        assert(first_shown_at(cs, s, active, k - 1));
    }
}

/// Selects a layout on the selected monitor. Unless `layout` is the live
/// layout already, the other layout slot becomes live; `layout`, when given,
/// is stored there, so that `None` goes back to the previous layout. The
/// layout symbol follows, and with a selected client the monitor is laid out
/// again.
pub fn set_layout(wm: &mut Wm, layout: Option<Layout>) -> (r: Vec<Placement>)
    requires
        old(wm).wf(),
    ensures
        ({
            let m = old(wm).selmon;
            let om = old(wm).mon(m);
            let fm = final(wm).mon(m);
            let flip = layout is None || layout != Some(om.layout());
            let l = match layout {
                Some(l) => l,
                None => om.lt[1 - om.sellt],
            };
            &&& fm.sellt == if flip {
                1 - om.sellt
            } else {
                om.sellt as int
            }
            &&& fm.layout() == l
            &&& fm.lt[1 - fm.sellt] == om.lt[1 - fm.sellt]
            &&& fm.ltsymbol@ == if om.sel is Some && l.arrange == Some(Arrange::Monocle)
                && old(wm).visible_count(m) > 0 && count_label(old(wm).visible_count(m)).len()
                < SYMBOL_CAPACITY {
                count_label(old(wm).visible_count(m))
            } else {
                layout_symbol(l)
            }
            &&& fm == (Monitor { sellt: fm.sellt, lt: fm.lt, ltsymbol: fm.ltsymbol, ..om })
            &&& final(wm).clients@ == applied(old(wm).clients@, r@)
            &&& final(wm).running == old(wm).running
            &&& if om.sel is Some {
                final(wm).is_arrangement(m, r@)
            } else {
                r@.len() == 0
            }
            &&& forall|k: int|
                0 <= k < old(wm).monitors@.len() && k != m ==> #[trigger] final(wm).monitors@[k]
                    == old(wm).monitors@[k]
            &&& final(wm).monitors@.len() == old(wm).monitors@.len()
            &&& final(wm).selmon == m
        }),
        final(wm).wf(),
{
    let m = wm.selmon;
    proof {
        assert(old(wm).mon_base(m));
    }
    let ghost w0 = *wm;
    let live = wm.monitors[m].lt[wm.monitors[m].sellt];
    let flip = match layout {
        Some(l) => l != live,
        None => true,
    };
    if flip {
        wm.monitors[m].sellt = 1 - wm.monitors[m].sellt;
    }
    match layout {
        Some(l) => {
            let sl = wm.monitors[m].sellt;
            wm.monitors[m].lt[sl] = l;
        },
        None => {},
    }
    let now = wm.monitors[m].lt[wm.monitors[m].sellt];
    wm.monitors[m].ltsymbol = now.symbol();
    let ghost w1 = *wm;
    proof {
        assert(w1.monitors@ =~= w0.monitors@.update(m as int, w1.monitors@[m as int]));
        assert(w1.mon(m) == (Monitor {
            sellt: w1.mon(m).sellt,
            lt: w1.mon(m).lt,
            ltsymbol: w1.mon(m).ltsymbol,
            ..w0.mon(m)
        }));
        assert forall|k: usize| k < w1.monitors@.len() implies #[trigger] w1.mon_base(k) by {
            assert(w0.mon_base(k));
            assert(w0.lists_owned(k));
            if k != m {
                assert(w1.mon(k) == w0.mon(k));
            }
        }
        assert forall|y: usize| #[trigger] w1.client_ok(y) by {
            assert(w0.client_ok(y));
            if w1.has(y) {
                let k = w0.client(y).monitor;
                if k != m {
                    assert(w1.mon(k) == w0.mon(k));
                }
            }
        }
        assert forall|k: usize| k < w1.monitors@.len() implies #[trigger] w1.sel_ok(k) by {
            assert(w0.sel_ok(k));
            if k != m {
                assert(w1.mon(k) == w0.mon(k));
            }
        }
        assert(w1.visible_count(m) == w0.visible_count(m));
    }
    if wm.monitors[m].sel.is_some() {
        let r = arrange(wm, m);
        proof {
            assert forall|k: int| 0 <= k < w0.monitors@.len() && k != m implies #[trigger] wm.monitors@[k]
                == w0.monitors@[k] by {
                assert(wm.monitors@[k] == w1.monitors@[k]);
            }
        }
        r
    } else {
        Vec::new()
    }
}

/// Toggles floating on the selected client of the selected monitor; a client
/// of fixed size stays floating, and a fullscreen one is left alone. The
/// monitor is then laid out again. Nothing happens without a selection.
pub fn toggle_floating(wm: &mut Wm) -> (r: Vec<Placement>)
    requires
        old(wm).wf(),
    ensures
        ({
            let m = old(wm).selmon;
            match old(wm).mon(m).sel {
                Some(s) => if old(wm).client(s).is_fullscreen {
                    *final(wm) == *old(wm) && r@.len() == 0
                } else {
                    let c = old(wm).client(s);
                    &&& final(wm).has(s)
                    &&& final(wm).client(s).is_floating == (!c.is_floating || c.is_fixed)
                    &&& final(wm).client(s).tags == c.tags
                    &&& final(wm).client(s).monitor == c.monitor
                    &&& final(wm).is_arrangement(m, r@)
                    &&& final(wm).clients@ == applied(
                        old(wm).clients@.update(
                            s as int,
                            Some(Client { is_floating: !c.is_floating || c.is_fixed, ..c }),
                        ),
                        r@,
                    )
                    &&& final(wm).mon(m) == (Monitor {
                        ltsymbol: final(wm).mon(m).ltsymbol,
                        ..old(wm).mon(m)
                    })
                    &&& final(wm).mon(m).ltsymbol@ == final(wm).symbol_after(
                        m,
                        old(wm).mon(m).ltsymbol@,
                    )
                    &&& forall|k: int|
                        0 <= k < old(wm).monitors@.len() && k != m ==> #[trigger] final(wm).monitors@[k]
                            == old(wm).monitors@[k]
                    &&& final(wm).monitors@.len() == old(wm).monitors@.len()
                    &&& final(wm).running == old(wm).running
                    &&& final(wm).selmon == m
                },
                None => *final(wm) == *old(wm) && r@.len() == 0,
            }
        }),
        final(wm).wf(),
{
    let m = wm.selmon;
    proof {
        assert(old(wm).mon_base(m));
        assert(old(wm).sel_ok(m));
    }
    let s = match wm.monitors[m].sel {
        Some(s) => s,
        None => {
            return Vec::new();
        },
    };
    let fullscreen = match &wm.clients[s] {
        Some(c) => c.is_fullscreen,
        None => true,
    };
    if fullscreen {
        return Vec::new();
    }
    let ghost w0 = *wm;
    match &mut wm.clients[s] {
        Some(c) => {
            c.is_floating = !c.is_floating || c.is_fixed;
        },
        None => {},
    }
    let ghost w1 = *wm;
    proof {
        let c0 = w0.client(s);
        assert(w1.clients@ =~= w0.clients@.update(
            s as int,
            Some(Client { is_floating: !c0.is_floating || c0.is_fixed, ..c0 }),
        ));
        assert forall|y: usize| #[trigger] w1.has(y) == w0.has(y) && (w0.has(y) ==> w1.client(
            y,
        ).monitor == w0.client(y).monitor && w1.client(y).tags == w0.client(y).tags
            && w1.client(y).border_width == w0.client(y).border_width) by {
            if y < w0.clients@.len() && y != s {
                assert(w1.clients@[y as int] == w0.clients@[y as int]);
            }
        }
        assert forall|y: usize, a: u32| #[trigger] shows(w1.clients@, y, a) == shows(w0.clients@, y, a) by {
            if y < w0.clients@.len() && y != s {
                assert(w1.clients@[y as int] == w0.clients@[y as int]);
            }
        }
        assert forall|k: usize| k < w1.monitors@.len() implies #[trigger] w1.mon_base(k) by {
            assert(w0.mon_base(k));
            assert(w0.lists_owned(k));
        }
        assert forall|y: usize| #[trigger] w1.client_ok(y) by {
            assert(w0.client_ok(y));
        }
        assert forall|k: usize| k < w1.monitors@.len() implies #[trigger] w1.sel_ok(k) by {
            assert(w0.sel_ok(k));
        }
    }
    let r = arrange(wm, m);
    proof {
        assert(same_but_geometry(w1.clients@[s as int], wm.clients@[s as int]));
        assert forall|k: int| 0 <= k < w0.monitors@.len() && k != m implies #[trigger] wm.monitors@[k]
            == w0.monitors@[k] by {
            assert(wm.monitors@[k] == w1.monitors@[k]);
        }
    }
    r
}

/// Carrying out placements changes client geometry only: every slot keeps
/// whether it holds a client, and that client's tags, monitor, flags,
/// border, title and window.
pub proof fn lemma_applied_keeps(cs: Seq<Option<Client>>, ps: Seq<Placement>)
    ensures
        applied(cs, ps).len() == cs.len(),
        forall|id: int| 0 <= id < cs.len() ==> same_but_geometry(cs[id], #[trigger] applied(cs, ps)[id]),
    decreases ps.len(),
{
    if ps.len() > 0 {
        lemma_applied_keeps(cs, ps.drop_last());
        let prev = applied(cs, ps.drop_last());
        assert forall|id: int| 0 <= id < cs.len() implies same_but_geometry(cs[id], #[trigger] applied(cs, ps)[id]) by {
            assert(same_but_geometry(cs[id], prev[id]));
        }
    }
}

} // verus!
