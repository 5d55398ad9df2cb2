use vstd::prelude::*;
use crate::geometry::{fits_i32, Rect};
use crate::monitor::Monitor;

verus! {

/// Capacity of a window title, terminator included: a title keeps at most
/// `NAME_CAPACITY - 1` bytes.
pub const NAME_CAPACITY: usize = 256;

/// A managed window and everything the manager keeps about it.
#[derive(Debug)]
pub struct Client {
    /// The window title, as bytes.
    pub name: Vec<u8>,
    pub x: i32,
    pub y: i32,
    pub width: i32,
    pub height: i32,
    pub old_x: i32,
    pub old_y: i32,
    pub old_width: i32,
    pub old_height: i32,
    pub base_width: i32,
    pub base_height: i32,
    pub inc_width: i32,
    pub inc_height: i32,
    pub max_width: i32,
    pub max_height: i32,
    pub min_width: i32,
    pub min_height: i32,
    pub border_width: i32,
    pub old_border_width: i32,
    /// Tag membership, one bit per tag.
    pub tags: u32,
    pub is_fixed: bool,
    pub is_floating: bool,
    pub is_urgent: bool,
    pub never_focus: bool,
    pub old_state: bool,
    pub is_fullscreen: bool,
    /// Index of the owning monitor.
    pub monitor: usize,
    /// The window handle.
    pub window: u64,
}

impl Client {
    /// A client for `window` with the given geometry, border, tags and monitor,
    /// no size constraints and all flags cleared.
    pub fn new(window: u64, geometry: Rect, border_width: i32, tags: u32, monitor: usize) -> (r:
        Client)
        ensures
            r.window == window,
            r.x == geometry.x && r.y == geometry.y,
            r.width == geometry.w && r.height == geometry.h,
            r.old_x == geometry.x && r.old_y == geometry.y,
            r.old_width == geometry.w && r.old_height == geometry.h,
            r.border_width == border_width && r.old_border_width == border_width,
            r.tags == tags,
            r.monitor == monitor,
            !r.is_fixed && !r.is_floating && !r.is_urgent,
            !r.never_focus && !r.old_state && !r.is_fullscreen,
            r.name@.len() == 0,
    {
        Client {
            name: Vec::new(),
            x: geometry.x,
            y: geometry.y,
            width: geometry.w,
            height: geometry.h,
            old_x: geometry.x,
            old_y: geometry.y,
            old_width: geometry.w,
            old_height: geometry.h,
            base_width: 0,
            base_height: 0,
            inc_width: 0,
            inc_height: 0,
            max_width: 0,
            max_height: 0,
            min_width: 0,
            min_height: 0,
            border_width,
            old_border_width: border_width,
            tags,
            is_fixed: false,
            is_floating: false,
            is_urgent: false,
            never_focus: false,
            old_state: false,
            is_fullscreen: false,
            monitor,
            window,
        }
    }

    /// Sets the title to `name`, cut to its first `NAME_CAPACITY - 1` bytes.
    pub fn set_name(&mut self, name: &Vec<u8>)
        ensures
            final(self).name@ == if name@.len() < NAME_CAPACITY {
                name@
            } else {
                name@.subrange(0, NAME_CAPACITY - 1)
            },
            *final(self) == (Client { name: final(self).name, ..*old(self) }),
    {
        let n: usize = if name.len() < NAME_CAPACITY {
            name.len()
        } else {
            NAME_CAPACITY - 1
        };
        let mut out: Vec<u8> = Vec::new();
        let mut i: usize = 0;
        while i < n
            invariant
                n <= name@.len(),
                i <= n,
                out@ == name@.subrange(0, i as int),
            decreases n - i,
        {
            out.push(name[i]);
            i = i + 1;
            assert(out@ =~= name@.subrange(0, i as int));
        }
        assert(name@.subrange(0, name@.len() as int) =~= name@);
        self.name = out;
    }

    /// The client shares a tag with the monitor's active tagset.
    pub open spec fn visible_on(self, m: Monitor) -> bool {
        self.tags & m.active_tags() != 0
    }

    /// The client takes part in tiling on the monitor: visible and not floating.
    pub open spec fn tiled_on(self, m: Monitor) -> bool {
        !self.is_floating && self.visible_on(m)
    }

    /// Whether the client is visible on `m`, its owning monitor.
    pub fn is_visable(&self, m: &Monitor) -> (r: bool)
        requires
            m.seltags < 2,
        ensures
            r == self.visible_on(*m),
    {
        self.tags & m.tagset[m.seltags] != 0
    }

    pub open spec fn spec_full_width(self) -> int {
        self.width + 2 * self.border_width
    }

    pub open spec fn spec_full_height(self) -> int {
        self.height + 2 * self.border_width
    }

    /// Width including the border on both sides.
    pub fn full_width(&self) -> (r: i32)
        requires
            fits_i32(2 * self.border_width),
            fits_i32(self.spec_full_width()),
        ensures
            r == self.spec_full_width(),
    {
        self.width + self.border_width * 2
    }

    /// Height including the border on both sides.
    pub fn full_height(&self) -> (r: i32)
        requires
            fits_i32(2 * self.border_width),
            fits_i32(self.spec_full_height()),
        ensures
            r == self.spec_full_height(),
    {
        self.height + self.border_width * 2
    }
}

} // verus!
