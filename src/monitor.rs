use vstd::prelude::*;
use crate::geometry::Rect;

verus! {

/// Number of tags.
pub const TAG_COUNT: usize = 9;

/// The bits of all tags.
pub const TAGMASK: u32 = 0x1ff;

/// Capacity of a layout symbol, terminator included: a symbol holds at most
/// `SYMBOL_CAPACITY - 1` bytes.
pub const SYMBOL_CAPACITY: usize = 16;

/// Denominator of the master-area fraction: `mfact` is in thousandths.
pub const MFACT_SCALE: u32 = 1000;

/// How a layout places the tiled clients.
#[derive(Clone, Copy, Debug, PartialEq, Eq, Structural)]
pub enum Arrange {
    Tile,
    Monocle,
}

/// A layout: its arrangement, or none for free floating.
#[derive(Clone, Copy, Debug, PartialEq, Eq, Structural)]
pub struct Layout {
    pub arrange: Option<Arrange>,
}

pub open spec fn layout_symbol(l: Layout) -> Seq<u8> {
    match l.arrange {
        Some(Arrange::Tile) => seq![91u8, 93u8, 61u8],
        Some(Arrange::Monocle) => seq![91u8, 77u8, 93u8],
        None => seq![62u8, 60u8, 62u8],
    }
}

impl Layout {
    pub fn tile() -> (r: Layout)
        ensures
            r.arrange == Some(Arrange::Tile),
    {
        Layout { arrange: Some(Arrange::Tile) }
    }

    pub fn floating() -> (r: Layout)
        ensures
            r.arrange is None,
    {
        Layout { arrange: None }
    }

    pub fn monocle() -> (r: Layout)
        ensures
            r.arrange == Some(Arrange::Monocle),
    {
        Layout { arrange: Some(Arrange::Monocle) }
    }

    /// The layout's bar symbol: `[]=` for tile, `[M]` for monocle, `><>` for floating.
    pub fn symbol(&self) -> (r: Vec<u8>)
        ensures
            r@ == layout_symbol(*self),
    {
        match self.arrange {
            Some(Arrange::Tile) => vec![91u8, 93u8, 61u8],
            Some(Arrange::Monocle) => vec![91u8, 77u8, 93u8],
            None => vec![62u8, 60u8, 62u8],
        }
    }
}

/// A display region with its tag view, layouts and client orderings.
#[derive(Debug)]
pub struct Monitor {
    /// The layout symbol shown in the bar.
    pub ltsymbol: Vec<u8>,
    /// Master-area fraction, in thousandths of the working width.
    pub mfact: u32,
    /// Number of clients in the master column.
    pub nmaster: u32,
    pub num: i32,
    /// Vertical position of the bar.
    pub by: i32,
    pub mx: i32,
    pub my: i32,
    pub mw: i32,
    pub mh: i32,
    pub wx: i32,
    pub wy: i32,
    pub ww: i32,
    pub wh: i32,
    /// Which of the two tagset slots is live.
    pub seltags: usize,
    /// Which of the two layout slots is live.
    pub sellt: usize,
    pub tagset: [u32; 2],
    pub show_bar: bool,
    pub top_bar: bool,
    /// Client ids in list order, newest first.
    pub clients: Vec<usize>,
    /// The selected client.
    pub sel: Option<usize>,
    /// Client ids in focus order, most recent first.
    pub stack: Vec<usize>,
    pub bar_window: u64,
    pub lt: [Layout; 2],
}

impl Monitor {
    /// The live tagset.
    pub open spec fn active_tags(self) -> u32 {
        self.tagset[self.seltags as int]
    }

    /// The buffered tagset.
    pub open spec fn other_tags(self) -> u32 {
        self.tagset[1 - self.seltags]
    }

    /// The live layout.
    pub open spec fn layout(self) -> Layout {
        self.lt[self.sellt as int]
    }

    /// The slot selectors are in range and the fraction is at most one.
    pub open spec fn slots_ok(self) -> bool {
        self.seltags < 2 && self.sellt < 2 && self.mfact <= MFACT_SCALE
    }

    /// The working area.
    pub open spec fn spec_work_area(self) -> Rect {
        Rect { x: self.wx, y: self.wy, w: self.ww, h: self.wh }
    }

    /// The monitor with the other tagset slot live.
    pub open spec fn toggled(self) -> Monitor {
        Monitor { seltags: (1 - self.seltags) as usize, ..self }
    }

    /// A monitor numbered `num` covering `area`, with no bar, the tile and
    /// floating layouts, tag one shown, a master fraction of 0.55 and one
    /// master client.
    pub fn new(num: i32, area: Rect) -> (r: Monitor)
        ensures
            r.num == num,
            r.mx == area.x && r.my == area.y && r.mw == area.w && r.mh == area.h,
            r.spec_work_area() == area,
            r.by == area.y,
            r.mfact == 550 && r.nmaster == 1,
            r.seltags == 0 && r.sellt == 0,
            r.tagset[0] == 1 && r.tagset[1] == 1,
            r.lt[0].arrange == Some(Arrange::Tile) && r.lt[1].arrange is None,
            r.ltsymbol@ == layout_symbol(r.lt[0]),
            !r.show_bar && r.top_bar,
            r.clients@.len() == 0 && r.stack@.len() == 0 && r.sel is None,
            r.bar_window == 0,
            r.slots_ok(),
    {
        let t = Layout::tile();
        Monitor {
            ltsymbol: t.symbol(),
            mfact: 550,
            nmaster: 1,
            num,
            by: area.y,
            mx: area.x,
            my: area.y,
            mw: area.w,
            mh: area.h,
            wx: area.x,
            wy: area.y,
            ww: area.w,
            wh: area.h,
            seltags: 0,
            sellt: 0,
            tagset: [1u32, 1u32],
            show_bar: false,
            top_bar: true,
            clients: Vec::new(),
            sel: None,
            stack: Vec::new(),
            bar_window: 0,
            lt: [t, Layout::floating()],
        }
    }

    /// The working area: the monitor without the bar.
    pub fn work_area(&self) -> (r: Rect)
        ensures
            r == self.spec_work_area(),
    {
        Rect { x: self.wx, y: self.wy, w: self.ww, h: self.wh }
    }

    /// The live tagset.
    pub fn active_tagset(&self) -> (r: u32)
        requires
            self.seltags < 2,
        ensures
            r == self.active_tags(),
    {
        self.tagset[self.seltags]
    }

    /// Makes the other tagset slot live; both slots keep their contents.
    pub fn toggle_tagset_slot(&mut self)
        requires
            old(self).seltags < 2,
        ensures
            *final(self) == old(self).toggled(),
            final(self).active_tags() == old(self).other_tags(),
            final(self).other_tags() == old(self).active_tags(),
    {
        self.seltags = 1 - self.seltags;
    }
}

/// Toggling the live tagset slot twice gives back the monitor as it was: the
/// same active tagset, and both slots unchanged.
pub proof fn lemma_toggle_twice(m: Monitor)
    requires
        m.seltags < 2,
    ensures
        m.toggled().toggled() == m,
        m.toggled().toggled().active_tags() == m.active_tags(),
        m.toggled().tagset == m.tagset,
        m.toggled().active_tags() == m.other_tags(),
{
}

} // verus!
