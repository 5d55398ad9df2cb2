use vstd::prelude::*;
use crate::client::Client;
use crate::geometry::{fits_i32, Rect};
use crate::monitor::TAG_COUNT;
use crate::wm::Wm;

verus! {

/// Width of a tag's box and its arrow together.
pub const BAR_ITEM_WIDTH: u32 = 40;

/// A background colour of one of the two schemes.
#[derive(Clone, Copy, Debug, PartialEq, Eq, Structural)]
pub enum Color {
    NormBg,
    SelBg,
}

/// The colours a bar item is drawn in.
#[derive(Clone, Copy, Debug, PartialEq, Eq, Structural)]
pub enum Scheme {
    /// The normal scheme.
    Norm,
    /// The selected scheme.
    Sel,
    /// An arrow: these foreground and background colours, and the normal border.
    Arrow { fg: Color, bg: Color },
}

/// What text a bar item shows.
#[derive(Clone, Copy, Debug, PartialEq, Eq, Structural)]
pub enum BarText {
    /// The status text.
    Status,
    /// The name of the tag with this index.
    Tag(usize),
    /// The arrow glyph.
    Arrow,
    /// The monitor's layout symbol.
    Symbol,
    /// The selected client's title.
    Title,
}

/// One drawing step of the bar.
#[derive(Clone, Copy, Debug, PartialEq, Eq, Structural)]
pub enum DrawCmd {
    Text { scheme: Scheme, x: i32, y: i32, w: u32, h: u32, lpad: u32, text: BarText, invert: bool },
    Rect { scheme: Scheme, x: i32, y: i32, w: u32, h: u32, filled: bool, invert: bool },
}

/// Font and bar measures the plan needs, as the renderer reports them.
#[derive(Clone, Copy, Debug, PartialEq, Eq, Structural)]
pub struct BarMetrics {
    /// Bar height.
    pub bh: i32,
    /// Horizontal padding of text.
    pub lrpad: i32,
    /// Width of the status text.
    pub status_width: u32,
    /// Width of the arrow glyph.
    pub arrow_width: u32,
    /// Width of the layout symbol.
    pub symbol_width: u32,
    /// Height of the font.
    pub font_height: u32,
}

impl BarMetrics {
    /// Measures every bar can be drawn with: sizes are not negative, the
    /// arrow fits in a tag's box, and the layout symbol's box width fits in
    /// an `i32`.
    pub open spec fn valid(self) -> bool {
        &&& 0 <= self.bh
        &&& 0 <= self.lrpad
        &&& self.arrow_width <= BAR_ITEM_WIDTH
        &&& self.symbol_width + self.lrpad <= i32::MAX
    }

    /// Measures the status text can be drawn with: its padding less two
    /// pixels on each side is not negative, and its box width fits in an `i32`.
    pub open spec fn status_ok(self) -> bool {
        &&& 4 <= self.lrpad
        &&& self.status_width + self.lrpad <= i32::MAX
    }
}

/// The plan of the first part of a bar, and what the rest needs from it.
#[derive(Debug)]
pub struct BarPlan {
    /// Drawing steps in order; the last one draws the layout symbol.
    pub cmds: Vec<DrawCmd>,
    /// Width taken by the status text at the right end; 0 when not drawn.
    pub tw: i32,
    /// Width of the layout symbol's box.
    pub blw: i32,
}

/// The union of the tags of the urgent clients among `s`.
pub open spec fn urgent_tags(cs: Seq<Option<Client>>, s: Seq<usize>) -> u32
    decreases s.len(),
{
    if s.len() == 0 {
        0
    } else {
        let y = s.last();
        let rest = urgent_tags(cs, s.drop_last());
        if y < cs.len() && cs[y as int] is Some && cs[y as int]->Some_0.is_urgent {
            rest | cs[y as int]->Some_0.tags
        } else {
            rest
        }
    }
}

/// Width of the status text's box.
pub open spec fn status_box(metrics: BarMetrics) -> int {
    metrics.status_width + metrics.lrpad - metrics.lrpad / 2 + 2
}

/// Left edge of the box of tag `i`.
pub open spec fn tag_x(i: int) -> int {
    if i == 0 {
        0
    } else {
        BAR_ITEM_WIDTH * i + 5
    }
}

/// Width of the text box of tag `i`.
pub open spec fn tag_box(metrics: BarMetrics, i: int) -> int {
    if i == 0 {
        BAR_ITEM_WIDTH - metrics.arrow_width + 5
    } else {
        BAR_ITEM_WIDTH - metrics.arrow_width
    }
}

/// The step that draws the name of tag `i`.
pub open spec fn tag_text_cmd(metrics: BarMetrics, active: u32, urg: u32, i: int) -> DrawCmd {
    DrawCmd::Text {
        scheme: if active & (1u32 << i as u32) != 0 {
            Scheme::Sel
        } else {
            Scheme::Norm
        },
        x: tag_x(i) as i32,
        y: 0,
        w: tag_box(metrics, i) as u32,
        h: metrics.bh as u32,
        lpad: if i == 0 {
            13
        } else {
            8
        },
        text: BarText::Tag(i as usize),
        invert: urg & (1u32 << i as u32) != 0,
    }
}

/// The step that draws the arrow after tag `i`: in the selected background
/// when the tag is shown, else leading into the selected background when the
/// next tag is shown.
pub open spec fn tag_arrow_cmd(metrics: BarMetrics, active: u32, i: int) -> DrawCmd {
    let selected = active & (1u32 << i as u32) != 0;
    let next_selected = i + 1 < TAG_COUNT && active & (1u32 << (i + 1) as u32) != 0;
    DrawCmd::Text {
        scheme: if selected {
            Scheme::Arrow { fg: Color::SelBg, bg: Color::NormBg }
        } else if next_selected {
            Scheme::Arrow { fg: Color::NormBg, bg: Color::SelBg }
        } else {
            Scheme::Arrow { fg: Color::NormBg, bg: Color::NormBg }
        },
        x: (tag_x(i) + tag_box(metrics, i)) as i32,
        y: 0,
        w: metrics.arrow_width,
        h: metrics.bh as u32,
        lpad: 0,
        text: BarText::Arrow,
        invert: false,
    }
}

/// The steps of the first part of the bar of monitor `m`: the status text at
/// the right end when `m` is the selected monitor, then for each tag its
/// name and an arrow, then the layout symbol.
pub open spec fn bar_head(wm: Wm, m: usize, metrics: BarMetrics) -> Seq<DrawCmd> {
    let mon = wm.mon(m);
    let active = mon.active_tags();
    let urg = urgent_tags(wm.clients@, mon.clients@);
    let status = if m == wm.selmon {
        seq![
            DrawCmd::Text {
                scheme: Scheme::Norm,
                x: (mon.ww - status_box(metrics)) as i32,
                y: 0,
                w: status_box(metrics) as u32,
                h: metrics.bh as u32,
                lpad: (metrics.lrpad / 2 - 2) as u32,
                text: BarText::Status,
                invert: false,
            },
        ]
    } else {
        seq![]
    };
    let tags = Seq::new(
        2 * TAG_COUNT as nat,
        |k: int|
            if k % 2 == 0 {
                tag_text_cmd(metrics, active, urg, k / 2)
            } else {
                tag_arrow_cmd(metrics, active, k / 2)
            },
    );
    let symbol = DrawCmd::Text {
        scheme: Scheme::Norm,
        x: (tag_x(TAG_COUNT as int) - 8) as i32,
        y: 0,
        w: (metrics.symbol_width + metrics.lrpad) as u32,
        h: metrics.bh as u32,
        lpad: (metrics.lrpad / 2) as u32,
        text: BarText::Symbol,
        invert: false,
    };
    status + tags + seq![symbol]
}

/// The union of the tags of the urgent clients of monitor `m`.
fn urgent_mask(wm: &Wm, m: usize) -> (r: u32)
    requires
        m < wm.monitors@.len(),
    ensures
        r == urgent_tags(wm.clients@, wm.mon(m).clients@),
{
    let s = &wm.monitors[m].clients;
    let mut urg: u32 = 0;
    let mut i: usize = 0;
    while i < s.len()
        invariant
            s@ == wm.mon(m).clients@,
            i <= s@.len(),
            urg == urgent_tags(wm.clients@, s@.subrange(0, i as int)),
        decreases s@.len() - i,
    {
        let id = s[i];
        assert(s@.subrange(0, i + 1).drop_last() =~= s@.subrange(0, i as int));
        if id < wm.clients.len() {
            match &wm.clients[id] {
                Some(c) => {
                    if c.is_urgent {
                        urg = urg | c.tags;
                    }
                },
                None => {},
            }
        }
        i = i + 1;
    }
    assert(s@.subrange(0, s@.len() as int) =~= s@);
    urg
}

/// Plans the first part of the bar of monitor `m` (see `bar_head`). The rest
/// depends on where the renderer ends the layout symbol; `bar_title` plans it.
pub fn rust_draw_bar(wm: &Wm, m: usize, metrics: BarMetrics) -> (r: BarPlan)
    requires
        wm.wf(),
        m < wm.monitors@.len(),
        metrics.valid(),
        m == wm.selmon ==> metrics.status_ok(),
    ensures
        r.cmds@ == bar_head(*wm, m, metrics),
        r.tw == if m == wm.selmon {
            status_box(metrics)
        } else {
            0
        },
        r.blw == metrics.symbol_width + metrics.lrpad,
{
    assert(wm.mon_base(m));
    let mon = &wm.monitors[m];
    let active = mon.tagset[mon.seltags];
    let urg = urgent_mask(wm, m);
    let mut cmds: Vec<DrawCmd> = Vec::new();
    let tw: i32 = if m == wm.selmon {
        let tw: i32 = metrics.status_width as i32 + metrics.lrpad - metrics.lrpad / 2 + 2;
        cmds.push(
            DrawCmd::Text {
                scheme: Scheme::Norm,
                x: mon.ww - tw,
                y: 0,
                w: tw as u32,
                h: metrics.bh as u32,
                lpad: (metrics.lrpad / 2 - 2) as u32,
                text: BarText::Status,
                invert: false,
            },
        );
        tw
    } else {
        0
    };
    let ghost base = cmds@;
    let mut x: i32 = 0;
    let mut i: usize = 0;
    while i < TAG_COUNT
        invariant
            metrics.valid(),
            i <= TAG_COUNT,
            x == tag_x(i as int),
            cmds@.len() == base.len() + 2 * i,
            cmds@.subrange(0, base.len() as int) == base,
            forall|k: int|
                0 <= k < 2 * i ==> #[trigger] cmds@[base.len() + k] == if k % 2 == 0 {
                    tag_text_cmd(metrics, active, urg, k / 2)
                } else {
                    tag_arrow_cmd(metrics, active, k / 2)
                },
        decreases TAG_COUNT - i,
    {
        let bit: u32 = 1u32 << i as u32;
        let selected = active & bit != 0;
        let next_selected = i + 1 < TAG_COUNT && active & (1u32 << (i + 1) as u32) != 0;
        let text_box: u32 = if i == 0 {
            BAR_ITEM_WIDTH - metrics.arrow_width + 5
        } else {
            BAR_ITEM_WIDTH - metrics.arrow_width
        };
        cmds.push(
            DrawCmd::Text {
                scheme: if selected {
                    Scheme::Sel
                } else {
                    Scheme::Norm
                },
                x,
                y: 0,
                w: text_box,
                h: metrics.bh as u32,
                lpad: if i == 0 {
                    13
                } else {
                    8
                },
                text: BarText::Tag(i),
                invert: urg & bit != 0,
            },
        );
        cmds.push(
            DrawCmd::Text {
                scheme: if selected {
                    Scheme::Arrow { fg: Color::SelBg, bg: Color::NormBg }
                } else if next_selected {
                    Scheme::Arrow { fg: Color::NormBg, bg: Color::SelBg }
                } else {
                    Scheme::Arrow { fg: Color::NormBg, bg: Color::NormBg }
                },
                x: x + text_box as i32,
                y: 0,
                w: metrics.arrow_width,
                h: metrics.bh as u32,
                lpad: 0,
                text: BarText::Arrow,
                invert: false,
            },
        );
        proof {
            assert forall|k: int| 0 <= k < 2 * (i + 1) implies #[trigger] cmds@[base.len() + k]
                == if k % 2 == 0 {
                tag_text_cmd(metrics, active, urg, k / 2)
            } else {
                tag_arrow_cmd(metrics, active, k / 2)
            } by {
                if k >= 2 * i {
                    assert(k / 2 == i);
                }
            }
            assert(cmds@.subrange(0, base.len() as int) =~= base);
        }
        x = x + (metrics.arrow_width + text_box) as i32;
        i = i + 1;
    }
    let blw: i32 = metrics.symbol_width as i32 + metrics.lrpad;
    cmds.push(
        DrawCmd::Text {
            scheme: Scheme::Norm,
            x: x - 8,
            y: 0,
            w: blw as u32,
            h: metrics.bh as u32,
            lpad: (metrics.lrpad / 2) as u32,
            text: BarText::Symbol,
            invert: false,
        },
    );
    proof {
        let expect = bar_head(*wm, m, metrics);
        assert(cmds@.len() == expect.len());
        assert forall|k: int| 0 <= k < cmds@.len() implies cmds@[k] == expect[k] by {
            if k >= base.len() && k < base.len() + 18 {
                assert(cmds@[base.len() + (k - base.len())] == cmds@[k]);
            }
            if k < base.len() {
                assert(cmds@.subrange(0, base.len() as int)[k] == cmds@[k]);
            }
        }
        assert(cmds@ =~= expect);
    }
    BarPlan { cmds, tw, blw }
}

/// The steps of the rest of the bar of monitor `m`, given the width `tw`
/// of the status box and the position `x` where the layout symbol ended:
/// when the space left is wider than the bar is high, the selected client's
/// title there, with a small box when it floats (filled when its size is
/// fixed), or, with no selection, that space filled and inverted; else nothing.
pub open spec fn bar_tail(wm: Wm, m: usize, metrics: BarMetrics, tw: i32, x: i32) -> Seq<DrawCmd> {
    let mon = wm.mon(m);
    let w = mon.ww - tw - x;
    let boxs = metrics.font_height / 9;
    let boxw = metrics.font_height / 6 + 2;
    if w <= metrics.bh {
        seq![]
    } else {
        match mon.sel {
            Some(s) => {
                let title = DrawCmd::Text {
                    scheme: Scheme::Norm,
                    x,
                    y: 0,
                    w: w as u32,
                    h: metrics.bh as u32,
                    lpad: (metrics.lrpad / 2) as u32,
                    text: BarText::Title,
                    invert: false,
                };
                if wm.client(s).is_floating {
                    seq![
                        title,
                        DrawCmd::Rect {
                            scheme: Scheme::Norm,
                            x: (x + boxs) as i32,
                            y: boxs as i32,
                            w: boxw as u32,
                            h: boxw as u32,
                            filled: wm.client(s).is_fixed,
                            invert: false,
                        },
                    ]
                } else {
                    seq![title]
                }
            },
            None => seq![
                DrawCmd::Rect {
                    scheme: Scheme::Norm,
                    x,
                    y: 0,
                    w: w as u32,
                    h: metrics.bh as u32,
                    filled: true,
                    invert: true,
                },
            ],
        }
    }
}

/// Plans the rest of the bar of monitor `m` (see `bar_tail`).
pub fn bar_title(wm: &Wm, m: usize, metrics: BarMetrics, tw: i32, x: i32) -> (r: Vec<DrawCmd>)
    requires
        wm.wf(),
        m < wm.monitors@.len(),
        metrics.valid(),
        fits_i32(wm.mon(m).ww - tw - x),
        fits_i32(x + metrics.font_height / 9),
    ensures
        r@ == bar_tail(*wm, m, metrics, tw, x),
{
    assert(wm.mon_base(m));
    let mon = &wm.monitors[m];
    let w: i32 = ((mon.ww as i64 - tw as i64) - x as i64) as i32;
    let boxs: u32 = metrics.font_height / 9;
    let boxw: u32 = metrics.font_height / 6 + 2;
    let mut out: Vec<DrawCmd> = Vec::new();
    if w > metrics.bh {
        match mon.sel {
            Some(s) => {
                proof {
                    assert(wm.sel_ok(m));
                }
                out.push(
                    DrawCmd::Text {
                        scheme: Scheme::Norm,
                        x,
                        y: 0,
                        w: w as u32,
                        h: metrics.bh as u32,
                        lpad: (metrics.lrpad / 2) as u32,
                        text: BarText::Title,
                        invert: false,
                    },
                );
                match &wm.clients[s] {
                    Some(c) => {
                        if c.is_floating {
                            out.push(
                                DrawCmd::Rect {
                                    scheme: Scheme::Norm,
                                    x: x + boxs as i32,
                                    y: boxs as i32,
                                    w: boxw,
                                    h: boxw,
                                    filled: c.is_fixed,
                                    invert: false,
                                },
                            );
                        }
                    },
                    None => {},
                }
            },
            None => {
                out.push(
                    DrawCmd::Rect {
                        scheme: Scheme::Norm,
                        x,
                        y: 0,
                        w: w as u32,
                        h: metrics.bh as u32,
                        filled: true,
                        invert: true,
                    },
                );
            },
        }
    }
    assert(out@ =~= bar_tail(*wm, m, metrics, tw, x));
    out
}

/// Where the bar window of monitor `m` goes: at the working area's left edge
/// and the bar's height, as wide as the working area.
pub fn rust_resize_bar_window(wm: &Wm, m: usize, bh: i32) -> (r: Rect)
    requires
        m < wm.monitors@.len(),
    ensures
        r == (Rect { x: wm.mon(m).wx, y: wm.mon(m).by, w: wm.mon(m).ww, h: bh }),
{
    let mon = &wm.monitors[m];
    Rect { x: mon.wx, y: mon.by, w: mon.ww, h: bh }
}

/// Plans the first part of every monitor's bar, monitor by monitor.
pub fn rust_draw_bars(wm: &Wm, metrics: BarMetrics) -> (r: Vec<BarPlan>)
    requires
        wm.wf(),
        metrics.valid(),
        metrics.status_ok(),
    ensures
        r@.len() == wm.monitors@.len(),
        forall|k: int|
            0 <= k < r@.len() ==> {
                &&& #[trigger] r@[k].cmds@ == bar_head(*wm, k as usize, metrics)
                &&& r@[k].tw == if k == wm.selmon {
                    status_box(metrics)
                } else {
                    0
                }
                &&& r@[k].blw == metrics.symbol_width + metrics.lrpad
            },
{
    let mut out: Vec<BarPlan> = Vec::new();
    let mut m: usize = 0;
    while m < wm.monitors.len()
        invariant
            wm.wf(),
            metrics.valid(),
            metrics.status_ok(),
            m <= wm.monitors@.len(),
            out@.len() == m,
            forall|k: int|
                0 <= k < m ==> {
                    &&& #[trigger] out@[k].cmds@ == bar_head(*wm, k as usize, metrics)
                    &&& out@[k].tw == if k == wm.selmon {
                        status_box(metrics)
                    } else {
                        0
                    }
                    &&& out@[k].blw == metrics.symbol_width + metrics.lrpad
                },
        decreases wm.monitors@.len() - m,
    {
        out.push(rust_draw_bar(wm, m, metrics));
        m = m + 1;
    }
    out
}

} // verus!
