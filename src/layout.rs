use vstd::prelude::*;
use crate::geometry::{fits_i32, Rect};
use crate::monitor::MFACT_SCALE;

verus! {

/// Width of the master column for `n` tiled clients.
pub open spec fn master_width(ww: int, n: int, nmaster: int, mfact: int) -> int {
    if n > nmaster {
        if nmaster > 0 {
            ww * mfact / MFACT_SCALE as int
        } else {
            0
        }
    } else {
        ww
    }
}

/// Pixels of a column of height `total` used before its `i`-th of `k`
/// clients. Each client gets the remaining height divided by the number of
/// clients left; the running offset moves on only while it stays inside the
/// column.
pub open spec fn column_offset(total: int, k: int, i: nat) -> int
    decreases i,
{
    if i == 0 {
        0
    } else {
        let used = column_offset(total, k, (i - 1) as nat);
        let h = (total - used) / (k - (i - 1));
        if used + h < total {
            used + h
        } else {
            used
        }
    }
}

/// Height (border included) given to the `i`-th of `k` clients of a column.
pub open spec fn column_height(total: int, k: int, i: nat) -> int {
    (total - column_offset(total, k, i)) / (k - i)
}

/// Sum of the heights given to the first `j` of `k` clients of a column.
pub open spec fn column_sum(total: int, k: int, j: nat) -> int
    decreases j,
{
    if j == 0 {
        0
    } else {
        column_sum(total, k, (j - 1) as nat) + column_height(total, k, (j - 1) as nat)
    }
}

/// Number of clients in the master column.
pub open spec fn master_count(nmaster: int, n: int) -> int {
    if nmaster < n {
        nmaster
    } else {
        n
    }
}

/// The rectangle (x, y, width, height) that the tile layout gives to the
/// `i`-th of the tiled clients whose border widths are `borders`.
pub open spec fn tile_cell(area: Rect, nmaster: u32, mfact: u32, borders: Seq<i32>, i: int) -> (
    int,
    int,
    int,
    int,
) {
    let n = borders.len() as int;
    let nm = master_count(nmaster as int, n);
    let mw = master_width(area.w as int, n, nmaster as int, mfact as int);
    let bw = borders[i] as int;
    if i < nm {
        (
            area.x as int,
            area.y + column_offset(area.h as int, nm, i as nat),
            mw - 2 * bw,
            column_height(area.h as int, nm, i as nat) - 2 * bw,
        )
    } else {
        (
            area.x + mw,
            area.y + column_offset(area.h as int, n - nm, (i - nm) as nat),
            area.w - mw - 2 * bw,
            column_height(area.h as int, n - nm, (i - nm) as nat) - 2 * bw,
        )
    }
}

/// The rectangle that the monocle layout gives to a client with border `bw`.
pub open spec fn monocle_cell(area: Rect, bw: i32) -> (int, int, int, int) {
    (area.x as int, area.y as int, area.w - 2 * bw, area.h - 2 * bw)
}

/// Border widths that a layout can subtract twice without overflow.
pub open spec fn borders_ok(borders: Seq<i32>) -> bool {
    forall|i: int| 0 <= i < borders.len() ==> 0 <= #[trigger] borders[i] <= 0x3fff_ffff
}

/// A working area whose far edges fit in an `i32`.
pub open spec fn area_ok(area: Rect) -> bool {
    &&& 0 <= area.w
    &&& 0 <= area.h
    &&& fits_i32(area.x + area.w)
    &&& fits_i32(area.y + area.h)
}

/// Offsets stay inside the column and heights inside what is left of it.
pub proof fn lemma_column_bounds(total: int, k: int, i: nat)
    requires
        0 <= total,
        i < k,
    ensures
        0 <= column_offset(total, k, i) <= total,
        0 <= column_height(total, k, i) <= total - column_offset(total, k, i),
    decreases i,
{
    if i > 0 {
        lemma_column_bounds(total, k, (i - 1) as nat);
    }
    let a = total - column_offset(total, k, i);
    let d = k - i;
    assert(0 <= a / d <= a) by (nonlinear_arith)
        requires
            a >= 0,
            d >= 1,
    ;
}

/// Before the last client of a column, the offset is the sum of the heights
/// given so far.
proof fn lemma_column_sum_prefix(total: int, k: int, j: nat)
    requires
        0 <= total,
        j < k,
    ensures
        column_sum(total, k, j) == column_offset(total, k, j),
    decreases j,
{
    if j > 0 {
        let p = (j - 1) as nat;
        lemma_column_sum_prefix(total, k, p);
        lemma_column_bounds(total, k, p);
        let a = total - column_offset(total, k, p);
        let d = k - p;
        if a > 0 {
            assert(a / d < a) by (nonlinear_arith)
                requires
                    a > 0,
                    d >= 2,
            ;
        } else {
            assert(a / d == 0) by (nonlinear_arith)
                requires
                    a == 0,
                    d >= 2,
            ;
        }
    }
}

/// The heights given to the clients of a column add up to the column's height.
pub proof fn lemma_column_sum(total: int, k: int)
    requires
        0 <= total,
        1 <= k,
    ensures
        column_sum(total, k, k as nat) == total,
{
    let p = (k - 1) as nat;
    lemma_column_sum_prefix(total, k, p);
    lemma_column_bounds(total, k, p);
    let a = total - column_offset(total, k, p);
    assert(a / 1 == a);
}

/// Sum of the full heights (border included) of the tile cells
/// `from .. from + j`.
pub open spec fn cell_heights(
    area: Rect,
    nmaster: u32,
    mfact: u32,
    borders: Seq<i32>,
    from: int,
    j: nat,
) -> int
    decreases j,
{
    if j == 0 {
        0
    } else {
        let i = from + j - 1;
        cell_heights(area, nmaster, mfact, borders, from, (j - 1) as nat) + tile_cell(
            area,
            nmaster,
            mfact,
            borders,
            i,
        ).3 + 2 * borders[i]
    }
}

proof fn lemma_cell_heights_column(
    area: Rect,
    nmaster: u32,
    mfact: u32,
    borders: Seq<i32>,
    master: bool,
    from: int,
    k: int,
    j: nat,
)
    requires
        master ==> from == 0 && k == master_count(nmaster as int, borders.len() as int),
        !master ==> from == master_count(nmaster as int, borders.len() as int) && k
            == borders.len() - from,
        j <= k,
    ensures
        cell_heights(area, nmaster, mfact, borders, from, j) == column_sum(area.h as int, k, j),
    decreases j,
{
    if j > 0 {
        lemma_cell_heights_column(area, nmaster, mfact, borders, master, from, k, (j - 1) as nat);
    }
}

/// The tile layout splits the tiled clients into a master column of
/// `min(nmaster, n)` clients at the left edge and a stack column of the rest
/// beside it; the heights in each non-empty column, borders included, add up
/// to the working height.
pub proof fn lemma_tile_columns(area: Rect, nmaster: u32, mfact: u32, borders: Seq<i32>)
    requires
        area_ok(area),
        mfact <= MFACT_SCALE,
        borders_ok(borders),
    ensures
        ({
            let n = borders.len() as int;
            let nm = master_count(nmaster as int, n);
            let mw = master_width(area.w as int, n, nmaster as int, mfact as int);
            &&& nm == (if (nmaster as int) < n {
                nmaster as int
            } else {
                n
            })
            &&& forall|i: int|
                0 <= i < nm ==> {
                    let c = #[trigger] tile_cell(area, nmaster, mfact, borders, i);
                    c.0 == area.x && c.2 + 2 * borders[i] == mw
                }
            &&& forall|i: int|
                nm <= i < n ==> {
                    let c = #[trigger] tile_cell(area, nmaster, mfact, borders, i);
                    c.0 == area.x + mw && c.2 + 2 * borders[i] == area.w - mw
                }
            &&& nm > 0 ==> cell_heights(area, nmaster, mfact, borders, 0, nm as nat) == area.h
            &&& n > nm ==> cell_heights(area, nmaster, mfact, borders, nm, (n - nm) as nat)
                == area.h
        }),
{
    let n = borders.len() as int;
    let nm = master_count(nmaster as int, n);
    if nm > 0 {
        lemma_cell_heights_column(area, nmaster, mfact, borders, true, 0, nm, nm as nat);
        lemma_column_sum(area.h as int, nm);
    }
    if n > nm {
        lemma_cell_heights_column(area, nmaster, mfact, borders, false, nm, n - nm, (n - nm) as nat);
        lemma_column_sum(area.h as int, n - nm);
    }
}

/// Tile layout: the rectangle of each of the tiled clients, in order. The
/// first `min(nmaster, n)` form the master column on the left, the others
/// the stack column beside it.
pub fn tile_layout(area: Rect, nmaster: u32, mfact: u32, borders: &Vec<i32>) -> (r: Vec<Rect>)
    requires
        area_ok(area),
        mfact <= MFACT_SCALE,
        borders_ok(borders@),
    ensures
        r@.len() == borders@.len(),
        forall|i: int|
            0 <= i < r@.len() ==> #[trigger] r@[i].is(tile_cell(area, nmaster, mfact, borders@, i)),
{
    let n: usize = borders.len();
    let mut out: Vec<Rect> = Vec::new();
    if n == 0 {
        return out;
    }
    let nm: usize = if (nmaster as usize) < n {
        nmaster as usize
    } else {
        n
    };
    let mw: i32 = if n > nmaster as usize {
        if nmaster > 0 {
            assert(0 <= area.w as int * mfact as int <= 0x7fff_ffff * 1000) by (nonlinear_arith)
                requires
                    0 <= area.w <= 0x7fff_ffff,
                    0 <= mfact <= 1000,
            ;
            let p: i64 = area.w as i64 * mfact as i64;
            proof {
                assert(0 <= p <= area.w * 1000) by (nonlinear_arith)
                    requires
                        p == area.w * mfact,
                        0 <= area.w,
                        0 <= mfact <= 1000,
                ;
            }
            (p / 1000) as i32
        } else {
            0
        }
    } else {
        area.w
    };
    assert(mw == master_width(area.w as int, n as int, nmaster as int, mfact as int));
    assert(0 <= mw <= area.w);
    let mut my: i32 = 0;
    let mut ty: i32 = 0;
    let mut i: usize = 0;
    while i < n
        invariant
            n == borders@.len(),
            nm == master_count(nmaster as int, n as int),
            mw == master_width(area.w as int, n as int, nmaster as int, mfact as int),
            0 <= mw <= area.w,
            area_ok(area),
            borders_ok(borders@),
            0 < n,
            i <= n,
            out@.len() == i,
            i <= nm ==> my == column_offset(area.h as int, nm as int, i as nat),
            i > nm ==> ty == column_offset(area.h as int, (n - nm) as int, (i - nm) as nat),
            i <= nm ==> ty == 0,
            forall|j: int|
                0 <= j < i ==> #[trigger] out@[j].is(tile_cell(area, nmaster, mfact, borders@, j)),
        decreases n - i,
    {
        let bw: i32 = borders[i];
        assert(0 <= bw <= 0x3fff_ffff) by {
            assert(borders_ok(borders@));
        }
        if i < nm {
            proof {
                lemma_column_bounds(area.h as int, nm as int, i as nat);
            }
            let h: i32 = ((area.h - my) as u64 / (nm - i) as u64) as i32;
            out.push(Rect { x: area.x, y: area.y + my, w: mw - 2 * bw, h: h - 2 * bw });
            if my + h < area.h {
                my = my + h;
            }
        } else {
            let si: usize = i - nm;
            proof {
                lemma_column_bounds(area.h as int, (n - nm) as int, si as nat);
            }
            let h: i32 = ((area.h - ty) as u64 / (n - i) as u64) as i32;
            out.push(
                Rect { x: area.x + mw, y: area.y + ty, w: area.w - mw - 2 * bw, h: h - 2 * bw },
            );
            if ty + h < area.h {
                ty = ty + h;
            }
        }
        i = i + 1;
    }
    out
}

/// Monocle layout: each tiled client gets the whole working area, less its
/// border on both sides.
pub fn monocle_layout(area: Rect, borders: &Vec<i32>) -> (r: Vec<Rect>)
    requires
        area_ok(area),
        borders_ok(borders@),
    ensures
        r@.len() == borders@.len(),
        forall|i: int| 0 <= i < r@.len() ==> #[trigger] r@[i].is(monocle_cell(area, borders@[i])),
{
    let mut out: Vec<Rect> = Vec::new();
    let mut i: usize = 0;
    while i < borders.len()
        invariant
            area_ok(area),
            borders_ok(borders@),
            i <= borders@.len(),
            out@.len() == i,
            forall|j: int| 0 <= j < i ==> #[trigger] out@[j].is(monocle_cell(area, borders@[j])),
        decreases borders@.len() - i,
    {
        let bw: i32 = borders[i];
        assert(0 <= bw <= 0x3fff_ffff) by {
            assert(borders_ok(borders@));
        }
        out.push(Rect { x: area.x, y: area.y, w: area.w - 2 * bw, h: area.h - 2 * bw });
        i = i + 1;
    }
    out
}

/// Decimal digits of `n` as ASCII.
pub open spec fn decimal(n: nat) -> Seq<u8>
    decreases n,
{
    if n < 10 {
        seq![(48 + n) as u8]
    } else {
        decimal(n / 10) + seq![(48 + n % 10) as u8]
    }
}

/// The monocle symbol for `n` visible clients: `[n]`.
pub open spec fn count_label(n: nat) -> Seq<u8> {
    seq![91u8] + decimal(n) + seq![93u8]
}

/// The text `[n]`, as ASCII.
pub fn count_symbol(n: usize) -> (r: Vec<u8>)
    ensures
        r@ == count_label(n as nat),
{
    let mut q: usize = n;
    let mut digits: Vec<u8> = Vec::new();
    while q >= 10
        invariant
            decimal(n as nat) == decimal(q as nat) + digits@,
        decreases q,
    {
        let d: u8 = (q % 10) as u8;
        let ghost old_digits = digits@;
        digits.insert(0, 48 + d);
        proof {
            assert(decimal(q as nat) == decimal((q / 10) as nat) + seq![(48 + q % 10) as u8]);
            assert(digits@ == seq![(48 + q % 10) as u8] + old_digits);
            assert(decimal(q as nat) + old_digits =~= decimal((q / 10) as nat) + digits@);
        }
        q = q / 10;
    }
    digits.insert(0, 48 + q as u8);
    let mut out: Vec<u8> = Vec::new();
    out.push(91u8);
    out.append(&mut digits);
    out.push(93u8);
    assert(out@ =~= count_label(n as nat));
    out
}

} // verus!
