use dwmrs::geometry::Rect;
use dwmrs::layout::{count_symbol, monocle_layout, tile_layout};

fn r(x: i32, y: i32, w: i32, h: i32) -> Rect {
    Rect::new(x, y, w, h)
}

#[test]
fn tile_master_and_two_stack_clients() {
    let rects = tile_layout(r(0, 0, 1280, 800), 1, 550, &vec![2, 2, 2]);
    assert_eq!(rects, vec![r(0, 0, 700, 796), r(704, 0, 572, 396), r(704, 400, 572, 396)]);
}

#[test]
fn tile_empty_is_no_op() {
    assert!(tile_layout(r(0, 0, 1280, 800), 1, 550, &vec![]).is_empty());
}

#[test]
fn tile_fewer_clients_than_masters_take_full_width() {
    let rects = tile_layout(r(10, 20, 300, 90), 3, 550, &vec![1, 1]);
    assert_eq!(rects, vec![r(10, 20, 298, 43), r(10, 65, 298, 43)]);
}

#[test]
fn tile_zero_masters_puts_all_in_stack() {
    let rects = tile_layout(r(0, 0, 200, 100), 0, 550, &vec![0, 0]);
    assert_eq!(rects, vec![r(0, 0, 200, 50), r(0, 50, 200, 50)]);
}

#[test]
fn tile_rounding_goes_to_later_clients() {
    let rects = tile_layout(r(0, 0, 1000, 100), 1, 500, &vec![0, 0, 0, 0]);
    assert_eq!(rects[0], r(0, 0, 500, 100));
    assert_eq!(rects[1], r(500, 0, 500, 33));
    assert_eq!(rects[2], r(500, 33, 500, 33));
    assert_eq!(rects[3], r(500, 66, 500, 34));
    let stack_total: i32 = rects[1..].iter().map(|c| c.h).sum();
    assert_eq!(stack_total, 100);
}

#[test]
fn tile_master_count_partition() {
    let rects = tile_layout(r(0, 0, 1000, 900), 2, 600, &vec![1, 1, 1, 1, 1]);
    let masters = rects.iter().filter(|c| c.x == 0).count();
    assert_eq!(masters, 2);
    assert!(rects[2..].iter().all(|c| c.x == 600 && c.w == 398));
    let master_total: i32 = rects[..2].iter().map(|c| c.h + 2).sum();
    assert_eq!(master_total, 900);
}

#[test]
fn monocle_gives_full_area_less_borders() {
    let rects = monocle_layout(r(5, 15, 640, 480), &vec![1, 3]);
    assert_eq!(rects, vec![r(5, 15, 638, 478), r(5, 15, 634, 474)]);
}

#[test]
fn count_symbol_formats_brackets() {
    assert_eq!(count_symbol(3), b"[3]".to_vec());
    assert_eq!(count_symbol(12), b"[12]".to_vec());
    assert_eq!(count_symbol(0), b"[0]".to_vec());
    assert_eq!(count_symbol(4096), b"[4096]".to_vec());
}
