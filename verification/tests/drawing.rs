use hanover_flipdot::Dot;
use hanover_flipdot::HanoverFlipdot;

fn blank(w: u32, h: u32, addr: u8) -> HanoverFlipdot {
    HanoverFlipdot::new(w, h, addr).unwrap()
}

#[test]
fn new_display_is_dark() {
    let fd = blank(8, 8, 0);
    let frame = fd.write_vec();
    assert!(frame[5..21].iter().all(|b| *b == b'0'));
}

#[test]
fn size_reports_columns_then_rows() {
    assert_eq!(blank(96, 16, 0).size(), (96, 16));
    assert_eq!(blank(3, 7, 4).size(), (3, 7));
}

#[test]
fn pixels_are_packed_column_by_column_lowest_bit_first() {
    let mut fd = blank(8, 8, 0);
    fd.set_pixel(0, 0, true);
    assert_eq!(fd.write_vec(), b"\x0211080100000000000000\x03E3".to_vec());

    let mut fd = blank(8, 8, 0);
    fd.set_pixel(0, 7, true);
    assert_eq!(fd.write_vec(), b"\x0211088000000000000000\x0364".to_vec());

    let mut fd = blank(8, 8, 0);
    fd.set_pixel(1, 0, true);
    assert_eq!(fd.write_vec(), b"\x0211080001000000000000\x03E3".to_vec());

    let mut fd = blank(8, 8, 0);
    fd.set_pixel(7, 7, true);
    assert_eq!(fd.write_vec(), b"\x0211080000000000000080\x0364".to_vec());
}

#[test]
fn pixel_can_be_switched_off_again() {
    let mut fd = blank(8, 8, 0);
    let dark = fd.write_vec();
    fd.set_pixel(2, 3, true);
    fd.set_pixel(5, 1, true);
    assert_eq!(fd.write_vec(), b"\x0211080000080000020000\x03DA".to_vec());
    fd.set_pixel(2, 3, false);
    fd.set_pixel(5, 1, false);
    assert_eq!(fd.write_vec(), dark);
}

#[test]
fn writing_a_pixel_leaves_its_neighbours() {
    let mut fd = blank(8, 8, 0);
    for y in 0..8 {
        fd.set_pixel(4, y, true);
    }
    assert_eq!(&fd.write_vec()[5..21], b"00000000FF000000");
    fd.set_pixel(4, 2, false);
    assert_eq!(&fd.write_vec()[5..21], b"00000000FB000000");
    fd.set_pixel(4, 2, true);
    fd.set_pixel(4, 2, true);
    assert_eq!(&fd.write_vec()[5..21], b"00000000FF000000");
}

#[test]
fn positions_off_the_display_are_clipped() {
    let mut fd = blank(8, 4, 0);
    fd.set_pixel(1, 1, true);
    let before = fd.write_vec();
    fd.set_pixel(8, 0, true);
    fd.set_pixel(0, 4, true);
    fd.set_pixel(8, 4, true);
    fd.set_pixel(1, 4, false);
    fd.set_pixel(u32::MAX, 0, true);
    fd.set_pixel(0, u32::MAX, true);
    fd.set_pixel(u32::MAX, u32::MAX, true);
    assert_eq!(fd.write_vec(), before);
}

#[test]
fn negative_positions_are_clipped() {
    let mut fd = blank(8, 4, 0);
    fd.set_pixel(1, 1, true);
    let before = fd.write_vec();
    fd.draw_iter(&[
        Dot { x: -1, y: 0, on: true },
        Dot { x: 0, y: -1, on: true },
        Dot { x: -1, y: -1, on: true },
        Dot { x: i32::MIN, y: 1, on: true },
        Dot { x: 1, y: i32::MIN, on: false },
        Dot { x: 8, y: 0, on: true },
        Dot { x: 0, y: 4, on: true },
        Dot { x: i32::MAX, y: i32::MAX, on: true },
    ]);
    assert_eq!(fd.write_vec(), before);
}

#[test]
fn dots_are_drawn_in_order() {
    let mut fd = blank(8, 8, 0);
    fd.draw_iter(&[
        Dot { x: 0, y: 0, on: true },
        Dot { x: 0, y: 7, on: true },
        Dot { x: 0, y: 0, on: false },
        Dot { x: 7, y: 7, on: false },
        Dot { x: 7, y: 7, on: true },
        Dot { x: -3, y: 2, on: true },
        Dot { x: 1, y: 0, on: true },
    ]);
    assert_eq!(&fd.write_vec()[5..21], b"8001000000000080");
}

#[test]
fn drawing_nothing_changes_nothing() {
    let mut fd = blank(4, 2, 9);
    fd.set_pixel(3, 1, true);
    fd.set_pixel(0, 0, true);
    fd.draw_iter(&[]);
    assert_eq!(fd.write_vec(), b"\x021A0181\x0361".to_vec());
}

#[test]
fn drawing_matches_setting_pixels() {
    let mut drawn = blank(16, 7, 11);
    let mut set = blank(16, 7, 11);
    let dots = [(0, 0), (1, 3), (15, 6), (8, 2), (7, 5), (3, 3)];
    let list: Vec<Dot> = dots.iter().map(|(x, y)| Dot { x: *x, y: *y, on: true }).collect();
    drawn.draw_iter(&list);
    for (x, y) in dots {
        set.set_pixel(x as u32, y as u32, true);
    }
    assert_eq!(drawn.write_vec(), set.write_vec());
    assert_ne!(drawn.write_vec(), blank(16, 7, 11).write_vec());
}
