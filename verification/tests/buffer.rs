use jd79661::DisplayBuffer;
use jd79661::QuadColor;
use jd79661::BUF_SIZE;
use jd79661::HEIGHT;
use jd79661::WIDTH;

fn fresh() -> DisplayBuffer {
    DisplayBuffer::new()
}

fn planes_equal(a: &DisplayBuffer, b: &DisplayBuffer) -> bool {
    a.bw == b.bw && a.red == b.red && a.yellow == b.yellow
}

#[test]
fn new_buffer_is_all_ones() {
    let buf = fresh();
    assert_eq!(buf.bw.len(), BUF_SIZE);
    assert_eq!(buf.red.len(), BUF_SIZE);
    assert_eq!(buf.yellow.len(), BUF_SIZE);
    assert!(buf.bw.iter().all(|&b| b == 0xFF));
    assert!(buf.red.iter().all(|&b| b == 0xFF));
    assert!(buf.yellow.iter().all(|&b| b == 0xFF));
}

#[test]
fn clear_round_trip() {
    let mut buf = fresh();
    buf.draw_pixel(0, 0, QuadColor::Black);
    buf.draw_pixel(100, 50, QuadColor::Red);
    buf.draw_pixel(249, 121, QuadColor::Yellow);
    buf.clear();
    assert!(buf.bw.iter().all(|&b| b == 0xFF));
    assert!(buf.red.iter().all(|&b| b == 0xFF));
    assert!(buf.yellow.iter().all(|&b| b == 0xFF));
    for y in 0..HEIGHT as u32 {
        for x in 0..WIDTH as u32 {
            assert_eq!(buf.pixel_color(x, y), QuadColor::White);
        }
    }
}

#[test]
fn packing_black_at_origin() {
    let mut buf = fresh();
    buf.draw_pixel(0, 0, QuadColor::Black);
    assert_eq!(buf.bw[0], 0x7F);
    assert_eq!(buf.red[0], 0xFF);
    assert_eq!(buf.yellow[0], 0xFF);
    assert_eq!(buf.pixel_color(0, 0), QuadColor::Black);
}

#[test]
fn draw_twice_same_as_once() {
    let mut once = fresh();
    once.draw_pixel(7, 9, QuadColor::Red);
    let mut twice = fresh();
    twice.draw_pixel(7, 9, QuadColor::Red);
    twice.draw_pixel(7, 9, QuadColor::Red);
    assert!(planes_equal(&once, &twice));
}

#[test]
fn single_draw_activates_one_plane() {
    let cases = [
        (QuadColor::Black, true, false, false),
        (QuadColor::Red, false, true, false),
        (QuadColor::Yellow, false, false, true),
        (QuadColor::White, false, false, false),
    ];
    for &(color, bw_active, red_active, yellow_active) in cases.iter() {
        let mut buf = fresh();
        buf.draw_pixel(13, 21, color);
        let idx = (21 * WIDTH + 13) / 8;
        let bit = 7 - (13 % 8);
        assert_eq!((buf.bw[idx] >> bit) & 1 == 0, bw_active);
        assert_eq!((buf.red[idx] >> bit) & 1 == 0, red_active);
        assert_eq!((buf.yellow[idx] >> bit) & 1 == 0, yellow_active);
        assert_eq!(buf.pixel_color(13, 21), color);
    }
}

#[test]
fn out_of_bounds_draw_is_a_no_op() {
    let reference = fresh();
    let mut buf = fresh();
    buf.draw_pixel(WIDTH as i32, 0, QuadColor::Black);
    buf.draw_pixel(0, HEIGHT as i32, QuadColor::Red);
    buf.draw_pixel(-1, 5, QuadColor::Yellow);
    buf.draw_pixel(5, -1, QuadColor::Black);
    buf.draw_pixel(i32::MIN, i32::MIN, QuadColor::Red);
    buf.draw_pixel(i32::MAX, i32::MAX, QuadColor::Red);
    assert!(planes_equal(&reference, &buf));
}

#[test]
fn last_draw_wins() {
    let mut buf = fresh();
    buf.draw_pixel(30, 40, QuadColor::Black);
    buf.draw_pixel(30, 40, QuadColor::Yellow);
    assert_eq!(buf.pixel_color(30, 40), QuadColor::Yellow);
    let idx = (40 * WIDTH + 30) / 8;
    let bit = 7 - (30 % 8);
    assert_eq!((buf.bw[idx] >> bit) & 1, 1);
    assert_eq!((buf.yellow[idx] >> bit) & 1, 0);
}

#[test]
fn white_restores_background() {
    let mut buf = fresh();
    buf.draw_pixel(200, 100, QuadColor::Red);
    buf.draw_pixel(200, 100, QuadColor::White);
    assert_eq!(buf.pixel_color(200, 100), QuadColor::White);
    let idx = (100 * WIDTH + 200) / 8;
    let bit = 7 - (200 % 8);
    assert_eq!((buf.bw[idx] >> bit) & 1, 1);
    assert_eq!((buf.red[idx] >> bit) & 1, 1);
    assert_eq!((buf.yellow[idx] >> bit) & 1, 1);
}

#[test]
fn draw_iter_applies_in_order() {
    let mut buf = fresh();
    let pixels: Vec<(i32, i32, QuadColor)> = vec![
        (3, 4, QuadColor::Black),
        (-7, 2, QuadColor::Red),
        (3, 4, QuadColor::Red),
        (10, 11, QuadColor::Yellow),
    ];
    buf.draw_iter(&pixels);
    assert_eq!(buf.pixel_color(3, 4), QuadColor::Red);
    assert_eq!(buf.pixel_color(10, 11), QuadColor::Yellow);

    let mut by_hand = fresh();
    by_hand.draw_pixel(3, 4, QuadColor::Black);
    by_hand.draw_pixel(-7, 2, QuadColor::Red);
    by_hand.draw_pixel(3, 4, QuadColor::Red);
    by_hand.draw_pixel(10, 11, QuadColor::Yellow);
    assert!(planes_equal(&buf, &by_hand));
}

#[test]
fn planes_stay_exclusive_under_draws() {
    let mut buf = fresh();
    let colors = [
        QuadColor::Black,
        QuadColor::Red,
        QuadColor::Yellow,
        QuadColor::White,
        QuadColor::Red,
    ];
    for (n, &color) in colors.iter().enumerate() {
        for i in 0..400i32 {
            buf.draw_pixel((i + n as i32) % 250, (i * 7) % 122, color);
        }
    }
    for i in 0..BUF_SIZE {
        for bit in 0..8 {
            let actives = [
                (buf.bw[i] >> bit) & 1 == 0,
                (buf.red[i] >> bit) & 1 == 0,
                (buf.yellow[i] >> bit) & 1 == 0,
            ];
            assert!(actives.iter().filter(|&&a| a).count() <= 1);
        }
    }
}

#[test]
fn reports_its_dimensions() {
    let buf = fresh();
    assert_eq!(buf.size(), (250, 122));
    assert_eq!(WIDTH, 250);
    assert_eq!(HEIGHT, 122);
    assert_eq!(BUF_SIZE, 3813);
}

#[test]
fn default_equals_new() {
    let buf: DisplayBuffer = Default::default();
    assert!(planes_equal(&buf, &fresh()));
}
