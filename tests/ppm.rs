use rustray::canvas::{Canvas, Color};
use rustray::fixed::Fixed;
use rustray::ppm::channel;

fn n(v: f64) -> Fixed {
    Fixed::from_raw((v * 1_000_000.0).round() as i64)
}

fn text(c: &Canvas) -> String {
    String::from_utf8(c.to_ppm()).unwrap()
}

#[test]
fn black_canvas_encodes_header_and_rows() {
    let c = Canvas::new(5, 3);
    let row = "0 0 0 0 0 0 0 0 0 0 0 0 0 0 0\n";
    let expected = format!("P3\n5 3\n255\n{}{}{}", row, row, row);
    assert_eq!(text(&c), expected);
}

#[test]
fn out_of_range_components_are_clamped() {
    let mut c = Canvas::new(2, 1);
    c.write_pixel(1, 0, Color::new(n(1.5), n(0.0), n(-0.5)));
    assert_eq!(text(&c), "P3\n2 1\n255\n0 0 0 255 0 0\n");
}

#[test]
fn channels_round_half_up() {
    let mut c = Canvas::new(3, 1);
    c.write_pixel(0, 0, Color::new(n(1.5), n(0.0), n(0.0)));
    c.write_pixel(1, 0, Color::new(n(0.0), n(0.5), n(0.0)));
    c.write_pixel(2, 0, Color::new(n(-0.5), n(0.0), n(1.0)));
    assert_eq!(text(&c), "P3\n3 1\n255\n255 0 0 0 128 0 0 0 255\n");
    assert_eq!(channel(n(0.5)), 128);
    assert_eq!(channel(n(2.0)), 255);
    assert_eq!(channel(n(-1.0)), 0);
}

#[test]
fn long_rows_are_wrapped_at_seventy_bytes() {
    let mut c = Canvas::new(10, 2);
    let col = Color::new(n(1.0), n(0.8), n(0.6));
    for y in 0..2 {
        for x in 0..10 {
            c.write_pixel(x, y, col);
        }
    }
    let body = "255 204 153 255 204 153 255 204 153 255 204 153 255 204 153 255 204\n\
                153 255 204 153 255 204 153 255 204 153 255 204 153\n";
    let expected = format!("P3\n10 2\n255\n{}{}", body, body);
    let out = text(&c);
    assert_eq!(out, expected);
    assert!(out.lines().all(|l| l.len() <= 70));
    assert!(out.ends_with('\n'));
}

#[test]
fn empty_canvas_has_only_the_header() {
    let c = Canvas::new(0, 0);
    assert_eq!(text(&c), "P3\n0 0\n255\n");
}
