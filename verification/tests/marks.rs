use lfm_pc_agent::marks::{draw_number, draw_rect, put, Canvas};

fn blank(w: u32, h: u32) -> Canvas {
    Canvas::from_rgba(w, h, vec![0u8; (w * h * 4) as usize]).unwrap()
}

fn pixel(bytes: &[u8], w: u32, x: u32, y: u32) -> [u8; 4] {
    let i = (4 * (y * w + x)) as usize;
    [bytes[i], bytes[i + 1], bytes[i + 2], bytes[i + 3]]
}

#[test]
fn canvas_needs_enough_bytes() {
    assert!(Canvas::from_rgba(2, 2, vec![0; 15]).is_none());
    let c = Canvas::from_rgba(2, 2, vec![7; 16]).unwrap();
    assert_eq!(c.size(), (2, 2));
    assert_eq!(c.into_rgba(), vec![7; 16]);
}

#[test]
fn put_skips_points_off_the_canvas() {
    let mut c = blank(3, 3);
    put(&mut c, 1, 2, [9, 8, 7, 6]);
    put(&mut c, -1, 0, [1, 1, 1, 1]);
    put(&mut c, 3, 0, [1, 1, 1, 1]);
    let b = c.into_rgba();
    assert_eq!(pixel(&b, 3, 1, 2), [9, 8, 7, 6]);
    assert_eq!(b.iter().filter(|v| **v != 0).count(), 4);
}

#[test]
fn draw_rect_draws_only_the_outline() {
    let mut c = blank(6, 5);
    let red = [255, 40, 40, 255];
    draw_rect(&mut c, 1, 1, 4, 3, red, 1);
    let b = c.into_rgba();
    for y in 0..5u32 {
        for x in 0..6u32 {
            let on = (1..=4).contains(&x) && (1..=3).contains(&y) && (x == 1 || x == 4 || y == 1 || y == 3);
            assert_eq!(pixel(&b, 6, x, y) == red, on, "pixel ({x},{y})");
        }
    }
    let mut c = blank(4, 4);
    draw_rect(&mut c, 0, 0, 0, 3, red, 2);
    assert!(c.into_rgba().iter().all(|v| *v == 0));
}

#[test]
fn draw_number_draws_backing_and_digits() {
    let mut c = blank(30, 20);
    draw_number(&mut c, 7, 0, 0);
    let b = c.into_rgba();
    let bg = [0, 0, 0, 220];
    let fg = [255, 235, 40, 255];
    // 12 × 17 backing with the top row of the 7 glyph (three cells lit) in digit color.
    assert_eq!(pixel(&b, 30, 0, 0), bg);
    assert_eq!(pixel(&b, 30, 11, 16), bg);
    assert_eq!(pixel(&b, 30, 12, 0), [0, 0, 0, 0]);
    assert_eq!(pixel(&b, 30, 1, 1), fg);
    assert_eq!(pixel(&b, 30, 9, 3), fg);
    // Second glyph row of 7 is 0b001: only the right column lit.
    assert_eq!(pixel(&b, 30, 1, 4), bg);
    assert_eq!(pixel(&b, 30, 7, 4), fg);
    let mut c = blank(40, 20);
    draw_number(&mut c, 12, 0, 0);
    let b = c.into_rgba();
    assert_eq!(pixel(&b, 40, 21, 0), bg);
    assert_eq!(pixel(&b, 40, 22, 0), [0, 0, 0, 0]);
}
