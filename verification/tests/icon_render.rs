use nettamer::speed_icon::{draw_line, generate_speed_icon, get_glyph_10, measure_text_width, set_pixel_safe};

fn px(buf: &[u8], x: usize, y: usize) -> [u8; 4] {
    let i = (y * 32 + x) * 4;
    [buf[i], buf[i + 1], buf[i + 2], buf[i + 3]]
}

#[test]
fn glyph_table() {
    assert_eq!(get_glyph_10('0').unwrap()[0], 0b01110);
    assert_eq!(get_glyph_10('k'), get_glyph_10('K'));
    assert_eq!(get_glyph_10('.').unwrap()[9], 0b01100);
    assert_eq!(get_glyph_10('↑').unwrap()[0], 0b00100);
    assert_eq!(get_glyph_10(' ').unwrap(), [0u8; 10]);
    assert!(get_glyph_10('x').is_none());
    assert!(get_glyph_10('B').is_none());
}

#[test]
fn text_widths() {
    assert_eq!(measure_text_width(""), 0);
    assert_eq!(measure_text_width("1"), 5);
    assert_eq!(measure_text_width("12"), 11);
    assert_eq!(measure_text_width("1.2M"), 6 + 3 + 6 + 6 - 1);
    assert_eq!(measure_text_width("."), 2);
    assert_eq!(measure_text_width("↑0K"), 17);
}

#[test]
fn pixels_off_canvas_are_ignored() {
    let mut buf = vec![0u8; 4096];
    set_pixel_safe(&mut buf, 31, 31, [1, 2, 3, 4]);
    assert_eq!(px(&buf, 31, 31), [1, 2, 3, 4]);
    set_pixel_safe(&mut buf, 32, 0, [9, 9, 9, 9]);
    set_pixel_safe(&mut buf, 0, 32, [9, 9, 9, 9]);
    set_pixel_safe(&mut buf, usize::MAX, 0, [9, 9, 9, 9]);
    assert_eq!(buf.iter().filter(|b| **b == 9).count(), 0);
}

#[test]
fn drawn_glyph_has_outline_and_fill() {
    let mut buf = vec![0u8; 4096];
    let fg = [10, 20, 30, 255];
    let ol = [0, 0, 0, 200];
    draw_line(&mut buf, "1", 2, 3, fg, ol);
    // '1' row 0 is 0b00110: columns 2 and 3 are ink
    assert_eq!(px(&buf, 4, 3), fg);
    assert_eq!(px(&buf, 5, 3), fg);
    assert_eq!(px(&buf, 0, 3), [0, 0, 0, 0]);
    // outline just above and to the left of the ink
    assert_eq!(px(&buf, 4, 2), ol);
    assert_eq!(px(&buf, 3, 3), ol);
    // bottom row 0b11111 at y = 12, outline below at y = 13
    for x in 2..7 {
        assert_eq!(px(&buf, x, 12), fg);
        assert_eq!(px(&buf, x, 13), ol);
    }
    // far away untouched
    assert_eq!(px(&buf, 20, 20), [0, 0, 0, 0]);
}

#[test]
fn unknown_characters_leave_a_gap() {
    let mut a = vec![0u8; 4096];
    draw_line(&mut a, "x1", 0, 0, [1, 1, 1, 1], [2, 2, 2, 2]);
    let mut b = vec![0u8; 4096];
    draw_line(&mut b, "1", 4, 0, [1, 1, 1, 1], [2, 2, 2, 2]);
    assert_eq!(a, b);
}

#[test]
fn drawing_never_touches_bytes_past_the_canvas() {
    let mut buf = vec![7u8; 4100];
    draw_line(&mut buf, "8888888", 0, 25, [1, 1, 1, 1], [2, 2, 2, 2]);
    assert_eq!(&buf[4096..], &[7, 7, 7, 7]);
}

#[test]
fn speed_icon_is_32_by_32_rgba() {
    let (buf, w, h) = generate_speed_icon("1.2M", "0K");
    assert_eq!((w, h), (32, 32));
    assert_eq!(buf.len(), 32 * 32 * 4);
    let up_color = [56u8, 189, 248, 255];
    let down_color = [74u8, 222, 128, 255];
    let rows_with = |c: [u8; 4]| -> Vec<usize> {
        (0..32).filter(|&y| (0..32).any(|x| px(&buf, x, y) == c)).collect()
    };
    assert_eq!(rows_with(up_color), (3..13).collect::<Vec<_>>());
    assert_eq!(rows_with(down_color), (18..28).collect::<Vec<_>>());
    assert_eq!(px(&buf, 0, 0), [0, 0, 0, 0]);
}
