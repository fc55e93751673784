use kaiju::render::{draw_character, Blending, Color};

#[test]
fn a_color_is_a_pixel() {
    assert_eq!(u32::from(Color { r: 0x12, g: 0x34, b: 0x56 }), 0x0012_3456);
    assert_eq!(u32::from(Color { r: 0xff, g: 0, b: 0 }), 0x00ff_0000);
    assert_eq!(u32::from(Color::default()), 0);
    assert_eq!(Color::default(), Color { r: 0, g: 0, b: 0 });
    match Blending::Key(Color { r: 1, g: 2, b: 3 }) {
        Blending::Key(c) => assert_eq!(c, Color { r: 1, g: 2, b: 3 }),
        Blending::Opaque => panic!("a key was made"),
    }
}

#[test]
fn a_character_is_drawn_where_its_pixels_are_set() {
    let mut glyph = [0u8; 64];
    glyph[0] = 1;
    glyph[9] = 255;
    glyph[63] = 7;
    let (cols, rows) = (3usize, 2usize);
    let mut screen = vec![5u32; cols * 8 * rows * 8];
    draw_character(&glyph, &mut screen, 1, 1, cols, rows, 9);
    let w = cols * 8;
    for (p, v) in screen.iter().enumerate() {
        let (x, y) = (p % w, p / w);
        let set = (x, y) == (8, 8) || (x, y) == (9, 9) || (x, y) == (15, 15);
        assert_eq!(*v, if set { 9 } else { 5 }, "at {} {}", x, y);
    }
    // outside of the screen nothing is drawn, whatever is handed in
    let before = screen.clone();
    draw_character(&glyph, &mut screen, 3, 0, cols, rows, 1);
    draw_character(&glyph, &mut screen, 0, 2, cols, rows, 1);
    draw_character(&[], &mut screen, 9, 9, cols, rows, 1);
    assert_eq!(screen, before);
    // an empty character changes nothing
    draw_character(&[0u8; 64], &mut screen, 0, 0, cols, rows, 1);
    assert_eq!(screen, before);
    // the first character of the screen
    draw_character(&[1u8; 64], &mut screen, 0, 0, cols, rows, 2);
    assert_eq!(screen.iter().filter(|v| **v == 2).count(), 64);
    assert_eq!(screen[0], 2);
    assert_eq!(screen[7 * w + 7], 2);
    assert_eq!(screen[8], 5);
    assert_eq!(screen[8 * w], 5);
}
