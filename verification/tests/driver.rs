use memlcd::bits::reverse_bits;
use memlcd::display::{next_y_offset, triangle_vertices, START_Y_OFFSET};
use memlcd::ls013b7dh03::{DisplayFrame, LcdMode, BUF_SIZE, FILLER_BYTE};

#[test]
fn new_frame_is_blank_with_layout() {
    let mut buffer = [0u8; BUF_SIZE];
    let frame = DisplayFrame::new(&mut buffer);
    assert_eq!(frame.width(), 128);
    assert_eq!(frame.height(), 128);
    assert_eq!(DisplayFrame::WIDTH, 128);
    assert_eq!(DisplayFrame::HEIGHT, 128);
    let bytes = frame.buffer();
    assert_eq!(bytes.len(), 2304);
    for y in 0..128usize {
        assert_eq!(bytes[y * 18], ((y + 1) as u8).reverse_bits());
        assert!(bytes[y * 18 + 1..y * 18 + 17].iter().all(|b| *b == 0xFF));
        assert_eq!(bytes[y * 18 + 17], FILLER_BYTE);
    }
    for x in 0..128u8 {
        assert!(!frame.read(x, 64));
    }
}

#[test]
fn driver_write_read_flip() {
    let mut buffer = [0u8; BUF_SIZE];
    let mut frame = DisplayFrame::new(&mut buffer);
    frame.write(0, 0, true);
    assert!(frame.read(0, 0));
    assert!(!frame.read(1, 0));
    assert_eq!(frame.buffer()[1], 0x7F);
    assert_eq!(frame.buffer()[0], 0x80);
    assert!(!frame.flip(0, 0));
    assert_eq!(frame.buffer()[1], 0xFF);
    assert!(frame.flip(64, 100));
    assert!(frame.read(64, 100));
    assert_eq!(frame.buffer()[100 * 18 + 1 + 8], 0x7F);
}

#[test]
fn lcd_mode_bytes() {
    assert_eq!(LcdMode::Clear.as_byte(), 0x20);
    assert_eq!(LcdMode::Update.as_byte(), 0x80);
}

#[test]
fn reverse_bits_matches_std() {
    for b in 0..=255u8 {
        assert_eq!(reverse_bits(b), b.reverse_bits());
        assert_eq!(reverse_bits(reverse_bits(b)), b);
    }
    assert_eq!(reverse_bits(1), 0x80);
    assert_eq!(reverse_bits(3), 0xC0);
    assert_eq!(reverse_bits(128), 0x01);
}

#[test]
fn y_offset_moves_up_and_wraps() {
    assert_eq!(START_Y_OFFSET, 20);
    assert_eq!(next_y_offset(20), 19);
    assert_eq!(next_y_offset(-15), -16);
    assert_eq!(next_y_offset(-16), 128);
    assert_eq!(next_y_offset(128), 127);
    let mut y = START_Y_OFFSET;
    for _ in 0..145 {
        y = next_y_offset(y);
        assert!((-16..=128).contains(&y));
    }
    assert_eq!(y, START_Y_OFFSET);
}

#[test]
fn triangle_corners() {
    assert_eq!(triangle_vertices(20), [(100, 36), (116, 36), (108, 20)]);
    assert_eq!(triangle_vertices(-16), [(100, 0), (116, 0), (108, -16)]);
}
