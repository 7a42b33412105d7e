use memlcd::display::ls013b7dh03::{
    clear_display_actions, frame_update_actions, LcdAction, PAddr, BUF_SIZE, FILLER_BYTE, HEIGHT,
    LINE_TOTAL_BYTE_COUNT, WIDTH,
};
use memlcd::display::DisplayFrame;

fn fresh(buffer: &mut [u8; BUF_SIZE]) -> DisplayFrame<'_, BUF_SIZE> {
    DisplayFrame::new(buffer).with_init(false)
}

#[test]
fn new_keeps_bytes() {
    let mut buffer = [7u8; BUF_SIZE];
    let frame = DisplayFrame::new(&mut buffer);
    assert!(frame.as_bytes().iter().all(|b| *b == 7));
    assert_eq!(frame.as_bytes().len(), 2304);
}

#[test]
fn with_init_writes_layout() {
    let mut buffer = [0x55u8; BUF_SIZE];
    let frame = DisplayFrame::new(&mut buffer).with_init(false);
    let bytes = frame.as_bytes();
    for y in 0..HEIGHT {
        let line = &bytes[y * LINE_TOTAL_BYTE_COUNT..(y + 1) * LINE_TOTAL_BYTE_COUNT];
        assert_eq!(line[0], ((y + 1) as u8).reverse_bits());
        assert!(line[1..17].iter().all(|b| *b == 0xFF));
        assert_eq!(line[17], FILLER_BYTE);
    }
    assert_eq!(bytes[0], 0x80);
    assert_eq!(bytes[18], 0x40);
    assert_eq!(bytes[2286], 0x01);
}

#[test]
fn with_init_on_clears_pixel_bytes() {
    let mut buffer = [0x55u8; BUF_SIZE];
    let frame = DisplayFrame::new(&mut buffer).with_init(true);
    for x in 0..WIDTH as u8 {
        for y in 0..HEIGHT as u8 {
            assert!(frame.read_unchecked(x, y));
        }
    }
    let bytes = frame.as_bytes();
    assert!(bytes[1..17].iter().all(|b| *b == 0x00));
    assert_eq!(bytes[0], 0x80);
    assert_eq!(bytes[17], 0xFF);
}

#[test]
fn pixel_address() {
    let mut buffer = [0u8; BUF_SIZE];
    let frame = fresh(&mut buffer);
    let PAddr(index, mask) = frame.get_pixel_addr_unchecked(9, 2);
    assert_eq!(index, 38);
    assert_eq!(mask, 0x40);
    let PAddr(index, mask) = frame.get_pixel_addr_unchecked(0, 0);
    assert_eq!((index, mask), (1, 0x80));
    let PAddr(index, mask) = frame.get_pixel_addr_unchecked(127, 127);
    assert_eq!((index, mask), (127 * 18 + 16, 0x01));
}

#[test]
fn read_after_write() {
    let mut buffer = [0u8; BUF_SIZE];
    let mut frame = fresh(&mut buffer);
    frame.write_unchecked(9, 2, true);
    assert!(frame.read_unchecked(9, 2));
    assert!(!frame.read_unchecked(8, 2));
    assert!(!frame.read_unchecked(10, 2));
    assert!(!frame.read_unchecked(9, 1));
    assert_eq!(frame.as_bytes()[38], 0xBF);
    frame.write_unchecked(9, 2, false);
    assert!(!frame.read_unchecked(9, 2));
    assert_eq!(frame.as_bytes()[38], 0xFF);
}

#[test]
fn write_same_state_changes_nothing() {
    let mut buffer = [0u8; BUF_SIZE];
    let mut frame = fresh(&mut buffer);
    frame.write_unchecked(3, 4, true);
    let before = frame.as_bytes().to_vec();
    frame.write_unchecked(3, 4, true);
    frame.write_unchecked(5, 4, false);
    assert_eq!(frame.as_bytes(), &before[..]);
}

#[test]
fn flip_inverts_and_twice_restores() {
    let mut buffer = [0u8; BUF_SIZE];
    let mut frame = fresh(&mut buffer);
    let before = frame.as_bytes().to_vec();
    assert!(frame.flip_unchecked(127, 0));
    assert!(frame.read_unchecked(127, 0));
    assert_eq!(frame.as_bytes()[16], 0xFE);
    assert!(!frame.flip_unchecked(127, 0));
    assert_eq!(frame.as_bytes(), &before[..]);
}

#[test]
fn draw_iter_discards_outside_pixels() {
    let mut buffer = [0u8; BUF_SIZE];
    let mut frame = fresh(&mut buffer);
    let before = frame.as_bytes().to_vec();
    frame.draw_iter(&[(-1, 0, true), (0, -1, true), (128, 5, true), (5, 128, true), (i32::MAX, i32::MIN, true)]);
    assert_eq!(frame.as_bytes(), &before[..]);
    frame.draw_iter(&[(0, 0, true), (1, 1, true), (0, 0, false), (127, 127, true)]);
    assert!(!frame.read_unchecked(0, 0));
    assert!(frame.read_unchecked(1, 1));
    assert!(frame.read_unchecked(127, 127));
    assert_eq!(frame.as_bytes()[19], 0xBF);
}

#[test]
fn clear_sets_every_pixel() {
    let mut buffer = [0u8; BUF_SIZE];
    let mut frame = fresh(&mut buffer);
    frame.write_unchecked(1, 1, true);
    frame.clear(true);
    assert!(frame.read_unchecked(0, 0) && frame.read_unchecked(1, 1) && frame.read_unchecked(100, 90));
    frame.clear(false);
    let mut other = [0u8; BUF_SIZE];
    let reference = fresh(&mut other);
    assert_eq!(frame.as_bytes(), reference.as_bytes());
}

#[test]
fn bounding_box_is_whole_display() {
    let mut buffer = [0u8; BUF_SIZE];
    let frame = fresh(&mut buffer);
    assert_eq!(frame.bounding_box(), ((0, 0), (128, 128)));
}

#[test]
fn transfer_steps() {
    assert_eq!(
        clear_display_actions(),
        [LcdAction::SelectChip, LcdAction::SendByte(0x20), LcdAction::DeselectChip]
    );
    assert_eq!(
        frame_update_actions(),
        [
            LcdAction::SelectChip,
            LcdAction::SendByte(0x80),
            LcdAction::SendFrame,
            LcdAction::SendByte(0xFF),
            LcdAction::DeselectChip
        ]
    );
}
