use chip8::{Screen, ScreenError, BUFFER_LEN};

fn snapshot(s: &Screen) -> Vec<u8> {
    s.extract_buffer()
}

#[test]
fn sprite_lands_on_its_row_and_column() {
    let mut s = Screen::new();
    let hit = s.print_sprite(&[0xF0, 0x90], 8, 2);
    assert!(!hit);
    let b = snapshot(&s);
    assert_eq!(b[2 * 8 + 1], 0xF0);
    assert_eq!(b[3 * 8 + 1], 0x90);
    assert_eq!(b.iter().filter(|&&v| v != 0).count(), 2);
}

#[test]
fn drawing_twice_restores_and_reports_collision() {
    let mut s = Screen::new();
    s.print_sprite(&[0x3C], 0, 0);
    let before = snapshot(&s);
    let sprite = [0xFF, 0x81, 0x42, 0x24, 0x18];
    assert!(!s.print_sprite(&sprite, 37, 29));
    assert!(s.print_sprite(&sprite, 37, 29));
    assert_eq!(snapshot(&s), before);
}

#[test]
fn collision_only_when_a_lit_pixel_goes_off() {
    let mut s = Screen::new();
    assert!(!s.print_sprite(&[0xF0], 0, 0));
    assert!(!s.print_sprite(&[0x0F], 0, 0));
    assert_eq!(snapshot(&s)[0], 0xFF);
    assert!(s.print_sprite(&[0x01], 0, 0));
    assert_eq!(snapshot(&s)[0], 0xFE);
}

#[test]
fn rows_past_the_bottom_wrap_to_the_top() {
    let mut s = Screen::new();
    s.print_sprite(&[0x80, 0x40, 0x20, 0x10], 0, 30);
    let b = snapshot(&s);
    assert_eq!(b[30 * 8], 0x80);
    assert_eq!(b[31 * 8], 0x40);
    assert_eq!(b[0], 0x20);
    assert_eq!(b[8], 0x10);
}

#[test]
fn unaligned_sprite_at_right_edge_splits_across_boundary_columns() {
    let mut s = Screen::new();
    s.print_sprite(&[0xAB], 60, 5);
    let b = snapshot(&s);
    assert_eq!(b[5 * 8 + 7], 0x0A);
    assert_eq!(b[5 * 8], 0xB0);
    assert_eq!(b.iter().filter(|&&v| v != 0).count(), 2);
}

#[test]
fn unaligned_sprite_splits_between_two_bytes() {
    let mut s = Screen::new();
    s.print_sprite(&[0xFF], 3, 0);
    let b = snapshot(&s);
    assert_eq!(b[0], 0x1F);
    assert_eq!(b[1], 0xE0);
}

#[test]
fn coordinates_reduce_modulo_the_display() {
    let mut s = Screen::new();
    s.print_sprite(&[0xC0], 64 + 16, 32 + 1);
    assert_eq!(snapshot(&s)[8 + 2], 0xC0);
}

#[test]
fn clear_blanks_everything() {
    let mut s = Screen::default();
    s.print_sprite(&[0xFF; 15], 13, 9);
    s.clear();
    assert_eq!(snapshot(&s), vec![0u8; BUFFER_LEN]);
    assert_eq!(Screen::default_buffer(), vec![0u8; BUFFER_LEN]);
}

#[test]
fn single_pixels_and_inverted_bytes() {
    let mut s = Screen::new();
    assert_eq!(s.put_pixel(9, 1), Ok(()));
    assert_eq!(snapshot(&s)[8 + 1], 0x40);
    assert_eq!(s.put_pixel(15, 1), Ok(()));
    assert_eq!(snapshot(&s)[8 + 1], 0x41);
    assert_eq!(s.clear_pixel(9, 1), Ok(()));
    assert_eq!(snapshot(&s)[8 + 1], 0x01);
    assert_eq!(s.put_pixel(64, 0), Err(ScreenError(64, 0)));
    assert_eq!(s.clear_pixel(0, 32), Err(ScreenError(0, 32)));
    let inv = s.as_bytes();
    assert_eq!(inv.len(), BUFFER_LEN);
    assert_eq!(inv[8 + 1], 0xFE);
    assert_eq!(inv[0], 0xFF);
}

#[test]
fn second_draw_collides_only_where_first_draw_lit_pixels() {
    let mut s = Screen::new();
    s.print_sprite(&[0xFF], 0, 0);
    assert!(s.print_sprite(&[0xF0], 0, 0));
    assert!(!s.print_sprite(&[0xF0], 0, 0));
    assert_eq!(snapshot(&s)[0], 0xFF);
    let mut s = Screen::new();
    s.print_sprite(&[0x0F], 0, 0);
    assert!(s.print_sprite(&[0xFF], 0, 0));
    assert!(s.print_sprite(&[0xFF], 0, 0));
    s.clear();
    assert!(!s.print_sprite(&[0xFF; 15], 61, 20));
}
