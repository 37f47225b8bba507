use field_flow::Mouse;

#[test]
fn new_pointer_rests_at_origin() {
    let m = Mouse::new();
    assert_eq!(m.get_position(), (0, 0));
    assert_eq!(m.get_delta(), (0, 0));
}

#[test]
fn update_records_position_and_delta() {
    let mut m = Mouse::new();
    m.update_position(10, -4);
    assert_eq!(m.get_position(), (10, -4));
    assert_eq!(m.get_delta(), (10, -4));
    m.update_position(7, 3);
    assert_eq!(m.get_position(), (7, 3));
    assert_eq!(m.get_delta(), (-3, 7));
}

#[test]
fn repeated_position_gives_zero_delta() {
    let mut m = Mouse::new();
    m.update_position(400, 300);
    m.update_position(400, 300);
    assert_eq!(m.get_delta(), (0, 0));
}

#[test]
fn moves_with_oversized_delta_are_flagged() {
    let mut m = Mouse::new();
    assert!(m.can_move_to(i16::MAX, i16::MIN));
    m.update_position(i16::MAX, 0);
    assert!(!m.can_move_to(i16::MIN, 0));
    assert!(m.can_move_to(-1, 0));
    m.update_position(-1, 0);
    assert_eq!(m.get_delta(), (-i16::MAX - 1, 0));
}
