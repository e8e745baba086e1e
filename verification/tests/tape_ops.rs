use ook::tape::Tape;

#[test]
fn fresh_tape_is_one_zero_cell() {
    let mut t = Tape::new();
    assert_eq!(t.position, 0);
    assert_eq!(t.thetape.len(), 1);
    assert_eq!(t.get(), 0);
}

#[test]
fn set_overwrites_current_cell() {
    let mut t = Tape::new();
    t.set(41);
    assert_eq!(t.get(), 41);
    t.set(-7);
    assert_eq!(t.get(), -7);
}

#[test]
fn inc_then_dec_returns_to_original() {
    let mut t = Tape::new();
    t.inc();
    assert_eq!(t.get(), 1);
    t.dec();
    assert_eq!(t.get(), 0);
}

#[test]
fn inc_dec_roundtrip_at_overflow_boundary() {
    let mut t = Tape::new();
    t.set(i64::MAX);
    t.inc();
    assert_eq!(t.get(), i64::MIN);
    t.dec();
    assert_eq!(t.get(), i64::MAX);
}

#[test]
fn dec_wraps_at_lower_boundary() {
    let mut t = Tape::new();
    t.set(i64::MIN);
    t.dec();
    assert_eq!(t.get(), i64::MAX);
}

#[test]
fn advance_grows_one_cell_per_out_of_bounds_move() {
    let mut t = Tape::new();
    for k in 1..6usize {
        t.advance();
        assert_eq!(t.thetape.len(), k + 1);
        assert_eq!(t.position, k as i64);
        assert_eq!(t.get(), 0);
    }
}

#[test]
fn advance_does_not_grow_over_visited_cells() {
    let mut t = Tape::new();
    t.advance();
    t.devance();
    assert_eq!(t.thetape.len(), 2);
    t.advance();
    assert_eq!(t.thetape.len(), 2);
    assert_eq!(t.position, 1);
}

#[test]
fn devance_moves_left_without_growing() {
    let mut t = Tape::new();
    t.advance();
    t.advance();
    t.devance();
    assert_eq!(t.position, 1);
    assert_eq!(t.thetape.len(), 3);
}

#[test]
fn devance_below_zero_and_back() {
    let mut t = Tape::new();
    t.devance();
    assert_eq!(t.position, -1);
    t.advance();
    assert_eq!(t.position, 0);
    assert_eq!(t.get(), 0);
    assert_eq!(t.thetape.len(), 1);
}
