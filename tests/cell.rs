use vida::cell::Cell;

#[test]
fn predicates() {
    assert!(Cell::Dead.is_dead());
    assert!(!Cell::Dead.is_live());
    assert!(Cell::Live.is_live());
    assert!(!Cell::Live.is_dead());
}

#[test]
fn default_is_dead() {
    assert_eq!(Cell::default(), Cell::Dead);
}

#[test]
fn symbols() {
    assert_eq!(Cell::Dead.symbol(), 'D');
    assert_eq!(Cell::Live.symbol(), 'L');
}

#[test]
fn coin_flip_maps_to_cells() {
    assert_eq!(Cell::from_coin(true), Cell::Live);
    assert_eq!(Cell::from_coin(false), Cell::Dead);
}

#[test]
fn ordering() {
    assert!(Cell::Dead < Cell::Live);
}
