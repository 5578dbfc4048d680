use connect_n::config::{
    build_default, choice_in_range, connect_length_ok, register_symbol, ConfigError,
};

#[test]
fn default_config_values() {
    let cfg = build_default();
    assert_eq!(cfg.rows, 6);
    assert_eq!(cfg.cols, 7);
    assert_eq!(cfg.connect_length, 4);
    assert_eq!(cfg.players, vec!['X', 'O']);
}

#[test]
fn connect_length_too_long_rejected() {
    assert!(!connect_length_ok(6, 7, 8));
    assert!(!connect_length_ok(6, 7, 9));
    assert!(!connect_length_ok(3, 3, 4));
    assert!(!connect_length_ok(6, 7, 7));
}

#[test]
fn connect_length_fits() {
    assert!(connect_length_ok(6, 7, 4));
    assert!(connect_length_ok(3, 3, 3));
    assert!(connect_length_ok(6, 7, 6));
    assert!(!connect_length_ok(6, 7, 2));
}

#[test]
fn duplicate_symbol_rejected() {
    let mut players = vec!['X'];
    let taken = vec!['X'];
    assert_eq!(
        register_symbol(&mut players, &taken),
        Err(ConfigError::SymbolConflict)
    );
    assert_eq!(players, vec!['X']);
    let fresh = vec!['O'];
    assert_eq!(register_symbol(&mut players, &fresh), Ok(()));
    assert_eq!(players, vec!['X', 'O']);
}

#[test]
fn symbol_length_rejected() {
    let mut players = vec!['X'];
    let empty: Vec<char> = Vec::new();
    assert_eq!(
        register_symbol(&mut players, &empty),
        Err(ConfigError::InvalidSymbolLength)
    );
    let long = vec!['a', 'b'];
    assert_eq!(
        register_symbol(&mut players, &long),
        Err(ConfigError::InvalidSymbolLength)
    );
    assert_eq!(players, vec!['X']);
}

#[test]
fn choice_range_bounds() {
    assert_eq!(choice_in_range(5, 3, Some(7)), Ok(5));
    assert_eq!(choice_in_range(3, 3, Some(7)), Ok(3));
    assert_eq!(choice_in_range(7, 3, Some(7)), Ok(7));
    assert_eq!(choice_in_range(2, 3, Some(7)), Err(ConfigError::InvalidInteger));
    assert_eq!(choice_in_range(8, 3, Some(7)), Err(ConfigError::InvalidInteger));
    assert_eq!(choice_in_range(1000, 3, None), Ok(1000));
    assert_eq!(choice_in_range(1001, 3, None), Err(ConfigError::InvalidInteger));
}
