use automata_1d::rule::RuleTable;
use automata_1d::AutomatonError;

#[test]
fn rule_below_range_is_rejected() {
    assert_eq!(RuleTable::new(-1).unwrap_err(), AutomatonError::InvalidRule);
    assert_eq!(RuleTable::new(-1000).unwrap_err(), AutomatonError::InvalidRule);
}

#[test]
fn rule_above_range_is_rejected() {
    assert_eq!(RuleTable::new(256).unwrap_err(), AutomatonError::InvalidRule);
    assert_eq!(RuleTable::new(1000).unwrap_err(), AutomatonError::InvalidRule);
}

#[test]
fn rule_range_bounds_are_accepted() {
    assert_eq!(RuleTable::new(0).unwrap().rule_index(), 0);
    assert_eq!(RuleTable::new(255).unwrap().rule_index(), 255);
    assert_eq!(RuleTable::new(110).unwrap().rule_index(), 110);
}

#[test]
fn lookup_matches_binary_expansion_exhaustively() {
    // Every rule in [0, 255], every neighborhood pattern in [0, 7]: the
    // looked-up state is digit `pattern` of the zero-padded 8-bit binary
    // representation of the rule, counted from the least significant digit.
    for rule in 0..=255i32 {
        let table = RuleTable::new(rule).unwrap();
        let binary: Vec<char> = format!("{:08b}", rule).chars().collect();
        for p in 0..8usize {
            let left: u8 = ((p >> 2) & 1) as u8;
            let center: u8 = ((p >> 1) & 1) as u8;
            let right: u8 = (p & 1) as u8;
            let expected: u8 = if binary[7 - p] == '1' { 1 } else { 0 };
            assert_eq!(table.lookup(left, center, right), expected);
        }
    }
}

#[test]
fn rule_110_lookup_table() {
    // Rule 110 in binary is 01101110.
    let table = RuleTable::new(110).unwrap();
    assert_eq!(table.lookup(0, 0, 0), 0);
    assert_eq!(table.lookup(0, 0, 1), 1);
    assert_eq!(table.lookup(0, 1, 0), 1);
    assert_eq!(table.lookup(0, 1, 1), 1);
    assert_eq!(table.lookup(1, 0, 0), 0);
    assert_eq!(table.lookup(1, 0, 1), 1);
    assert_eq!(table.lookup(1, 1, 0), 1);
    assert_eq!(table.lookup(1, 1, 1), 0);
}
