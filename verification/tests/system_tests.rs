//! Tests of the system facade: registration, derivation, and formatting.

use rusty_systems::parser::parse_prod_string;
use rusty_systems::strings::ProductionString;
use rusty_systems::symbols::SymbolTable;
use rusty_systems::system::{RunSettings, System};

#[test]
fn handles_empty_production() {
    let mut table = SymbolTable::new();
    let mut system = System::new();
    assert!(system.parse_production(&mut table, "").is_err());
}

#[test]
fn handles_no_head() {
    let mut table = SymbolTable::new();
    let mut system = System::new();
    assert!(system.parse_production(&mut table, "-> surname surname").is_err());
}

#[test]
fn handles_no_body() {
    let mut table = SymbolTable::new();
    let mut system = System::new();
    assert!(system.parse_production(&mut table, "Company ->").is_ok());
}

#[test]
fn handles_correct() {
    let mut table = SymbolTable::new();
    let mut system = System::new();
    assert!(system.parse_production(&mut table, "Company -> surname surname").is_ok());
}

#[test]
fn increments_for_distinct_names() {
    let mut table = SymbolTable::new();
    let mut system = System::new();
    let symbol1 = system.add_symbol(&mut table, "one").unwrap();
    let symbol2 = system.add_symbol(&mut table, "two").unwrap();

    assert_ne!(symbol1.code(), symbol2.code());
}

#[test]
fn no_increments_for_equal_names() {
    let mut table = SymbolTable::new();
    let mut system = System::new();
    let symbol1 = system.add_symbol(&mut table, "one").unwrap();
    let symbol2 = system.add_symbol(&mut table, "one").unwrap();

    assert_eq!(symbol1.code(), symbol2.code());
}

#[test]
fn can_derive_once() {
    let mut table = SymbolTable::new();
    let mut system = System::new();
    system.parse_production(&mut table, "Company -> surname Company").expect(
        "Unable to add production",
    );
    let string = system.parse_prod_string(&mut table, "Company").expect("Unable to create string");
    let result = system.derive_once(string).unwrap();

    assert_eq!(result.len(), 2);
}

#[test]
fn can_derive_multiple_times() {
    let mut table = SymbolTable::new();
    let mut system = System::new();
    system.parse_production(&mut table, "Company -> surname Company").expect(
        "Unable to add production",
    );
    let string = system.parse_prod_string(&mut table, "Company").expect("Unable to create string");
    let result = system.derive(string, RunSettings::for_max_iterations(2)).expect(
        "Unable to derive",
    );

    assert_eq!(result.len(), 3);
}

#[test]
fn test_format() {
    let mut table = SymbolTable::new();
    let mut system = System::new();

    let symbol = system.add_symbol(&mut table, "a").unwrap();
    assert_eq!(table.name_of(symbol.code()).unwrap(), "a");

    let string = system.parse_prod_string(&mut table, "a b c").unwrap();
    assert_eq!(system.format(&table, &string).unwrap(), "a b c");
}

#[test]
fn test_counting_symbols() {
    let mut table = SymbolTable::new();
    let mut system = System::new();
    assert_eq!(system.symbol_len(), 0);

    system.add_symbol(&mut table, "a").unwrap();
    assert_eq!(system.symbol_len(), 1);
    assert_eq!(system.production_len(), 0);

    // Nothing should change
    system.add_symbol(&mut table, "a").unwrap();
    assert_eq!(system.symbol_len(), 1);

    system.add_symbol(&mut table, "b").unwrap();
    assert_eq!(system.symbol_len(), 2);

    system.add_symbol(&mut table, "c").unwrap();
    assert_eq!(system.symbol_len(), 3);
    assert_eq!(system.production_len(), 0);
}

#[test]
fn test_counting_productions() {
    let mut table = SymbolTable::new();
    let mut system = System::new();
    assert_eq!(system.symbol_len(), 0);
    assert_eq!(system.production_len(), 0);

    system.parse_production(&mut table, "F -> F F").unwrap();
    assert_eq!(system.symbol_len(), 1);
    assert_eq!(system.production_len(), 1);
}

#[test]
fn testing_context_sensitive() {
    let mut table = SymbolTable::new();
    let mut system = System::new();
    let string = system.parse_prod_string(&mut table, "G S S S X").unwrap();
    system.parse_production(&mut table, "G > S -> ").unwrap();
    system.parse_production(&mut table, "G < S -> S G").unwrap();
    let string = system.derive_once(string).unwrap();

    assert_eq!(string, system.parse_prod_string(&mut table, "S G S S X").unwrap());

    let string = system.derive_once(string).unwrap();
    assert_eq!(string, system.parse_prod_string(&mut table, "S S G S X").unwrap());

    let string = system.derive_once(string).unwrap();
    assert_eq!(string, system.parse_prod_string(&mut table, "S S S G X").unwrap());
}

#[test]
fn empty_sequence_stays_empty() {
    let mut table = SymbolTable::new();
    let mut system = System::new();
    system.parse_production(&mut table, "X -> ").unwrap();

    let start = parse_prod_string(&mut table, "X").unwrap();
    let erased = system.derive_once(start).unwrap();
    assert!(erased.is_empty());

    for iterations in [0usize, 1, 5, 50] {
        let empty = ProductionString::empty();
        let still = system.derive(empty, RunSettings::for_max_iterations(iterations)).unwrap();
        assert!(still.is_empty());
    }
}

#[test]
fn growth_doubles_each_iteration() {
    let mut table = SymbolTable::new();
    let mut system = System::new();
    system.parse_production(&mut table, "Forward -> Forward Forward").unwrap();

    let start = system.parse_prod_string(&mut table, "Forward").unwrap();
    assert_eq!(start.len(), 1);

    let result = system.derive(start, RunSettings::for_max_iterations(3)).unwrap();
    assert_eq!(result.len(), 8);

    let forward = system.get_symbol(&table, "Forward").unwrap();
    for symbol in result.symbols() {
        assert_eq!(symbol.code(), forward.code());
    }
}

#[test]
fn overcommitted_chances_fail_derivation() {
    let mut table = SymbolTable::new();
    let mut system = System::new();
    system.parse_production(&mut table, "A -> 0.8 B").unwrap();
    system.parse_production(&mut table, "A -> 0.9 C").unwrap();

    let start = system.parse_prod_string(&mut table, "A").unwrap();
    let result = system.derive_once(start);
    assert!(result.is_err());
    assert_eq!(
        result.unwrap_err().kind(),
        rusty_systems::error::ErrorKind::Definitions
    );
}

#[test]
fn unmatched_symbols_pass_through() {
    let mut table = SymbolTable::new();
    let mut system = System::new();
    system.parse_production(&mut table, "A -> B").unwrap();

    let start = system.parse_prod_string(&mut table, "A x A y").unwrap();
    let result = system.derive_once(start).unwrap();
    assert_eq!(system.format(&table, &result).unwrap(), "B x B y");
}

#[test]
fn run_settings_from_number() {
    let settings = RunSettings::from(4usize);
    assert_eq!(settings.max_iterations, 4);
}
