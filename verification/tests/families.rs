//! Tests of families, the registry, and the plant-format parser.

use rusty_systems::interpretation::abop::{abop_family, parse, parse_angle_token};
use rusty_systems::symbols::SymbolTable;
use rusty_systems::system::family::{FamilyRegistry, SystemFamily};

#[test]
fn empty_name() {
    let mut registry = FamilyRegistry::new();
    let result = SystemFamily::define().register(&mut registry, "");
    assert!(result.is_err());

    let result = SystemFamily::define().register(&mut registry, "bob");
    assert!(result.is_ok());
}

#[test]
fn can_register() {
    let mut registry = FamilyRegistry::new();
    let result = SystemFamily::define()
        .with_terminal("surname", Some("It's a surname"))
        .with_production("Company", None)
        .register(&mut registry, "NameSystems")
        .unwrap();

    assert_eq!(result.terminals().len(), 1);
    assert_eq!(result.productions().len(), 1);
    assert_eq!(result.name(), "NameSystems");

    let surname = &result.terminals()[0];
    assert_eq!(surname.name, "surname");
    assert!(surname.description.is_some());
    assert_eq!(surname.description.as_ref().unwrap(), "It's a surname");
}

#[test]
fn abop_available() {
    let mut registry = FamilyRegistry::new();
    let abop = registry.get_or_init_family("ABOP", abop_family());
    assert_eq!(abop.name(), "ABOP");
}

#[test]
fn duplicate_symbol_names_overwrite() {
    // Registering the same symbol name twice keeps one entry, with the
    // later description.
    let mut registry = FamilyRegistry::new();
    let family = SystemFamily::define()
        .with_terminal("x", Some("first"))
        .with_terminal("x", Some("second"))
        .with_production("Y", None)
        .register(&mut registry, "overwrite")
        .unwrap();

    assert_eq!(family.terminals().len(), 1);
    assert_eq!(family.terminals()[0].name, "x");
    assert_eq!(family.terminals()[0].description.as_ref().unwrap(), "second");
    assert_eq!(family.productions().len(), 1);
}

#[test]
fn delta_aliases_set_the_angle() {
    let mut table = SymbolTable::new();
    let text = "\u{2202} = 45\ninitial: X\nX -> X X";
    let (interpretation, _, _) = parse(&mut table, text).unwrap();
    assert_eq!(interpretation.delta(), 45_000_000);

    let mut table = SymbolTable::new();
    let text = "d = 10.5\ninitial: X\nX -> X X";
    let (interpretation, _, _) = parse(&mut table, text).unwrap();
    assert_eq!(interpretation.delta(), 10_500_000);
}

#[test]
fn duplicate_family_names_are_rejected() {
    let mut registry = FamilyRegistry::new();
    SystemFamily::define().register(&mut registry, "bob").unwrap();
    let second = SystemFamily::define().register(&mut registry, "bob");
    assert!(second.is_err());
    assert_eq!(
        second.unwrap_err().kind(),
        rusty_systems::error::ErrorKind::Duplicate
    );
}

#[test]
fn test_parsing() {
    let general = "# Totally for testing purposes
n = 6
delta = 22.5

initial: X # Here we go
# Start on a line

Forward -> Forward Forward
X -> Forward + [ [ X ] - X ] - Forward [ - Forward X ] + X

# ENDED";

    let mut table = SymbolTable::new();
    let result = parse(&mut table, general);
    assert!(result.is_ok());

    let (interpretation, system, start) = result.unwrap();
    assert_eq!(system.production_len(), 2);
    assert_eq!(interpretation.n(), 6);
    assert_eq!(interpretation.delta(), 22_500_000);
    assert_eq!(start.len(), 1);

    // The test data adds no symbols beyond the family's own.
    assert_eq!(system.symbol_len(), abop_family().symbols().len());
}

#[test]
fn plant_format_rejects_incomplete_grammars() {
    let mut table = SymbolTable::new();
    assert!(parse(&mut table, "").is_err());
    assert!(parse(&mut table, "   \n  ").is_err());
    // No productions.
    assert!(parse(&mut table, "initial: X").is_err());
    // No initial string.
    assert!(parse(&mut table, "Forward -> Forward Forward").is_err());
    // An unrecognised assignment.
    assert!(parse(&mut table, "q = 7\ninitial: X\nX -> X").is_err());
    // A malformed number.
    assert!(parse(&mut table, "n = six\ninitial: X\nX -> X").is_err());
}

#[test]
fn angle_literals_parse_to_micro_degrees() {
    assert_eq!(parse_angle_token("22.5"), Some(22_500_000));
    assert_eq!(parse_angle_token("0"), Some(0));
    assert_eq!(parse_angle_token("360"), Some(360_000_000));
    assert_eq!(parse_angle_token("1.000001"), Some(1_000_001));
    assert_eq!(parse_angle_token("abc"), None);
    assert_eq!(parse_angle_token("-5"), None);
}
