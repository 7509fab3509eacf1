//! Tests of production strings, the interner, formatting, and the
//! round-trip between them.

use rusty_systems::parser::parse_prod_string;
use rusty_systems::strings::{ProductionString, SymbolIterable};
use rusty_systems::symbols::{Symbol, SymbolTable};
use rusty_systems::system::System;
use rusty_systems::tokens::{determine_kind, Token, TokenKind};

#[test]
fn empty_string_is_empty() {
    let empty = ProductionString::empty();

    assert!(empty.is_empty());
    assert_eq!(empty.len(), 0);
}

#[test]
fn format_round_trips_parsing() {
    // format(parse(s)) gives back s in whitespace-normal form.
    let mut table = SymbolTable::new();
    let mut system = System::new();

    for (text, normal) in [
        ("A B C", "A B C"),
        ("  A   B  C ", "A B C"),
        ("\tForward\n+ Forward", "Forward + Forward"),
        ("one", "one"),
    ] {
        let parsed = system.parse_prod_string(&mut table, text).unwrap();
        assert_eq!(system.format(&table, &parsed).unwrap(), normal);
    }
}

#[test]
fn interning_is_consistent_across_systems() {
    // Two grammar instances sharing one table resolve the same name to the
    // same code.
    let mut table = SymbolTable::new();
    let mut first = System::new();
    let mut second = System::new();

    let a1 = first.add_symbol(&mut table, "alpha").unwrap();
    let noise = second.add_symbol(&mut table, "beta").unwrap();
    let a2 = second.add_symbol(&mut table, "alpha").unwrap();

    assert_eq!(a1.code(), a2.code());
    assert_ne!(a1.code(), noise.code());

    // And directly at the table: interning twice returns the same code.
    let direct1 = table.intern("gamma").unwrap();
    let direct2 = table.intern("gamma").unwrap();
    assert_eq!(direct1.code(), direct2.code());
}

#[test]
fn empty_names_are_rejected() {
    let mut table = SymbolTable::new();
    assert!(table.intern("").is_err());
    assert!(table.lookup("missing").is_none());
}

#[test]
fn unknown_codes_cannot_be_formatted() {
    let table = SymbolTable::new();
    let mut string = ProductionString::new();
    string.push_symbol(Symbol::new(9999));
    assert!(table.format(&string).is_err());
    assert!(table.name_of(9999).is_none());
}

#[test]
fn can_iterate_over_string() {
    let mut table = SymbolTable::new();
    let string = parse_prod_string(&mut table, "A B B C D").unwrap();

    let symbols = string.all_symbols();
    let mut iter = symbols.iter();

    assert_eq!(iter.next().unwrap().code(), table.lookup("A").unwrap().code());
    assert_eq!(iter.next().unwrap().code(), table.lookup("B").unwrap().code());
    assert_eq!(iter.next().unwrap().code(), table.lookup("B").unwrap().code());
    assert_eq!(iter.next().unwrap().code(), table.lookup("C").unwrap().code());
    assert_eq!(iter.next().unwrap().code(), table.lookup("D").unwrap().code());

    assert_eq!(symbols.len(), 5);
}

#[test]
fn can_iterate_over_production() {
    let mut table = SymbolTable::new();
    let mut system = System::new();
    let production = system
        .parse_production(&mut table, "Pre < Target > Post -> A B C C")
        .unwrap();

    let symbols = production.all_symbols();
    let mut iter = symbols.iter();

    assert_eq!(iter.next().unwrap().code(), table.lookup("Pre").unwrap().code());
    assert_eq!(iter.next().unwrap().code(), table.lookup("Target").unwrap().code());
    assert_eq!(iter.next().unwrap().code(), table.lookup("Post").unwrap().code());
    assert_eq!(iter.next().unwrap().code(), table.lookup("A").unwrap().code());
    assert_eq!(iter.next().unwrap().code(), table.lookup("B").unwrap().code());
    assert_eq!(iter.next().unwrap().code(), table.lookup("C").unwrap().code());
    assert_eq!(iter.next().unwrap().code(), table.lookup("C").unwrap().code());

    assert_eq!(symbols.len(), 7);

    let unique: std::collections::HashSet<_> = symbols.into_iter().collect();
    assert_eq!(unique.len(), 6);
}

#[test]
fn all_symbols_are_collected_in_order() {
    let mut table = SymbolTable::new();
    let string = parse_prod_string(&mut table, "A B B C D").unwrap();

    let collected = string.all_symbols();
    assert_eq!(collected.len(), 5);
    assert_eq!(collected, *string.symbols());

    let mut system = System::new();
    let production = system
        .parse_production(&mut table, "Pre < Target > Post -> A B C C")
        .unwrap();
    let all = production.all_symbols();
    assert_eq!(all.len(), 7);
    assert_eq!(all[0].code(), table.lookup("Pre").unwrap().code());
    assert_eq!(all[1].code(), table.lookup("Target").unwrap().code());
    assert_eq!(all[2].code(), table.lookup("Post").unwrap().code());
    assert_eq!(all[3].code(), table.lookup("A").unwrap().code());
    assert_eq!(all[6].code(), table.lookup("C").unwrap().code());
}

#[test]
fn determine_kind_classifies_names() {
    assert_eq!(determine_kind("Forward"), Some(TokenKind::Production));
    assert_eq!(determine_kind("  Spaced"), Some(TokenKind::Production));
    assert_eq!(determine_kind("forward"), Some(TokenKind::Terminal));
    assert_eq!(determine_kind("+"), Some(TokenKind::Terminal));
    assert_eq!(determine_kind(""), None);
    assert_eq!(determine_kind("   "), None);
}

#[test]
fn coded_tokens_keep_kind_and_code() {
    let token = Token::new(TokenKind::Production, 42);
    assert_eq!(token.kind(), TokenKind::Production);
    assert_eq!(token.code(), 42);
    assert!(token.is_production());
    assert!(!token.is_terminal());

    let terminal = Token::new(TokenKind::Terminal, 7);
    assert!(terminal.is_terminal());
    assert!(!terminal.is_production());
}
