//! Tests of the rule parser: bodies, heads, chances, and symbol sequences.

use rusty_systems::error::ErrorKind;
use rusty_systems::parser::{
    parse_chance_token,
    parse_prod_string,
    parse_production,
    parse_production_body,
    parse_production_head,
};
use rusty_systems::symbols::SymbolTable;

#[test]
fn parser_can_parse_empty_body() {
    let mut store = SymbolTable::new();
    let body = parse_production_body(&mut store, "");

    assert!(body.unwrap().is_empty());
}

#[test]
fn parser_can_parse_body_without_chance() {
    let mut store = SymbolTable::new();
    let body = parse_production_body(&mut store, "A B").unwrap();

    assert_eq!(body.len(), 2);
    assert!(body.chance().is_derived());
}

#[test]
fn parser_can_parse_body_with_chance() {
    let mut store = SymbolTable::new();
    let body = parse_production_body(&mut store, "0.3 A B").unwrap();

    assert_eq!(body.len(), 2);
    assert!(body.chance().is_user_set());
    // Chances are held in millionths: 300000 stands for 0.3.
    assert_eq!(body.chance().unwrap(), 300_000);
}

#[test]
fn parser_parsing_production_head() {
    let mut store = SymbolTable::new();
    let head = parse_production_head(&mut store, "A").unwrap();
    assert_eq!(store.lookup("A").unwrap().code(), head.target().code());

    let head = parse_production_head(&mut store, "Pre < A > Post").unwrap();
    assert_eq!(store.lookup("A").unwrap().code(), head.target().code());

    let left = head.pre_context().unwrap();
    assert_eq!(left.len(), 1);
    assert_eq!(store.lookup("Pre").unwrap().code(), left.symbols()[0].code());

    let right = head.post_context().unwrap();
    assert_eq!(right.len(), 1);
    assert_eq!(store.lookup("Post").unwrap().code(), right.symbols()[0].code());
}

#[test]
fn parsing_strings() {
    let mut store = SymbolTable::new();
    let s = parse_prod_string(&mut store, "A B C").unwrap();
    let mut iterator = s.symbols().iter().copied();

    assert_eq!(iterator.next().unwrap().code(), store.lookup("A").unwrap().code());
    assert_eq!(iterator.next().unwrap().code(), store.lookup("B").unwrap().code());
    assert_eq!(iterator.next().unwrap().code(), store.lookup("C").unwrap().code());
    assert!(iterator.next().is_none());
}

#[test]
fn chance_literals_parse_to_millionths() {
    assert_eq!(parse_chance_token("0.3"), Some(300_000));
    assert_eq!(parse_chance_token("1"), Some(1_000_000));
    assert_eq!(parse_chance_token("1.0"), Some(1_000_000));
    assert_eq!(parse_chance_token(".5"), Some(500_000));
    assert_eq!(parse_chance_token("0.000001"), Some(1));
    assert_eq!(parse_chance_token("0.25"), Some(250_000));
    // Out-of-range values are clamped to the rejected sentinels.
    assert_eq!(parse_chance_token("2.5"), Some(1_000_001));
    assert_eq!(parse_chance_token("-0.5"), Some(0));
    assert_eq!(parse_chance_token("0"), Some(0));
    // Text that is not a plain decimal is no chance at all.
    assert_eq!(parse_chance_token("A"), None);
    assert_eq!(parse_chance_token("1e-3"), None);
    assert_eq!(parse_chance_token("0.3.4"), None);
    assert_eq!(parse_chance_token(""), None);
    assert_eq!(parse_chance_token("."), None);
}

#[test]
fn out_of_range_chance_is_rejected() {
    let mut store = SymbolTable::new();
    let body = parse_production_body(&mut store, "2.5 A B");
    assert!(body.is_err());
    assert_eq!(body.unwrap_err().kind(), ErrorKind::Parse);

    let body = parse_production_body(&mut store, "0 A B");
    assert!(body.is_err());

    let body = parse_production_body(&mut store, "-0.5 A B");
    assert!(body.is_err());
}

#[test]
fn nonnumeric_first_token_is_a_symbol() {
    let mut store = SymbolTable::new();
    let body = parse_production_body(&mut store, "1e-3 A").unwrap();
    assert_eq!(body.len(), 2);
    assert!(body.chance().is_derived());
}

#[test]
fn duplicate_context_markers_are_rejected() {
    let mut store = SymbolTable::new();
    // More than one context separator of either kind is a parse error.
    assert!(parse_production_head(&mut store, "A < B < C").is_err());
    assert!(parse_production_head(&mut store, "A > B > C").is_err());
    assert!(parse_production_head(&mut store, "A > B < C").is_err());
    assert!(parse_production_head(&mut store, "P < A > B > C").is_err());
    assert!(parse_production_head(&mut store, "P < A < B > C").is_err());
    assert!(parse_production_head(&mut store, "").is_err());
    assert!(parse_production_head(&mut store, "A B").is_err());
    // One of each, in order, stays fine.
    assert!(parse_production_head(&mut store, "Pre < A > Post").is_ok());
    assert!(parse_production_head(&mut store, "A").is_ok());
}

#[test]
fn production_without_arrow_is_rejected() {
    let mut store = SymbolTable::new();
    assert!(parse_production(&mut store, "A B C").is_err());
    assert!(parse_production(&mut store, "").is_err());
    assert!(parse_production(&mut store, "A -> B").is_ok());
}
