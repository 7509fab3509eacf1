//! Tests of statement matching, compiling, and the statement splitter.

use rusty_systems::parser::iterator::TokenIterator;
use rusty_systems::parser::parse_prod_string;
use rusty_systems::parser::parsestack::ParseStack;
use rusty_systems::parser::statement::{Match, ParsableType, Statement, StatementKind};
use rusty_systems::parser::token::Token;
use rusty_systems::strings::ProductionString;
use rusty_systems::symbols::SymbolTable;

#[test]
fn statement_to_production_string() {
    let statement = Statement::new(
        StatementKind::ProductionString,
        vec![Token::new("a", 0, 1), Token::new("b", 1, 2), Token::new("c", 2, 3)],
    );

    let mut table = SymbolTable::new();
    let result: Result<ProductionString, _> = statement.compile(&mut table);
    assert!(result.is_ok());

    let result = result.unwrap();
    assert_eq!(result, parse_prod_string(&mut table, "a b c").unwrap());
}

#[test]
fn matches_production_string() {
    assert_eq!(ProductionString::matches(TokenIterator::new("")), Match::No(0));
    assert_eq!(ProductionString::matches(TokenIterator::new("->")), Match::No(0));
    assert_eq!(ProductionString::matches(TokenIterator::new("A B C;")), Match::Matches(4));
    assert_eq!(ProductionString::matches(TokenIterator::new("A B C; A B;")), Match::Matches(4));
    assert_eq!(ProductionString::matches(TokenIterator::new("A;")), Match::Matches(2));
    assert_eq!(ProductionString::matches(TokenIterator::new(";")), Match::Matches(1));
    assert_eq!(ProductionString::matches(TokenIterator::new("A -> B")), Match::No(1));
}

#[test]
fn parse_stack() {
    let mut table = SymbolTable::new();

    let mut stack = ParseStack::new(TokenIterator::new("A B C;"));

    stack.parse().expect("Unable to parse");
    assert_eq!(stack.stack.len(), 1);

    let compiled: Result<ProductionString, _> = stack.stack[0].compile(&mut table);
    assert!(compiled.is_ok());
    assert_eq!(compiled.unwrap(), parse_prod_string(&mut table, "A B C").unwrap());

    let mut stack = ParseStack::new(TokenIterator::new("A B C; D E F;"));

    stack.parse().expect("Unable to parse");
    assert_eq!(stack.stack.len(), 2);

    let compiled: Result<ProductionString, _> = stack.stack[0].compile(&mut table);
    assert!(compiled.is_ok());
    assert_eq!(compiled.unwrap(), parse_prod_string(&mut table, "A B C").unwrap());

    let compiled: Result<ProductionString, _> = stack.stack[1].compile(&mut table);
    assert!(compiled.is_ok());
    assert_eq!(compiled.unwrap(), parse_prod_string(&mut table, "D E F").unwrap());
}

#[test]
fn unterminated_statement_is_rejected() {
    let mut stack = ParseStack::new(TokenIterator::new("A B C"));
    assert!(stack.parse().is_err());

    let mut stack = ParseStack::new(TokenIterator::new("A B; A -> B;"));
    assert!(stack.parse().is_err());
}

#[test]
fn compile_rejects_a_mismatched_kind() {
    let mut table = SymbolTable::new();
    let statement = Statement::new(StatementKind::Error, vec![]);
    let result: Result<ProductionString, _> = statement.compile(&mut table);
    assert!(result.is_err());
}

#[test]
fn failed_split_keeps_matched_statements() {
    let mut table = SymbolTable::new();
    let mut stack = ParseStack::new(TokenIterator::new("A B; A -> B;"));
    assert!(stack.parse().is_err());
    assert_eq!(stack.stack.len(), 1);
    let compiled: Result<ProductionString, _> = stack.stack[0].compile(&mut table);
    assert_eq!(compiled.unwrap(), parse_prod_string(&mut table, "A B").unwrap());
}
