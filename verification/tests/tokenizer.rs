//! Tests of the tokenizer: break scanning, token runs, and spans.

use rusty_systems::parser::iterator::{next_break, tokenize, Break, Token, TokenIterator};

#[test]
fn test_next_break_on_ascii() {
    assert_eq!(next_break("", 0), Break::end(0));
    assert_eq!(next_break("  ", 0), Break::Ignore(0, ' '));
    assert_eq!(next_break("hello", 0), Break::end(5));

    assert_eq!(next_break("hello world!", 0), Break::Ignore(5, ' '));
    assert_eq!(next_break("hello world!", 6), Break::end(12));
}

#[test]
fn test_iterator() {
    let mut iter = TokenIterator::new("hello Rüther friend");
    assert_eq!(iter.next().unwrap().text(), "hello");
    assert_eq!(iter.next().unwrap().text(), "Rüther");
    assert_eq!(iter.next().unwrap().text(), "friend");
    assert!(iter.next().is_none());

    let mut iter = TokenIterator::new("hello    ");
    assert_eq!(iter.next(), Some(Token::new("hello", 0, 5)));
    assert!(iter.next().is_none());

    let mut iter = TokenIterator::new("    ");
    assert!(iter.next().is_none());

    let mut iter = TokenIterator::new("");
    assert!(iter.next().is_none());

    let mut iter = TokenIterator::new("One<Two>Three");
    assert_eq!(iter.next().unwrap().text(), "One");
    assert_eq!(iter.next().unwrap().text(), "<");
    assert_eq!(iter.next().unwrap().text(), "Two");
    assert_eq!(iter.next().unwrap().text(), ">");
    assert_eq!(iter.next().unwrap().text(), "Three");
    assert!(iter.next().is_none());

    let mut iter = TokenIterator::new("One-Two");
    assert_eq!(iter.next().unwrap().text(), "One");
    assert_eq!(iter.next().unwrap().text(), "-");
    assert_eq!(iter.next().unwrap().text(), "Two");
    assert!(iter.next().is_none());

    let mut iter = TokenIterator::new("One+Two");
    assert_eq!(iter.next().unwrap().text(), "One");
    assert_eq!(iter.next().unwrap().text(), "+");
    assert_eq!(iter.next().unwrap().text(), "Two");
    assert!(iter.next().is_none());

    let mut iter = TokenIterator::new("A->B");
    assert_eq!(iter.next().unwrap().text(), "A");
    assert_eq!(iter.next().unwrap().text(), "->");
    assert_eq!(iter.next().unwrap().text(), "B");
    assert!(iter.next().is_none());
}

#[test]
fn test_token_breaks() {
    let mut iter = TokenIterator::new(">");
    assert_eq!(iter.next().unwrap().text(), ">");
    assert!(iter.next().is_none());

    let mut iter = TokenIterator::new("-");
    assert_eq!(iter.next().unwrap().text(), "-");
    assert!(iter.next().is_none());

    let mut iter = TokenIterator::new("->");
    assert_eq!(iter.next().unwrap().text(), "->");
    assert!(iter.next().is_none());

    let mut iter = TokenIterator::new("-->");
    assert_eq!(iter.next().unwrap().text(), "-->");
    assert!(iter.next().is_none());
}

#[test]
fn as_array() {
    let tokens = tokenize("F -> F F");
    let text: Vec<_> = tokens.iter().map(|t| t.text).collect();

    assert_eq!(text, ["F", "->", "F", "F"])
}
