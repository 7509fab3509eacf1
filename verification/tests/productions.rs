//! Tests of the production model: context matching and stochastic
//! selection.

use rusty_systems::parser::parse_prod_string;
use rusty_systems::productions::Production;
use rusty_systems::symbols::SymbolTable;
use rusty_systems::system::{derive_once_with_draws, find_matching, System};
use rusty_systems::CHANCE_SCALE;

#[test]
fn production_matches() {
    let mut table = SymbolTable::new();
    let mut system = System::new();
    let production = system.parse_production(&mut table, "X -> F F").unwrap();

    let string = parse_prod_string(&mut table, "X").unwrap();
    assert!(production.matches(&string, 0));

    let production = system.parse_production(&mut table, "X < X -> F F").unwrap();
    assert!(!production.matches(&string, 0));

    let string = parse_prod_string(&mut table, "X X").unwrap();
    assert!(!production.matches(&string, 0));
    assert!(production.matches(&string, 1));

    let production = system.parse_production(&mut table, "a b < X -> F F").unwrap();
    let string = parse_prod_string(&mut table, "a b X").unwrap();
    assert!(!production.matches(&string, 0));
    assert!(!production.matches(&string, 1));
    assert!(production.matches(&string, 2));

    let production = system.parse_production(&mut table, "X > X -> F F").unwrap();
    assert!(!production.matches(&string, 0));

    let string = parse_prod_string(&mut table, "X X").unwrap();
    assert!(production.matches(&string, 0));
    assert!(!production.matches(&string, 1));

    let production = system.parse_production(&mut table, "X > a b -> F F").unwrap();
    let string = parse_prod_string(&mut table, "a X a b").unwrap();
    assert!(!production.matches(&string, 0));
    assert!(production.matches(&string, 1));
    assert!(!production.matches(&string, 2));
    assert!(!production.matches(&string, 3));

    let mut table = SymbolTable::new();
    let mut system = System::new();
    let string = {
        let parsed = system.parse_prod_string(&mut table, "G S S S X").unwrap();
        parsed
    };
    let production = system.parse_production(&mut table, "G < S -> S G").unwrap();

    assert!(!production.matches(&string, 0));
    assert!(production.matches(&string, 1));
    assert!(!production.matches(&string, 2));
}

#[test]
fn context_matches_only_after_predecessor() {
    // With head "G < S", only the position whose immediate predecessor is
    // G matches in "G S S S X".
    let mut table = SymbolTable::new();
    let mut system = System::new();
    let string = system.parse_prod_string(&mut table, "G S S S X").unwrap();
    let production = system.parse_production(&mut table, "G < S -> S G").unwrap();

    for index in 0..string.len() {
        assert_eq!(production.matches(&string, index), index == 1);
    }
}

#[test]
fn merged_registrations_select_like_one() {
    // Registering the same head twice merges the bodies: selection then
    // behaves exactly as one production with both alternatives.
    let mut table = SymbolTable::new();
    let mut system = System::new();
    system.parse_production(&mut table, "A -> 0.3 B").unwrap();
    let merged = system.parse_production(&mut table, "A -> C").unwrap();

    assert_eq!(system.production_len(), 1);
    assert_eq!(merged.all_bodies().len(), 2);

    let b = parse_prod_string(&mut table, "B").unwrap();
    let c = parse_prod_string(&mut table, "C").unwrap();

    // The first body takes draws up to 0.3; the leftover mass goes to the
    // derived alternative.
    for draw in [1, 150_000, 300_000] {
        let selected = merged.select_body(draw).unwrap();
        assert_eq!(*selected.string(), b);
    }
    for draw in [300_001, 650_000, CHANCE_SCALE] {
        let selected = merged.select_body(draw).unwrap();
        assert_eq!(*selected.string(), c);
    }
}

#[test]
fn single_body_is_returned_unconditionally() {
    let mut table = SymbolTable::new();
    let mut system = System::new();
    // A lone body with a tiny chance is still always selected.
    let production = system.parse_production(&mut table, "A -> 0.000001 B").unwrap();
    let b = parse_prod_string(&mut table, "B").unwrap();
    for draw in [1, 500_000, CHANCE_SCALE] {
        assert_eq!(*production.select_body(draw).unwrap().string(), b);
    }
}

#[test]
fn selection_frequencies_follow_chances() {
    let mut table = SymbolTable::new();
    let mut system = System::new();
    system.parse_production(&mut table, "A -> 0.3 B").unwrap();
    let merged = system.parse_production(&mut table, "A -> 0.7 C").unwrap();

    let b = parse_prod_string(&mut table, "B").unwrap();

    // Sweeping the draws exactly: 0.3 of the probability mass selects the
    // first body.
    let mut first: u64 = 0;
    let total: u64 = 1000;
    for step in 1..=total {
        let draw = (step as u32) * (CHANCE_SCALE / 1000);
        if *merged.select_body(draw).unwrap().string() == b {
            first += 1;
        }
    }
    assert_eq!(first, 300);

    // And the random selection converges to the same share.
    let samples = 20_000;
    let mut hits = 0usize;
    for _ in 0..samples {
        if *merged.body().unwrap().string() == b {
            hits += 1;
        }
    }
    let share = hits as f64 / samples as f64;
    assert!((share - 0.3).abs() < 0.05, "share was {share}");
}

#[test]
fn derived_chances_split_leftover_mass() {
    let mut table = SymbolTable::new();
    let mut system = System::new();
    system.parse_production(&mut table, "A -> 0.3 B").unwrap();
    system.parse_production(&mut table, "A -> C").unwrap();
    let merged = system.parse_production(&mut table, "A -> D").unwrap();

    let b = parse_prod_string(&mut table, "B").unwrap();
    let c = parse_prod_string(&mut table, "C").unwrap();
    let d = parse_prod_string(&mut table, "D").unwrap();

    // The two derived bodies each receive (1 - 0.3) / 2 = 0.35.
    assert_eq!(*merged.select_body(300_000).unwrap().string(), b);
    assert_eq!(*merged.select_body(300_001).unwrap().string(), c);
    assert_eq!(*merged.select_body(650_000).unwrap().string(), c);
    assert_eq!(*merged.select_body(650_001).unwrap().string(), d);
    assert_eq!(*merged.select_body(CHANCE_SCALE).unwrap().string(), d);
}

#[test]
fn rewriting_with_explicit_draws_is_deterministic() {
    let mut table = SymbolTable::new();
    let mut system = System::new();
    system.parse_production(&mut table, "A -> 0.5 B").unwrap();
    let merged = system.parse_production(&mut table, "A -> C").unwrap();
    let productions: Vec<Production> = vec![merged];

    let start = parse_prod_string(&mut table, "A x A").unwrap();
    assert!(find_matching(&productions, &start, 0).is_some());
    assert!(find_matching(&productions, &start, 1).is_none());

    // One draw per position: low draws pick B, high draws pick C, and the
    // unmatched symbol passes through.
    let low_high = vec![400_000u32, 1, 600_000];
    let result = derive_once_with_draws(&start, &productions, &low_high).unwrap();
    assert_eq!(table.format(&result).unwrap(), "B x C");

    // The same draws give the same result again.
    let again = derive_once_with_draws(&start, &productions, &low_high).unwrap();
    assert_eq!(result, again);
}
