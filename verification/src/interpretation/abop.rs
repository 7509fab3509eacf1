//! The family of plant grammars from *the Algorithmic Beauty of Plants*,
//! and a parser for a small text format that describes one such grammar:
//!
//! ```plant
//! # Comments start with a hash.
//! n = 6           # Number of derivation iterations.
//! delta = 22.5    # The angle, in degrees, that + and - turn by.
//!
//! initial: X      # The starting string
//!
//! Forward -> Forward Forward
//! X -> Forward + [ [ X ] - X ] - Forward [ - Forward X ] + X
//! ```

use vstd::prelude::*;

use crate::error::{Error, ErrorKind};
use crate::parser::{
    digits_only,
    digits_value,
    frac_micros,
    first_dot_index,
    is_digit_char,
    is_space,
    is_space_char,
    spec_split_ws,
    split_whitespace,
};
use crate::strings::ProductionString;
use crate::symbols::SymbolTable;
use crate::system::family::SystemFamily;
use crate::system::System;

verus! {

/// The number of fixed-point units that stand for one degree: angles are
/// held as integer numbers of millionths of a degree.
pub const DEGREE_SCALE: u64 = 1000000;

/// The largest angle, in whole degrees, that the plant format reads.
pub const MAX_ANGLE_DEGREES: u64 = 360000;

/// The largest angle, in millionths of a degree, that the plant format
/// reads; larger literals are rejected.
pub const MAX_ANGLE_MICRO_DEGREES: u64 = 360000000000;

/// The family of plant grammars from *the Algorithmic Beauty of Plants*:
/// branching brackets, turns, and the growth symbols.
pub fn abop_family() -> (r: SystemFamily)
    ensures
        r.spec_terminals().len() == 4,
        r.spec_productions().len() == 3,
{
    let builder = SystemFamily::define()
        .with_terminal("[", Option::Some("Start a branch"))
        .with_terminal("]", Option::Some("Finish a branch"))
        .with_terminal("+", Option::Some("Turn turtle right"))
        .with_terminal("-", Option::Some("Turn turtle left"))
        .with_production("Forward", Option::Some("Move the turtle forward, drawing a line"))
        .with_production("Move", Option::Some("Move the turtle forward WITHOUT drawing"))
        .with_production("X", Option::Some("A growth point for the plant / branch"));
    let built = builder.build("ABOP");
    proof {
        reveal_strlit("ABOP");
        assert("ABOP"@.len() == 4);
        assert(!is_space_char("ABOP"@[0]));
        assert(spec_split_ws("ABOP"@).len() > 0);
        reveal_strlit("[");
        reveal_strlit("]");
        reveal_strlit("+");
        reveal_strlit("-");
        reveal_strlit("Forward");
        reveal_strlit("Move");
        reveal_strlit("X");
        let ts = builder.spec_terminals();
        assert(ts[3].name@ == "-"@ && ts.drop_last()[2].name@ == "+"@ && ts.drop_last(
        ).drop_last()[1].name@ == "]"@ && ts.drop_last().drop_last().drop_last()[0].name@
            == "["@);
        assert(ts[0].name@ == "["@ && ts[1].name@ == "]"@ && ts[2].name@ == "+"@ && ts[3].name@
            == "-"@);
        assert forall|i: int, j: int| 0 <= i < j < ts.len() implies (#[trigger] ts[i]).name@ != (
        #[trigger] ts[j]).name@ by {
            assert(ts.len() == 4);
            assert(0 <= i < 4 && 0 <= j < 4);
            if i == 0 {
                assert(ts[i].name@ == "["@);
            } else if i == 1 {
                assert(ts[i].name@ == "]"@);
            } else if i == 2 {
                assert(ts[i].name@ == "+"@);
            } else {
                assert(ts[i].name@ == "-"@);
            }
            if j == 0 {
                assert(ts[j].name@ == "["@);
            } else if j == 1 {
                assert(ts[j].name@ == "]"@);
            } else if j == 2 {
                assert(ts[j].name@ == "+"@);
            } else {
                assert(ts[j].name@ == "-"@);
            }
            assert(ts[i].name@[0] != ts[j].name@[0]);
        }
        crate::system::family::lemma_dedup_distinct(ts);
        let ps = builder.spec_productions();
        assert(ps[2].name@ == "X"@ && ps.drop_last()[1].name@ == "Move"@ && ps.drop_last(
        ).drop_last()[0].name@ == "Forward"@);
        assert(ps[0].name@ == "Forward"@ && ps[1].name@ == "Move"@ && ps[2].name@ == "X"@);
        assert forall|i: int, j: int| 0 <= i < j < ps.len() implies (#[trigger] ps[i]).name@ != (
        #[trigger] ps[j]).name@ by {
            assert(ps.len() == 3);
            if i == 0 {
                assert(ps[i].name@ == "Forward"@);
            } else if i == 1 {
                assert(ps[i].name@ == "Move"@);
            } else {
                assert(ps[i].name@ == "X"@);
            }
            if j == 1 {
                assert(ps[j].name@ == "Move"@);
            } else if j == 2 {
                assert(ps[j].name@ == "X"@);
            }
            assert(ps[i].name@.len() != ps[j].name@.len());
        }
        crate::system::family::lemma_dedup_distinct(ps);
    }
    built.unwrap()
}

/// Settings for interpreting an ABOP plant grammar as turtle instructions:
/// how many derivation iterations to run, and the turn angle.
#[derive(Debug, Clone, Copy)]
pub struct AbopTurtleInterpretation {
    /// The number of derivation iterations that the grammar should run.
    pub n: usize,
    /// The turn angle, in millionths of a degree.
    pub delta: u64,
}

impl AbopTurtleInterpretation {
    pub fn new(n: usize, delta: u64) -> (r: Self)
        ensures
            r.n == n,
            r.delta == delta,
    {
        Self { n, delta }
    }

    /// The number of rewrite iterations that a system should perform.
    pub fn n(&self) -> (r: usize)
        ensures
            r == self.n,
    {
        self.n
    }

    /// The angle that the turtle turns by, in millionths of a degree.
    pub fn delta(&self) -> (r: u64)
        ensures
            r == self.delta,
    {
        self.delta
    }
}

impl Default for AbopTurtleInterpretation {
    /// Five iterations at 22.5 degrees.
    fn default() -> (r: Self)
        ensures
            r.n == 5,
            r.delta == 22500000,
    {
        AbopTurtleInterpretation::new(5, 22500000)
    }
}

/// The position of the first occurrence of `c` at or after `i`, or the
/// length of `s` if there is none.
pub open spec fn first_char_from(s: Seq<char>, c: char, i: int) -> int
    decreases s.len() - i,
{
    if i < 0 || i >= s.len() {
        s.len() as int
    } else if s[i] == c {
        i
    } else {
        first_char_from(s, c, i + 1)
    }
}

pub proof fn lemma_first_char_from(s: Seq<char>, c: char, i: int)
    requires
        0 <= i <= s.len(),
    ensures
        i <= first_char_from(s, c, i) <= s.len(),
        forall|j: int| i <= j < first_char_from(s, c, i) ==> s[j] != c,
        first_char_from(s, c, i) < s.len() ==> s[first_char_from(s, c, i)] == c,
    decreases s.len() - i,
{
    if i < s.len() && s[i] != c {
        lemma_first_char_from(s, c, i + 1);
    }
}

/// Finds the first occurrence of `c` in the text, as a character position.
pub fn find_char(text: &str, c: char) -> (r: usize)
    ensures
        r == first_char_from(text@, c, 0),
        r <= text@.len(),
{
    let len = text.unicode_len();
    let mut i: usize = 0;
    while i < len
        invariant
            0 <= i <= len,
            len == text@.len(),
            first_char_from(text@, c, 0) == first_char_from(text@, c, i as int),
        ensures
            0 <= i <= len,
            len == text@.len(),
            first_char_from(text@, c, 0) == i as int || (i == len && first_char_from(text@, c, 0)
                == len),
        decreases len - i,
    {
        if text.get_char(i) == c {
            proof {
                assert(first_char_from(text@, c, i as int) == i);
            }
            break;
        }
        i += 1;
    }
    i
}

/// The number that a run of decimal digits denotes, if the text is one or
/// more digits and the value fits in `usize`.
pub open spec fn spec_usize_token(t: Seq<char>) -> Option<usize> {
    if digits_only(t) && t.len() > 0 && digits_value(t) <= usize::MAX {
        Option::Some(digits_value(t) as usize)
    } else {
        Option::None
    }
}

/// The number that a run of decimal digits denotes, or `None` when the text
/// is empty, holds a non-digit, or denotes a number too large for `usize`.
pub fn parse_usize_token(tok: &str) -> (r: Option<usize>)
    ensures
        r == spec_usize_token(tok@),
{
    let len = tok.unicode_len();
    if len == 0 {
        return Option::None;
    }
    let clamp: u128 = usize::MAX as u128 + 1;
    let mut value: u128 = 0;
    let mut i: usize = 0;
    while i < len
        invariant
            0 <= i <= len,
            len == tok@.len(),
            clamp == usize::MAX as u128 + 1,
            digits_only(tok@.take(i as int)),
            value as int == if digits_value(tok@.take(i as int)) > clamp {
                clamp as int
            } else {
                digits_value(tok@.take(i as int))
            },
            value <= clamp,
        decreases len - i,
    {
        let c = tok.get_char(i);
        if c < '0' || c > '9' {
            proof {
                assert(!is_digit_char(tok@[i as int]));
            }
            return Option::None;
        }
        let d = (c as u32 - '0' as u32) as u128;
        proof {
            assert(tok@.take(i + 1).drop_last() =~= tok@.take(i as int));
            assert(tok@.take(i + 1).last() == tok@[i as int]);
            let prev = digits_value(tok@.take(i as int));
            let cur = digits_value(tok@.take(i + 1));
            assert(cur == prev * 10 + d);
            if prev > clamp {
                assert(cur > clamp) by (nonlinear_arith)
                    requires
                        cur == prev * 10 + d,
                        prev > clamp,
                        d >= 0,
                        clamp >= 0,
                ;
            }
        }
        let next = value * 10 + d;
        value = if next > clamp {
            clamp
        } else {
            next
        };
        i += 1;
    }
    proof {
        assert(tok@.take(len as int) =~= tok@);
    }
    if value > usize::MAX as u128 {
        return Option::None;
    }
    Option::Some(value as usize)
}

/// The angle, in millionths of a degree, that a decimal literal of the form
/// `digits[.digits]` denotes, when it lies within
/// [`MAX_ANGLE_MICRO_DEGREES`].
pub open spec fn spec_angle_token(t: Seq<char>) -> Option<u64> {
    let d = first_dot_index(t);
    let int_part = t.take(d);
    let frac_part = if d < t.len() {
        t.subrange(d + 1, t.len() as int)
    } else {
        Seq::<char>::empty()
    };
    if int_part.len() > 0 && digits_only(int_part) && digits_only(frac_part) && first_dot_index(
        frac_part,
    ) == frac_part.len() && digits_value(int_part) * (DEGREE_SCALE as int) + frac_micros(
        frac_part,
    ) <= MAX_ANGLE_MICRO_DEGREES {
        Option::Some(
            (digits_value(int_part) * (DEGREE_SCALE as int) + frac_micros(frac_part)) as u64,
        )
    } else {
        Option::None
    }
}

/// The angle, in millionths of a degree, that a decimal literal denotes, or
/// `None` when the text is not `digits[.digits]` or lies beyond
/// [`MAX_ANGLE_MICRO_DEGREES`].
pub fn parse_angle_token(tok: &str) -> (r: Option<u64>)
    ensures
        r == spec_angle_token(tok@),
{
    let len = tok.unicode_len();
    proof {
        crate::parser::lemma_first_dot_index(tok@);
    }
    let dot = find_char(tok, '.');
    proof {
        lemma_first_char_dot(tok@);
    }
    let int_text = tok.substring_char(0, dot);
    proof {
        assert(int_text@ =~= tok@.take(first_dot_index(tok@)));
    }
    let int_value = match parse_usize_token(int_text) {
        Option::Some(v) => v,
        Option::None => {
            proof {
                if digits_only(int_text@) && int_text@.len() > 0 {
                    assert(digits_value(int_text@) > usize::MAX);
                    assert(usize::MAX >= u32::MAX);
                }
                lemma_angle_out_of_range(tok@);
            }
            return Option::None;
        },
    };
    if int_value as u64 > MAX_ANGLE_DEGREES {
        proof {
            crate::parser::lemma_digits_value_bound(int_text@);
            assert(int_value as int == digits_value(int_text@));
            lemma_angle_out_of_range(tok@);
        }
        return Option::None;
    }
    let ghost fr = if (dot as int) < tok@.len() {
        tok@.subrange(first_dot_index(tok@) + 1, tok@.len() as int)
    } else {
        Seq::<char>::empty()
    };
    let frac_value: u64 = if dot < len {
        let frac_text = tok.substring_char(dot + 1, len);
        proof {
            assert(frac_text@ =~= fr);
        }
        match parse_frac_token(frac_text) {
            Option::Some(v) => v,
            Option::None => {
                return Option::None;
            },
        }
    } else {  // no fraction part
        proof {
            assert(digits_value(Seq::<char>::empty()) == 0);
            assert(frac_micros(fr) == 0);
            assert(first_dot_index(fr) == fr.len());
            assert(digits_only(fr));
        }
        0
    };
    let micro = (int_value as u64) * DEGREE_SCALE + frac_value;
    proof {
        crate::parser::lemma_digits_value_bound(int_text@);
        assert(int_value as int == digits_value(tok@.take(first_dot_index(tok@))));
        assert(frac_value as int == frac_micros(fr));
        assert(micro as int == digits_value(tok@.take(first_dot_index(tok@))) * (
        DEGREE_SCALE as int) + frac_micros(fr));
        assert(digits_only(fr) && first_dot_index(fr) == fr.len());
    }
    if micro > MAX_ANGLE_MICRO_DEGREES {
        proof {
            assert(spec_angle_token(tok@) is None);
        }
        return Option::None;
    }
    Option::Some(micro)
}

/// When the integer part of an angle literal denotes more than the largest
/// angle's degrees, the literal denotes no angle: either some part is
/// malformed, or the value lies out of range.
proof fn lemma_angle_out_of_range(t: Seq<char>)
    requires
        ({
            let d = first_dot_index(t);
            let int_part = t.take(d);
            !(digits_only(int_part) && int_part.len() > 0) || digits_value(int_part) > MAX_ANGLE_DEGREES
        }),
    ensures
        spec_angle_token(t) is None,
{
    let d = first_dot_index(t);
    let int_part = t.take(d);
    let frac_part = if d < t.len() {
        t.subrange(d + 1, t.len() as int)
    } else {
        Seq::<char>::empty()
    };
    if digits_only(int_part) && int_part.len() > 0 && digits_only(frac_part) {
        crate::parser::lemma_frac_micros_bound(frac_part);
        if digits_value(int_part) > MAX_ANGLE_DEGREES {
            assert(digits_value(int_part) * (DEGREE_SCALE as int) > MAX_ANGLE_MICRO_DEGREES)
                by (nonlinear_arith)
                requires
                    digits_value(int_part) > 360000,
                    MAX_ANGLE_MICRO_DEGREES == 360000000000,
                    DEGREE_SCALE == 1000000,
            ;
        }
    }
}

/// The first dot and the first `.` found by the generic scan agree.
proof fn lemma_first_char_dot(s: Seq<char>)
    ensures
        first_char_from(s, '.', 0) == first_dot_index(s),
    decreases s.len(),
{
    lemma_first_char_dot_from(s, 0);
    assert(s.skip(0) =~= s);
}

proof fn lemma_first_char_dot_from(s: Seq<char>, i: int)
    requires
        0 <= i <= s.len(),
    ensures
        first_char_from(s, '.', i) == i + first_dot_index(s.skip(i)),
    decreases s.len() - i,
{
    if i < s.len() {
        assert(s.skip(i)[0] == s[i]);
        if s[i] != '.' {
            lemma_first_char_dot_from(s, i + 1);
            assert(s.skip(i).drop_first() =~= s.skip(i + 1));
        }
    } else {
        assert(s.skip(i).len() == 0);
    }
}

/// The number of millionths that a fraction digit string denotes, to six
/// places, or `None` when the text holds a non-digit.
fn parse_frac_token(tok: &str) -> (r: Option<u64>)
    ensures
        r matches Some(v) ==> digits_only(tok@) && v as int == frac_micros(tok@) && v < 1000000
            && first_dot_index(tok@) == tok@.len(),
        r is None <==> !digits_only(tok@),
{
    let len = tok.unicode_len();
    let mut value: u64 = 0;
    let mut count: usize = 0;
    let mut i: usize = 0;
    while i < len
        invariant
            0 <= i <= len,
            len == tok@.len(),
            count == if i < 6 {
                i as int
            } else {
                6
            },
            digits_only(tok@.take(i as int)),
            value as int == if i >= 6 {
                digits_value(tok@.take(i as int).take(6))
            } else {
                digits_value(tok@.take(i as int))
            },
            value < 1000000,
        decreases len - i,
    {
        let c = tok.get_char(i);
        if c < '0' || c > '9' {
            proof {
                assert(!is_digit_char(tok@[i as int]));
            }
            return Option::None;
        }
        let d = (c as u32 - '0' as u32) as u64;
        proof {
            let fr_old = tok@.take(i as int);
            let fr_new = tok@.take(i + 1);
            assert(fr_new.drop_last() =~= fr_old);
            assert(fr_new.last() == tok@[i as int]);
            if i >= 6 {
                assert(fr_new.take(6) =~= fr_old.take(6));
            } else {
                crate::parser::lemma_digits_value_bound(fr_old);
                crate::parser::lemma_pow10_bound(fr_old.len() as nat);
                if i + 1 >= 6 {
                    assert(fr_new.take(6) =~= fr_new);
                }
            }
        }
        if count < 6 {
            value = value * 10 + d;
            count += 1;
        }
        i += 1;
    }
    proof {
        assert(tok@.take(len as int) =~= tok@);
        crate::parser::lemma_no_dot_in_digits(tok@);
        crate::parser::lemma_frac_micros_bound(tok@);
    }
    let mut pad: usize = if count >= 6 {
        0
    } else {
        6 - count
    };
    proof {
        if len >= 6 {
            assert(tok@.take(len as int).take(6) =~= tok@.take(6));
            assert(frac_micros(tok@) == value as int);
            assert(crate::parser::pow10(0) == 1);
        } else {
            assert(frac_micros(tok@) == digits_value(tok@) * crate::parser::pow10(
                (6 - tok@.len()) as nat,
            ));
            crate::parser::lemma_pow10_pos((6 - tok@.len()) as nat);
            assert((value as int) * 1 <= (value as int) * crate::parser::pow10(
                (6 - tok@.len()) as nat,
            ) && crate::parser::pow10((6 - tok@.len()) as nat) * (value as int) == (value as int)
                * crate::parser::pow10((6 - tok@.len()) as nat)) by (nonlinear_arith)
                requires
                    crate::parser::pow10((6 - tok@.len()) as nat) >= 1,
                    value >= 0,
            ;
        }
    }
    let mut scaled = value;
    while pad > 0
        invariant
            pad <= 6,
            crate::parser::pow10(pad as nat) * (scaled as int) == frac_micros(tok@),
            0 <= frac_micros(tok@) < 1000000,
            scaled as int <= frac_micros(tok@),
        decreases pad,
    {
        proof {
            assert(crate::parser::pow10(pad as nat) == 10 * crate::parser::pow10(
                (pad - 1) as nat,
            ));
            crate::parser::lemma_pow10_pos((pad - 1) as nat);
            assert(crate::parser::pow10((pad - 1) as nat) * ((10 * scaled) as int)
                == crate::parser::pow10(pad as nat) * (scaled as int)) by (nonlinear_arith)
                requires
                    crate::parser::pow10(pad as nat) == 10 * crate::parser::pow10(
                        (pad - 1) as nat,
                    ),
            ;
            assert((10 * scaled) as int <= crate::parser::pow10((pad - 1) as nat) * ((10
                * scaled) as int)) by (nonlinear_arith)
                requires
                    crate::parser::pow10((pad - 1) as nat) >= 1,
                    scaled >= 0,
            ;
        }
        scaled = scaled * 10;
        pad -= 1;
    }
    proof {
        assert(crate::parser::pow10(0) == 1);
    }
    Option::Some(scaled)
}

/// Finds the first occurrence of `c` at or after `from`, as a character
/// position.
pub fn find_char_from(text: &str, c: char, from: usize) -> (r: usize)
    requires
        from <= text@.len(),
    ensures
        r == first_char_from(text@, c, from as int),
        from <= r <= text@.len(),
{
    let len = text.unicode_len();
    let mut i: usize = from;
    while i < len
        invariant
            from <= i <= len,
            len == text@.len(),
            first_char_from(text@, c, from as int) == first_char_from(text@, c, i as int),
        ensures
            from <= i <= len,
            len == text@.len(),
            first_char_from(text@, c, from as int) == i as int || (i == len && first_char_from(
                text@,
                c,
                from as int,
            ) == len),
        decreases len - i,
    {
        if text.get_char(i) == c {
            proof {
                assert(first_char_from(text@, c, i as int) == i);
            }
            break;
        }
        i += 1;
    }
    i
}

/// Parses a grammar in the plant format: `n = ...` and `delta = ...` lines
/// set the iteration count and the turn angle, `initial: ...` names the
/// starting string, `#` starts a comment, and every other nonempty line is
/// a production. Returns the interpretation settings, the system holding
/// the productions, and the initial string.
///
/// Fails when the text is empty, an assignment line is not recognised or
/// its number is malformed, a production line is malformed, no production
/// is given, or no initial string is given.
pub fn parse(table: &mut SymbolTable, string: &str) -> (r: Result<
    (AbopTurtleInterpretation, System, ProductionString),
    Error,
>)
    requires
        old(table).wf(),
    ensures
        final(table).wf(),
        spec_split_ws(string@).len() == 0 ==> (r matches Err(e) && e.spec_kind()
            == ErrorKind::Parse),
        r matches Ok(t) ==> t.1.inv() && t.1.prods().len() >= 1,
        r matches Err(e) ==> e.spec_kind() == ErrorKind::Parse || e.spec_kind()
            == ErrorKind::Execution,
{
    let any_content = split_whitespace(string);
    if any_content.len() == 0 {
        return Err(Error::new(ErrorKind::Parse, "String should not be empty"));
    }

    let mut system = System::new();
    let family = abop_family();
    let symbols = family.symbols();
    let mut i: usize = 0;
    while i < symbols.len()
        invariant
            i <= symbols@.len(),
            system.inv(),
            table.wf(),
            system.prods().len() == 0,
            spec_split_ws(string@).len() > 0,
        decreases symbols@.len() - i,
    {
        match system.add_symbol(table, symbols[i].name.as_str()) {
            Ok(_) => {
            },
            Err(e) => {
                return Err(classify_symbol_error(e));
            },
        }
        i += 1;
    }

    let mut state = PlantState { n: 2, delta: 5 * DEGREE_SCALE, initial: Option::None, prod_count: 0 };
    let len = string.unicode_len();
    let mut pos: usize = 0;
    while pos < len
        invariant
            pos <= len,
            len == string@.len(),
            system.inv(),
            table.wf(),
            spec_split_ws(string@).len() > 0,
            state.prod_count >= 1 ==> system.prods().len() >= 1,
        decreases len - pos,
    {
        let line_end = find_char_from(string, '\n', pos);
        let line = string.substring_char(pos, line_end);
        let next_pos = if line_end < len {
            line_end + 1
        } else {
            len
        };
        match process_plant_line(table, &mut system, &mut state, line) {
            Ok(_) => {
            },
            Err(e) => {
                return Err(e);
            },
        }
        pos = next_pos;
    }
    let prod_count = state.prod_count;
    let initial = state.initial;
    let n = state.n;
    let delta = state.delta;

    if prod_count == 0 {
        return Err(Error::new(ErrorKind::Parse, "No productions have been supplied"));
    }
    let initial_text = match initial {
        Option::Some(text) => text,
        Option::None => {
            return Err(Error::new(ErrorKind::Parse, "No initial string has been supplied"));
        },
    };
    let start_string = match system.parse_prod_string(table, initial_text.as_str()) {
        Ok(parsed) => parsed,
        Err(e) => {
            return Err(e);
        },
    };
    Ok((AbopTurtleInterpretation::new(n, delta), system, start_string))
}


/// The content of a plant line: the text before its `#` comment.
pub open spec fn plant_content(l: Seq<char>) -> Seq<char> {
    l.take(first_char_from(l, '#', 0))
}

/// A line whose content holds no token at all: skipped.
pub open spec fn plant_blank(l: Seq<char>) -> bool {
    spec_split_ws(plant_content(l)).len() == 0
}

/// A nonblank line whose content holds an `=`: an assignment.
pub open spec fn plant_assignment(l: Seq<char>) -> bool {
    &&& !plant_blank(l)
    &&& first_char_from(plant_content(l), '=', 0) < plant_content(l).len()
}

/// The tokens before the `=` of an assignment line: the setting's name.
pub open spec fn assignment_names(l: Seq<char>) -> Seq<Seq<char>> {
    let c = plant_content(l);
    spec_split_ws(c.take(first_char_from(c, '=', 0)))
}

/// The tokens after the `=` of an assignment line: the setting's value.
pub open spec fn assignment_values(l: Seq<char>) -> Seq<Seq<char>> {
    let c = plant_content(l);
    spec_split_ws(c.subrange(first_char_from(c, '=', 0) + 1, c.len() as int))
}

/// A nonblank, non-assignment line whose trimmed content starts with
/// `initial:`: it names the starting string.
pub open spec fn plant_initial(l: Seq<char>) -> bool {
    let c = plant_content(l);
    let st = crate::parser::iterator::skip_pos(c, 0);
    &&& !plant_blank(l)
    &&& !plant_assignment(l)
    &&& c.len() - st >= 8
    &&& c.subrange(st, st + 8) == "initial:"@
}

/// The text after the first `:` of an `initial:` line: the starting string.
pub open spec fn plant_initial_text(l: Seq<char>) -> Seq<char> {
    let c = plant_content(l);
    c.subrange(first_char_from(c, ':', 0) + 1, c.len() as int)
}

/// The settings that the plant format accumulates line by line.
#[derive(Debug)]
pub struct PlantState {
    /// The number of derivation iterations; two unless a line sets it.
    pub n: usize,
    /// The turn angle in millionths of a degree; five degrees unless a line
    /// sets it.
    pub delta: u64,
    /// The text of the `initial:` line, once one has been read.
    pub initial: Option<String>,
    /// How many production lines have been registered.
    pub prod_count: usize,
}

/// Processes one line of a plant-format grammar, exactly as the format
/// prescribes: blank lines are skipped; `n = ...` sets the iteration count
/// and `delta = ...` (also spelt `d`, `D`, or the partial-derivative sign)
/// sets the angle, each from a decimal literal; any other assignment is
/// rejected; `initial: ...` records the starting text; every other line is
/// registered as a production, merging with an existing production of the
/// same head.
pub fn process_plant_line(
    table: &mut SymbolTable,
    system: &mut System,
    state: &mut PlantState,
    line: &str,
) -> (r: Result<(), Error>)
    requires
        old(table).wf(),
        old(system).inv(),
    ensures
        final(table).wf(),
        final(system).inv(),
        plant_blank(line@) ==> r is Ok && *final(state) == *old(state) && final(system).prods()
            == old(system).prods() && final(table)@ == old(table)@,
        plant_assignment(line@) ==> ({
            let names = assignment_names(line@);
            let values = assignment_values(line@);
            &&& final(system).prods() == old(system).prods()
            &&& final(table)@ == old(table)@
            &&& final(state).initial == old(state).initial
            &&& final(state).prod_count == old(state).prod_count
            &&& (names.len() != 1 || values.len() != 1 ==> r is Err)
            &&& (names.len() == 1 && values.len() == 1 ==> {
                if names[0] == "n"@ || names[0] == "N"@ {
                    match spec_usize_token(values[0]) {
                        Option::Some(v) => r is Ok && final(state).n == v && final(state).delta
                            == old(state).delta,
                        Option::None => r is Err,
                    }
                } else if names[0] == "d"@ || names[0] == "D"@ || names[0] == "delta"@
                    || names[0] == "\u{2202}"@ {
                    match spec_angle_token(values[0]) {
                        Option::Some(v) => r is Ok && final(state).delta == v && final(state).n
                            == old(state).n,
                        Option::None => r is Err,
                    }
                } else {
                    r is Err
                }
            })
            &&& (r is Err ==> *final(state) == *old(state))
        }),
        plant_initial(line@) ==> ({
            &&& r is Ok
            &&& final(system).prods() == old(system).prods()
            &&& final(table)@ == old(table)@
            &&& final(state).n == old(state).n && final(state).delta == old(state).delta
            &&& final(state).prod_count == old(state).prod_count
            &&& (final(state).initial matches Some(text) && text@ == plant_initial_text(line@))
        }),
        !plant_blank(line@) && !plant_assignment(line@) && !plant_initial(line@) ==> ({
            &&& final(state).n == old(state).n && final(state).delta == old(state).delta
            &&& final(state).initial == old(state).initial
            &&& (r is Ok ==> (exists|parsed: crate::productions::ProductionModel|
                final(system).prods() == crate::system::spec_add_production(
                    old(system).prods(),
                    parsed,
                ).0 && parsed.bodies.len() == 1) && final(state).prod_count >= 1
                && final(system).prods().len() >= 1)
            &&& (r is Err ==> final(system).prods() == old(system).prods() && *final(state)
                == *old(state))
        }),
        r matches Err(e) ==> e.spec_kind() == ErrorKind::Parse || e.spec_kind()
            == ErrorKind::Execution,
{
    // Strip the comment; skip the line when nothing is left.
    let hash = find_char(line, '#');
    let content = line.substring_char(0, hash);
    let content_len = content.unicode_len();
    proof {
        assert(content@ =~= plant_content(line@));
    }
    let tokens = split_whitespace(content);
    if tokens.len() == 0 {
        return Ok(());
    }

    let eq = find_char(content, '=');
    if eq < content_len {
        // An assignment line: `n = 6` or `delta = 22.5`.
        let name_text = content.substring_char(0, eq);
        let value_text = content.substring_char(eq + 1, content_len);
        proof {
            assert(name_text@ =~= plant_content(line@).take(
                first_char_from(plant_content(line@), '=', 0),
            ));
            assert(value_text@ =~= plant_content(line@).subrange(
                first_char_from(plant_content(line@), '=', 0) + 1,
                plant_content(line@).len() as int,
            ));
            reveal_strlit("n");
            reveal_strlit("N");
            reveal_strlit("d");
            reveal_strlit("D");
            reveal_strlit("delta");
            reveal_strlit("\u{2202}");
        }
        let name_tokens = split_whitespace(name_text);
        let value_tokens = split_whitespace(value_text);
        if name_tokens.len() != 1 || value_tokens.len() != 1 {
            return Err(Error::new(ErrorKind::Parse, "Unrecognised line"));
        }
        let name = name_tokens[0].as_str();
        let value = value_tokens[0].as_str();
        proof {
            assert(name@ == assignment_names(line@)[0]);
            assert(value@ == assignment_values(line@)[0]);
        }
        if crate::symbols::str_eq(name, "n") || crate::symbols::str_eq(name, "N") {
            state.n = match parse_usize_token(value) {
                Option::Some(v) => v,
                Option::None => {
                    return Err(
                        Error::new(ErrorKind::Parse, "the iteration count is not a number"),
                    );
                },
            };
        } else if crate::symbols::str_eq(name, "d") || crate::symbols::str_eq(name, "D")
            || crate::symbols::str_eq(name, "delta") || crate::symbols::str_eq(
            name,
            "\u{2202}",
        ) {
            state.delta = match parse_angle_token(value) {
                Option::Some(v) => v,
                Option::None => {
                    return Err(Error::new(ErrorKind::Parse, "the angle is not a number"));
                },
            };
        } else {
            return Err(Error::new(ErrorKind::Parse, "Unrecognised line"));
        }
        return Ok(());
    }

    // An `initial:` line names the starting string.
    let mut start: usize = 0;
    while start < content_len
        invariant
            start <= content_len,
            content_len == content@.len(),
            crate::parser::iterator::skip_pos(content@, 0) == crate::parser::iterator::skip_pos(
                content@,
                start as int,
            ),
        ensures
            start <= content_len,
            content_len == content@.len(),
            crate::parser::iterator::skip_pos(content@, 0) == start as int || (start == content_len
                && crate::parser::iterator::skip_pos(content@, 0) == content_len),
        decreases content_len - start,
    {
        if !is_space(content.get_char(start)) {
            proof {
                assert(crate::parser::iterator::skip_pos(content@, start as int) == start);
            }
            break;
        }
        start += 1;
    }
    let mut is_initial = false;
    if content_len - start >= 8 {
        let prefix = content.substring_char(start, start + 8);
        proof {
            assert(prefix@ =~= content@.subrange(start as int, start + 8));
        }
        if crate::symbols::str_eq(prefix, "initial:") {
            is_initial = true;
        }
    }
    if is_initial {
        proof {
            reveal_strlit("initial:");
            lemma_first_char_from(content@, ':', 0);
            assert(content@[start + 7] == ':') by {
                assert(content@.subrange(start as int, start + 8)[7] == ':');
            }
            assert(first_char_from(content@, ':', 0) <= start + 7);
        }
        let colon = find_char(content, ':');
        let rest = content.substring_char(colon + 1, content_len);
        state.initial = Option::Some(rest.to_owned());
        proof {
            assert(rest@ =~= plant_initial_text(line@));
        }
        return Ok(());
    }
    proof {
        assert(!plant_initial(line@));
    }

    // Every other nonempty line is a production.
    let ghost prods_before = system.prods();
    match system.parse_production(table, content) {
        Ok(_) => {
            proof {
                let parsed = choose|parsed: crate::productions::ProductionModel|
                    {
                        &&& system.prods() == crate::system::spec_add_production(
                            prods_before,
                            parsed,
                        ).0
                        &&& parsed.bodies.len() == 1
                    };
                crate::system::lemma_head_index_spec(prods_before, parsed.head);
                assert(system.prods().len() >= 1);
            }
        },
        Err(e) => {
            return Err(classify_production_error(e));
        },
    }
    if state.prod_count < usize::MAX {
        state.prod_count += 1;
    }
    Ok(())
}

/// Narrows an interner error to the kinds the plant parser reports.
fn classify_symbol_error(e: Error) -> (r: Error)
    ensures
        r.spec_kind() == ErrorKind::Parse || r.spec_kind() == ErrorKind::Execution,
{
    match e.kind() {
        ErrorKind::Parse => e,
        ErrorKind::Execution => e,
        _ => Error::new(ErrorKind::Execution, "could not register a family symbol"),
    }
}

/// Narrows a production-parsing error to the kinds the plant parser
/// reports.
fn classify_production_error(e: Error) -> (r: Error)
    ensures
        r.spec_kind() == ErrorKind::Parse || r.spec_kind() == ErrorKind::Execution,
{
    match e.kind() {
        ErrorKind::Parse => e,
        ErrorKind::Execution => e,
        _ => Error::new(ErrorKind::Parse, "a production line could not be parsed"),
    }
}

} // verus!
