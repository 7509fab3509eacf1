//! Tools for parsing L-system rule and axiom text.
//!
//! Important functions:
//! * [`parse_prod_string`] turns whitespace-separated symbol text into a
//!   [`ProductionString`], interning each name.
//! * [`parse_production`] turns rule text such as `"G < S -> S G"` into a
//!   [`Production`].

use vstd::prelude::*;

pub mod iterator;
pub mod parsestack;
pub mod statement;
pub mod token;

use crate::CHANCE_SCALE;
use crate::error::{Error, ErrorKind};
use crate::productions::{
    HeadModel,
    Production,
    ProductionBody,
    ProductionHead,
    ProductionModel,
    ProductionStore,
};
use crate::strings::ProductionString;
use crate::symbols::{
    Symbol,
    SymbolTable,
    FIRST_CODE,
    all_known,
    first_index,
    lemma_first_index_push_preserves_wf,
    lemma_first_index_spec,
    lemma_intern_resolves,
    names_wf,
    spec_format,
    spec_intern,
    spec_name_of,
};

verus! {

/// The characters that separate symbol names in rule and axiom text.
pub open spec fn is_space_char(c: char) -> bool {
    c == ' ' || c == '\t' || c == '\n' || c == '\r' || c == '\x0c'
}

/// Whether `c` separates symbol names in rule and axiom text.
pub fn is_space(c: char) -> (r: bool)
    ensures
        r == is_space_char(c),
{
    c == ' ' || c == '\t' || c == '\n' || c == '\r' || c == '\x0c'
}

/// The position of the first whitespace character at or after `i`, or the
/// length of `s` if there is none: the end of the token starting at `i`.
pub open spec fn token_end(s: Seq<char>, i: int) -> int
    decreases s.len() - i,
{
    if i < 0 || i >= s.len() {
        s.len() as int
    } else if is_space_char(s[i]) {
        i
    } else {
        token_end(s, i + 1)
    }
}

pub proof fn lemma_token_end_bounds(s: Seq<char>, i: int)
    requires
        0 <= i <= s.len(),
    ensures
        i <= token_end(s, i) <= s.len(),
        forall|j: int| i <= j < token_end(s, i) ==> !is_space_char(s[j]),
        token_end(s, i) < s.len() ==> is_space_char(s[token_end(s, i)]),
    decreases s.len() - i,
{
    if i < s.len() && !is_space_char(s[i]) {
        lemma_token_end_bounds(s, i + 1);
    }
}

/// The whitespace-separated tokens of `s`, from position `i` on.
pub open spec fn split_ws_from(s: Seq<char>, i: int) -> Seq<Seq<char>>
    decreases s.len() - i, s.len() - i + 1,
        when 0 <= i
    via split_ws_from_decreases
{
    if i >= s.len() {
        Seq::empty()
    } else if is_space_char(s[i]) {
        split_ws_from(s, i + 1)
    } else {
        seq![s.subrange(i, token_end(s, i))] + split_ws_from(s, token_end(s, i))
    }
}

#[via_fn]
proof fn split_ws_from_decreases(s: Seq<char>, i: int) {
    if 0 <= i < s.len() && !is_space_char(s[i]) {
        lemma_token_end_bounds(s, i);
        assert(token_end(s, i) > i);
    }
}

/// The whitespace-separated tokens of `s`: what splitting on runs of
/// whitespace yields, in order, with no empty tokens.
pub open spec fn spec_split_ws(s: Seq<char>) -> Seq<Seq<char>> {
    split_ws_from(s, 0)
}

/// What holds of every token that whitespace splitting produces: it is
/// nonempty and holds no whitespace.
pub open spec fn ws_token_ok(t: Seq<char>) -> bool {
    &&& t.len() > 0
    &&& forall|j: int| 0 <= j < t.len() ==> !is_space_char(#[trigger] t[j])
}

/// Tokens produced by whitespace splitting are never empty and contain no
/// whitespace.
pub proof fn lemma_split_ws_tokens(s: Seq<char>, i: int)
    requires
        0 <= i,
    ensures
        forall|k: int|
            0 <= k < split_ws_from(s, i).len() ==> ws_token_ok(#[trigger] split_ws_from(s, i)[k]),
    decreases s.len() - i,
{
    if i >= s.len() {
    } else if is_space_char(s[i]) {
        lemma_split_ws_tokens(s, i + 1);
        assert forall|k: int| 0 <= k < split_ws_from(s, i).len() implies ws_token_ok(
            #[trigger] split_ws_from(s, i)[k],
        ) by {
            assert(split_ws_from(s, i)[k] == split_ws_from(s, i + 1)[k]);
        }
    } else {
        lemma_token_end_bounds(s, i);
        lemma_split_ws_tokens(s, token_end(s, i));
        let t0 = s.subrange(i, token_end(s, i));
        let rest = split_ws_from(s, token_end(s, i));
        assert(split_ws_from(s, i) == seq![t0] + rest);
        assert(ws_token_ok(t0));
        assert forall|k: int| 0 <= k < split_ws_from(s, i).len() implies ws_token_ok(
            #[trigger] split_ws_from(s, i)[k],
        ) by {
            if k == 0 {
                assert(split_ws_from(s, i)[0] == t0);
            } else {
                assert(split_ws_from(s, i)[k] == rest[k - 1]);
            }
        }
    }
}

/// Joining tokens with single spaces: the normal form that formatting
/// produces.
pub open spec fn spec_join(toks: Seq<Seq<char>>) -> Seq<char>
    decreases toks.len(),
{
    if toks.len() == 0 {
        Seq::empty()
    } else if toks.len() == 1 {
        toks[0]
    } else {
        spec_join(toks.drop_last()) + seq![' '] + toks.last()
    }
}

/// The whitespace-normal form of symbol text: its tokens joined by single
/// spaces.
pub open spec fn normalize_whitespace(s: Seq<char>) -> Seq<char> {
    spec_join(spec_split_ws(s))
}

/// The spec-level text of a list of owned strings.
pub open spec fn texts_view(v: Seq<String>) -> Seq<Seq<char>> {
    v.map(|i: int, s: String| s@)
}

/// Splits text into its whitespace-separated tokens.
pub fn split_whitespace(text: &str) -> (r: Vec<String>)
    ensures
        texts_view(r@) == spec_split_ws(text@),
{
    let len = text.unicode_len();
    let mut out: Vec<String> = Vec::new();
    let mut i: usize = 0;
    while i < len
        invariant
            0 <= i <= len,
            len == text@.len(),
            texts_view(out@) + split_ws_from(text@, i as int) =~= spec_split_ws(text@),
        decreases len - i,
    {
        let c = text.get_char(i);
        if is_space(c) {
            i += 1;
        } else {
            let mut j: usize = i + 1;
            while j < len
                invariant
                    i < j <= len,
                    len == text@.len(),
                    token_end(text@, i as int) == token_end(text@, j as int),
                ensures
                    i < j <= len,
                    len == text@.len(),
                    token_end(text@, i as int) == j,
                decreases len - j,
            {
                if is_space(text.get_char(j)) {
                    proof {
                        assert(token_end(text@, j as int) == j);
                    }
                    break;
                }
                j += 1;
            }
            let token = text.substring_char(i, j);
            let ghost before = texts_view(out@);
            out.push(token.to_owned());
            proof {
                assert(texts_view(out@) =~= before.push(text@.subrange(i as int, j as int)));
                assert(texts_view(out@) + split_ws_from(text@, j as int) =~= spec_split_ws(
                    text@,
                ));
            }
            i = j;
        }
    }
    proof {
        assert(texts_view(out@) + split_ws_from(text@, len as int) =~= texts_view(out@));
    }
    out
}

/// What interning a list of names, left to right, does to a table: the
/// resulting table and the symbol each name resolved to.
pub open spec fn spec_parse_tokens(names: Seq<Seq<char>>, toks: Seq<Seq<char>>) -> (
    Seq<Seq<char>>,
    Seq<Symbol>,
)
    decreases toks.len(),
{
    if toks.len() == 0 {
        (names, Seq::empty())
    } else {
        let (mid, syms) = spec_parse_tokens(names, toks.drop_last());
        let (fin, code) = spec_intern(mid, toks.last());
        (fin, syms.push(Symbol { code }))
    }
}

/// Interning a list of names keeps the table well-formed, grows it by at
/// most one entry per name, resolves every produced symbol to its name, and
/// leaves the names that codes already resolved to untouched.
pub proof fn lemma_parse_tokens(names: Seq<Seq<char>>, toks: Seq<Seq<char>>)
    requires
        names_wf(names),
        names.len() + toks.len() + FIRST_CODE <= u32::MAX,
    ensures
        ({
            let (fin, syms) = spec_parse_tokens(names, toks);
            &&& names_wf(fin)
            &&& names.len() <= fin.len() <= names.len() + toks.len()
            &&& forall|c: u32|
                spec_name_of(names, c) is Some ==> #[trigger] spec_name_of(fin, c)
                    == spec_name_of(names, c)
            &&& syms.len() == toks.len()
            &&& forall|k: int|
                0 <= k < toks.len() ==> spec_name_of(fin, (#[trigger] syms[k]).code) == Some(
                    toks[k],
                )
            &&& all_known(fin, syms)
        }),
    decreases toks.len(),
{
    if toks.len() > 0 {
        lemma_parse_tokens(names, toks.drop_last());
        let (mid, syms1) = spec_parse_tokens(names, toks.drop_last());
        let last = toks.last();
        let (fin, code) = spec_intern(mid, last);
        lemma_first_index_spec(mid, last);
        lemma_intern_resolves(mid, last);
        if first_index(mid, last) < 0 {
            lemma_first_index_push_preserves_wf(mid, last);
            assert(forall|c: u32|
                spec_name_of(mid, c) is Some ==> #[trigger] spec_name_of(fin, c) == spec_name_of(
                    mid,
                    c,
                ));
        }
        let (fin2, syms) = spec_parse_tokens(names, toks);
        assert(fin2 == fin && syms == syms1.push(Symbol { code }));
        assert(forall|k: int|
            0 <= k < toks.len() - 1 ==> syms[k] == syms1[k] && toks[k] == toks.drop_last()[k]);
    }
}

/// Interning a list of names grows the table by at most one entry per name.
pub proof fn lemma_parse_tokens_growth(names: Seq<Seq<char>>, toks: Seq<Seq<char>>)
    ensures
        names.len() <= spec_parse_tokens(names, toks).0.len() <= names.len() + toks.len(),
    decreases toks.len(),
{
    if toks.len() > 0 {
        lemma_parse_tokens_growth(names, toks.drop_last());
    }
}

/// Parsing a head grows the table by at most one entry per head token.
pub proof fn lemma_parse_head_growth(names: Seq<Seq<char>>, toks: Seq<Seq<char>>)
    ensures
        spec_parse_head(names, toks) matches Some(p) ==> p.0.len() <= names.len() + toks.len(),
{
    if spec_parse_head(names, toks) is Some {
        lemma_first_index_spec(toks, seq!['<']);
        let li = first_index(toks, seq!['<']);
        let rest = if li >= 0 {
            toks.skip(li + 1)
        } else {
            toks
        };
        lemma_first_index_spec(rest, seq!['>']);
        let ri = first_index(rest, seq!['>']);
        let (left, center, right) = head_split(toks);
        let (t1, target_code) = spec_intern(names, center[0]);
        assert(t1.len() <= names.len() + 1);
        match left {
            Option::Some(l) => {
                lemma_parse_tokens_growth(t1, l);
            },
            Option::None => {},
        }
        let t2 = match left {
            Option::Some(l) => spec_parse_tokens(t1, l).0,
            Option::None => t1,
        };
        match right {
            Option::Some(rt) => {
                lemma_parse_tokens_growth(t2, rt);
            },
            Option::None => {},
        }
    }
}

/// Formatting depends only on the names that the symbols resolve to: a table
/// extended with further names formats a known sequence the same way.
proof fn lemma_format_stable(mid: Seq<Seq<char>>, fin: Seq<Seq<char>>, syms: Seq<Symbol>)
    requires
        forall|c: u32|
            spec_name_of(mid, c) is Some ==> #[trigger] spec_name_of(fin, c) == spec_name_of(
                mid,
                c,
            ),
        all_known(mid, syms),
    ensures
        all_known(fin, syms),
        spec_format(fin, syms) == spec_format(mid, syms),
    decreases syms.len(),
{
    if syms.len() > 0 {
        assert(all_known(mid, syms.drop_last()));
        lemma_format_stable(mid, fin, syms.drop_last());
    }
}

/// Round trip: formatting the symbols that parsing whitespace-separated
/// symbol text produced yields the text back in whitespace-normal form. This
/// holds for any starting table that is well-formed and has room for the
/// text's tokens.
pub proof fn lemma_parse_format_round_trip(names: Seq<Seq<char>>, s: Seq<char>)
    requires
        names_wf(names),
        names.len() + spec_split_ws(s).len() + FIRST_CODE <= u32::MAX,
    ensures
        ({
            let (fin, syms) = spec_parse_tokens(names, spec_split_ws(s));
            &&& all_known(fin, syms)
            &&& spec_format(fin, syms) == normalize_whitespace(s)
        }),
{
    lemma_format_after_parse(names, spec_split_ws(s));
}

/// Formatting the symbols that interning a token list produced joins the
/// tokens back with single spaces.
proof fn lemma_format_after_parse(names: Seq<Seq<char>>, toks: Seq<Seq<char>>)
    requires
        names_wf(names),
        names.len() + toks.len() + FIRST_CODE <= u32::MAX,
    ensures
        ({
            let (fin, syms) = spec_parse_tokens(names, toks);
            &&& all_known(fin, syms)
            &&& spec_format(fin, syms) == spec_join(toks)
        }),
    decreases toks.len(),
{
    lemma_parse_tokens(names, toks);
    if toks.len() == 0 {
    } else if toks.len() == 1 {
        let (fin, syms) = spec_parse_tokens(names, toks);
        assert(spec_name_of(fin, syms[0].code) == Some(toks[0]));
    } else {
        lemma_format_after_parse(names, toks.drop_last());
        lemma_parse_tokens(names, toks.drop_last());
        let (mid, syms1) = spec_parse_tokens(names, toks.drop_last());
        let (fin, code) = spec_intern(mid, toks.last());
        let (fin2, syms) = spec_parse_tokens(names, toks);
        assert(fin2 == fin);
        assert(syms.drop_last() =~= syms1);
        if first_index(mid, toks.last()) < 0 {
            assert(forall|c: u32|
                spec_name_of(mid, c) is Some ==> #[trigger] spec_name_of(fin, c) == spec_name_of(
                    mid,
                    c,
                ));
        }
        lemma_format_stable(mid, fin, syms1);
        lemma_intern_resolves(mid, toks.last());
        assert(spec_format(fin, syms) == spec_format(fin, syms1) + seq![' '] + toks.last());
    }
}

/// Allows you to parse a text string of whitespace-separated symbol names
/// into a string of [`Symbol`] values, interning each name into the table,
/// to then rewrite using a grammar.
pub fn parse_prod_string(table: &mut SymbolTable, string: &str) -> (r: Result<
    ProductionString,
    Error,
>)
    requires
        old(table).wf(),
    ensures
        final(table).wf(),
        r matches Ok(ps) ==> {
            &&& final(table)@ == spec_parse_tokens(old(table)@, spec_split_ws(string@)).0
            &&& ps@ == spec_parse_tokens(old(table)@, spec_split_ws(string@)).1
        },
        old(table)@.len() + spec_split_ws(string@).len() + FIRST_CODE <= u32::MAX ==> r is Ok,
        r matches Err(e) ==> e.spec_kind() == ErrorKind::Execution,
{
    let tokens = split_whitespace(string);
    let ghost toks = spec_split_ws(string@);
    proof {
        lemma_split_ws_tokens(string@, 0);
    }
    let mut result = ProductionString::new();
    let mut i: usize = 0;
    while i < tokens.len()
        invariant
            old(table).wf(),
            table.wf(),
            i <= tokens@.len(),
            texts_view(tokens@) == toks,
            toks == spec_split_ws(string@),
            forall|k: int| 0 <= k < toks.len() ==> ws_token_ok(#[trigger] toks[k]),
            table@ == spec_parse_tokens(old(table)@, toks.take(i as int)).0,
            result@ == spec_parse_tokens(old(table)@, toks.take(i as int)).1,
            table@.len() <= old(table)@.len() + i,
        decreases tokens@.len() - i,
    {
        proof {
            assert(toks.take(i + 1).drop_last() =~= toks.take(i as int));
            assert(tokens@[i as int]@ == toks[i as int]);
        }
        let symbol = match table.intern(tokens[i].as_str()) {
            Ok(symbol) => symbol,
            Err(_) => {
                return Err(
                    Error::new(ErrorKind::Execution, "the symbol code space is exhausted"),
                );
            },
        };
        result.push_symbol(symbol);
        i += 1;
    }
    proof {
        assert(toks.take(toks.len() as int) =~= toks);
    }
    Ok(result)
}

/// Whether `c` is a decimal digit.
pub open spec fn is_digit_char(c: char) -> bool {
    '0' <= c && c <= '9'
}

/// The numeric value of a decimal digit.
pub open spec fn digit_val(c: char) -> int {
    c as int - '0' as int
}

/// Every character of `t` is a decimal digit.
pub open spec fn digits_only(t: Seq<char>) -> bool {
    forall|j: int| 0 <= j < t.len() ==> is_digit_char(#[trigger] t[j])
}

/// The number that a digit string denotes, most significant digit first.
pub open spec fn digits_value(t: Seq<char>) -> int
    decreases t.len(),
{
    if t.len() == 0 {
        0
    } else {
        digits_value(t.drop_last()) * 10 + digit_val(t.last())
    }
}

/// Ten to the power `n`.
pub open spec fn pow10(n: nat) -> int
    decreases n,
{
    if n == 0 {
        1
    } else {
        10 * pow10((n - 1) as nat)
    }
}

/// The position of the first `.` in `t`, or the length of `t` if none.
pub open spec fn first_dot_index(t: Seq<char>) -> int
    decreases t.len(),
{
    if t.len() == 0 {
        0
    } else if t[0] == '.' {
        0
    } else {
        1 + first_dot_index(t.drop_first())
    }
}

pub proof fn lemma_first_dot_index(t: Seq<char>)
    ensures
        0 <= first_dot_index(t) <= t.len(),
        forall|j: int| 0 <= j < first_dot_index(t) ==> t[j] != '.',
        first_dot_index(t) < t.len() ==> t[first_dot_index(t)] == '.',
    decreases t.len(),
{
    if t.len() > 0 && t[0] != '.' {
        lemma_first_dot_index(t.drop_first());
        assert(forall|j: int| 1 <= j < t.len() ==> t[j] == t.drop_first()[j - 1]);
    }
}

/// The number of millionths that a fraction digit string denotes: its first
/// six digits, padded with zeroes to six places. Digits beyond the sixth are
/// below the precision that chances are held in, and are ignored.
pub open spec fn frac_micros(fr: Seq<char>) -> int {
    if fr.len() >= 6 {
        digits_value(fr.take(6))
    } else {
        digits_value(fr) * pow10((6 - fr.len()) as nat)
    }
}

/// The number of millionths that a chance token denotes, if the token is a
/// decimal number: an optional sign, then digits with at most one decimal
/// point and at least one digit. This plain decimal notation is the whole
/// grammar of chance literals: exponent forms such as `1e-3` are not
/// numbers here and are read as symbol names instead.
pub open spec fn spec_chance_token(t: Seq<char>) -> Option<int> {
    let neg = t.len() > 0 && t[0] == '-';
    let body = if t.len() > 0 && (t[0] == '-' || t[0] == '+') {
        t.drop_first()
    } else {
        t
    };
    let d = first_dot_index(body);
    let int_part = body.take(d);
    let frac_part = if d < body.len() {
        body.subrange(d + 1, body.len() as int)
    } else {
        Seq::empty()
    };
    if int_part.len() + frac_part.len() > 0 && digits_only(int_part) && digits_only(frac_part)
        && first_dot_index(frac_part) == frac_part.len() {
        let magnitude = digits_value(int_part) * (CHANCE_SCALE as int) + frac_micros(frac_part);
        if neg {
            Option::Some(-magnitude)
        } else {
            Option::Some(magnitude)
        }
    } else {
        Option::None
    }
}

/// A chance value brought into the representable range: values at or below
/// zero become zero, values above one become one millionth more than one.
/// Both ends lie outside `(0, CHANCE_SCALE]` and are rejected downstream.
pub open spec fn clamp_micros(x: int) -> int {
    if x <= 0 {
        0
    } else if x > CHANCE_SCALE {
        CHANCE_SCALE + 1
    } else {
        x
    }
}

/// Reads a chance token as a decimal number of millionths, if the token is
/// one. The value is clamped into `[0, CHANCE_SCALE + 1]`; both ends stand
/// for an out-of-range chance.
#[verifier::rlimit(30)]
pub fn parse_chance_token(tok: &str) -> (r: Option<u32>)
    ensures
        r is Some <==> spec_chance_token(tok@) is Some,
        r matches Some(v) ==> spec_chance_token(tok@) matches Some(x) && v as int == clamp_micros(
            x,
        ),
{
    let clamp: u64 = (CHANCE_SCALE + 1) as u64;
    let len = tok.unicode_len();
    let mut pos: usize = 0;
    let mut neg = false;
    if len > 0 {
        let c0 = tok.get_char(0);
        if c0 == '-' {
            neg = true;
            pos = 1;
        } else if c0 == '+' {
            pos = 1;
        }
    }
    let ghost body = if pos == 1 {
        tok@.drop_first()
    } else {
        tok@
    };
    let ghost signed = tok@.len() > 0 && (tok@[0] == '-' || tok@[0] == '+');

    proof {
        lemma_first_dot_index(body);
    }
    let mut dot: Option<usize> = Option::None;
    let mut digit_count: usize = 0;
    let mut int_val: u64 = 0;
    let mut frac_val: u64 = 0;
    let mut frac_len: usize = 0;
    let mut i: usize = pos;
    while i < len
        invariant
            pos <= i <= len,
            pos <= 1,
            len == tok@.len(),
            signed == (tok@.len() > 0 && (tok@[0] == '-' || tok@[0] == '+')),
            (pos == 1) == signed,
            neg == (tok@.len() > 0 && tok@[0] == '-'),
            body == if signed {
                tok@.drop_first()
            } else {
                tok@
            },
            body.len() == len - pos,
            forall|j: int| 0 <= j < body.len() ==> body[j] == tok@[j + pos],
            clamp == CHANCE_SCALE + 1,
            match dot {
                Option::None => {
                    &&& first_dot_index(body) >= i - pos
                    &&& digits_only(body.take(i - pos))
                    &&& digit_count == i - pos
                    &&& int_val as int == clamp_value(digits_value(body.take(i - pos)), clamp as int)
                    &&& frac_val == 0 && frac_len == 0
                },
                Option::Some(dp) => {
                    &&& pos <= dp < i
                    &&& first_dot_index(body) == dp - pos
                    &&& digits_only(body.take(dp - pos))
                    &&& digits_only(body.subrange(dp + 1 - pos, i - pos))
                    &&& digit_count == i - pos - 1
                    &&& int_val as int == clamp_value(
                        digits_value(body.take(dp - pos)),
                        clamp as int,
                    )
                    &&& frac_len == i - dp - 1
                    &&& frac_val as int == if frac_len >= 6 {
                        digits_value(body.subrange(dp + 1 - pos, i - pos).take(6))
                    } else {
                        digits_value(body.subrange(dp + 1 - pos, i - pos))
                    }
                    &&& frac_val < 1000000
                },
            },
            int_val <= clamp,
        decreases len - i,
    {
        let c = tok.get_char(i);
        proof {
            assert(body[i - pos] == tok@[i as int]);
        }
        if c == '.' {
            match dot {
                Option::Some(dp) => {
                    // A second decimal point: the fraction part holds a dot,
                    // so the token is not a number.
                    proof {
                        let fr = body.subrange(dp + 1 - pos, body.len() as int);
                        assert forall|j: int| 0 <= j < i - dp - 1 implies fr[j] != '.' by {
                            assert(fr[j] == body.subrange(dp + 1 - pos, i - pos)[j]);
                            assert(is_digit_char(fr[j]));
                        }
                        assert(fr[i - dp - 1] == body[i - pos]);
                        lemma_first_dot_index_found(fr, i - dp - 1);
                        assert(spec_chance_token(tok@) is None);
                    }
                    return Option::None;
                },
                Option::None => {
                    proof {
                        assert forall|j: int| 0 <= j < i - pos implies body[j] != '.' by {
                            assert(body.take(i - pos)[j] == body[j]);
                            assert(is_digit_char(body[j]));
                        }
                        lemma_first_dot_index_found(body, i - pos);
                    }
                    dot = Option::Some(i);
                },
            }
        } else if c < '0' || c > '9' {
            // A character that is neither digit nor dot: not a number.
            proof {
                lemma_first_dot_index(body);
                match dot {
                    Option::None => {
                        let d = first_dot_index(body);
                        assert(i - pos < d);
                        assert(body.take(d)[i - pos] == body[i - pos]);
                        assert(!digits_only(body.take(d)));
                    },
                    Option::Some(dp) => {
                        let fr = body.subrange(dp + 1 - pos, body.len() as int);
                        assert(fr[i - dp - 1] == body[i - pos]);
                        assert(!digits_only(fr));
                    },
                }
                assert(spec_chance_token(tok@) is None);
            }
            return Option::None;
        } else {
            let d = (c as u32 - '0' as u32) as u64;
            match dot {
                Option::None => {
                    proof {
                        assert(body.take(i + 1 - pos).drop_last() =~= body.take(i - pos));
                        assert(body.take(i + 1 - pos).last() == body[i - pos]);
                        lemma_first_dot_index(body);
                        assert(first_dot_index(body) != i - pos);
                    }
                    let next = int_val * 10 + d;
                    int_val = if next > clamp {
                        clamp
                    } else {
                        next
                    };
                    proof {
                        let prev = digits_value(body.take(i - pos));
                        let cur = digits_value(body.take(i + 1 - pos));
                        assert(cur == prev * 10 + d);
                        if prev > clamp {
                            assert(cur > clamp) by (nonlinear_arith)
                                requires
                                    cur == prev * 10 + d,
                                    prev > clamp,
                                    d >= 0,
                                    clamp >= 0,
                            ;
                        }
                    }
                },
                Option::Some(dp) => {
                    proof {
                        let fr_old = body.subrange(dp + 1 - pos, i - pos);
                        let fr_new = body.subrange(dp + 1 - pos, i + 1 - pos);
                        assert(fr_new.drop_last() =~= fr_old);
                        assert(fr_new.last() == body[i - pos]);
                        if frac_len >= 6 {
                            assert(fr_new.take(6) =~= fr_old.take(6));
                        } else {
                            lemma_digits_value_bound(fr_old);
                            lemma_pow10_bound(fr_old.len() as nat);
                            if frac_len + 1 >= 6 {
                                assert(fr_new.take(6) =~= fr_new);
                            }
                        }
                    }
                    if frac_len < 6 {
                        frac_val = frac_val * 10 + d;
                        frac_len = frac_len + 1;
                    } else {
                        frac_len = frac_len + 1;
                    }
                },
            }
            digit_count += 1;
        }
        i += 1;
    }
    // The scan is done; decide validity and assemble the value.
    let ghost int_part = match dot {
        Option::Some(dp) => body.take(dp - pos),
        Option::None => body,
    };
    let ghost frac_part = match dot {
        Option::Some(dp) => body.subrange(dp + 1 - pos, body.len() as int),
        Option::None => Seq::<char>::empty(),
    };
    proof {
        lemma_first_dot_index(body);
        match dot {
            Option::None => {
                assert(body.take(body.len() as int) =~= body);
                assert(first_dot_index(body) == body.len());
                assert(body.take(first_dot_index(body)) =~= int_part);
            },
            Option::Some(dp) => {
                assert(body.subrange(dp + 1 - pos, len - pos) =~= frac_part);
                lemma_no_dot_in_digits(frac_part);
            },
        }
    }
    if digit_count == 0 {
        proof {
            assert(int_part.len() + frac_part.len() == 0);
            assert(spec_chance_token(tok@) is None);
        }
        return Option::None;
    }
    let mut pad: usize = match dot {
        Option::None => 6,
        Option::Some(_) => {
            if frac_len >= 6 {
                0
            } else {
                6 - frac_len
            }
        },
    };
    proof {
        match dot {
            Option::None => {
                assert(frac_micros(frac_part) == 0);
            },
            Option::Some(dp) => {
                if frac_len >= 6 {
                    assert(frac_micros(frac_part) == frac_val as int);
                } else {
                    assert(frac_micros(frac_part) == digits_value(frac_part) * pow10(
                        (6 - frac_part.len()) as nat,
                    ));
                }
            },
        }
        lemma_frac_micros_bound(frac_part);
        lemma_pow10_pos(pad as nat);
        assert((frac_val as int) * 1 <= (frac_val as int) * pow10(pad as nat) && pow10(
            pad as nat,
        ) * (frac_val as int) == (frac_val as int) * pow10(pad as nat)) by (nonlinear_arith)
            requires
                pow10(pad as nat) >= 1,
                frac_val >= 0,
        ;
    }
    let mut scaled: u64 = frac_val;
    while pad > 0
        invariant
            pad <= 6,
            pow10(pad as nat) * (scaled as int) == frac_micros(frac_part),
            0 <= frac_micros(frac_part) < 1000000,
            scaled as int <= frac_micros(frac_part),
        decreases pad,
    {
        proof {
            assert(pow10(pad as nat) == 10 * pow10((pad - 1) as nat));
            lemma_pow10_pos((pad - 1) as nat);
            assert(pow10((pad - 1) as nat) * ((10 * scaled) as int) == pow10(pad as nat) * (
            scaled as int)) by (nonlinear_arith)
                requires
                    pow10(pad as nat) == 10 * pow10((pad - 1) as nat),
            ;
            assert((10 * scaled) as int <= pow10((pad - 1) as nat) * ((10 * scaled) as int))
                by (nonlinear_arith)
                requires
                    pow10((pad - 1) as nat) >= 1,
                    scaled >= 0,
            ;
        }
        scaled = scaled * 10;
        pad -= 1;
    }
    proof {
        assert(pow10(0) == 1);
        assert(scaled as int == frac_micros(frac_part));
    }
    let magnitude = int_val * (CHANCE_SCALE as u64) + scaled;
    let ghost spec_mag = digits_value(int_part) * (CHANCE_SCALE as int) + frac_micros(frac_part);
    proof {
        lemma_digits_value_bound(int_part);
        assert(digits_only(int_part));
        if digits_value(int_part) > clamp {
            assert(int_val == clamp);
            assert(magnitude > CHANCE_SCALE as u64);
            assert(spec_mag > CHANCE_SCALE as int) by (nonlinear_arith)
                requires
                    spec_mag == digits_value(int_part) * (CHANCE_SCALE as int) + frac_micros(
                        frac_part,
                    ),
                    digits_value(int_part) > CHANCE_SCALE + 1,
                    frac_micros(frac_part) >= 0,
            ;
        } else {
            assert(int_val as int == digits_value(int_part));
            assert(magnitude as int == spec_mag);
        }
        assert(spec_mag >= 0) by (nonlinear_arith)
            requires
                spec_mag == digits_value(int_part) * (CHANCE_SCALE as int) + frac_micros(
                    frac_part,
                ),
                digits_value(int_part) >= 0,
                frac_micros(frac_part) >= 0,
        ;
        assert(spec_chance_token(tok@) == Option::Some(
            if neg {
                -spec_mag
            } else {
                spec_mag
            },
        ));
    }
    if neg {
        return Option::Some(0);
    }
    if magnitude > CHANCE_SCALE as u64 {
        Option::Some(CHANCE_SCALE + 1)
    } else {
        Option::Some(magnitude as u32)
    }
}

/// The smaller of a value and a cap.
pub open spec fn clamp_value(x: int, cap: int) -> int {
    if x > cap {
        cap
    } else {
        x
    }
}

/// A digit string's value is non-negative and below ten to its length.
pub proof fn lemma_digits_value_bound(t: Seq<char>)
    requires
        digits_only(t),
    ensures
        0 <= digits_value(t) < pow10(t.len() as nat),
    decreases t.len(),
{
    if t.len() == 0 {
    } else {
        assert(digits_only(t.drop_last()));
        lemma_digits_value_bound(t.drop_last());
        assert(is_digit_char(t.last()));
        assert(0 <= digit_val(t.last()) <= 9);
        let prev = digits_value(t.drop_last());
        let p = pow10(t.drop_last().len() as nat);
        assert(pow10(t.len() as nat) == 10 * p);
        assert(prev * 10 + digit_val(t.last()) < 10 * p) by (nonlinear_arith)
            requires
                0 <= prev < p,
                0 <= digit_val(t.last()) <= 9,
        ;
    }
}

/// Ten to any power is at least one.
pub proof fn lemma_pow10_pos(n: nat)
    ensures
        pow10(n) >= 1,
    decreases n,
{
    if n > 0 {
        lemma_pow10_pos((n - 1) as nat);
    }
}

/// Powers of ten up to the sixth stay below one million and one.
pub proof fn lemma_pow10_bound(n: nat)
    requires
        n <= 6,
    ensures
        pow10(n) <= 1000000,
        n <= 5 ==> pow10(n) <= 100000,
        pow10(6) == 1000000,
{
    reveal_with_fuel(pow10, 8);
}

/// A fraction denotes fewer than one million millionths.
pub proof fn lemma_frac_micros_bound(fr: Seq<char>)
    requires
        digits_only(fr),
    ensures
        0 <= frac_micros(fr) < 1000000,
{
    if fr.len() >= 6 {
        assert(digits_only(fr.take(6))) by {
            assert(forall|j: int| 0 <= j < 6 ==> fr.take(6)[j] == fr[j]);
        }
        lemma_digits_value_bound(fr.take(6));
        lemma_pow10_bound(6);
    } else {
        lemma_digits_value_bound(fr);
        lemma_pow10_pos((6 - fr.len()) as nat);
        lemma_pow10_bound((6 - fr.len()) as nat);
        lemma_pow10_bound(fr.len() as nat);
        assert(digits_value(fr) * pow10((6 - fr.len()) as nat) < pow10(fr.len() as nat) * pow10(
            (6 - fr.len()) as nat,
        )) by (nonlinear_arith)
            requires
                0 <= digits_value(fr) < pow10(fr.len() as nat),
                pow10((6 - fr.len()) as nat) >= 1,
        ;
        lemma_pow10_mul(fr.len() as nat, (6 - fr.len()) as nat);
        assert(pow10(fr.len() as nat) * pow10((6 - fr.len()) as nat) == pow10(6));
        assert(pow10(6) == 1000000);
        assert(digits_value(fr) * pow10((6 - fr.len()) as nat) >= 0) by (nonlinear_arith)
            requires
                digits_value(fr) >= 0,
                pow10((6 - fr.len()) as nat) >= 1,
        ;
    }
}

/// Powers of ten multiply by adding exponents.
proof fn lemma_pow10_mul(a: nat, b: nat)
    ensures
        pow10(a) * pow10(b) == pow10(a + b),
    decreases a,
{
    if a == 0 {
        assert(pow10(0) == 1);
    } else {
        lemma_pow10_mul((a - 1) as nat, b);
        assert(pow10(a) == 10 * pow10((a - 1) as nat));
        assert(pow10(a + b) == 10 * pow10((a + b - 1) as nat));
        assert((10 * pow10((a - 1) as nat)) * pow10(b) == 10 * (pow10((a - 1) as nat) * pow10(b)))
            by (nonlinear_arith);
    }
}

/// A digit string holds no decimal point.
pub proof fn lemma_no_dot_in_digits(t: Seq<char>)
    requires
        digits_only(t),
    ensures
        first_dot_index(t) == t.len(),
{
    lemma_first_dot_index(t);
    if first_dot_index(t) < t.len() {
        assert(is_digit_char(t[first_dot_index(t)]));
    }
}

/// If no dot stands before position `k` and a dot stands at `k`, then `k` is
/// the first dot position.
proof fn lemma_first_dot_index_found(t: Seq<char>, k: int)
    requires
        0 <= k < t.len(),
        t[k] == '.',
        forall|j: int| 0 <= j < k ==> t[j] != '.',
    ensures
        first_dot_index(t) == k,
    decreases k,
{
    if k > 0 {
        assert(forall|j: int| 0 <= j < k - 1 ==> t.drop_first()[j] == t[j + 1]);
        lemma_first_dot_index_found(t.drop_first(), k - 1);
    }
}

/// Interns a contiguous range of already-split tokens, in order, into a
/// production string.
fn intern_tokens(
    table: &mut SymbolTable,
    tokens: &Vec<String>,
    start: usize,
    end: usize,
) -> (r: Result<ProductionString, Error>)
    requires
        old(table).wf(),
        start <= end <= tokens@.len(),
        forall|k: int| start <= k < end ==> (#[trigger] tokens@[k])@.len() > 0,
    ensures
        final(table).wf(),
        r matches Ok(ps) ==> {
            &&& final(table)@ == spec_parse_tokens(
                old(table)@,
                texts_view(tokens@).subrange(start as int, end as int),
            ).0
            &&& ps@ == spec_parse_tokens(
                old(table)@,
                texts_view(tokens@).subrange(start as int, end as int),
            ).1
        },
        old(table)@.len() + (end - start) + FIRST_CODE <= u32::MAX ==> r is Ok,
        r matches Err(e) ==> e.spec_kind() == ErrorKind::Execution,
        final(table)@.len() <= old(table)@.len() + (end - start),
{
    let ghost toks = texts_view(tokens@).subrange(start as int, end as int);
    let mut result = ProductionString::new();
    let mut i: usize = start;
    while i < end
        invariant
            old(table).wf(),
            table.wf(),
            start <= i <= end <= tokens@.len(),
            toks == texts_view(tokens@).subrange(start as int, end as int),
            forall|k: int| start <= k < end ==> (#[trigger] tokens@[k])@.len() > 0,
            table@ == spec_parse_tokens(old(table)@, toks.take(i - start)).0,
            result@ == spec_parse_tokens(old(table)@, toks.take(i - start)).1,
            table@.len() <= old(table)@.len() + (i - start),
        decreases end - i,
    {
        proof {
            assert(toks.take(i + 1 - start).drop_last() =~= toks.take(i - start));
            assert(toks[i - start] == tokens@[i as int]@);
        }
        let symbol = match table.intern(tokens[i].as_str()) {
            Ok(symbol) => symbol,
            Err(_) => {
                return Err(
                    Error::new(ErrorKind::Execution, "the symbol code space is exhausted"),
                );
            },
        };
        result.push_symbol(symbol);
        i += 1;
    }
    proof {
        assert(toks.take(toks.len() as int) =~= toks);
    }
    Ok(result)
}

/// The outcome of parsing a production body from its whitespace tokens:
/// the table afterwards, the replacement symbols, and the explicit chance in
/// millionths if the first token gave one. `None` stands for a rejected
/// body: its first token is a number whose value lies outside `(0, 1]`.
pub open spec fn spec_parse_body(names: Seq<Seq<char>>, toks: Seq<Seq<char>>) -> Option<
    (Seq<Seq<char>>, Seq<Symbol>, Option<u32>),
> {
    if toks.len() == 0 {
        Option::Some((names, Seq::empty(), Option::None))
    } else {
        match spec_chance_token(toks[0]) {
            Option::Some(x) => {
                if 0 < clamp_micros(x) <= CHANCE_SCALE {
                    let (fin, syms) = spec_parse_tokens(names, toks.drop_first());
                    Option::Some((fin, syms, Option::Some(clamp_micros(x) as u32)))
                } else {
                    Option::None
                }
            },
            Option::None => {
                let (fin, syms) = spec_parse_tokens(names, toks);
                Option::Some((fin, syms, Option::None))
            },
        }
    }
}

/// Parse the body of a production rule.
///
/// For example, in the string `A -> B C`, the `B C` after the arrow is the
/// rule's body. If the first token is a decimal number, it is consumed as
/// the body's explicit chance and must lie in `(0, 1]`; the remaining tokens
/// become the replacement sequence. An empty body is valid and stands for
/// the empty replacement (an erasure rule).
pub fn parse_production_body(table: &mut SymbolTable, body: &str) -> (r: Result<
    ProductionBody,
    Error,
>)
    requires
        old(table).wf(),
    ensures
        final(table).wf(),
        r matches Ok(b) ==> spec_parse_body(old(table)@, spec_split_ws(body@)) matches Some(t)
            && {
            &&& final(table)@ == t.0
            &&& b@.string == t.1
            &&& match t.2 {
                Option::Some(v) => b@.chance.spec_is_set() && b@.chance.spec_value() == v,
                Option::None => !b@.chance.spec_is_set(),
            }
            &&& b@.chance.wf()
        },
        spec_parse_body(old(table)@, spec_split_ws(body@)) is None ==> r is Err && final(table)@
            == old(table)@ && (r matches Err(e) && e.spec_kind() == ErrorKind::Parse),
        spec_parse_body(old(table)@, spec_split_ws(body@)) is Some && old(table)@.len()
            + spec_split_ws(body@).len() + FIRST_CODE <= u32::MAX ==> r is Ok,
        r matches Err(e) ==> (e.spec_kind() == ErrorKind::Parse || e.spec_kind()
            == ErrorKind::Execution) && (e.spec_kind() == ErrorKind::Parse <==> spec_parse_body(
            old(table)@,
            spec_split_ws(body@),
        ) is None),
{
    let tokens = split_whitespace(body);
    let ghost toks = spec_split_ws(body@);
    proof {
        lemma_split_ws_tokens(body@, 0);
    }
    if tokens.len() == 0 {
        return Ok(ProductionBody::empty());
    }
    let chance = parse_chance_token(tokens[0].as_str());
    let start: usize = match chance {
        Option::Some(v) => {
            // The chance is range-checked before any symbol is interned, so
            // an out-of-range literal is a parse error that leaves the
            // table untouched.
            if v == 0 || v > CHANCE_SCALE {
                return Err(
                    Error::new(ErrorKind::Parse, "chance should be positive and at most one"),
                );
            }
            1
        },
        Option::None => 0,
    };
    proof {
        if start == 1 {
            assert(texts_view(tokens@).subrange(1, tokens@.len() as int) =~= toks.drop_first());
        } else {
            assert(texts_view(tokens@).subrange(0, tokens@.len() as int) =~= toks);
        }
        assert(forall|k: int|
            0 <= k < tokens@.len() ==> (#[trigger] tokens@[k])@ == texts_view(tokens@)[k]);
    }
    let string = intern_tokens(table, &tokens, start, tokens.len())?;
    match chance {
        Option::None => Ok(ProductionBody::new(string)),
        Option::Some(v) => {
            let b = ProductionBody::try_with_chance(v, string);
            b
        },
    }
}

/// How head text splits at its context markers: the tokens before the first
/// `<` (the pre-context, if a `<` occurs), the tokens after the first `>`
/// that follows (the post-context, if one occurs), and the tokens between
/// (the target, which must be exactly one token).
pub open spec fn head_split(toks: Seq<Seq<char>>) -> (
    Option<Seq<Seq<char>>>,
    Seq<Seq<char>>,
    Option<Seq<Seq<char>>>,
) {
    let li = first_index(toks, seq!['<']);
    let left = if li >= 0 {
        Option::Some(toks.take(li))
    } else {
        Option::None
    };
    let rest = if li >= 0 {
        toks.skip(li + 1)
    } else {
        toks
    };
    let ri = first_index(rest, seq!['>']);
    if ri >= 0 {
        (left, rest.take(ri), Option::Some(rest.skip(ri + 1)))
    } else {
        (left, rest, Option::None)
    }
}

/// Whether the head's context separators are well-formed: beyond the first
/// `<` and the first `>` that follows it, no further separator token of
/// either kind appears anywhere in the head.
pub open spec fn head_separators_ok(toks: Seq<Seq<char>>) -> bool {
    let li = first_index(toks, seq!['<']);
    let rest = if li >= 0 {
        toks.skip(li + 1)
    } else {
        toks
    };
    let ri = first_index(rest, seq!['>']);
    &&& (li >= 0 ==> first_index(toks.take(li), seq!['>']) < 0)
    &&& first_index(rest, seq!['<']) < 0
    &&& (ri >= 0 ==> first_index(rest.skip(ri + 1), seq!['>']) < 0)
}

/// The outcome of parsing a production head from its whitespace tokens, or
/// `None` when the head is rejected: it is empty, more than one context
/// separator of either kind appears, or its target is not exactly one
/// token. The target is interned first, then the pre-context, then the
/// post-context.
pub open spec fn spec_parse_head(names: Seq<Seq<char>>, toks: Seq<Seq<char>>) -> Option<
    (Seq<Seq<char>>, HeadModel),
> {
    if toks.len() == 0 {
        Option::None
    } else {
        let (left, center, right) = head_split(toks);
        if center.len() != 1 || !head_separators_ok(toks) {
            Option::None
        } else {
            let (t1, target_code) = spec_intern(names, center[0]);
            let (t2, pre) = match left {
                Option::Some(l) => {
                    let (t, s) = spec_parse_tokens(t1, l);
                    (t, Option::Some(s))
                },
                Option::None => (t1, Option::None),
            };
            let (t3, post) = match right {
                Option::Some(rt) => {
                    let (t, s) = spec_parse_tokens(t2, rt);
                    (t, Option::Some(s))
                },
                Option::None => (t2, Option::None),
            };
            Option::Some(
                (
                    t3,
                    HeadModel {
                        pre,
                        target: Symbol { code: target_code },
                        post,
                    },
                ),
            )
        }
    }
}

/// Finds the first token equal to `needle` at or after `from`, scanning a
/// token list.
fn find_token(tokens: &Vec<String>, from: usize, needle: &str) -> (r: Option<usize>)
    requires
        from <= tokens@.len(),
    ensures
        ({
            let rest = texts_view(tokens@).skip(from as int);
            match r {
                Option::Some(k) => {
                    &&& from <= k < tokens@.len()
                    &&& first_index(rest, needle@) == k - from
                },
                Option::None => first_index(rest, needle@) < 0,
            }
        }),
{
    let ghost rest = texts_view(tokens@).skip(from as int);
    proof {
        assert(forall|j: int| 0 <= j < rest.len() ==> rest[j] == tokens@[j + from]@);
    }
    let mut k: usize = from;
    while k < tokens.len()
        invariant
            from <= k <= tokens@.len(),
            rest == texts_view(tokens@).skip(from as int),
            forall|j: int| 0 <= j < rest.len() ==> rest[j] == tokens@[j + from]@,
            forall|j: int| 0 <= j < k - from ==> rest[j] != needle@,
        decreases tokens@.len() - k,
    {
        if crate::symbols::str_eq(tokens[k].as_str(), needle) {
            proof {
                crate::symbols::lemma_first_index_prefix_miss(rest, needle@, k - from);
            }
            return Option::Some(k);
        }
        k += 1;
    }
    proof {
        lemma_first_index_spec(rest, needle@);
    }
    Option::None
}

/// Parse the head of a production rule: at most one `<` marks off the
/// pre-context, at most one following `>` marks off the post-context, and
/// the remaining middle must be exactly one token, the target symbol.
pub fn parse_production_head(table: &mut SymbolTable, head: &str) -> (r: Result<
    ProductionHead,
    Error,
>)
    requires
        old(table).wf(),
    ensures
        final(table).wf(),
        r matches Ok(h) ==> spec_parse_head(old(table)@, spec_split_ws(head@)) matches Some(p)
            && final(table)@ == p.0 && h@ == p.1,
        spec_parse_head(old(table)@, spec_split_ws(head@)) is None ==> r is Err,
        spec_parse_head(old(table)@, spec_split_ws(head@)) is Some && old(table)@.len()
            + spec_split_ws(head@).len() + FIRST_CODE <= u32::MAX ==> r is Ok,
        r matches Err(e) ==> e.spec_kind() == (if spec_parse_head(
            old(table)@,
            spec_split_ws(head@),
        ) is None {
            ErrorKind::Parse
        } else {
            ErrorKind::Execution
        }),
{
    let tokens = split_whitespace(head);
    let ghost toks = spec_split_ws(head@);
    proof {
        lemma_split_ws_tokens(head@, 0);
        assert(forall|k: int|
            0 <= k < tokens@.len() ==> (#[trigger] tokens@[k])@ == texts_view(tokens@)[k]);
        reveal_strlit("<");
        reveal_strlit(">");
        assert("<"@ =~= seq!['<']);
        assert(">"@ =~= seq!['>']);
    }
    if tokens.len() == 0 {
        return Err(Error::new(ErrorKind::Parse, "no head in production string"));
    }
    let left_mark = find_token(&tokens, 0, "<");
    let rest_start: usize = match left_mark {
        Option::Some(k) => k + 1,
        Option::None => 0,
    };
    proof {
        assert(texts_view(tokens@).skip(0) =~= toks);
        match left_mark {
            Option::Some(k) => {
                assert(first_index(toks, seq!['<']) == k as int);
                assert(toks.skip(k + 1) =~= texts_view(tokens@).skip(k + 1));
            },
            Option::None => {
                assert(first_index(toks, seq!['<']) < 0);
            },
        }
    }
    let right_mark = find_token(&tokens, rest_start, ">");
    let ghost rest = if first_index(toks, seq!['<']) >= 0 {
        toks.skip(first_index(toks, seq!['<']) + 1)
    } else {
        toks
    };
    let center_start = rest_start;
    let center_end: usize = match right_mark {
        Option::Some(k) => k,
        Option::None => tokens.len(),
    };
    proof {
        assert(rest =~= texts_view(tokens@).skip(rest_start as int));
        match right_mark {
            Option::Some(k) => {
                assert(first_index(rest, seq!['>']) == k - rest_start);
            },
            Option::None => {
                assert(first_index(rest, seq!['>']) < 0);
            },
        }
    }
    // Reject a head in which a separator of either kind appears again.
    if let Option::Some(le) = left_mark {
        match find_token(&tokens, 0, ">") {
            Option::Some(g) if g < le => {
                proof {
                    crate::symbols::lemma_first_index_take(toks, seq!['>'], le as int);
                }
                return Err(
                    Error::new(ErrorKind::Parse, "at most one context separator of each kind"),
                );
            },
            _ => {
                proof {
                    crate::symbols::lemma_first_index_take(toks, seq!['>'], le as int);
                }
            },
        }
    }
    if find_token(&tokens, rest_start, "<").is_some() {
        return Err(Error::new(ErrorKind::Parse, "at most one context separator of each kind"));
    }
    if let Option::Some(ri) = right_mark {
        proof {
            assert(texts_view(tokens@).skip(ri + 1) =~= rest.skip(ri + 1 - rest_start));
        }
        if find_token(&tokens, ri + 1, ">").is_some() {
            return Err(
                Error::new(ErrorKind::Parse, "at most one context separator of each kind"),
            );
        }
    }
    proof {
        assert(head_separators_ok(toks));
    }
    if center_end - center_start != 1 {
        proof {
            let (left, center, right) = head_split(toks);
            assert(center.len() != 1) by {
                match right_mark {
                    Option::Some(k) => {
                        assert(center =~= rest.take(k - rest_start));
                    },
                    Option::None => {
                        assert(center =~= rest);
                    },
                }
            }
        }
        return Err(
            Error::new(ErrorKind::Parse, "There should be exactly one token as the head target"),
        );
    }
    proof {
        let (left, center, right) = head_split(toks);
        match right_mark {
            Option::Some(k) => {
                assert(center =~= rest.take(k - rest_start));
            },
            Option::None => {
                assert(center =~= rest);
            },
        }
        assert(center.len() == 1);
        assert(center[0] == toks[center_start as int]);
        assert(tokens@[center_start as int]@ == toks[center_start as int]);
    }
    let target = match table.intern(tokens[center_start].as_str()) {
        Ok(symbol) => symbol,
        Err(_) => {
            return Err(Error::new(ErrorKind::Execution, "the symbol code space is exhausted"));
        },
    };
    let pre = match left_mark {
        Option::Some(le) => {
            proof {
                assert(texts_view(tokens@).subrange(0, le as int) =~= toks.take(le as int));
            }
            Option::Some(intern_tokens(table, &tokens, 0, le)?)
        },
        Option::None => Option::None,
    };
    let post = match right_mark {
        Option::Some(ri) => {
            proof {
                assert(texts_view(tokens@).subrange(ri + 1, tokens@.len() as int) =~= rest.skip(
                    ri + 1 - rest_start,
                ));
            }
            Option::Some(intern_tokens(table, &tokens, ri + 1, tokens.len())?)
        },
        Option::None => Option::None,
    };
    match ProductionHead::build(pre, target, post) {
        Ok(h) => Ok(h),
        Err(e) => Err(e),
    }
}

/// Whether a production arrow `->` begins at position `i` of `s`.
pub open spec fn arrow_at(s: Seq<char>, i: int) -> bool {
    0 <= i && i + 1 < s.len() && s[i] == '-' && s[i + 1] == '>'
}

/// The position of the first production arrow at or after `i`, or the length
/// of `s` if there is none.
pub open spec fn first_arrow_from(s: Seq<char>, i: int) -> int
    decreases s.len() - i,
{
    if i < 0 || i >= s.len() {
        s.len() as int
    } else if arrow_at(s, i) {
        i
    } else {
        first_arrow_from(s, i + 1)
    }
}

/// Parse a production string, such as `"Company -> Surname And Surname"`.
///
/// The text before the first `->` is parsed as the head, the text after it
/// as the body, and the two are combined into a single-body production.
/// Callers merge alternative bodies by registering the same head again. This
/// does not register the production with any store.
pub fn parse_production(table: &mut SymbolTable, production: &str) -> (r: Result<
    Production,
    Error,
>)
    requires
        old(table).wf(),
    ensures
        final(table).wf(),
        first_arrow_from(production@, 0) == production@.len() ==> r is Err && (r matches Err(e)
            ==> e.spec_kind() == ErrorKind::Parse),
        r matches Ok(p) ==> ({
            let s = production@;
            let ai = first_arrow_from(s, 0);
            let htoks = spec_split_ws(s.subrange(0, ai));
            let btoks = spec_split_ws(s.subrange(ai + 2, s.len() as int));
            &&& ai < s.len()
            &&& spec_parse_head(old(table)@, htoks) matches Some(hp) && {
                &&& p@.head == hp.1
                &&& spec_parse_body(hp.0, btoks) matches Some(bt) && {
                    &&& final(table)@ == bt.0
                    &&& p@.bodies.len() == 1
                    &&& p@.bodies[0].string == bt.1
                    &&& match bt.2 {
                        Option::Some(v) => p@.bodies[0].chance.spec_is_set()
                            && p@.bodies[0].chance.spec_value() == v,
                        Option::None => !p@.bodies[0].chance.spec_is_set(),
                    }
                    &&& p.chances_wf()
                }
            }
        }),
        ({
            let s = production@;
            let ai = first_arrow_from(s, 0);
            let htoks = spec_split_ws(s.subrange(0, ai));
            let btoks = spec_split_ws(s.subrange(ai + 2, s.len() as int));
            &&& ai < s.len()
            &&& spec_parse_head(old(table)@, htoks) matches Some(hp) && spec_parse_body(
                hp.0,
                btoks,
            ) is Some
            &&& old(table)@.len() + htoks.len() + btoks.len() + FIRST_CODE <= u32::MAX
        }) ==> r is Ok,
        r matches Err(e) ==> e.spec_kind() == ErrorKind::Parse || e.spec_kind()
            == ErrorKind::Execution,
{
    let ghost owed = {
        let s = production@;
        let ai = first_arrow_from(s, 0);
        let htoks = spec_split_ws(s.subrange(0, ai));
        let btoks = spec_split_ws(s.subrange(ai + 2, s.len() as int));
        &&& ai < s.len()
        &&& spec_parse_head(old(table)@, htoks) matches Some(hp) && spec_parse_body(
            hp.0,
            btoks,
        ) is Some
        &&& old(table)@.len() + htoks.len() + btoks.len() + FIRST_CODE <= u32::MAX
    };
    let len = production.unicode_len();
    let mut i: usize = 0;
    let mut found: Option<usize> = Option::None;
    while i < len
        invariant_except_break
            found is None,
        invariant
            0 <= i <= len,
            len == production@.len(),
            first_arrow_from(production@, 0) == first_arrow_from(production@, i as int),
        ensures
            0 <= i <= len,
            len == production@.len(),
            match found {
                Option::Some(a) => first_arrow_from(production@, 0) == a && arrow_at(
                    production@,
                    a as int,
                ),
                Option::None => first_arrow_from(production@, 0) == production@.len(),
            },
        decreases len - i,
    {
        if i + 1 < len && production.get_char(i) == '-' && production.get_char(i + 1) == '>' {
            found = Option::Some(i);
            proof {
                assert(arrow_at(production@, i as int));
                assert(first_arrow_from(production@, i as int) == i);
            }
            break;
        }
        proof {
            assert(!arrow_at(production@, i as int));
        }
        i += 1;
    }
    let arrow = match found {
        Option::Some(a) => a,
        Option::None => {
            return Err(Error::new(ErrorKind::Parse, "supplied string is not a production"));
        },
    };
    let head_text = production.substring_char(0, arrow);
    let body_text = production.substring_char(arrow + 2, len);
    let ghost htoks = spec_split_ws(head_text@);
    let ghost btoks = spec_split_ws(body_text@);
    let head = match parse_production_head(table, head_text) {
        Ok(head) => head,
        Err(e) => {
            proof {
                if owed {
                    assert(false);
                }
            }
            return Err(e);
        },
    };
    let body = match parse_production_body(table, body_text) {
        Ok(body) => body,
        Err(e) => {
            proof {
                if owed {
                    lemma_parse_head_growth(old(table)@, htoks);
                    assert(false);
                }
            }
            return Err(e);
        },
    };
    Ok(Production::new(head, body))
}

/// Parse a string as a production and add it to your own stores of symbols
/// and productions: the symbols are interned into the table while parsing,
/// and the production is handed to the store, which registers it as its
/// [`ProductionStore::registered`] spec says (a plain list appends, a
/// grammar's store merges by head). Returns the production the store now
/// holds for the registration.
pub fn parse_and_add_production<P: ProductionStore>(
    symbols: &mut SymbolTable,
    productions: &mut P,
    production: &str,
) -> (r: Result<Production, Error>)
    requires
        old(symbols).wf(),
        old(productions).store_inv(),
    ensures
        final(symbols).wf(),
        final(productions).store_inv(),
        r is Err ==> final(productions).prods_model() == old(productions).prods_model(),
        r matches Ok(p) ==> ({
            let s = production@;
            let ai = first_arrow_from(s, 0);
            let htoks = spec_split_ws(s.subrange(0, ai));
            let btoks = spec_split_ws(s.subrange(ai + 2, s.len() as int));
            &&& ai < s.len()
            &&& spec_parse_head(old(symbols)@, htoks) matches Some(hp) && {
                &&& spec_parse_body(hp.0, btoks) matches Some(bt) && {
                    &&& final(symbols)@ == bt.0
                    &&& exists|parsed: ProductionModel|
                        {
                            &&& parsed.head == hp.1
                            &&& parsed.bodies.len() == 1
                            &&& (#[trigger] parsed.bodies[0]).string == bt.1
                            &&& match bt.2 {
                                Option::Some(v) => parsed.bodies[0].chance.spec_is_set()
                                    && parsed.bodies[0].chance.spec_value() == v,
                                Option::None => !parsed.bodies[0].chance.spec_is_set(),
                            }
                            &&& final(productions).prods_model() == old(productions).registered(
                                parsed,
                            ).0
                            &&& p@ == final(productions).prods_model()[old(
                                productions,
                            ).registered(parsed).1]
                        }
                }
            }
        }),
        ({
            let s = production@;
            let ai = first_arrow_from(s, 0);
            let htoks = spec_split_ws(s.subrange(0, ai));
            let btoks = spec_split_ws(s.subrange(ai + 2, s.len() as int));
            &&& ai < s.len()
            &&& spec_parse_head(old(symbols)@, htoks) matches Some(hp) && spec_parse_body(
                hp.0,
                btoks,
            ) is Some
            &&& old(symbols)@.len() + htoks.len() + btoks.len() + FIRST_CODE <= u32::MAX
        }) ==> r is Ok,
        r matches Err(e) ==> e.spec_kind() == ErrorKind::Parse || e.spec_kind()
            == ErrorKind::Execution,
{
    let parsed = match parse_production(symbols, production) {
        Ok(parsed) => parsed,
        Err(e) => {
            return Err(e);
        },
    };
    let ghost parsed_model = parsed@;
    productions.add_production(parsed)
}

} // verus!
