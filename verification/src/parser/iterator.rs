//! The tokenizer: lexes one blob of grammar text into raw tokens.
//!
//! Whitespace is a break character that is consumed and never emitted. The
//! characters `<`, `>`, `-`, `+`, `(`, `)` and `;` are self-breaking: a
//! maximal run of consecutive self-breaking characters merges into a single
//! token, which is how the two-character arrow `->` is recognised. Any other
//! run of non-break characters becomes one symbol token. Each token carries
//! its source span, in characters, for diagnostics.

use vstd::prelude::*;

use crate::error::{Error, ErrorKind};
use crate::parser::is_space_char;
use crate::parser::is_space;

verus! {

/// A raw token: a slice of the source text with its span in characters.
#[derive(Debug, Copy, Clone, PartialEq, Eq)]
pub struct Token<'a> {
    pub text: &'a str,
    pub start: usize,
    pub end: usize,
}

impl<'a> Token<'a> {
    pub fn new(text: &'a str, start: usize, end: usize) -> (r: Self)
        ensures
            r.text@ == text@,
            r.start == start,
            r.end == end,
    {
        Token { text, start, end }
    }

    /// The text of the token.
    pub fn text(&self) -> (r: &'a str)
        ensures
            r@ == self.text@,
    {
        self.text
    }
}

/// Whether `c` breaks a symbol run: whitespace does, and so do the
/// self-breaking characters.
pub open spec fn is_break_char(c: char) -> bool {
    is_space_char(c) || c == '<' || c == '>' || c == '-' || c == '+' || c == '(' || c == ')'
        || c == ';'
}

/// Whether `c` is a break character that is consumed rather than emitted.
pub open spec fn is_consume_char(c: char) -> bool {
    is_space_char(c)
}

/// Whether `c` is a self-breaking character: one that itself becomes part of
/// a token.
pub open spec fn is_token_break_char(c: char) -> bool {
    is_break_char(c) && !is_space_char(c)
}

/// Whether `c` breaks a symbol run.
pub fn is_break(c: char) -> (r: bool)
    ensures
        r == is_break_char(c),
{
    if is_space(c) {
        return true;
    }
    c == '<' || c == '>' || c == '-' || c == '+' || c == '(' || c == ')' || c == ';'
}

/// Whether `c` is a break character that is consumed rather than emitted.
pub fn is_consume(c: char) -> (r: bool)
    ensures
        r == is_consume_char(c),
{
    is_space(c)
}

/// A break point found while scanning text.
#[derive(Debug, Copy, Clone, PartialEq, Eq, Structural)]
pub enum Break {
    /// There is nothing left: the scan reached this position with no break.
    End(usize),
    /// The break character at this position is consumed, never emitted.
    Ignore(usize, char),
    /// The break character at this position becomes part of a token.
    Token(usize, char),
}

impl Break {
    /// Classifies the break character found at `index`.
    pub fn build(index: usize, c: char) -> (r: Result<Self, Error>)
        ensures
            is_consume_char(c) ==> (r matches Ok(b) && b == Break::Ignore(index, c)),
            !is_consume_char(c) && is_break_char(c) ==> (r matches Ok(b) && b == Break::Token(
                index,
                c,
            )),
            !is_break_char(c) ==> (r matches Err(e) && e.spec_kind() == ErrorKind::Parse),
    {
        if is_consume(c) {
            return Ok(Break::Ignore(index, c));
        }
        if is_break(c) {
            return Ok(Break::Token(index, c));
        }
        Err(Error::new(ErrorKind::Parse, "the character is not a break point"))
    }

    /// The break that stands for an exhausted scan.
    pub fn end(index: usize) -> (r: Self)
        ensures
            r == Break::End(index),
    {
        Break::End(index)
    }

    /// The position the break was found at.
    pub fn index(self) -> (r: usize)
        ensures
            r == self.spec_index(),
    {
        match self {
            Break::End(index) => index,
            Break::Ignore(index, _) => index,
            Break::Token(index, _) => index,
        }
    }

    /// The position of the break, as a spec-level value.
    pub open spec fn spec_index(self) -> usize {
        match self {
            Break::End(index) => index,
            Break::Ignore(index, _) => index,
            Break::Token(index, _) => index,
        }
    }

    pub fn is_end(self) -> (r: bool)
        ensures
            r == (self is End),
    {
        matches!(self, Break::End(_))
    }

    pub fn is_ignore(self) -> (r: bool)
        ensures
            r == (self is Ignore),
    {
        matches!(self, Break::Ignore(_, _))
    }

    pub fn is_token(self) -> (r: bool)
        ensures
            r == (self is Token),
    {
        matches!(self, Break::Token(_, _))
    }
}

/// The position of the first break character at or after `i`, or the length
/// of `s` if there is none.
pub open spec fn break_pos(s: Seq<char>, i: int) -> int
    decreases s.len() - i,
{
    if i < 0 || i >= s.len() {
        s.len() as int
    } else if is_break_char(s[i]) {
        i
    } else {
        break_pos(s, i + 1)
    }
}

pub proof fn lemma_break_pos(s: Seq<char>, i: int)
    requires
        0 <= i <= s.len(),
    ensures
        i <= break_pos(s, i) <= s.len(),
        forall|j: int| i <= j < break_pos(s, i) ==> !is_break_char(s[j]),
        break_pos(s, i) < s.len() ==> is_break_char(s[break_pos(s, i)]),
    decreases s.len() - i,
{
    if i < s.len() && !is_break_char(s[i]) {
        lemma_break_pos(s, i + 1);
    }
}

/// The break that scanning from `current` finds: the first break character
/// at or after `current`, classified, or the end of the text.
pub open spec fn spec_next_break(s: Seq<char>, current: int) -> Break {
    if current >= s.len() {
        Break::End(current as usize)
    } else {
        let p = break_pos(s, current);
        if p >= s.len() {
            Break::End(s.len() as usize)
        } else if is_consume_char(s[p]) {
            Break::Ignore(p as usize, s[p])
        } else {
            Break::Token(p as usize, s[p])
        }
    }
}

/// Finds the next break character in the text at or after `current`.
pub fn next_break(text: &str, current: usize) -> (r: Break)
    requires
        text@.len() <= usize::MAX,
    ensures
        r == spec_next_break(text@, current as int),
{
    let len = text.unicode_len();
    if current >= len {
        return Break::end(current);
    }
    let mut j: usize = current;
    while j < len
        invariant
            current <= j <= len,
            len == text@.len(),
            break_pos(text@, current as int) == break_pos(text@, j as int),
        ensures
            current <= j <= len,
            len == text@.len(),
            break_pos(text@, current as int) == j || (j == len && break_pos(
                text@,
                current as int,
            ) == len),
        decreases len - j,
    {
        if is_break(text.get_char(j)) {
            proof {
                assert(break_pos(text@, j as int) == j);
            }
            break;
        }
        j += 1;
    }
    if j >= len {
        return Break::end(len);
    }
    let c = text.get_char(j);
    if is_consume(c) {
        Break::Ignore(j, c)
    } else {
        Break::Token(j, c)
    }
}

/// The position of the first non-whitespace character at or after `i`, or
/// the length of `s` if there is none.
pub open spec fn skip_pos(s: Seq<char>, i: int) -> int
    decreases s.len() - i,
{
    if i < 0 || i >= s.len() {
        s.len() as int
    } else if !is_consume_char(s[i]) {
        i
    } else {
        skip_pos(s, i + 1)
    }
}

pub proof fn lemma_skip_pos(s: Seq<char>, i: int)
    requires
        0 <= i <= s.len(),
    ensures
        i <= skip_pos(s, i) <= s.len(),
        forall|j: int| i <= j < skip_pos(s, i) ==> is_consume_char(s[j]),
        skip_pos(s, i) < s.len() ==> !is_consume_char(s[skip_pos(s, i)]),
    decreases s.len() - i,
{
    if i < s.len() && is_consume_char(s[i]) {
        lemma_skip_pos(s, i + 1);
    }
}

/// The end of the run of self-breaking characters starting at `i`: the first
/// position at or after `i` that does not hold one, or the length of `s`.
pub open spec fn run_end(s: Seq<char>, i: int) -> int
    decreases s.len() - i,
{
    if i < 0 || i >= s.len() {
        s.len() as int
    } else if !is_token_break_char(s[i]) {
        i
    } else {
        run_end(s, i + 1)
    }
}

pub proof fn lemma_run_end(s: Seq<char>, i: int)
    requires
        0 <= i <= s.len(),
    ensures
        i <= run_end(s, i) <= s.len(),
        forall|j: int| i <= j < run_end(s, i) ==> is_token_break_char(s[j]),
        run_end(s, i) < s.len() ==> !is_token_break_char(s[run_end(s, i)]),
    decreases s.len() - i,
{
    if i < s.len() && is_token_break_char(s[i]) {
        lemma_run_end(s, i + 1);
    }
}

/// One step of the tokenizer: the token that scanning from `cur` yields, as
/// (text, span start, span end), or `None` at the end of the text; and the
/// position the next scan starts from.
///
/// A run of self-breaking characters starting right at `cur` merges into one
/// token. Otherwise the token reaches from the first non-whitespace
/// character to the next break; its reported span starts at `cur`, so a
/// span may cover the whitespace that was consumed before the token.
pub open spec fn spec_scan(s: Seq<char>, cur: int) -> (Option<(Seq<char>, int, int)>, int) {
    if cur >= s.len() {
        (Option::None, cur)
    } else {
        let skip = skip_pos(s, cur);
        if skip >= s.len() {
            (Option::None, s.len() as int)
        } else if skip == cur && is_token_break_char(s[cur]) {
            let end = run_end(s, cur);
            (Option::Some((s.subrange(cur, end), cur, end)), end)
        } else {
            let fb = break_pos(s, skip);
            let next = if fb >= s.len() {
                s.len() as int
            } else if is_consume_char(s[fb]) {
                fb + 1
            } else {
                fb
            };
            (Option::Some((s.subrange(skip, fb), cur, fb)), next)
        }
    }
}

/// The tokenizer reads the rest of the text only: each step either ends the
/// scan at the text's end or advances the position.
pub proof fn lemma_scan_advances(s: Seq<char>, cur: int)
    requires
        0 <= cur,
    ensures
        spec_scan(s, cur).0 is Some ==> cur < spec_scan(s, cur).1 <= s.len(),
        spec_scan(s, cur).0 is None ==> spec_scan(s, cur).1 == cur || spec_scan(s, cur).1
            == s.len(),
{
    if cur < s.len() {
        lemma_skip_pos(s, cur);
        let skip = skip_pos(s, cur);
        if skip < s.len() {
            if skip == cur && is_token_break_char(s[cur]) {
                lemma_run_end(s, cur);
                assert(run_end(s, cur) > cur);
            } else {
                lemma_break_pos(s, skip);
                if skip == cur {
                    assert(!is_break_char(s[cur]) || is_space_char(s[cur]));
                    assert(!is_consume_char(s[cur]));
                    assert(break_pos(s, cur) > cur);
                }
            }
        }
    }
}

/// A restartable, lazy, finite stream of the tokens of one text.
#[derive(Debug, Copy, Clone)]
pub struct TokenIterator<'a> {
    pub text: &'a str,
    pub current: usize,
}

impl<'a> TokenIterator<'a> {
    /// The position the next scan starts from.
    pub open spec fn pos(&self) -> int {
        self.current as int
    }

    /// The tokenizer's position never runs past the text.
    pub open spec fn wf(&self) -> bool {
        0 <= self.pos() <= self.text@.len() && self.text@.len() <= usize::MAX
    }

    pub fn new(text: &'a str) -> (r: TokenIterator<'a>)
        ensures
            r.text@ == text@,
            r.pos() == 0,
            text@.len() <= usize::MAX ==> r.wf(),
    {
        TokenIterator { text, current: 0 }
    }

    /// The next token of the text, if any: tokens are handed out in order,
    /// with whitespace consumed and never emitted.
    pub fn next(&mut self) -> (r: Option<Token<'a>>)
        requires
            old(self).wf(),
        ensures
            final(self).wf(),
            final(self).text@ == old(self).text@,
            final(self).pos() == spec_scan(old(self).text@, old(self).pos()).1,
            match r {
                Option::Some(t) => spec_scan(old(self).text@, old(self).pos()).0
                    == Option::Some((t.text@, t.start as int, t.end as int)),
                Option::None => spec_scan(old(self).text@, old(self).pos()).0 is None,
            },
    {
        let ghost s = self.text@;
        let ghost cur = self.pos();
        proof {
            lemma_scan_advances(s, cur);
            lemma_skip_pos(s, cur);
        }
        let len = self.text.unicode_len();
        if self.current >= len {
            return Option::None;
        }
        // Skip the whitespace before the token.
        let mut skip: usize = self.current;
        while skip < len
            invariant
                cur <= skip <= len,
                len == s.len(),
                s == self.text@,
                skip_pos(s, cur) == skip_pos(s, skip as int),
            ensures
                cur <= skip <= len,
                len == s.len(),
                skip_pos(s, cur) == skip as int || (skip == len && skip_pos(s, cur) == len),
            decreases len - skip,
        {
            if !is_consume(self.text.get_char(skip)) {
                proof {
                    assert(skip_pos(s, skip as int) == skip);
                }
                break;
            }
            skip += 1;
        }
        if skip >= len {
            self.current = len;
            return Option::None;
        }
        let c = self.text.get_char(skip);
        if skip == self.current && is_break(c) {
            // A run of self-breaking characters merges into one token.
            let mut end: usize = skip;
            while end < len
                invariant
                    skip <= end <= len,
                    len == s.len(),
                    s == self.text@,
                    run_end(s, skip as int) == run_end(s, end as int),
                ensures
                    skip <= end <= len,
                    len == s.len(),
                    run_end(s, skip as int) == end as int || (end == len && run_end(
                        s,
                        skip as int,
                    ) == len),
                decreases len - end,
            {
                let cc = self.text.get_char(end);
                if is_space(cc) || !is_break(cc) {
                    proof {
                        assert(run_end(s, end as int) == end);
                    }
                    break;
                }
                end += 1;
            }
            let token_text = self.text.substring_char(skip, end);
            let start = self.current;
            self.current = end;
            return Option::Some(Token { text: token_text, start, end });
        }
        // An ordinary token: from the first non-whitespace character to the
        // next break.
        let mut fb: usize = skip;
        while fb < len
            invariant
                skip <= fb <= len,
                len == s.len(),
                s == self.text@,
                break_pos(s, skip as int) == break_pos(s, fb as int),
            ensures
                skip <= fb <= len,
                len == s.len(),
                break_pos(s, skip as int) == fb as int || (fb == len && break_pos(
                    s,
                    skip as int,
                ) == len),
            decreases len - fb,
        {
            if is_break(self.text.get_char(fb)) {
                proof {
                    assert(break_pos(s, fb as int) == fb);
                }
                break;
            }
            fb += 1;
        }
        let token_text = self.text.substring_char(skip, fb);
        let start = self.current;
        let end = fb;
        if fb >= len {
            self.current = len;
        } else if is_consume(self.text.get_char(fb)) {
            self.current = fb + 1;
        } else {
            self.current = fb;
        }
        Option::Some(Token { text: token_text, start, end })
    }
}

/// The tokens of `s` from position `cur` on: what repeatedly scanning yields.
pub open spec fn spec_tokens_from(s: Seq<char>, cur: int) -> Seq<(Seq<char>, int, int)>
    decreases s.len() - cur, s.len() - cur + 1,
        when 0 <= cur
    via spec_tokens_from_decreases
{
    match spec_scan(s, cur).0 {
        Option::None => Seq::empty(),
        Option::Some(t) => seq![t] + spec_tokens_from(s, spec_scan(s, cur).1),
    }
}

#[via_fn]
proof fn spec_tokens_from_decreases(s: Seq<char>, cur: int) {
    lemma_scan_advances(s, cur);
}

/// All the tokens of a text, in order.
pub open spec fn spec_tokens(s: Seq<char>) -> Seq<(Seq<char>, int, int)> {
    spec_tokens_from(s, 0)
}

/// Collects all the tokens of a text into a vector.
pub fn tokenize(text: &str) -> (r: Vec<Token<'_>>)
    ensures
        r@.len() == spec_tokens(text@).len(),
        forall|i: int|
            0 <= i < r@.len() ==> {
                let t = #[trigger] r@[i];
                spec_tokens(text@)[i] == (t.text@, t.start as int, t.end as int)
            },
{
    let len = text.unicode_len();
    let mut iterator = TokenIterator::new(text);
    let mut out: Vec<Token> = Vec::new();
    let ghost total = spec_tokens(text@);
    loop
        invariant
            iterator.wf(),
            iterator.text@ == text@,
            total == spec_tokens(text@),
            out@.len() + spec_tokens_from(text@, iterator.pos()).len() == total.len(),
            forall|i: int|
                0 <= i < out@.len() ==> {
                    let t = #[trigger] out@[i];
                    total[i] == (t.text@, t.start as int, t.end as int)
                },
            forall|i: int|
                0 <= i < spec_tokens_from(text@, iterator.pos()).len() ==> total[out@.len() + i]
                    == #[trigger] spec_tokens_from(text@, iterator.pos())[i],
        ensures
            out@.len() == total.len(),
            forall|i: int|
                0 <= i < out@.len() ==> {
                    let t = #[trigger] out@[i];
                    total[i] == (t.text@, t.start as int, t.end as int)
                },
        decreases iterator.text@.len() - iterator.pos() + 1,
    {
        let ghost before = iterator.pos();
        let ghost remaining = spec_tokens_from(text@, before);
        proof {
            lemma_scan_advances(text@, before);
        }
        match iterator.next() {
            Option::Some(token) => {
                let ghost stepped = spec_tokens_from(text@, iterator.pos());
                proof {
                    assert(remaining == seq![(token.text@, token.start as int, token.end as int)]
                        + stepped);
                    assert(remaining[0] == (token.text@, token.start as int, token.end as int));
                    assert(total[out@.len() as int] == (
                        token.text@,
                        token.start as int,
                        token.end as int,
                    ));
                    assert(forall|i: int| 0 <= i < stepped.len() ==> remaining[i + 1] == #[trigger]
                        stepped[i]);
                }
                out.push(token);
            },
            Option::None => {
                proof {
                    assert(remaining == Seq::<(Seq<char>, int, int)>::empty());
                    let after = iterator.pos();
                    assert(after == before || after == text@.len());
                    if after == text@.len() as int {
                        assert(spec_scan(text@, after).0 is None);
                        assert(spec_tokens_from(text@, after) == Seq::<(
                            Seq<char>,
                            int,
                            int,
                        )>::empty());
                    }
                }
                break;
            },
        }
    }
    out
}

impl<'a> TokenIterator<'a> {
    /// The scan position, for callers that drive the iterator by hand.
    pub fn current_pos(&self) -> (r: usize)
        ensures
            r == self.pos(),
    {
        self.current
    }

    /// The length of the underlying text, in characters.
    pub fn text_len(&self) -> (r: usize)
        ensures
            r == self.text@.len(),
    {
        self.text.unicode_len()
    }
}

} // verus!
