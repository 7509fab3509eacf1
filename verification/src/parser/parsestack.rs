//! The statement-splitting layer: greedily matches `;`-terminated runs of
//! symbol tokens off the front of a token stream, so one source blob can
//! hold several grammar statements.

use vstd::prelude::*;

use crate::error::{Error, ErrorKind};
use crate::parser::iterator::{spec_tokens_from, TokenIterator};
use crate::parser::statement::{
    ps_match_from,
    scanned_texts,
    texts_of,
    tokens_classified,
    Match,
    Statement,
    StatementKind,
};
use crate::parser::token::{spec_token_kind, Token};

verus! {

/// Splits a token stream into statements: each matched run of tokens is
/// pushed as one [`Statement`].
#[derive(Debug)]
pub struct ParseStack<'a> {
    /// The statements matched so far, in order.
    pub stack: Vec<Statement<'a>>,
    /// The remaining input.
    pub iterator: TokenIterator<'a>,
}

/// The end index of each statement that the greedy split matches from index
/// `i` on, in order; the list stops at the first run that fails to match.
pub open spec fn greedy_statement_ends(texts: Seq<Seq<char>>, i: int) -> Seq<int>
    decreases texts.len() - i, texts.len() - i + 1,
        when 0 <= i && texts.len() <= usize::MAX
    via greedy_statement_ends_decreases
{
    if i >= texts.len() {
        Seq::empty()
    } else {
        match ps_match_from(texts, i) {
            Match::Matches(n) => seq![n as int] + greedy_statement_ends(texts, n as int),
            Match::No(_) => Seq::empty(),
        }
    }
}

#[via_fn]
proof fn greedy_statement_ends_decreases(texts: Seq<Seq<char>>, i: int) {
    if 0 <= i < texts.len() && texts.len() <= usize::MAX {
        lemma_ps_match_bounds(texts, i);
    }
}

/// Where the greedy split stops reading: the last matched end, or the start
/// when nothing matches.
pub open spec fn greedy_consumed(texts: Seq<Seq<char>>, i: int) -> int {
    let ends = greedy_statement_ends(texts, i);
    if ends.len() == 0 {
        i
    } else {
        ends.last()
    }
}

/// Whether the whole token list splits into `;`-terminated symbol runs.
pub open spec fn splits_cleanly(texts: Seq<Seq<char>>) -> bool {
    greedy_consumed(texts, 0) == texts.len()
}

/// A successful match always consumes at least one token past the start.
pub proof fn lemma_ps_match_bounds(texts: Seq<Seq<char>>, i: int)
    requires
        0 <= i,
        texts.len() <= usize::MAX,
    ensures
        ps_match_from(texts, i) matches Match::Matches(n) ==> i < n <= texts.len(),
    decreases texts.len() - i,
{
    if 0 <= i < texts.len() {
        lemma_ps_match_bounds(texts, i + 1);
    }
}

/// What the statement pushed for the `k`-th matched run holds: a
/// production-string statement without error, whose tokens carry exactly the
/// texts of that run, classified.
pub open spec fn pushed_statement_ok(
    stmt: Statement,
    texts: Seq<Seq<char>>,
    ends: Seq<int>,
    k: int,
) -> bool {
    let from = if k == 0 {
        0int
    } else {
        ends[k - 1]
    };
    &&& stmt.spec_kind() == StatementKind::ProductionString
    &&& stmt.spec_error() is None
    &&& texts_of(stmt.spec_tokens()) == texts.subrange(from, ends[k])
    &&& tokens_classified(stmt.spec_tokens())
}

impl<'a> ParseStack<'a> {
    /// The iterator's remaining input, as a spec-level value.
    pub open spec fn spec_iterator(&self) -> TokenIterator<'a> {
        self.iterator
    }

    /// The stack's iterator stays within its text.
    pub open spec fn wf(&self) -> bool {
        self.spec_iterator().wf()
    }

    pub fn new(iterator: TokenIterator<'a>) -> (r: Self)
        ensures
            r.spec_iterator() == iterator,
            r.stack@ =~= Seq::<Statement<'a>>::empty(),
    {
        ParseStack { stack: Vec::new(), iterator }
    }

    /// Greedily matches `;`-terminated runs of symbol tokens, pushing one
    /// [`StatementKind::ProductionString`] statement per matched run, in
    /// order, each holding that run's tokens. Succeeds exactly when the
    /// whole remaining input splits into such runs; otherwise it fails with
    /// a parse error, with the statements matched so far still pushed.
    pub fn parse(&mut self) -> (r: Result<(), Error>)
        requires
            old(self).wf(),
        ensures
            final(self).wf(),
            ({
                let texts = scanned_texts(
                    spec_tokens_from(
                        old(self).spec_iterator().text@,
                        old(self).spec_iterator().pos(),
                    ),
                );
                let ends = greedy_statement_ends(texts, 0);
                &&& (r is Ok <==> splits_cleanly(texts))
                &&& final(self).stack@.len() == old(self).stack@.len() + ends.len()
                &&& forall|k: int|
                    0 <= k < old(self).stack@.len() ==> final(self).stack@[k] == old(
                        self,
                    ).stack@[k]
                &&& forall|k: int|
                    0 <= k < ends.len() ==> pushed_statement_ok(
                        #[trigger] final(self).stack@[old(self).stack@.len() + k],
                        texts,
                        ends,
                        k,
                    )
            }),
            r matches Err(e) ==> e.spec_kind() == ErrorKind::Parse,
    {
        let ghost s = self.iterator.text@;
        let ghost start = self.iterator.pos();
        let ghost full = spec_tokens_from(s, start);
        let ghost texts = scanned_texts(full);
        let ghost ends = greedy_statement_ends(texts, 0);
        let ghost base = self.stack@.len();
        let mut consumed: usize = 0;
        let ghost mut k: int = 0;
        proof {
            crate::parser::statement::lemma_tokens_count(s, start);
        }
        loop
            invariant_except_break
                self.wf(),
                self.iterator.text@ == s,
                full == spec_tokens_from(s, start),
                texts == scanned_texts(full),
                ends == greedy_statement_ends(texts, 0),
                texts.len() <= s.len(),
                base == old(self).stack@.len(),
                0 <= k <= ends.len(),
                consumed as int == if k == 0 {
                    0int
                } else {
                    ends[k - 1]
                },
                consumed <= texts.len(),
                greedy_statement_ends(texts, consumed as int) =~= ends.skip(k),
                spec_tokens_from(s, self.iterator.pos()) =~= full.skip(consumed as int),
                self.stack@.len() == base + k,
                forall|j: int| 0 <= j < base ==> self.stack@[j] == old(self).stack@[j],
                forall|j: int|
                    0 <= j < k ==> pushed_statement_ok(
                        #[trigger] self.stack@[base + j],
                        texts,
                        ends,
                        j,
                    ),
            ensures
                self.wf(),
                self.iterator.text@ == s,
                texts.len() <= s.len(),
                k == ends.len(),
                consumed as int == greedy_consumed(texts, 0),
                consumed <= texts.len(),
                spec_tokens_from(s, self.iterator.pos()) =~= full.skip(consumed as int),
                self.stack@.len() == base + ends.len(),
                forall|j: int| 0 <= j < base ==> self.stack@[j] == old(self).stack@[j],
                forall|j: int|
                    0 <= j < ends.len() ==> pushed_statement_ok(
                        #[trigger] self.stack@[base + j],
                        texts,
                        ends,
                        j,
                    ),
            decreases texts.len() - consumed,
        {
            let matched = crate::parser::statement::prod_string_matches(self.iterator);
            let ghost before = consumed as int;
            proof {
                assert(scanned_texts(spec_tokens_from(s, self.iterator.pos())) =~= texts.skip(
                    before,
                ));
                lemma_ps_match_skip(texts, before);
                lemma_ps_match_bounds(texts, before);
            }
            match matched {
                Match::Matches(n) => {
                    proof {
                        assert(ps_match_from(texts, before) matches Match::Matches(m) && m as int
                            == before + n);
                        assert(before + n <= texts.len());
                        assert(greedy_statement_ends(texts, before) == seq![before + n]
                            + greedy_statement_ends(texts, before + n));
                        assert(ends.skip(k)[0] == before + n);
                        assert(ends[k] == before + n);
                        assert(ends.skip(k).drop_first() =~= ends.skip(k + 1));
                    }
                    let tokens = self.advance(n);
                    let ghost pushed_tokens = tokens@;
                    self.stack.push(Statement::new(StatementKind::ProductionString, tokens));
                    consumed = consumed + n;
                    proof {
                        assert(full.skip(before).skip(n as int) =~= full.skip(consumed as int));
                        assert(texts_of(pushed_tokens) =~= texts.subrange(
                            before,
                            consumed as int,
                        )) by {
                            assert forall|j: int| 0 <= j < n implies texts_of(pushed_tokens)[j]
                                == texts[before + j] by {
                                assert(pushed_tokens[j].text@ == full.skip(before)[j].0);
                                assert(full.skip(before)[j] == full[before + j]);
                            }
                        }
                        assert(pushed_statement_ok(self.stack@[base + k], texts, ends, k));
                        k = k + 1;
                        assert(self.stack@.len() == base + k);
                    }
                },
                Match::No(_) => {
                    proof {
                        assert(greedy_statement_ends(texts, before) =~= Seq::<int>::empty());
                        assert(ends.skip(k).len() == 0);
                        assert(k == ends.len());
                    }
                    break;
                },
            }
        }
        // Either the input is exhausted, or a token remains where a
        // statement boundary was expected.
        let mut probe = self.iterator;
        match probe.next() {
            Option::None => {
                proof {
                    assert(full.skip(consumed as int).len() == 0);
                    assert(consumed as int == texts.len());
                }
                Ok(())
            },
            Option::Some(_) => {
                proof {
                    assert(full.skip(consumed as int).len() > 0);
                    assert(consumed < texts.len());
                }
                Err(Error::new(ErrorKind::Parse, "expected end of statement"))
            },
        }
    }

    /// Takes the next `n` tokens off the iterator, classified: each returned
    /// token carries the text and span of the scanned token it came from.
    fn advance(&mut self, n: usize) -> (r: Vec<Token<'a>>)
        requires
            old(self).wf(),
            n <= spec_tokens_from(
                old(self).spec_iterator().text@,
                old(self).spec_iterator().pos(),
            ).len(),
        ensures
            final(self).wf(),
            final(self).spec_iterator().text@ == old(self).spec_iterator().text@,
            final(self).stack@ == old(self).stack@,
            spec_tokens_from(final(self).spec_iterator().text@, final(self).spec_iterator().pos())
                =~= spec_tokens_from(
                old(self).spec_iterator().text@,
                old(self).spec_iterator().pos(),
            ).skip(n as int),
            r@.len() == n,
            forall|j: int|
                0 <= j < n ==> {
                    let t = #[trigger] r@[j];
                    let scanned = spec_tokens_from(
                        old(self).spec_iterator().text@,
                        old(self).spec_iterator().pos(),
                    )[j];
                    &&& t.text@ == scanned.0
                    &&& t.start as int == scanned.1
                    &&& t.end as int == scanned.2
                    &&& t.kind == spec_token_kind(t.text@)
                },
    {
        let ghost s = self.iterator.text@;
        let ghost full = spec_tokens_from(s, old(self).spec_iterator().pos());
        let mut out: Vec<Token<'a>> = Vec::new();
        let mut taken: usize = 0;
        while taken < n
            invariant
                self.wf(),
                self.iterator.text@ == s,
                self.stack@ == old(self).stack@,
                taken <= n <= full.len(),
                full == spec_tokens_from(s, old(self).spec_iterator().pos()),
                spec_tokens_from(s, self.iterator.pos()) =~= full.skip(taken as int),
                out@.len() == taken,
                forall|j: int|
                    0 <= j < taken ==> {
                        let t = #[trigger] out@[j];
                        &&& t.text@ == full[j].0
                        &&& t.start as int == full[j].1
                        &&& t.end as int == full[j].2
                        &&& t.kind == spec_token_kind(t.text@)
                    },
            decreases n - taken,
        {
            let ghost pos_before = self.iterator.pos();
            proof {
                crate::parser::iterator::lemma_scan_advances(s, pos_before);
                assert(full.skip(taken as int).len() > 0);
            }
            match self.iterator.next() {
                Option::Some(raw) => {
                    proof {
                        assert(full.skip(taken as int)[0] == full[taken as int]);
                        assert(full.skip(taken as int).drop_first() =~= full.skip(taken + 1));
                    }
                    out.push(Token::new(raw.text, raw.start, raw.end));
                },
                Option::None => {
                    proof {
                        assert(false);
                    }
                },
            }
            taken += 1;
        }
        out
    }
}

/// Matching a suffix of the texts reads the same kinds as matching the full
/// list from the suffix's start.
pub proof fn lemma_ps_match_skip(texts: Seq<Seq<char>>, i: int)
    requires
        0 <= i <= texts.len(),
        texts.len() <= usize::MAX,
    ensures
        ps_match_from(texts.skip(i), 0) == shift_match(ps_match_from(texts, i), i),
    decreases texts.len() - i,
{
    lemma_ps_match_skip_general(texts, i, i);
}

/// The match result from `j` within the suffix starting at `i` mirrors the
/// match from `j` in the full list, with counts shifted by `i`.
proof fn lemma_ps_match_skip_general(texts: Seq<Seq<char>>, i: int, j: int)
    requires
        0 <= i <= j <= texts.len(),
        texts.len() <= usize::MAX,
    ensures
        ps_match_from(texts.skip(i), j - i) == shift_match(ps_match_from(texts, j), i),
    decreases texts.len() - j,
{
    if j < texts.len() {
        assert(texts.skip(i)[j - i] == texts[j]);
        lemma_ps_match_skip_general(texts, i, j + 1);
    }
}

/// A match result with its counts shifted down by `i`: what the same match
/// reports when the first `i` tokens are not part of the input.
pub open spec fn shift_match(m: Match, i: int) -> Match {
    match m {
        Match::Matches(n) => Match::Matches((n - i) as usize),
        Match::No(n) => Match::No(
            if n == 0 {
                0
            } else {
                (n - i) as usize
            },
        ),
    }
}

} // verus!
