//! A group of [`Production`] rules over strings of symbols, and the engine
//! that derives new strings from them.
//!
//! [`System`] is the facade that collaborators use: it owns the productions
//! a grammar knows (at most one per distinct head; registering a head again
//! merges the new alternatives into the existing production) and the set of
//! symbol codes it has locally registered, its vocabulary. The interner that
//! names resolve through is passed in by the caller, so that any number of
//! grammars can share one table.
//!
//! The free functions [`find_matching`], [`derive_once`] and [`derive`] work
//! on a plain list of productions for callers that keep their own stores.

use vstd::prelude::*;

pub mod family;

use crate::CHANCE_SCALE;
use crate::error::{Error, ErrorKind};
use crate::parser;
use crate::productions::{
    bodies_chances_wf,
    invalid_distribution,
    prods_view,
    spec_head_matches,
    spec_selection,
    HeadModel,
    Production,
    ProductionHead,
    ProductionModel,
    ProductionStore,
};
use crate::strings::{ProductionString, SymbolIterable};
use crate::symbols::{spec_intern, first_index, Symbol, SymbolStore, SymbolTable, FIRST_CODE};

verus! {

/// How many derivation iterations a run performs unless the caller says
/// otherwise.
pub const DEFAULT_MAX_ITERATIONS: usize = 10;

/// Defines constraints on deriving strings from a [`System`].
#[derive(Debug, Clone, Copy)]
pub struct RunSettings {
    /// The number of iterations that a derivation performs. A derivation
    /// applies its rules exactly this many times; an unchanging string is a
    /// valid outcome, not a stopping condition.
    pub max_iterations: usize,
}

impl RunSettings {
    pub fn for_max_iterations(max_iterations: usize) -> (r: Self)
        ensures
            r.max_iterations == max_iterations,
    {
        RunSettings { max_iterations }
    }
}

impl Default for RunSettings {
    fn default() -> (r: Self)
        ensures
            r.max_iterations == DEFAULT_MAX_ITERATIONS,
    {
        RunSettings { max_iterations: DEFAULT_MAX_ITERATIONS }
    }
}

impl From<usize> for RunSettings {
    /// A bare number is read as the iteration count.
    fn from(value: usize) -> (r: Self) {
        RunSettings::for_max_iterations(value)
    }
}

impl vstd::std_specs::convert::FromSpecImpl<usize> for RunSettings {
    open spec fn obeys_from_spec() -> bool {
        true
    }

    open spec fn from_spec(value: usize) -> Self {
        RunSettings { max_iterations: value }
    }
}

/// Every chance of every production in the list is well-formed.
pub open spec fn models_chances_wf(prods: Seq<ProductionModel>) -> bool {
    forall|i: int| 0 <= i < prods.len() ==> bodies_chances_wf((#[trigger] prods[i]).bodies)
}

/// The first production at or after `j` whose head matches `s` at `pos`.
pub open spec fn first_match_from(
    prods: Seq<ProductionModel>,
    s: Seq<Symbol>,
    pos: int,
    j: int,
) -> Option<ProductionModel>
    decreases prods.len() - j,
{
    if j < 0 || j >= prods.len() {
        Option::None
    } else if spec_head_matches(prods[j].head, s, pos) {
        Option::Some(prods[j])
    } else {
        first_match_from(prods, s, pos, j + 1)
    }
}

/// The first production, in registration order, whose head matches `s` at
/// `pos`, if any.
pub open spec fn spec_find_matching(
    prods: Seq<ProductionModel>,
    s: Seq<Symbol>,
    pos: int,
) -> Option<ProductionModel> {
    first_match_from(prods, s, pos, 0)
}

/// A found match is one of the productions.
pub proof fn lemma_first_match_element(
    prods: Seq<ProductionModel>,
    s: Seq<Symbol>,
    pos: int,
    j: int,
)
    ensures
        first_match_from(prods, s, pos, j) matches Some(m) ==> exists|k: int|
            0 <= k < prods.len() && prods[k] == m,
    decreases prods.len() - j,
{
    if 0 <= j < prods.len() && !spec_head_matches(prods[j].head, s, pos) {
        lemma_first_match_element(prods, s, pos, j + 1);
    }
}

/// Every draw lies in `(0, CHANCE_SCALE]`.
pub open spec fn valid_draws(draws: Seq<u32>) -> bool {
    forall|i: int| 0 <= i < draws.len() ==> 1 <= #[trigger] draws[i] <= CHANCE_SCALE
}

/// What one position of the input contributes to a rewriting pass: the
/// string of the body that the draw selects from the first matching
/// production, or the symbol itself if no production matches.
pub open spec fn rewrite_at(
    prods: Seq<ProductionModel>,
    s: Seq<Symbol>,
    draws: Seq<u32>,
    i: int,
) -> Seq<Symbol> {
    match spec_find_matching(prods, s, i) {
        Option::Some(m) => spec_selection(m.bodies, draws[i] as int).string,
        Option::None => seq![s[i]],
    }
}

/// The concatenated contributions of the first `n` positions.
pub open spec fn rewrite_upto(
    prods: Seq<ProductionModel>,
    s: Seq<Symbol>,
    draws: Seq<u32>,
    n: int,
) -> Seq<Symbol>
    decreases n,
{
    if n <= 0 {
        Seq::empty()
    } else {
        rewrite_upto(prods, s, draws, n - 1) + rewrite_at(prods, s, draws, n - 1)
    }
}

/// One rewriting pass over the whole input, with one draw per position.
pub open spec fn spec_derive_once(
    prods: Seq<ProductionModel>,
    s: Seq<Symbol>,
    draws: Seq<u32>,
) -> Seq<Symbol> {
    rewrite_upto(prods, s, draws, s.len() as int)
}

/// A rewriting pass reads only the draws of the positions it covers, so
/// appending further draws changes nothing.
pub proof fn lemma_rewrite_upto_extend(
    prods: Seq<ProductionModel>,
    s: Seq<Symbol>,
    draws: Seq<u32>,
    d: u32,
    n: int,
)
    requires
        n <= draws.len(),
    ensures
        rewrite_upto(prods, s, draws.push(d), n) == rewrite_upto(prods, s, draws, n),
    decreases n,
{
    if n > 0 {
        lemma_rewrite_upto_extend(prods, s, draws, d, n - 1);
        assert(draws.push(d)[n - 1] == draws[n - 1]);
    }
}

/// Whether some position of `s` is matched by a production that cannot be
/// selected from. Deriving fails exactly on such inputs.
pub open spec fn some_invalid_match(prods: Seq<ProductionModel>, s: Seq<Symbol>) -> bool {
    exists|i: int|
        0 <= i < s.len() && (#[trigger] spec_find_matching(prods, s, i) matches Some(m)
            && invalid_distribution(m.bodies))
}

/// Every production in the list can be selected from.
pub open spec fn all_valid(prods: Seq<ProductionModel>) -> bool {
    forall|i: int| 0 <= i < prods.len() ==> !invalid_distribution((#[trigger] prods[i]).bodies)
}

/// One step of the derivation relation: `t` is an outcome of rewriting `s`
/// once, for some choice of draws.
pub open spec fn rewrite_step(prods: Seq<ProductionModel>, s: Seq<Symbol>, t: Seq<Symbol>) -> bool {
    exists|draws: Seq<u32>|
        draws.len() == s.len() && valid_draws(draws) && t == spec_derive_once(prods, s, draws)
}

/// There is a derivation chain of `n` rewriting steps from `s0` to `sn`.
pub open spec fn derivable_in(
    prods: Seq<ProductionModel>,
    s0: Seq<Symbol>,
    sn: Seq<Symbol>,
    n: int,
) -> bool {
    exists|steps: Seq<Seq<Symbol>>| derivation_chain(prods, steps, s0, sn, n)
}

/// A derivation chain: `n` rewriting steps from `s0` to `sn`.
pub open spec fn derivation_chain(
    prods: Seq<ProductionModel>,
    chain: Seq<Seq<Symbol>>,
    s0: Seq<Symbol>,
    sn: Seq<Symbol>,
    n: int,
) -> bool {
    &&& chain.len() == n + 1
    &&& chain[0] == s0
    &&& chain[n] == sn
    &&& forall|k: int| 0 <= k < n ==> rewrite_step(prods, #[trigger] chain[k], chain[k + 1])
}

/// Given a list of productions, this returns a reference to the first
/// production, in registration order, that matches the string at the given
/// position.
pub fn find_matching<'a>(
    productions: &'a Vec<Production>,
    string: &ProductionString,
    index: usize,
) -> (r: Option<&'a Production>)
    ensures
        match r {
            Option::Some(p) => spec_find_matching(prods_view(productions@), string@, index as int)
                == Option::Some(p@),
            Option::None => spec_find_matching(prods_view(productions@), string@, index as int)
                is None,
        },
{
    let ghost prods = prods_view(productions@);
    let mut j: usize = 0;
    while j < productions.len()
        invariant
            0 <= j <= prods.len(),
            prods == prods_view(productions@),
            prods.len() == productions@.len(),
            first_match_from(prods, string@, index as int, j as int) == spec_find_matching(
                prods,
                string@,
                index as int,
            ),
        decreases prods.len() - j,
    {
        proof {
            assert(prods[j as int] == productions@[j as int]@);
        }
        if productions[j].matches(string, index) {
            return Option::Some(&productions[j]);
        }
        j += 1;
    }
    Option::None
}

/// Appends every symbol of `extra` to the end of `target`.
fn append_symbols(target: &mut ProductionString, extra: &ProductionString)
    ensures
        final(target)@ == old(target)@ + extra@,
{
    let mut k: usize = 0;
    while k < extra.len()
        invariant
            k <= extra@.len(),
            target@ == old(target)@ + extra@.take(k as int),
        decreases extra@.len() - k,
    {
        target.push_symbol(extra.symbol_at(k));
        proof {
            assert(old(target)@ + extra@.take(k as int) + seq![extra@[k as int]] =~= old(target)@
                + extra@.take(k + 1));
        }
        k += 1;
    }
    proof {
        assert(extra@.take(extra@.len() as int) =~= extra@);
        assert(old(target)@ + extra@.take(extra@.len() as int) =~= old(target)@ + extra@);
    }
}

/// Runs one rewriting pass over the string with the given draws, one per
/// position: each position is replaced by the selected body of the first
/// matching production, or copied unchanged if no production matches. The
/// result is a brand-new string.
pub fn derive_once_with_draws(
    string: &ProductionString,
    productions: &Vec<Production>,
    draws: &Vec<u32>,
) -> (r: Result<ProductionString, Error>)
    requires
        draws@.len() == string@.len(),
        valid_draws(draws@),
        models_chances_wf(prods_view(productions@)),
    ensures
        r is Err <==> some_invalid_match(prods_view(productions@), string@),
        r matches Ok(out) ==> out@ == spec_derive_once(prods_view(productions@), string@, draws@),
        r matches Err(e) ==> e.spec_kind() == ErrorKind::Definitions || e.spec_kind()
            == ErrorKind::Execution,
{
    let ghost prods = prods_view(productions@);
    let mut result = ProductionString::new();
    let mut index: usize = 0;
    let len = string.len();
    while index < len
        invariant
            0 <= index <= len,
            len == string@.len(),
            prods == prods_view(productions@),
            draws@.len() == string@.len(),
            valid_draws(draws@),
            models_chances_wf(prods),
            result@ == rewrite_upto(prods, string@, draws@, index as int),
            forall|i: int|
                0 <= i < index ==> !(#[trigger] spec_find_matching(prods, string@, i) matches Some(
                    m,
                ) && invalid_distribution(m.bodies)),
        decreases len - index,
    {
        match find_matching(productions, string, index) {
            Option::Some(production) => {
                proof {
                    lemma_first_match_element(prods, string@, index as int, 0);
                }
                match production.select_body(draws[index]) {
                    Ok(body) => {
                        append_symbols(&mut result, body.string());
                    },
                    Err(e) => {
                        return Err(e);
                    },
                }
            },
            Option::None => {
                result.push_symbol(string.symbol_at(index));
                proof {
                    assert(result@ =~= rewrite_upto(prods, string@, draws@, index as int) + seq![
                        string@[index as int],
                    ]);
                }
            },
        }
        index += 1;
    }
    Ok(result)
}

/// Runs one rewriting pass over the string, drawing fresh randomness for
/// each position: each position is replaced by a stochastically selected
/// body of the first matching production, or copied unchanged if none
/// matches. An empty input immediately yields an empty output.
///
/// Whatever was drawn, the result is the outcome of
/// [`derive_once_with_draws`] for some sequence of draws; the pass fails
/// exactly when some position is matched by a production that cannot be
/// selected from.
pub fn derive_once(string: ProductionString, productions: &Vec<Production>) -> (r: Result<
    ProductionString,
    Error,
>)
    requires
        models_chances_wf(prods_view(productions@)),
    ensures
        r is Err <==> some_invalid_match(prods_view(productions@), string@),
        r matches Ok(out) ==> exists|draws: Seq<u32>|
            draws.len() == string@.len() && valid_draws(draws) && out@ == spec_derive_once(
                prods_view(productions@),
                string@,
                draws,
            ),
        string@.len() == 0 ==> (r matches Ok(out) && out@ == Seq::<Symbol>::empty()),
        r matches Err(e) ==> e.spec_kind() == ErrorKind::Definitions || e.spec_kind()
            == ErrorKind::Execution,
{
    let ghost prods = prods_view(productions@);
    if string.is_empty() {
        let out = ProductionString::empty();
        proof {
            let draws = Seq::<u32>::empty();
            assert(draws.len() == string@.len() && valid_draws(draws) && out@ == spec_derive_once(
                prods,
                string@,
                draws,
            ));
        }
        return Ok(out);
    }
    let mut result = ProductionString::new();
    let ghost mut draws: Seq<u32> = Seq::empty();
    let mut index: usize = 0;
    let len = string.len();
    while index < len
        invariant
            0 <= index <= len,
            len == string@.len(),
            prods == prods_view(productions@),
            models_chances_wf(prods),
            draws.len() == index,
            valid_draws(draws),
            result@ == rewrite_upto(prods, string@, draws, index as int),
            forall|i: int|
                0 <= i < index ==> !(#[trigger] spec_find_matching(prods, string@, i) matches Some(
                    m,
                ) && invalid_distribution(m.bodies)),
        decreases len - index,
    {
        match find_matching(productions, &string, index) {
            Option::Some(production) => {
                proof {
                    lemma_first_match_element(prods, string@, index as int, 0);
                }
                match production.body() {
                    Ok(body) => {
                        append_symbols(&mut result, body.string());
                        proof {
                            let d = choose|d: u32|
                                1 <= d <= CHANCE_SCALE && body@ == spec_selection(
                                    production@.bodies,
                                    d as int,
                                );
                            lemma_rewrite_upto_extend(prods, string@, draws, d, index as int);
                            draws = draws.push(d);
                            assert(draws[index as int] == d);
                            assert(result@ =~= rewrite_upto(prods, string@, draws, index + 1));
                        }
                    },
                    Err(e) => {
                        return Err(e);
                    },
                }
            },
            Option::None => {
                result.push_symbol(string.symbol_at(index));
                proof {
                    lemma_rewrite_upto_extend(prods, string@, draws, 1u32, index as int);
                    draws = draws.push(1u32);
                    assert(result@ =~= rewrite_upto(prods, string@, draws, index + 1));
                }
            },
        }
        index += 1;
    }
    Ok(result)
}

/// Applies [`derive_once`] to the string exactly `settings.max_iterations`
/// times, unconditionally: reaching a fixpoint is not a stopping condition.
/// A failure in any iteration aborts the remaining iterations and surfaces
/// that error. An empty input yields an empty output, whatever the
/// iteration count; and when every production has a valid distribution, the
/// derivation always succeeds.
pub fn derive(
    string: ProductionString,
    productions: &Vec<Production>,
    settings: RunSettings,
) -> (r: Result<ProductionString, Error>)
    requires
        models_chances_wf(prods_view(productions@)),
    ensures
        string@.len() == 0 ==> (r matches Ok(out) && out@ == Seq::<Symbol>::empty()),
        settings.max_iterations == 0 ==> (r matches Ok(out) && out@ == string@),
        r matches Ok(out) ==> derivable_in(
            prods_view(productions@),
            string@,
            out@,
            settings.max_iterations as int,
        ),
        all_valid(prods_view(productions@)) ==> r is Ok,
        r matches Err(e) ==> (e.spec_kind() == ErrorKind::Definitions || e.spec_kind()
            == ErrorKind::Execution) && exists|k: int, t: Seq<Symbol>|
            {
                &&& 0 <= k < settings.max_iterations
                &&& #[trigger] derivable_in(prods_view(productions@), string@, t, k)
                &&& some_invalid_match(prods_view(productions@), t)
            },
{
    let ghost prods = prods_view(productions@);
    let ghost n = settings.max_iterations as int;
    if string.is_empty() {
        let out = ProductionString::empty();
        proof {
            assert(string@ =~= Seq::<Symbol>::empty());
            assert(out@ =~= Seq::<Symbol>::empty());
            let chain = Seq::<Seq<Symbol>>::new((n + 1) as nat, |i: int| Seq::<Symbol>::empty());
            assert forall|k: int| 0 <= k < n implies rewrite_step(
                prods,
                #[trigger] chain[k],
                chain[k + 1],
            ) by {
                let draws = Seq::<u32>::empty();
                assert(draws.len() == chain[k].len() && valid_draws(draws) && chain[k + 1]
                    == spec_derive_once(prods, chain[k], draws));
            }
            assert(derivation_chain(prods, chain, string@, out@, n));
        }
        return Ok(out);
    }
    let ghost s0 = string@;
    let mut current = string;
    let ghost mut chain: Seq<Seq<Symbol>> = seq![current@];
    let mut k: usize = 0;
    while k < settings.max_iterations
        invariant
            0 <= k <= settings.max_iterations,
            prods == prods_view(productions@),
            models_chances_wf(prods),
            s0 == string@,
            s0.len() > 0,
            chain.len() == k + 1,
            chain[0] == s0,
            chain[k as int] == current@,
            forall|j: int| 0 <= j < k ==> rewrite_step(prods, #[trigger] chain[j], chain[j + 1]),
        decreases settings.max_iterations - k,
    {
        let ghost cur = current@;
        current = match derive_once(current, productions) {
            Ok(next) => next,
            Err(e) => {
                proof {
                    assert(derivation_chain(prods, chain, s0, cur, k as int));
                    assert(derivable_in(prods, string@, cur, k as int));
                    if all_valid(prods) {
                        let i = choose|i: int|
                            0 <= i < cur.len() && (#[trigger] spec_find_matching(
                                prods,
                                cur,
                                i,
                            ) matches Some(m) && invalid_distribution(m.bodies));
                        lemma_first_match_element(prods, cur, i, 0);
                    }
                }
                return Err(e);
            },
        };
        proof {
            chain = chain.push(current@);
        }
        k += 1;
    }
    proof {
        assert(derivation_chain(prods, chain, string@, current@, n));
        assert(derivable_in(prods_view(productions@), string@, current@, n));
        if settings.max_iterations == 0 {
            assert(current@ == s0);
        }
    }
    Ok(current)
}

/// Merges a production's bodies into the production at index `i`, and
/// returns a copy of the production now stored there.
fn merge_into(productions: &mut Vec<Production>, i: usize, production: Production) -> (r:
    Production)
    requires
        i < old(productions)@.len(),
    ensures
        final(productions)@.len() == old(productions)@.len(),
        prods_view(final(productions)@) == prods_view(old(productions)@).update(
            i as int,
            ProductionModel {
                head: old(productions)@[i as int]@.head,
                bodies: old(productions)@[i as int]@.bodies + production@.bodies,
            },
        ),
        r@ == final(productions)@[i as int]@,
{
    let mut taken = productions.remove(i);
    let ghost removed = prods_view(productions@);
    taken.merge(production);
    let copy = taken.clone();
    productions.insert(i, taken);
    proof {
        assert(prods_view(productions@) =~= prods_view(old(productions)@).update(
            i as int,
            ProductionModel {
                head: old(productions)@[i as int]@.head,
                bodies: old(productions)@[i as int]@.bodies + production@.bodies,
            },
        )) by {
            assert forall|k: int| 0 <= k < productions@.len() implies prods_view(productions@)[k]
                == prods_view(old(productions)@).update(
                i as int,
                ProductionModel {
                    head: old(productions)@[i as int]@.head,
                    bodies: old(productions)@[i as int]@.bodies + production@.bodies,
                },
            )[k] by {
                if k < i {
                    assert(productions@[k] == old(productions)@[k]);
                } else if k > i {
                    assert(productions@[k] == old(productions)@[k]);
                }
            }
        }
    }
    copy
}

/// Whether two heads are the same: same target, and contexts that are both
/// absent or both present with equal symbols.
fn heads_equal(a: &ProductionHead, b: &ProductionHead) -> (r: bool)
    ensures
        r == (a@ == b@),
{
    let targets = a.target().code() == b.target().code();
    let pre = match (a.pre_context(), b.pre_context()) {
        (Option::None, Option::None) => true,
        (Option::Some(x), Option::Some(y)) => x == y,
        _ => false,
    };
    let post = match (a.post_context(), b.post_context()) {
        (Option::None, Option::None) => true,
        (Option::Some(x), Option::Some(y)) => x == y,
        _ => false,
    };
    let r = targets && pre && post;
    proof {
        if r {
            assert(a@ =~= b@);
        }
    }
    r
}

/// The index of the first production whose head is `h`, or `-1`.
pub open spec fn head_index(prods: Seq<ProductionModel>, h: HeadModel) -> int
    decreases prods.len(),
{
    if prods.len() == 0 {
        -1
    } else if prods[0].head == h {
        0
    } else {
        let rest = head_index(prods.drop_first(), h);
        if rest < 0 {
            -1
        } else {
            rest + 1
        }
    }
}

pub proof fn lemma_head_index_spec(prods: Seq<ProductionModel>, h: HeadModel)
    ensures
        -1 <= head_index(prods, h) < prods.len(),
        head_index(prods, h) >= 0 ==> prods[head_index(prods, h)].head == h,
        head_index(prods, h) == -1 ==> forall|i: int|
            0 <= i < prods.len() ==> (#[trigger] prods[i]).head != h,
        forall|j: int| 0 <= j < head_index(prods, h) ==> (#[trigger] prods[j]).head != h,
    decreases prods.len(),
{
    if prods.len() > 0 && prods[0].head != h {
        lemma_head_index_spec(prods.drop_first(), h);
        assert(forall|i: int| 1 <= i < prods.len() ==> prods[i] == prods.drop_first()[i - 1]);
    }
}

/// If every entry before `i` has a different head and entry `i` has head
/// `h`, then `i` is the first index with that head.
pub proof fn lemma_head_index_prefix_miss(prods: Seq<ProductionModel>, h: HeadModel, i: int)
    requires
        0 <= i < prods.len(),
        prods[i].head == h,
        forall|j: int| 0 <= j < i ==> (#[trigger] prods[j]).head != h,
    ensures
        head_index(prods, h) == i,
    decreases i,
{
    if i > 0 {
        assert(forall|j: int| 0 <= j < i - 1 ==> prods.drop_first()[j] == prods[j + 1]);
        lemma_head_index_prefix_miss(prods.drop_first(), h, i - 1);
    }
}

/// What registering a production does to a store: a production with a new
/// head is appended; one whose head is already present merges its bodies
/// into the existing production, in order. The second component is the index
/// of the production that now holds the head.
pub open spec fn spec_add_production(prods: Seq<ProductionModel>, m: ProductionModel) -> (
    Seq<ProductionModel>,
    int,
) {
    let i = head_index(prods, m.head);
    if i >= 0 {
        (
            prods.update(
                i,
                ProductionModel { head: prods[i].head, bodies: prods[i].bodies + m.bodies },
            ),
            i,
        )
    } else {
        (prods.push(m), prods.len() as int)
    }
}

/// Merge law: registering a head with one body list and then again with a
/// second yields exactly the store that one registration with the two lists
/// concatenated yields. In particular the production stored for that head
/// holds the same bodies in the same order either way, so every selection —
/// for every draw — behaves the same.
pub proof fn lemma_register_twice_merges(
    prods: Seq<ProductionModel>,
    h: HeadModel,
    bodies1: Seq<crate::productions::BodyModel>,
    bodies2: Seq<crate::productions::BodyModel>,
)
    ensures
        ({
            let first = spec_add_production(prods, ProductionModel { head: h, bodies: bodies1 });
            let second = spec_add_production(first.0, ProductionModel { head: h, bodies: bodies2 });
            let combined = spec_add_production(
                prods,
                ProductionModel { head: h, bodies: bodies1 + bodies2 },
            );
            &&& second.0 == combined.0
            &&& second.1 == combined.1
            &&& second.0[second.1].bodies == combined.0[combined.1].bodies
        }),
{
    lemma_head_index_spec(prods, h);
    let i = head_index(prods, h);
    let first = spec_add_production(prods, ProductionModel { head: h, bodies: bodies1 });
    if i >= 0 {
        assert(forall|j: int| 0 <= j < i ==> (#[trigger] first.0[j]).head != h);
        lemma_head_index_prefix_miss(first.0, h, i);
        let second = spec_add_production(first.0, ProductionModel { head: h, bodies: bodies2 });
        let combined = spec_add_production(
            prods,
            ProductionModel { head: h, bodies: bodies1 + bodies2 },
        );
        assert(prods[i].bodies + bodies1 + bodies2 =~= prods[i].bodies + (bodies1 + bodies2));
        assert(second.0 =~= combined.0);
    } else {
        assert(forall|j: int| 0 <= j < prods.len() ==> (#[trigger] first.0[j]).head != h);
        lemma_head_index_prefix_miss(first.0, h, prods.len() as int);
        let second = spec_add_production(first.0, ProductionModel { head: h, bodies: bodies2 });
        let combined = spec_add_production(
            prods,
            ProductionModel { head: h, bodies: bodies1 + bodies2 },
        );
        assert(bodies1 + bodies2 =~= bodies1 + bodies2);
        assert(second.0 =~= combined.0);
    }
}

/// Represents an L-system: the facade for defining symbols and productions
/// and deriving strings, without keeping collections of your own.
///
/// The symbol interner is not owned here: callers pass the shared
/// [`SymbolTable`] into each operation that resolves names, so several
/// systems can share one table and identical names resolve to identical
/// codes across all of them.
#[derive(Debug)]
pub struct System {
    symbols: Vec<u32>,
    productions: Vec<Production>,
}

impl System {
    /// The codes of the symbols this system has locally registered: its
    /// vocabulary.
    pub closed spec fn vocab(&self) -> Seq<u32> {
        self.symbols@
    }

    /// The productions this system knows, in registration order.
    pub closed spec fn prods(&self) -> Seq<ProductionModel> {
        prods_view(self.productions@)
    }

    /// The store's invariant: the vocabulary holds no duplicates, every
    /// chance is well-formed, and at most one production exists per distinct
    /// head.
    pub open spec fn inv(&self) -> bool {
        &&& forall|i: int, j: int|
            0 <= i < j < self.vocab().len() ==> self.vocab()[i] != self.vocab()[j]
        &&& models_chances_wf(self.prods())
        &&& forall|i: int, j: int|
            0 <= i < j < self.prods().len() ==> (#[trigger] self.prods()[i]).head != (
            #[trigger] self.prods()[j]).head
    }

    /// Creates an empty system: no vocabulary, no productions.
    pub fn new() -> (r: Self)
        ensures
            r.vocab() =~= Seq::<u32>::empty(),
            r.prods() =~= Seq::<ProductionModel>::empty(),
            r.inv(),
    {
        let r = System { symbols: Vec::new(), productions: Vec::new() };
        proof {
            assert(r.prods() =~= Seq::<ProductionModel>::empty());
        }
        r
    }

    /// Whether a code is part of this system's vocabulary.
    fn vocab_contains(&self, code: u32) -> (r: bool)
        ensures
            r == self.vocab().contains(code),
    {
        let mut i: usize = 0;
        while i < self.symbols.len()
            invariant
                i <= self.vocab().len(),
                self.vocab() == self.symbols@,
                forall|j: int| 0 <= j < i ==> self.vocab()[j] != code,
            decreases self.vocab().len() - i,
        {
            if self.symbols[i] == code {
                return true;
            }
            i += 1;
        }
        proof {
            if self.vocab().contains(code) {
                let j = choose|j: int| 0 <= j < self.vocab().len() && self.vocab()[j] == code;
            }
        }
        false
    }

    /// Records a code in the vocabulary if it is not there yet.
    fn vocab_add(&mut self, code: u32)
        requires
            old(self).inv(),
        ensures
            final(self).inv(),
            final(self).prods() == old(self).prods(),
            final(self).vocab().contains(code),
            old(self).vocab().contains(code) ==> final(self).vocab() == old(self).vocab(),
            !old(self).vocab().contains(code) ==> final(self).vocab() == old(self).vocab().push(
                code,
            ),
            forall|c: u32| old(self).vocab().contains(c) ==> final(self).vocab().contains(c),
    {
        if !self.vocab_contains(code) {
            self.symbols.push(code);
            proof {
                assert(self.vocab().last() == code);
                assert(self.vocab().contains(code));
                assert forall|a: int, b: int| 0 <= a < b < self.vocab().len() implies self.vocab()[
                a] != self.vocab()[b] by {
                    if b < old(self).vocab().len() {
                    } else {
                        assert(self.vocab()[b] == code);
                        assert(self.vocab()[a] == old(self).vocab()[a]);
                        assert(!old(self).vocab().contains(code));
                    }
                }
                assert forall|c: u32|
                    old(self).vocab().contains(c) implies self.vocab().contains(c) by {
                    let j = choose|j: int|
                        0 <= j < old(self).vocab().len() && old(self).vocab()[j] == c;
                    assert(self.vocab()[j] == c);
                }
            }
        }
    }

    /// Given a previously defined family, this returns a new system whose
    /// vocabulary holds the symbols of that family.
    pub fn of_family<F: crate::system::family::TryIntoFamily>(
        family: F,
        registry: &crate::system::family::FamilyRegistry,
        table: &mut SymbolTable,
    ) -> (r: Result<Self, Error>)
        requires
            old(table).wf(),
        ensures
            final(table).wf(),
            family.spec_family(registry) is None ==> r is Err,
            r matches Ok(sys) ==> sys.inv() && (family.spec_family(registry) matches Option::Some(
                f,
            ) && {
                let names = crate::system::family::description_names(
                    f.spec_terminals() + f.spec_productions(),
                );
                &&& final(table)@ == parser::spec_parse_tokens(old(table)@, names).0
                &&& forall|i: int|
                    0 <= i < names.len() ==> sys.vocab().contains(
                        (#[trigger] parser::spec_parse_tokens(old(table)@, names).1[i]).code,
                    )
            }),
    {
        let resolved = match family.into_family(registry) {
            Ok(resolved) => resolved,
            Err(e) => {
                return Err(e);
            },
        };
        let mut system = System::new();
        let symbols = resolved.symbols();
        let ghost names = crate::system::family::description_names(symbols@);
        proof {
            assert(names =~= crate::system::family::description_names(
                resolved.spec_terminals() + resolved.spec_productions(),
            ));
        }
        let mut i: usize = 0;
        while i < symbols.len()
            invariant
                old(table).wf(),
                i <= symbols@.len(),
                system.inv(),
                table.wf(),
                names == crate::system::family::description_names(symbols@),
                names.len() == symbols@.len(),
                table@ == parser::spec_parse_tokens(old(table)@, names.take(i as int)).0,
                parser::spec_parse_tokens(old(table)@, names.take(i as int)).1.len() == i,
                forall|j: int|
                    0 <= j < i ==> system.vocab().contains(
                        (#[trigger] parser::spec_parse_tokens(
                            old(table)@,
                            names.take(i as int),
                        ).1[j]).code,
                    ),
            decreases symbols@.len() - i,
        {
            proof {
                assert(names.take(i + 1).drop_last() =~= names.take(i as int));
                assert(names[i as int] == symbols@[i as int].name@);
            }
            let ghost vocab_before = system.vocab();
            match system.add_symbol(table, symbols[i].name.as_str()) {
                Ok(_) => {
                    proof {
                        let prev = parser::spec_parse_tokens(old(table)@, names.take(i as int));
                        let next = parser::spec_parse_tokens(old(table)@, names.take(i + 1));
                        assert(next.1 == prev.1.push(
                            Symbol { code: spec_intern(prev.0, names[i as int]).1 },
                        ));
                        assert forall|j: int| 0 <= j < i + 1 implies system.vocab().contains(
                            (#[trigger] next.1[j]).code,
                        ) by {
                            if j < i {
                                assert(next.1[j] == prev.1[j]);
                                assert(vocab_before.contains(prev.1[j].code));
                            }
                        }
                    }
                },
                Err(e) => {
                    return Err(e);
                },
            }
            i += 1;
        }
        proof {
            assert(names.take(names.len() as int) =~= names);
        }
        Ok(system)
    }

    /// Interns the name in the shared table and records the code in this
    /// system's vocabulary.
    pub fn add_symbol(&mut self, table: &mut SymbolTable, name: &str) -> (r: Result<Symbol, Error>)
        requires
            old(self).inv(),
            old(table).wf(),
        ensures
            final(self).inv(),
            final(table).wf(),
            final(self).prods() == old(self).prods(),
            r matches Ok(sym) ==> {
                &&& final(table)@ == spec_intern(old(table)@, name@).0
                &&& sym.code == spec_intern(old(table)@, name@).1
                &&& final(self).vocab().contains(sym.code)
                &&& old(self).vocab().contains(sym.code) ==> final(self).vocab() == old(
                    self,
                ).vocab()
                &&& !old(self).vocab().contains(sym.code) ==> final(self).vocab() == old(
                    self,
                ).vocab().push(sym.code)
            },
            r is Ok <==> name@.len() > 0 && (first_index(old(table)@, name@) >= 0 || old(
                table,
            )@.len() + FIRST_CODE < u32::MAX),
            r is Err ==> final(table)@ == old(table)@ && final(self).vocab() == old(self).vocab(),
            forall|c: u32|
                old(self).vocab().contains(c) ==> final(self).vocab().contains(c),
    {
        let symbol = match table.intern(name) {
            Ok(symbol) => symbol,
            Err(e) => {
                return Err(e);
            },
        };
        self.vocab_add(symbol.code());
        Ok(symbol)
    }

    /// Return the symbol that represents the given name, if this system has
    /// registered it. This creates no symbols, neither in the table nor in
    /// the vocabulary.
    pub fn get_symbol(&self, table: &SymbolTable, name: &str) -> (r: Option<Symbol>)
        requires
            self.inv(),
            table.wf(),
        ensures
            r matches Some(sym) ==> {
                &&& first_index(table@, name@) >= 0
                &&& sym.code == FIRST_CODE + first_index(table@, name@)
                &&& self.vocab().contains(sym.code)
            },
            r is None <==> first_index(table@, name@) < 0 || !self.vocab().contains(
                (FIRST_CODE + first_index(table@, name@)) as u32,
            ),
    {
        let symbol = match table.lookup(name) {
            Option::Some(symbol) => symbol,
            Option::None => {
                return Option::None;
            },
        };
        if self.vocab_contains(symbol.code()) {
            Option::Some(symbol)
        } else {
            Option::None
        }
    }

    /// Parses whitespace-separated symbol text, interning each name and
    /// adding it to this system's vocabulary.
    pub fn parse_prod_string(&mut self, table: &mut SymbolTable, string: &str) -> (r: Result<
        ProductionString,
        Error,
    >)
        requires
            old(self).inv(),
            old(table).wf(),
        ensures
            final(self).inv(),
            final(table).wf(),
            final(self).prods() == old(self).prods(),
            r matches Ok(ps) ==> {
                &&& final(table)@ == parser::spec_parse_tokens(
                    old(table)@,
                    parser::spec_split_ws(string@),
                ).0
                &&& ps@ == parser::spec_parse_tokens(old(table)@, parser::spec_split_ws(string@)).1
                &&& forall|i: int|
                    0 <= i < ps@.len() ==> final(self).vocab().contains((#[trigger] ps@[i]).code)
            },
            old(table)@.len() + parser::spec_split_ws(string@).len() + FIRST_CODE <= u32::MAX
                ==> r is Ok,
            r matches Err(e) ==> e.spec_kind() == ErrorKind::Execution,
    {
        let tokens = parser::split_whitespace(string);
        let ghost toks = parser::spec_split_ws(string@);
        proof {
            parser::lemma_split_ws_tokens(string@, 0);
        }
        let mut result = ProductionString::new();
        let mut i: usize = 0;
        while i < tokens.len()
            invariant
                old(self).inv(),
                old(table).wf(),
                self.inv(),
                table.wf(),
                i <= tokens@.len(),
                parser::texts_view(tokens@) == toks,
                toks == parser::spec_split_ws(string@),
                forall|k: int| 0 <= k < toks.len() ==> parser::ws_token_ok(#[trigger] toks[k]),
                self.prods() == old(self).prods(),
                table@ == parser::spec_parse_tokens(old(table)@, toks.take(i as int)).0,
                result@ == parser::spec_parse_tokens(old(table)@, toks.take(i as int)).1,
                table@.len() <= old(table)@.len() + i,
                forall|k: int|
                    0 <= k < result@.len() ==> self.vocab().contains((#[trigger] result@[k]).code),
            decreases tokens@.len() - i,
        {
            proof {
                assert(toks.take(i + 1).drop_last() =~= toks.take(i as int));
                assert(tokens@[i as int]@ == toks[i as int]);
            }
            let ghost vocab_before = self.vocab();
            let symbol = match self.add_symbol(table, tokens[i].as_str()) {
                Ok(symbol) => symbol,
                Err(_) => {
                    return Err(
                        Error::new(ErrorKind::Execution, "the symbol code space is exhausted"),
                    );
                },
            };
            result.push_symbol(symbol);
            i += 1;
        }
        proof {
            assert(toks.take(toks.len() as int) =~= toks);
        }
        Ok(result)
    }

    /// Registers a production. A production with a new head is appended to
    /// the store; one whose head is already present merges its bodies into
    /// the existing production. Returns the production now stored for the
    /// head.
    pub fn add_production_merged(&mut self, production: Production) -> (r: Result<
        Production,
        Error,
    >)
        requires
            old(self).inv(),
            production.chances_wf(),
        ensures
            final(self).inv(),
            final(self).vocab() == old(self).vocab(),
            final(self).prods() == spec_add_production(old(self).prods(), production@).0,
            0 <= spec_add_production(old(self).prods(), production@).1
                < final(self).prods().len(),
            r matches Ok(p) ==> p@ == final(self).prods()[spec_add_production(
                old(self).prods(),
                production@,
            ).1],
            r is Ok,
    {
        let ghost prods0 = self.prods();
        let ghost m = production@;
        proof {
            lemma_head_index_spec(prods0, m.head);
        }
        let mut i: usize = 0;
        while i < self.productions.len()
            invariant
                0 <= i <= self.prods().len(),
                old(self).inv(),
                self.inv(),
                prods0 == old(self).prods(),
                self.prods() == prods0,
                self.vocab() == old(self).vocab(),
                self.prods().len() == self.productions@.len(),
                m == production@,
                bodies_chances_wf(m.bodies),
                forall|j: int| 0 <= j < i ==> (#[trigger] prods0[j]).head != m.head,
            decreases self.prods().len() - i,
        {
            proof {
                assert(prods0[i as int] == self.productions@[i as int]@);
            }
            if heads_equal(self.productions[i].head(), production.head()) {
                proof {
                    lemma_head_index_prefix_miss(prods0, m.head, i as int);
                }
                let ghost ii = i as int;
                let merged = merge_into(&mut self.productions, i, production);
                proof {
                    let updated = ProductionModel {
                        head: prods0[ii].head,
                        bodies: prods0[ii].bodies + m.bodies,
                    };
                    assert(self.prods() == prods0.update(ii, updated));
                    assert(self.prods() == spec_add_production(prods0, m).0);
                    assert forall|a: int, b: int|
                        0 <= a < b < self.prods().len() implies (#[trigger] self.prods()[a]).head
                        != (#[trigger] self.prods()[b]).head by {
                        assert(self.prods()[a].head == prods0[a].head);
                        assert(self.prods()[b].head == prods0[b].head);
                    }
                    assert forall|a: int| 0 <= a < self.prods().len() implies bodies_chances_wf(
                        (#[trigger] self.prods()[a]).bodies,
                    ) by {
                        if a == ii {
                            assert(self.prods()[a].bodies == prods0[ii].bodies + m.bodies);
                            assert(bodies_chances_wf(prods0[ii].bodies));
                            assert forall|k: int|
                                0 <= k < self.prods()[a].bodies.len() implies (
                            #[trigger] self.prods()[a].bodies[k]).chance.wf() by {
                                if k < prods0[ii].bodies.len() {
                                    assert(self.prods()[a].bodies[k] == prods0[ii].bodies[k]);
                                } else {
                                    let len1 = prods0[ii].bodies.len() as int;
                                    assert(self.prods()[a].bodies[k] == m.bodies[k - len1]);
                                }
                            }
                        } else {
                            assert(self.prods()[a] == prods0[a]);
                        }
                    }
                }
                return Ok(merged);
            }
            i += 1;
        }
        proof {
            lemma_head_index_spec(prods0, m.head);
            assert(head_index(prods0, m.head) == -1);
        }
        let stored = production.clone();
        self.productions.push(production);
        proof {
            assert(self.prods() =~= prods0.push(m));
            assert(self.prods() == spec_add_production(prods0, m).0);
            assert forall|a: int, b: int|
                0 <= a < b < self.prods().len() implies (#[trigger] self.prods()[a]).head != (
            #[trigger] self.prods()[b]).head by {
                if b < prods0.len() {
                    assert(self.prods()[a] == prods0[a] && self.prods()[b] == prods0[b]);
                } else {
                    assert(self.prods()[a] == prods0[a] && self.prods()[b] == m);
                }
            }
            assert forall|a: int| 0 <= a < self.prods().len() implies bodies_chances_wf(
                (#[trigger] self.prods()[a]).bodies,
            ) by {
                if a < prods0.len() {
                    assert(self.prods()[a] == prods0[a]);
                } else {
                    assert(self.prods()[a] == m);
                }
            }
        }
        Ok(stored)
    }

    /// Parse a string as a production and add it to the system: the head and
    /// body are parsed (interning their symbols into the table and this
    /// system's vocabulary), and the resulting single-body production is
    /// registered, merging with an existing production of the same head.
    ///
    /// Empty bodies are allowed: they are how productions that rewrite to
    /// the empty string are written.
    pub fn parse_production(&mut self, table: &mut SymbolTable, production: &str) -> (r: Result<
        Production,
        Error,
    >)
        requires
            old(self).inv(),
            old(table).wf(),
        ensures
            final(self).inv(),
            final(table).wf(),
            r matches Ok(p) ==> ({
                let s = production@;
                let ai = parser::first_arrow_from(s, 0);
                let htoks = parser::spec_split_ws(s.subrange(0, ai));
                let btoks = parser::spec_split_ws(s.subrange(ai + 2, s.len() as int));
                &&& ai < s.len()
                &&& parser::spec_parse_head(old(table)@, htoks) matches Some(hp) && {
                    &&& parser::spec_parse_body(hp.0, btoks) matches Some(bt) && {
                        &&& final(table)@ == bt.0
                        &&& exists|parsed: ProductionModel|
                            {
                                &&& parsed.head == hp.1
                                &&& parsed.bodies.len() == 1
                                &&& (#[trigger] parsed.bodies[0]).string == bt.1
                                &&& match bt.2 {
                                    Option::Some(v) => parsed.bodies[0].chance.spec_is_set()
                                        && parsed.bodies[0].chance.spec_value() == v,
                                    Option::None => !parsed.bodies[0].chance.spec_is_set(),
                                }
                                &&& final(self).prods() == spec_add_production(
                                    old(self).prods(),
                                    parsed,
                                ).0
                                &&& p@ == final(self).prods()[spec_add_production(
                                    old(self).prods(),
                                    parsed,
                                ).1]
                            }
                    }
                }
            }),
            parser::first_arrow_from(production@, 0) == production@.len() ==> r is Err,
            ({
                let s = production@;
                let ai = parser::first_arrow_from(s, 0);
                let htoks = parser::spec_split_ws(s.subrange(0, ai));
                let btoks = parser::spec_split_ws(s.subrange(ai + 2, s.len() as int));
                &&& ai < s.len()
                &&& parser::spec_parse_head(old(table)@, htoks) matches Some(hp)
                    && parser::spec_parse_body(hp.0, btoks) is Some
                &&& old(table)@.len() + htoks.len() + btoks.len() + FIRST_CODE <= u32::MAX
            }) ==> r is Ok,
            r is Err ==> final(self).prods() == old(self).prods(),
    {
        let parsed = match parser::parse_production(table, production) {
            Ok(parsed) => parsed,
            Err(e) => {
                return Err(e);
            },
        };
        let symbols = parsed.all_symbols();
        let mut i: usize = 0;
        while i < symbols.len()
            invariant
                i <= symbols@.len(),
                self.inv(),
                table.wf(),
                self.prods() == old(self).prods(),
            decreases symbols@.len() - i,
        {
            self.vocab_add(symbols[i].code());
            i += 1;
        }
        let registered = self.add_production_merged(parsed);
        registered
    }

    /// Run a single rewriting pass of the productions over the given string.
    pub fn derive_once(&self, string: ProductionString) -> (r: Result<ProductionString, Error>)
        requires
            self.inv(),
        ensures
            r is Err <==> some_invalid_match(self.prods(), string@),
            r matches Ok(out) ==> exists|draws: Seq<u32>|
                draws.len() == string@.len() && valid_draws(draws) && out@ == spec_derive_once(
                    self.prods(),
                    string@,
                    draws,
                ),
            string@.len() == 0 ==> (r matches Ok(out) && out@ == Seq::<Symbol>::empty()),
    {
        if string.is_empty() {
            let out = ProductionString::empty();
            proof {
                let draws = Seq::<u32>::empty();
                assert(draws.len() == string@.len() && valid_draws(draws) && out@
                    == spec_derive_once(self.prods(), string@, draws));
            }
            return Ok(out);
        }
        derive_once(string, &self.productions)
    }

    /// Applies the productions to the string for exactly
    /// `settings.max_iterations` rewriting passes.
    pub fn derive(&self, string: ProductionString, settings: RunSettings) -> (r: Result<
        ProductionString,
        Error,
    >)
        requires
            self.inv(),
        ensures
            string@.len() == 0 ==> (r matches Ok(out) && out@ == Seq::<Symbol>::empty()),
            settings.max_iterations == 0 ==> (r matches Ok(out) && out@ == string@),
            r matches Ok(out) ==> derivable_in(
                self.prods(),
                string@,
                out@,
                settings.max_iterations as int,
            ),
            all_valid(self.prods()) ==> r is Ok,
            r is Err ==> exists|k: int, t: Seq<Symbol>|
                {
                    &&& 0 <= k < settings.max_iterations
                    &&& #[trigger] derivable_in(self.prods(), string@, t, k)
                    &&& some_invalid_match(self.prods(), t)
                },
    {
        derive(string, &self.productions, settings)
    }

    /// The inverse of parsing: the names of the string's symbols, joined by
    /// single spaces. Fails when a symbol is unknown to the table.
    pub fn format(&self, table: &SymbolTable, string: &ProductionString) -> (r: Result<
        String,
        Error,
    >)
        ensures
            r is Ok <==> crate::symbols::all_known(table@, string@),
            r matches Ok(out) ==> out@ == crate::symbols::spec_format(table@, string@),
    {
        table.format(string)
    }

    /// Returns the number of production rules in the system.
    pub fn production_len(&self) -> (r: usize)
        ensures
            r == self.prods().len(),
    {
        self.productions.len()
    }

    /// Returns the number of symbols registered with the system.
    pub fn symbol_len(&self) -> (r: usize)
        ensures
            r == self.vocab().len(),
    {
        self.symbols.len()
    }
}

impl Default for System {
    fn default() -> (r: Self)
        ensures
            r.vocab() =~= Seq::<u32>::empty(),
            r.prods() =~= Seq::<ProductionModel>::empty(),
            r.inv(),
    {
        System::new()
    }
}

impl ProductionStore for System {
    open spec fn prods_model(&self) -> Seq<ProductionModel> {
        self.prods()
    }

    open spec fn store_inv(&self) -> bool {
        self.inv()
    }

    /// A grammar's store merges a registration into an existing production
    /// of the same head.
    open spec fn registered(&self, production: ProductionModel) -> (Seq<ProductionModel>, int) {
        spec_add_production(self.prods(), production)
    }

    fn add_production(&mut self, production: Production) -> (r: Result<Production, Error>) {
        self.add_production_merged(production)
    }
}

} // verus!
