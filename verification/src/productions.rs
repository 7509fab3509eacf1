//! The production model: rewrite rules for an L-system.
//!
//! A [`Production`] pairs a [`ProductionHead`] (the targeted symbol with its
//! optional pre- and post-context) with an ordered, non-empty list of
//! alternative [`ProductionBody`] values, each tagged with a [`Chance`].
//! Probabilities are held in fixed point, as integer numbers of millionths
//! (see [`crate::CHANCE_SCALE`]), so a chance of `300000` stands for `0.3`.

use vstd::prelude::*;

use rand::Rng;

use crate::CHANCE_SCALE;
use crate::error::{Error, ErrorKind};
use crate::strings::{ProductionString, SymbolIterable};
use crate::symbols::Symbol;

verus! {

/// Whether a [`Chance`] was set by the user or is left to the engine.
#[derive(Debug, Copy, Clone, PartialEq, Eq, Structural)]
pub enum ChanceKind {
    /// This chance value was set by the user.
    UserSet,
    /// This chance value is derived from the probability mass left over
    /// after considering all the [`ChanceKind::UserSet`] chance values.
    Derived,
}

/// The probability of one production body being selected: either an explicit
/// value in `(0, CHANCE_SCALE]` millionths, or derived at selection time.
#[derive(Debug, Copy, Clone, PartialEq, Eq, Structural)]
pub struct Chance {
    kind: ChanceKind,
    value: u32,
}

impl Chance {
    /// The kind of the chance, as a spec-level value.
    pub closed spec fn spec_kind(&self) -> ChanceKind {
        self.kind
    }

    /// Whether the chance was set by the user, as a spec-level value.
    pub open spec fn spec_is_set(&self) -> bool {
        self.spec_kind() is UserSet
    }

    /// The explicit chance value in millionths, as a spec-level value.
    pub closed spec fn spec_value(&self) -> u32 {
        self.value
    }

    /// A user-set chance lies in `(0, CHANCE_SCALE]`; a derived one carries
    /// no value of its own.
    pub open spec fn wf(&self) -> bool {
        &&& self.spec_is_set() ==> 0 < self.spec_value() <= CHANCE_SCALE
        &&& !self.spec_is_set() ==> self.spec_value() == 0
    }

    /// Creates a new [`ChanceKind::UserSet`] chance of `value` millionths.
    pub fn new(value: u32) -> (r: Self)
        requires
            0 < value <= CHANCE_SCALE,
        ensures
            r.spec_is_set(),
            r.spec_value() == value,
            r.wf(),
    {
        Chance { kind: ChanceKind::UserSet, value }
    }

    /// Returns an unset chance that is determined by the engine at selection
    /// time, from the probability mass that the set chances leave over.
    pub fn empty() -> (r: Self)
        ensures
            !r.spec_is_set(),
            r.wf(),
    {
        Chance { kind: ChanceKind::Derived, value: 0 }
    }

    /// Returns true iff this is of kind [`ChanceKind::Derived`].
    pub fn is_derived(&self) -> (r: bool)
        ensures
            r == !self.spec_is_set(),
    {
        matches!(self.kind, ChanceKind::Derived)
    }

    /// Returns true iff this is of kind [`ChanceKind::UserSet`].
    pub fn is_user_set(&self) -> (r: bool)
        ensures
            r == self.spec_is_set(),
    {
        matches!(self.kind, ChanceKind::UserSet)
    }

    /// The explicit chance value, in millionths.
    pub fn unwrap(&self) -> (r: u32)
        requires
            self.spec_is_set(),
        ensures
            r == self.spec_value(),
    {
        self.value
    }

    /// The explicit chance value in millionths, or `default` for a derived
    /// chance.
    pub fn unwrap_or(&self, default: u32) -> (r: u32)
        ensures
            r == if self.spec_is_set() {
                self.spec_value()
            } else {
                default
            },
    {
        match self.kind {
            ChanceKind::UserSet => self.value,
            ChanceKind::Derived => default,
        }
    }

    /// The explicit chance value, in millionths. The message names the caller
    /// that relied on the chance being set.
    pub fn expect(&self, _message: &str) -> (r: u32)
        requires
            self.spec_is_set(),
        ensures
            r == self.spec_value(),
    {
        self.value
    }
}

/// The spec-level shape of a [`ProductionHead`].
#[verifier::ext_equal]
pub struct HeadModel {
    pub pre: Option<Seq<Symbol>>,
    pub target: Symbol,
    pub post: Option<Seq<Symbol>>,
}

/// The spec-level shape of a [`ProductionBody`].
#[verifier::ext_equal]
pub struct BodyModel {
    pub string: Seq<Symbol>,
    pub chance: Chance,
}

/// The spec-level shape of a [`Production`].
#[verifier::ext_equal]
pub struct ProductionModel {
    pub head: HeadModel,
    pub bodies: Seq<BodyModel>,
}

/// The bodies of a sequence of production bodies, as spec-level values.
pub open spec fn bodies_view(bodies: Seq<ProductionBody>) -> Seq<BodyModel> {
    bodies.map(|i: int, b: ProductionBody| b@)
}

/// Whether a pre-context allows a rule to apply at position `i` of `s`: no
/// pre-context always does; at the first position only an empty one does;
/// elsewhere the context must equal the symbols immediately before `i`.
pub open spec fn spec_pre_matches(pre: Option<Seq<Symbol>>, s: Seq<Symbol>, i: int) -> bool {
    match pre {
        Option::None => true,
        Option::Some(p) => {
            if i == 0 {
                p.len() == 0
            } else {
                p.len() <= i && s.subrange(i - p.len(), i) == p
            }
        },
    }
}

/// Whether a post-context allows a rule to apply at position `i` of `s`: no
/// post-context always does; at the last position only an empty one does;
/// elsewhere the context must equal the symbols immediately after `i`.
pub open spec fn spec_post_matches(post: Option<Seq<Symbol>>, s: Seq<Symbol>, i: int) -> bool {
    match post {
        Option::None => true,
        Option::Some(p) => {
            if i == s.len() - 1 {
                p.len() == 0
            } else {
                p.len() <= s.len() - 1 - i && s.subrange(i + 1, i + 1 + p.len()) == p
            }
        },
    }
}

/// Whether a head matches position `i` of `s`: the symbol at `i` is the
/// head's target and both contexts allow the position.
pub open spec fn spec_head_matches(h: HeadModel, s: Seq<Symbol>, i: int) -> bool {
    &&& 0 <= i < s.len()
    &&& s[i] == h.target
    &&& spec_pre_matches(h.pre, s, i)
    &&& spec_post_matches(h.post, s, i)
}

/// The head of a production: an optional pre-context sequence, one target
/// symbol, and an optional post-context sequence. The rule applies to
/// occurrences of the target symbol, provided the symbols immediately before
/// and after the occurrence match the context sequences.
#[derive(Debug)]
pub struct ProductionHead {
    pre: Option<ProductionString>,
    target: Symbol,
    post: Option<ProductionString>,
}

/// The spec-level value of an optional production string.
pub open spec fn opt_string_view(o: Option<ProductionString>) -> Option<Seq<Symbol>> {
    match o {
        Option::None => Option::None,
        Option::Some(p) => Option::Some(p@),
    }
}

impl View for ProductionHead {
    type V = HeadModel;

    closed spec fn view(&self) -> HeadModel {
        HeadModel {
            pre: opt_string_view(self.pre),
            target: self.target,
            post: opt_string_view(self.post),
        }
    }
}

impl ProductionHead {
    /// Create a new production head.
    pub fn build(
        pre: Option<ProductionString>,
        target: Symbol,
        post: Option<ProductionString>,
    ) -> (r: Result<Self, Error>)
        ensures
            r matches Ok(h) ==> h@ == (HeadModel {
                pre: opt_string_view(pre),
                target,
                post: opt_string_view(post),
            }),
            r is Ok,
    {
        Ok(ProductionHead { pre, target, post })
    }

    /// Returns the symbol that this production targets.
    pub fn target(&self) -> (r: &Symbol)
        ensures
            *r == self@.target,
    {
        &self.target
    }

    /// The sequence that must precede the target, if any.
    pub fn pre_context(&self) -> (r: Option<&ProductionString>)
        ensures
            match r {
                Option::Some(p) => self@.pre == Option::Some(p@),
                Option::None => self@.pre is None,
            },
    {
        self.pre.as_ref()
    }

    /// The sequence that must follow the target, if any.
    pub fn post_context(&self) -> (r: Option<&ProductionString>)
        ensures
            match r {
                Option::Some(p) => self@.post == Option::Some(p@),
                Option::None => self@.post is None,
            },
    {
        self.post.as_ref()
    }

    /// Returns true iff this head matches the given string at the given
    /// index position.
    pub fn matches(&self, string: &ProductionString, index: usize) -> (r: bool)
        ensures
            r == spec_head_matches(self@, string@, index as int),
    {
        if index >= string.len() {
            return false;
        }
        self.pre_matches(string, index) && self.post_matches(string, index) && string.symbol_at(
            index,
        ) == self.target
    }

    /// Whether the pre-context allows this head to apply at the given
    /// index; the index may lie one past the end of the string.
    pub fn pre_matches(&self, string: &ProductionString, index: usize) -> (r: bool)
        requires
            index <= string@.len(),
        ensures
            r == spec_pre_matches(self@.pre, string@, index as int),
    {
        let left = match &self.pre {
            Option::None => {
                return true;
            },
            Option::Some(left) => left,
        };
        if index == 0 {
            return left.len() == 0;
        }
        let plen = left.len();
        if plen > index {
            return false;
        }
        let offset = index - plen;
        let mut k: usize = 0;
        while k < plen
            invariant
                self@.pre == Option::Some(left@),
                k <= plen,
                plen == left@.len(),
                plen <= index <= string@.len(),
                offset == index - plen,
                forall|j: int| 0 <= j < k ==> string@[offset + j] == left@[j],
            decreases plen - k,
        {
            if string.symbol_at(offset + k) != left.symbol_at(k) {
                proof {
                    assert(string@.subrange(offset as int, index as int)[k as int]
                        == string@[offset + k]);
                }
                return false;
            }
            k += 1;
        }
        proof {
            assert(string@.subrange(offset as int, index as int) =~= left@);
        }
        true
    }

    /// Whether the post-context allows this head to apply at the given
    /// index, which must lie within the string: one past the end is not a
    /// position a post-context can be asked about.
    pub fn post_matches(&self, string: &ProductionString, index: usize) -> (r: bool)
        requires
            index < string@.len(),
        ensures
            r == spec_post_matches(self@.post, string@, index as int),
    {
        let right = match &self.post {
            Option::None => {
                return true;
            },
            Option::Some(right) => right,
        };
        if index == string.len() - 1 {
            return right.len() == 0;
        }
        let plen = right.len();
        if plen > string.len() - 1 - index {
            return false;
        }
        let offset = index + 1;
        let mut k: usize = 0;
        while k < plen
            invariant
                self@.post == Option::Some(right@),
                k <= plen,
                plen == right@.len(),
                index < string@.len(),
                string@.len() <= usize::MAX,
                plen <= string@.len() - 1 - index,
                offset == index + 1,
                forall|j: int| 0 <= j < k ==> string@[offset + j] == right@[j],
            decreases plen - k,
        {
            if string.symbol_at(offset + k) != right.symbol_at(k) {
                proof {
                    assert(string@.subrange(offset as int, offset + plen)[k as int]
                        == string@[offset + k]);
                }
                return false;
            }
            k += 1;
        }
        proof {
            assert(string@.subrange(offset as int, offset + plen) =~= right@);
        }
        true
    }
}

impl Clone for ProductionHead {
    fn clone(&self) -> (r: Self)
        ensures
            r@ == self@,
    {
        let pre = match &self.pre {
            Option::None => Option::None,
            Option::Some(p) => Option::Some(p.clone()),
        };
        let post = match &self.post {
            Option::None => Option::None,
            Option::Some(p) => Option::Some(p.clone()),
        };
        ProductionHead { pre, target: self.target, post }
    }
}

/// A replacement sequence tagged with the chance of it being selected.
#[derive(Debug)]
pub struct ProductionBody {
    string: ProductionString,
    chance: Chance,
}

impl View for ProductionBody {
    type V = BodyModel;

    closed spec fn view(&self) -> BodyModel {
        BodyModel { string: self.string@, chance: self.chance }
    }
}

impl ProductionBody {
    /// Creates a new production body from the given [`ProductionString`],
    /// with a chance derived at selection time.
    pub fn new(string: ProductionString) -> (r: Self)
        ensures
            r@.string == string@,
            !r@.chance.spec_is_set(),
            r@.chance.wf(),
    {
        ProductionBody { string, chance: Chance::empty() }
    }

    /// Creates a new production body from the given [`ProductionString`]
    /// that occurs with the given chance, in millionths. Fails with a parse
    /// error when the chance lies outside `(0, CHANCE_SCALE]`.
    pub fn try_with_chance(chance: u32, string: ProductionString) -> (r: Result<Self, Error>)
        ensures
            r is Ok <==> 0 < chance <= CHANCE_SCALE,
            r matches Ok(b) ==> {
                &&& b@.string == string@
                &&& b@.chance.spec_is_set()
                &&& b@.chance.spec_value() == chance
                &&& b@.chance.wf()
            },
            r matches Err(e) ==> e.spec_kind() == ErrorKind::Parse,
    {
        if chance == 0 || chance > CHANCE_SCALE {
            return Err(
                Error::new(ErrorKind::Parse, "chance should be positive and at most one"),
            );
        }
        Ok(ProductionBody { string, chance: Chance::new(chance) })
    }

    /// Create a production body that is just the empty string, with a chance
    /// derived at selection time.
    pub fn empty() -> (r: Self)
        ensures
            r@.string.len() == 0,
            !r@.chance.spec_is_set(),
            r@.chance.wf(),
    {
        ProductionBody { string: ProductionString::empty(), chance: Chance::empty() }
    }

    /// Whether the replacement is the empty string.
    pub fn is_empty(&self) -> (r: bool)
        ensures
            r == (self@.string.len() == 0),
    {
        self.string.is_empty()
    }

    /// The length of the replacement string.
    pub fn len(&self) -> (r: usize)
        ensures
            r == self@.string.len(),
    {
        self.string.len()
    }

    /// The replacement string.
    pub fn string(&self) -> (r: &ProductionString)
        ensures
            r@ == self@.string,
    {
        &self.string
    }

    /// The chance of this body being selected.
    pub fn chance(&self) -> (r: &Chance)
        ensures
            *r == self@.chance,
    {
        &self.chance
    }
}

impl Clone for ProductionBody {
    fn clone(&self) -> (r: Self)
        ensures
            r@ == self@,
    {
        ProductionBody { string: self.string.clone(), chance: self.chance }
    }
}

impl SymbolIterable for ProductionBody {
    open spec fn symbols_view(&self) -> Seq<Symbol> {
        self@.string
    }

    fn all_symbols(&self) -> (r: Vec<Symbol>) {
        self.string.all_symbols()
    }
}

/// The summed value, in millionths, of the user-set chances among `bodies`.
pub open spec fn total_set_chance(bodies: Seq<BodyModel>) -> int
    decreases bodies.len(),
{
    if bodies.len() == 0 {
        0
    } else {
        total_set_chance(bodies.drop_last()) + if bodies.last().chance.spec_is_set() {
            bodies.last().chance.spec_value() as int
        } else {
            0int
        }
    }
}

/// How many of `bodies` leave their chance to be derived.
pub open spec fn derived_count(bodies: Seq<BodyModel>) -> int
    decreases bodies.len(),
{
    if bodies.len() == 0 {
        0
    } else {
        derived_count(bodies.drop_last()) + if bodies.last().chance.spec_is_set() {
            0int
        } else {
            1int
        }
    }
}

/// The chance given to each body whose chance is derived: the probability
/// mass the user-set chances leave over, split evenly.
pub open spec fn default_share(bodies: Seq<BodyModel>) -> int {
    if derived_count(bodies) == 0 {
        0
    } else {
        (CHANCE_SCALE - total_set_chance(bodies)) / derived_count(bodies)
    }
}

/// The chance, in millionths, that body `b` contributes to the cumulative
/// walk: its own value if user-set, the shared default otherwise.
pub open spec fn chance_value_of(b: BodyModel, default: int) -> int {
    if b.chance.spec_is_set() {
        b.chance.spec_value() as int
    } else {
        default
    }
}

/// The index that the cumulative walk selects, starting at body `i` with
/// `acc` millionths already accumulated: the first body whose cumulative
/// chance meets or exceeds `draw`, and the last body if none does.
pub open spec fn select_from(
    bodies: Seq<BodyModel>,
    default: int,
    draw: int,
    i: int,
    acc: int,
) -> int
    decreases bodies.len() - i,
{
    if i >= bodies.len() - 1 {
        bodies.len() - 1
    } else {
        let cumulative = acc + chance_value_of(bodies[i], default);
        if draw <= cumulative {
            i
        } else {
            select_from(bodies, default, draw, i + 1, cumulative)
        }
    }
}

/// The index of the body that a stochastic selection with the given draw
/// picks from two or more alternatives.
pub open spec fn spec_select(bodies: Seq<BodyModel>, draw: int) -> int {
    select_from(bodies, default_share(bodies), draw, 0, 0)
}

/// The body that a selection with the given draw returns: the single body
/// unconditionally if there is exactly one, and the drawn one otherwise.
pub open spec fn spec_selection(bodies: Seq<BodyModel>, draw: int) -> BodyModel {
    if bodies.len() == 1 {
        bodies[0]
    } else {
        bodies[spec_select(bodies, draw)]
    }
}

/// Every chance among `bodies` is well-formed.
pub open spec fn bodies_chances_wf(bodies: Seq<BodyModel>) -> bool {
    forall|i: int| 0 <= i < bodies.len() ==> (#[trigger] bodies[i]).chance.wf()
}

/// Whether a list of alternatives cannot be selected from: it is empty, or
/// it has several bodies whose user-set chances sum to more than one.
pub open spec fn invalid_distribution(bodies: Seq<BodyModel>) -> bool {
    ||| bodies.len() == 0
    ||| bodies.len() > 1 && total_set_chance(bodies) > CHANCE_SCALE
}

/// The total of the user-set chances over a prefix never exceeds the total
/// over the whole list.
proof fn lemma_total_set_chance_monotone(bodies: Seq<BodyModel>, k: int)
    requires
        0 <= k <= bodies.len(),
    ensures
        total_set_chance(bodies.take(k)) <= total_set_chance(bodies),
    decreases bodies.len() - k,
{
    if k == bodies.len() {
        assert(bodies.take(k) =~= bodies);
    } else {
        assert(bodies.take(k + 1).drop_last() =~= bodies.take(k));
        lemma_total_set_chance_monotone(bodies, k + 1);
    }
}

/// Represents a production rule in an L-System: a rule of the form
/// `A -> B`, where `A` (the [`ProductionHead`]) is matched against positions
/// of the input string, and the string after the arrow (a [`ProductionBody`])
/// replaces the matched symbol. A production holds one or more alternative
/// bodies; a stochastic selection picks among them.
#[derive(Debug)]
pub struct Production {
    head: ProductionHead,
    body: Vec<ProductionBody>,
}

impl View for Production {
    type V = ProductionModel;

    closed spec fn view(&self) -> ProductionModel {
        ProductionModel { head: self.head@, bodies: bodies_view(self.body@) }
    }
}

impl Production {
    /// Every chance among the alternatives is well-formed. Constructors and
    /// registration keep this; selection relies on it.
    pub open spec fn chances_wf(&self) -> bool {
        bodies_chances_wf(self@.bodies)
    }

    /// Creates a production with a single alternative body.
    pub fn new(head: ProductionHead, body: ProductionBody) -> (r: Self)
        ensures
            r@.head == head@,
            r@.bodies =~= seq![body@],
            body@.chance.wf() ==> r.chances_wf(),
    {
        let mut bodies: Vec<ProductionBody> = Vec::new();
        bodies.push(body);
        proof {
            assert(bodies_view(bodies@) =~= seq![bodies@[0]@]);
        }
        Production { head, body: bodies }
    }

    /// The head this production matches with.
    pub fn head(&self) -> (r: &ProductionHead)
        ensures
            r@ == self@.head,
    {
        &self.head
    }

    /// Returns true iff this production's head matches the given string at
    /// the given index position.
    pub fn matches(&self, string: &ProductionString, index: usize) -> (r: bool)
        ensures
            r == spec_head_matches(self@.head, string@, index as int),
    {
        self.head.matches(string, index)
    }

    /// Appends another alternative body to this production.
    pub fn add_body(&mut self, body: ProductionBody)
        ensures
            final(self)@.head == old(self)@.head,
            final(self)@.bodies =~= old(self)@.bodies.push(body@),
            old(self).chances_wf() && body@.chance.wf() ==> final(self).chances_wf(),
    {
        self.body.push(body);
        proof {
            assert(bodies_view(self.body@) =~= bodies_view(old(self).body@).push(
                self.body@.last()@,
            ));
        }
    }

    /// Adds all of the body alternatives from `other` into `self`; used
    /// whenever the same head is declared more than once, so that a grammar
    /// written as several single-alternative rules accretes into one
    /// stochastic rule.
    pub fn merge(&mut self, other: Self)
        ensures
            final(self)@.head == old(self)@.head,
            final(self)@.bodies =~= old(self)@.bodies + other@.bodies,
            old(self).chances_wf() && other.chances_wf() ==> final(self).chances_wf(),
    {
        let Production { head: _, body: mut other_bodies } = other;
        let ghost others = bodies_view(other_bodies@);
        let mut taken: usize = 0;
        while taken < other_bodies.len()
            invariant
                taken <= others.len(),
                bodies_view(other_bodies@) =~= others,
                self@.head == old(self)@.head,
                self@.bodies =~= old(self)@.bodies + others.take(taken as int),
            decreases other_bodies@.len() - taken,
        {
            let ghost before = self@.bodies;
            let next = other_bodies[taken].clone();
            self.body.push(next);
            proof {
                assert(bodies_view(self.body@) =~= before.push(others[taken as int]));
                assert(before.push(others[taken as int]) =~= old(self)@.bodies + others.take(
                    taken + 1,
                ));
            }
            taken += 1;
        }
        proof {
            assert(others.take(others.len() as int) =~= others);
        }
    }

    /// A reference to all of the alternative bodies this production holds.
    pub fn all_bodies(&self) -> (r: &Vec<ProductionBody>)
        ensures
            bodies_view(r@) == self@.bodies,
    {
        &self.body
    }

    /// Picks an alternative body deterministically from the given draw, a
    /// uniformly distributed number of millionths in `(0, CHANCE_SCALE]`.
    ///
    /// A production with exactly one body returns it unconditionally. With
    /// several, the user-set chances are summed; a sum above one is a
    /// definitions error. Each derived chance receives an even share of the
    /// leftover mass, and the walk returns the first body whose cumulative
    /// chance meets or exceeds the draw, falling back to the last body.
    pub fn select_body(&self, draw: u32) -> (r: Result<&ProductionBody, Error>)
        requires
            1 <= draw <= CHANCE_SCALE,
            self.chances_wf(),
        ensures
            r is Err <==> invalid_distribution(self@.bodies),
            r matches Ok(b) ==> b@ == spec_selection(self@.bodies, draw as int),
            r matches Err(e) ==> e.spec_kind() == (if self@.bodies.len() == 0 {
                ErrorKind::Execution
            } else {
                ErrorKind::Definitions
            }),
    {
        let ghost bodies = self@.bodies;
        if self.body.len() == 0 {
            return Err(Error::new(ErrorKind::Execution, "Production has no bodies set"));
        }
        if self.body.len() == 1 {
            return Ok(&self.body[0]);
        }

        let mut total: u64 = 0;
        let mut i: usize = 0;
        while i < self.body.len()
            invariant
                i <= bodies.len(),
                bodies == self@.bodies,
                bodies.len() == self.body@.len(),
                bodies.len() > 1,
                self.chances_wf(),
                total == total_set_chance(bodies.take(i as int)),
                total <= CHANCE_SCALE,
            decreases bodies.len() - i,
        {
            let chance = *self.body[i].chance();
            proof {
                assert(bodies[i as int] == self.body@[i as int]@);
                assert(bodies.take(i + 1).drop_last() =~= bodies.take(i as int));
            }
            if chance.is_user_set() {
                total = total + chance.unwrap() as u64;
                if total > CHANCE_SCALE as u64 {
                    proof {
                        lemma_total_set_chance_monotone(bodies, i + 1);
                    }
                    return Err(
                        Error::new(
                            ErrorKind::Definitions,
                            "total chance of production bodies should not be greater than 1.0",
                        ),
                    );
                }
            }
            i += 1;
        }
        proof {
            assert(bodies.take(bodies.len() as int) =~= bodies);
        }

        let mut remaining: usize = 0;
        let mut i: usize = 0;
        while i < self.body.len()
            invariant
                i <= bodies.len(),
                bodies == self@.bodies,
                bodies.len() == self.body@.len(),
                remaining == derived_count(bodies.take(i as int)),
                remaining <= i,
            decreases bodies.len() - i,
        {
            proof {
                assert(bodies[i as int] == self.body@[i as int]@);
                assert(bodies.take(i + 1).drop_last() =~= bodies.take(i as int));
            }
            if self.body[i].chance().is_derived() {
                remaining = remaining + 1;
            }
            i += 1;
        }
        proof {
            assert(bodies.take(bodies.len() as int) =~= bodies);
        }

        let default: u64 = if remaining == 0 {
            0
        } else {
            (CHANCE_SCALE as u64 - total) / remaining as u64
        };
        proof {
            assert(default as int == default_share(bodies));
            assert(default <= CHANCE_SCALE as u64) by {
                if remaining != 0 {
                    assert((CHANCE_SCALE as int - total as int) / (remaining as int)
                        <= CHANCE_SCALE as int) by (nonlinear_arith)
                        requires
                            total as int <= CHANCE_SCALE as int,
                            remaining as int >= 1,
                    ;
                }
            }
        }

        let mut acc: u64 = 0;
        let mut i: usize = 0;
        while i < self.body.len() - 1
            invariant
                0 <= i < bodies.len(),
                bodies == self@.bodies,
                bodies.len() == self.body@.len(),
                bodies.len() > 1,
                total_set_chance(bodies) <= CHANCE_SCALE,
                self.chances_wf(),
                1 <= draw <= CHANCE_SCALE,
                acc < draw,
                default <= CHANCE_SCALE,
                default as int == default_share(bodies),
                select_from(bodies, default as int, draw as int, i as int, acc as int)
                    == spec_select(bodies, draw as int),
            decreases bodies.len() - i,
        {
            proof {
                assert(bodies[i as int] == self.body@[i as int]@);
            }
            let contribution = self.body[i].chance().unwrap_or(default as u32) as u64;
            let cumulative = acc + contribution;
            if draw as u64 <= cumulative {
                return Ok(&self.body[i]);
            }
            acc = cumulative;
            i += 1;
        }
        // All remaining chance is given to the last body.
        Ok(&self.body[self.body.len() - 1])
    }

    /// Selects one of the alternative bodies, drawing fresh randomness: the
    /// single body unconditionally if there is exactly one, and a body with
    /// probability proportional to its user-set or derived chance otherwise.
    ///
    /// Whatever was drawn, the returned body is the one that
    /// [`Production::select_body`] picks for some draw in `(0, CHANCE_SCALE]`.
    pub fn body(&self) -> (r: Result<&ProductionBody, Error>)
        requires
            self.chances_wf(),
        ensures
            r is Err <==> invalid_distribution(self@.bodies),
            r matches Ok(b) ==> exists|draw: u32|
                1 <= draw <= CHANCE_SCALE && b@ == spec_selection(self@.bodies, draw as int),
            r matches Err(e) ==> e.spec_kind() == (if self@.bodies.len() == 0 {
                ErrorKind::Execution
            } else {
                ErrorKind::Definitions
            }),
    {
        let draw = draw_chance();
        let selected = self.select_body(draw)?;
        proof {
            assert(1 <= draw <= CHANCE_SCALE && selected@ == spec_selection(
                self@.bodies,
                draw as int,
            ));
        }
        Ok(selected)
    }
}

impl Clone for Production {
    fn clone(&self) -> (r: Self)
        ensures
            r@ == self@,
    {
        let mut bodies: Vec<ProductionBody> = Vec::new();
        let mut i: usize = 0;
        while i < self.body.len()
            invariant
                i <= self.body@.len(),
                bodies_view(bodies@) =~= bodies_view(self.body@).take(i as int),
            decreases self.body@.len() - i,
        {
            let ghost before = bodies_view(bodies@);
            bodies.push(self.body[i].clone());
            proof {
                assert(bodies_view(bodies@) =~= before.push(self.body@[i as int]@));
                assert(before.push(self.body@[i as int]@) =~= bodies_view(self.body@).take(i + 1));
            }
            i += 1;
        }
        proof {
            assert(bodies_view(self.body@).take(self.body@.len() as int) =~= bodies_view(
                self.body@,
            ));
            assert(bodies_view(bodies@) =~= bodies_view(self.body@));
        }
        let cloned = Production { head: self.head.clone(), body: bodies };
        proof {
            assert(cloned@ =~= self@);
        }
        cloned
    }
}

impl SymbolIterable for Production {
    open spec fn symbols_view(&self) -> Seq<Symbol> {
        head_symbols(self@.head) + flattened_body_symbols(self@.bodies)
    }

    fn all_symbols(&self) -> (r: Vec<Symbol>) {
        let mut out = self.head.all_symbols();
        let mut i: usize = 0;
        while i < self.body.len()
            invariant
                i <= self.body@.len(),
                out@ =~= head_symbols(self@.head) + flattened_body_symbols(
                    bodies_view(self.body@).take(i as int),
                ),
            decreases self.body@.len() - i,
        {
            let ghost before = out@;
            let mut one = self.body[i].all_symbols();
            out.append(&mut one);
            proof {
                assert(bodies_view(self.body@).take(i + 1).drop_last() =~= bodies_view(
                    self.body@,
                ).take(i as int));
                assert(out@ =~= head_symbols(self@.head) + flattened_body_symbols(
                    bodies_view(self.body@).take(i + 1),
                ));
            }
            i += 1;
        }
        proof {
            assert(bodies_view(self.body@).take(self.body@.len() as int) =~= bodies_view(
                self.body@,
            ));
        }
        out
    }
}

/// The symbols of a list of bodies, in order.
pub open spec fn flattened_body_symbols(bodies: Seq<BodyModel>) -> Seq<Symbol>
    decreases bodies.len(),
{
    if bodies.len() == 0 {
        Seq::empty()
    } else {
        flattened_body_symbols(bodies.drop_last()) + bodies.last().string
    }
}

/// Relies on rand::rngs::ThreadRng (through rand::thread_rng) and
/// rand::Rng::gen_range: the drawn value is uniformly distributed over the
/// given range. Nothing more can be promised of a random draw.
#[verifier::external_body]
fn draw_chance() -> (r: u32)
    ensures
        1 <= r <= CHANCE_SCALE,
{
    rand::thread_rng().gen_range(1..=CHANCE_SCALE)
}

/// The spec-level values of a list of productions.
pub open spec fn prods_view(prods: Seq<Production>) -> Seq<ProductionModel> {
    prods.map(|i: int, p: Production| p@)
}

/// A trait for collections that accept and store productions.
///
/// Each store says, through [`ProductionStore::registered`], what
/// registration does to its productions: a plain list appends, a grammar's
/// store merges by head.
pub trait ProductionStore {
    /// The store's productions, as spec-level values.
    spec fn prods_model(&self) -> Seq<ProductionModel>;

    /// The store's own validity condition, preserved by registration.
    spec fn store_inv(&self) -> bool;

    /// What registering a production does to the store's productions, and
    /// the index of the production that then holds the registration.
    spec fn registered(&self, production: ProductionModel) -> (Seq<ProductionModel>, int);

    /// Adds a production to the store, returning the production now stored
    /// for it.
    fn add_production(&mut self, production: Production) -> (r: Result<Production, Error>)
        requires
            old(self).store_inv(),
            production.chances_wf(),
        ensures
            final(self).store_inv(),
            final(self).prods_model() == old(self).registered(production@).0,
            r matches Ok(p) ==> {
                &&& 0 <= old(self).registered(production@).1 < final(self).prods_model().len()
                &&& p@ == final(self).prods_model()[old(self).registered(production@).1]
            },
            r is Ok,
    ;
}

impl ProductionStore for Vec<Production> {
    open spec fn prods_model(&self) -> Seq<ProductionModel> {
        prods_view(self@)
    }

    open spec fn store_inv(&self) -> bool {
        true
    }

    /// A plain list appends; it merges nothing.
    open spec fn registered(&self, production: ProductionModel) -> (Seq<ProductionModel>, int) {
        (prods_view(self@).push(production), prods_view(self@).len() as int)
    }

    fn add_production(&mut self, production: Production) -> (r: Result<Production, Error>) {
        let copy = production.clone();
        self.push(production);
        proof {
            assert(prods_view(self@) =~= prods_view(old(self)@).push(production@));
        }
        Ok(copy)
    }
}

/// The symbols a head mentions: its pre-context, its target, then its
/// post-context.
pub open spec fn head_symbols(h: HeadModel) -> Seq<Symbol> {
    (match h.pre {
        Option::Some(p) => p,
        Option::None => Seq::empty(),
    }) + seq![h.target] + (match h.post {
        Option::Some(p) => p,
        Option::None => Seq::empty(),
    })
}

impl SymbolIterable for ProductionHead {
    open spec fn symbols_view(&self) -> Seq<Symbol> {
        head_symbols(self@)
    }

    fn all_symbols(&self) -> (r: Vec<Symbol>) {
        let mut out: Vec<Symbol> = Vec::new();
        if let Option::Some(p) = &self.pre {
            let mut pre_symbols = p.all_symbols();
            out.append(&mut pre_symbols);
        }
        out.push(self.target);
        if let Option::Some(p) = &self.post {
            let mut post_symbols = p.all_symbols();
            out.append(&mut post_symbols);
        }
        proof {
            assert(out@ =~= self.symbols_view());
        }
        out
    }
}

} // verus!
