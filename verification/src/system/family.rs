//! Families: named catalogs of the symbols that a kind of L-system uses.
//!
//! A family describes the vocabulary that its systems share: which names are
//! terminals and which can be targeted by productions, with an optional
//! description of each. A [`FamilyRegistry`] keeps the families a program
//! has defined, by name; callers that want one registry across threads wrap
//! it in a reference-counted lock of their own.

use vstd::prelude::*;

use crate::error::{Error, ErrorKind};
use crate::parser::spec_split_ws;
use crate::parser::split_whitespace;
use crate::symbols::str_eq;

verus! {

/// A symbol of a family: its name, and what the symbol represents.
#[derive(Debug)]
pub struct SymbolDescription {
    /// The symbol's name.
    pub name: String,
    /// What this symbol represents.
    pub description: Option<String>,
}

impl Clone for SymbolDescription {
    fn clone(&self) -> (r: Self)
        ensures
            r == *self,
    {
        let description = match &self.description {
            Option::Some(d) => Option::Some(d.clone()),
            Option::None => Option::None,
        };
        SymbolDescription { name: self.name.clone(), description }
    }
}

/// The names of a list of symbol descriptions.
pub open spec fn description_names(v: Seq<SymbolDescription>) -> Seq<Seq<char>> {
    v.map(|i: int, d: SymbolDescription| d.name@)
}

/// The index of the first description named `name`, or `-1` if none is.
pub open spec fn desc_index(v: Seq<SymbolDescription>, name: Seq<char>) -> int
    decreases v.len(),
{
    if v.len() == 0 {
        -1
    } else if v[0].name@ == name {
        0
    } else {
        let rest = desc_index(v.drop_first(), name);
        if rest < 0 {
            -1
        } else {
            rest + 1
        }
    }
}

pub proof fn lemma_desc_index_spec(v: Seq<SymbolDescription>, name: Seq<char>)
    ensures
        -1 <= desc_index(v, name) < v.len(),
        desc_index(v, name) >= 0 ==> v[desc_index(v, name)].name@ == name,
        desc_index(v, name) == -1 ==> forall|i: int|
            0 <= i < v.len() ==> (#[trigger] v[i]).name@ != name,
        forall|j: int| 0 <= j < desc_index(v, name) ==> (#[trigger] v[j]).name@ != name,
    decreases v.len(),
{
    if v.len() > 0 && v[0].name@ != name {
        lemma_desc_index_spec(v.drop_first(), name);
        assert(forall|i: int| 1 <= i < v.len() ==> v[i] == v.drop_first()[i - 1]);
    }
}

/// If no description before `i` has the name and the one at `i` does, then
/// `i` is the first index with that name.
proof fn lemma_desc_index_prefix_miss(v: Seq<SymbolDescription>, name: Seq<char>, i: int)
    requires
        0 <= i < v.len(),
        v[i].name@ == name,
        forall|j: int| 0 <= j < i ==> (#[trigger] v[j]).name@ != name,
    ensures
        desc_index(v, name) == i,
    decreases i,
{
    if i > 0 {
        assert(forall|j: int| 0 <= j < i - 1 ==> v.drop_first()[j] == v[j + 1]);
        lemma_desc_index_prefix_miss(v.drop_first(), name, i - 1);
    }
}

/// Keying a list by name: a description whose name is already present
/// replaces the earlier entry in place; a new name is appended.
pub open spec fn spec_upsert(
    acc: Seq<SymbolDescription>,
    d: SymbolDescription,
) -> Seq<SymbolDescription> {
    let i = desc_index(acc, d.name@);
    if i >= 0 {
        acc.update(i, d)
    } else {
        acc.push(d)
    }
}

/// What keying a whole list by name yields: each name once, at its first
/// position, carrying the description of its last registration.
pub open spec fn spec_dedup(v: Seq<SymbolDescription>) -> Seq<SymbolDescription>
    decreases v.len(),
{
    if v.len() == 0 {
        Seq::empty()
    } else {
        spec_upsert(spec_dedup(v.drop_last()), v.last())
    }
}

/// A list whose names are pairwise distinct is already keyed: deduplication
/// leaves it untouched.
pub proof fn lemma_dedup_distinct(v: Seq<SymbolDescription>)
    requires
        forall|i: int, j: int|
            0 <= i < j < v.len() ==> (#[trigger] v[i]).name@ != (#[trigger] v[j]).name@,
    ensures
        spec_dedup(v) == v,
    decreases v.len(),
{
    if v.len() > 0 {
        lemma_dedup_distinct(v.drop_last());
        lemma_desc_index_spec(v.drop_last(), v.last().name@);
        let i = desc_index(v.drop_last(), v.last().name@);
        if i >= 0 {
            assert(v[i].name@ == v.last().name@);
        }
        assert(v.drop_last().push(v.last()) =~= v);
    }
}

/// Keys a list of symbol descriptions by name, as [`spec_dedup`] says.
fn dedup_descriptions(v: Vec<SymbolDescription>) -> (r: Vec<SymbolDescription>)
    ensures
        r@ == spec_dedup(v@),
{
    let mut out: Vec<SymbolDescription> = Vec::new();
    let mut i: usize = 0;
    while i < v.len()
        invariant
            i <= v@.len(),
            out@ == spec_dedup(v@.take(i as int)),
        decreases v@.len() - i,
    {
        proof {
            assert(v@.take(i + 1).drop_last() =~= v@.take(i as int));
            assert(v@.take(i + 1).last() == v@[i as int]);
            lemma_desc_index_spec(out@, v@[i as int].name@);
        }
        let d = v[i].clone();
        let mut j: usize = 0;
        let mut found: Option<usize> = Option::None;
        while j < out.len()
            invariant_except_break
                found is None,
            invariant
                j <= out@.len(),
                i < v@.len(),
                d == v@[i as int],
                -1 <= desc_index(out@, d.name@) < out@.len(),
                desc_index(out@, d.name@) >= 0 ==> out@[desc_index(out@, d.name@)].name@
                    == d.name@,
                forall|m: int| 0 <= m < j ==> (#[trigger] out@[m]).name@ != d.name@,
            ensures
                match found {
                    Option::Some(f) => f < out@.len() && desc_index(out@, d.name@) == f,
                    Option::None => desc_index(out@, d.name@) < 0,
                },
            decreases out@.len() - j,
        {
            if str_eq(out[j].name.as_str(), d.name.as_str()) {
                proof {
                    lemma_desc_index_prefix_miss(out@, d.name@, j as int);
                }
                found = Option::Some(j);
                break;
            }
            j += 1;
        }
        proof {
            lemma_desc_index_spec(out@, d.name@);
        }
        match found {
            Option::Some(f) => {
                let ghost before = out@;
                out.remove(f);
                out.insert(f, d);
                proof {
                    assert(out@ =~= before.update(f as int, v@[i as int]));
                }
            },
            Option::None => {
                out.push(d);
            },
        }
        i += 1;
    }
    proof {
        assert(v@.take(v@.len() as int) =~= v@);
    }
    out
}

/// Copies a list of symbol descriptions.
fn clone_descriptions(v: &Vec<SymbolDescription>) -> (r: Vec<SymbolDescription>)
    ensures
        r@ == v@,
{
    let mut out: Vec<SymbolDescription> = Vec::new();
    let mut i: usize = 0;
    while i < v.len()
        invariant
            i <= v@.len(),
            out@ == v@.take(i as int),
        decreases v@.len() - i,
    {
        out.push(v[i].clone());
        proof {
            assert(out@ =~= v@.take(i + 1));
        }
        i += 1;
    }
    proof {
        assert(v@.take(v@.len() as int) =~= v@);
    }
    out
}

/// Collects the vocabulary of a family before it is built.
#[derive(Debug)]
pub struct Builder {
    terminals: Vec<SymbolDescription>,
    productions: Vec<SymbolDescription>,
}

impl Builder {
    /// The terminals registered so far, as a spec-level value.
    pub closed spec fn spec_terminals(&self) -> Seq<SymbolDescription> {
        self.terminals@
    }

    /// The production symbols registered so far, as a spec-level value.
    pub closed spec fn spec_productions(&self) -> Seq<SymbolDescription> {
        self.productions@
    }

    /// Registers a terminal, with an optional description of what the
    /// terminal represents. This does not create symbols; it only defines
    /// what names the family allows.
    pub fn with_terminal(self, name: &str, description: Option<&str>) -> (r: Self)
        ensures
            r.spec_productions() == self.spec_productions(),
            r.spec_terminals().len() == self.spec_terminals().len() + 1,
            r.spec_terminals().drop_last() == self.spec_terminals(),
            r.spec_terminals().last().name@ == name@,
            match description {
                Option::Some(d) => r.spec_terminals().last().description matches Option::Some(o)
                    && o@ == d@,
                Option::None => r.spec_terminals().last().description is None,
            },
    {
        let mut terminals = self.terminals;
        terminals.push(describe(name, description));
        Builder { terminals, productions: self.productions }
    }

    /// Registers a production symbol, with an optional description of the
    /// action the symbol represents. This does not create symbols; it only
    /// defines what names the family allows.
    pub fn with_production(self, name: &str, description: Option<&str>) -> (r: Self)
        ensures
            r.spec_terminals() == self.spec_terminals(),
            r.spec_productions().len() == self.spec_productions().len() + 1,
            r.spec_productions().drop_last() == self.spec_productions(),
            r.spec_productions().last().name@ == name@,
            match description {
                Option::Some(d) => r.spec_productions().last().description matches Option::Some(
                    o,
                ) && o@ == d@,
                Option::None => r.spec_productions().last().description is None,
            },
    {
        let mut productions = self.productions;
        productions.push(describe(name, description));
        Builder { terminals: self.terminals, productions }
    }

    /// Creates a [`SystemFamily`] without registering it. Fails with a
    /// definitions error when the chosen name is empty or all whitespace.
    /// The symbol lists are keyed by name: registering a name again
    /// replaces the earlier entry's description.
    pub fn build(self, name: &str) -> (r: Result<SystemFamily, Error>)
        ensures
            r is Ok <==> spec_split_ws(name@).len() > 0,
            r matches Ok(f) ==> {
                &&& f.spec_name() == name@
                &&& f.spec_terminals() == spec_dedup(self.spec_terminals())
                &&& f.spec_productions() == spec_dedup(self.spec_productions())
            },
            r matches Err(e) ==> e.spec_kind() == ErrorKind::Definitions,
    {
        let words = split_whitespace(name);
        if words.len() == 0 {
            return Err(Error::new(ErrorKind::Definitions, "family name cannot be empty"));
        }
        Ok(
            SystemFamily {
                name: name.to_owned(),
                terminals: dedup_descriptions(self.terminals),
                productions: dedup_descriptions(self.productions),
            },
        )
    }

    /// Builds the family and registers it, returning a copy of what was
    /// registered. Fails with a definitions error iff the chosen name is
    /// empty, and with a duplicate error iff the name is already registered;
    /// either way the registry is untouched. Otherwise the built family is
    /// appended to the registry and returned.
    pub fn register(self, registry: &mut FamilyRegistry, name: &str) -> (r: Result<
        SystemFamily,
        Error,
    >)
        ensures
            spec_split_ws(name@).len() == 0 ==> (r matches Err(e) && e.spec_kind()
                == ErrorKind::Definitions) && final(registry).spec_families() == old(
                registry,
            ).spec_families(),
            spec_split_ws(name@).len() > 0 && spec_get_family(
                old(registry).spec_families(),
                name@,
            ) is Some ==> (r matches Err(e) && e.spec_kind() == ErrorKind::Duplicate)
                && final(registry).spec_families() == old(registry).spec_families(),
            spec_split_ws(name@).len() > 0 && spec_get_family(
                old(registry).spec_families(),
                name@,
            ) is None ==> (r matches Ok(f) && {
                let fams = final(registry).spec_families();
                &&& fams.len() == old(registry).spec_families().len() + 1
                &&& fams.take(fams.len() - 1) == old(registry).spec_families()
                &&& fams.last().spec_name() == name@
                &&& fams.last().spec_terminals() == spec_dedup(self.spec_terminals())
                &&& fams.last().spec_productions() == spec_dedup(self.spec_productions())
                &&& f.spec_name() == name@
                &&& f.spec_terminals() == spec_dedup(self.spec_terminals())
                &&& f.spec_productions() == spec_dedup(self.spec_productions())
            }),
            r matches Err(e) ==> e.spec_kind() == ErrorKind::Definitions || e.spec_kind()
                == ErrorKind::Duplicate,
    {
        let family = match self.build(name) {
            Ok(family) => family,
            Err(e) => {
                return Err(e);
            },
        };
        let registered = registry.register(family);
        proof {
            if registered is Ok {
                assert(final(registry).spec_families().take(
                    final(registry).spec_families().len() - 1,
                ) =~= old(registry).spec_families());
            }
        }
        registered
    }
}

/// A symbol description from borrowed parts.
fn describe(name: &str, description: Option<&str>) -> (r: SymbolDescription)
    ensures
        r.name@ == name@,
        match description {
            Option::Some(d) => r.description matches Option::Some(o) && o@ == d@,
            Option::None => r.description is None,
        },
{
    let description = match description {
        Option::Some(d) => Option::Some(d.to_owned()),
        Option::None => Option::None,
    };
    SymbolDescription { name: name.to_owned(), description }
}

/// A named catalog of the symbols that one kind of L-system uses.
#[derive(Debug)]
pub struct SystemFamily {
    name: String,
    terminals: Vec<SymbolDescription>,
    productions: Vec<SymbolDescription>,
}

impl SystemFamily {
    /// The family's name, as a spec-level value.
    pub closed spec fn spec_name(&self) -> Seq<char> {
        self.name@
    }

    /// The family's terminals, as a spec-level value.
    pub closed spec fn spec_terminals(&self) -> Seq<SymbolDescription> {
        self.terminals@
    }

    /// The family's production symbols, as a spec-level value.
    pub closed spec fn spec_productions(&self) -> Seq<SymbolDescription> {
        self.productions@
    }

    /// Define a family of systems.
    pub fn define() -> (r: Builder)
        ensures
            r.spec_terminals() =~= Seq::<SymbolDescription>::empty(),
            r.spec_productions() =~= Seq::<SymbolDescription>::empty(),
    {
        Builder { terminals: Vec::new(), productions: Vec::new() }
    }

    /// Returns the name of the family.
    pub fn name(&self) -> (r: &String)
        ensures
            r@ == self.spec_name(),
    {
        &self.name
    }

    /// The terminals registered for this family.
    pub fn terminals(&self) -> (r: &Vec<SymbolDescription>)
        ensures
            r@ == self.spec_terminals(),
    {
        &self.terminals
    }

    /// The production symbols registered for this family.
    pub fn productions(&self) -> (r: &Vec<SymbolDescription>)
        ensures
            r@ == self.spec_productions(),
    {
        &self.productions
    }

    /// All symbols of this family: the terminals, then the production
    /// symbols.
    pub fn symbols(&self) -> (r: Vec<SymbolDescription>)
        ensures
            r@ == self.spec_terminals() + self.spec_productions(),
    {
        let mut out = clone_descriptions(&self.terminals);
        let mut more = clone_descriptions(&self.productions);
        out.append(&mut more);
        out
    }
}

impl Clone for SystemFamily {
    fn clone(&self) -> (r: Self)
        ensures
            r.spec_name() == self.spec_name(),
            r.spec_terminals() == self.spec_terminals(),
            r.spec_productions() == self.spec_productions(),
    {
        SystemFamily {
            name: self.name.clone(),
            terminals: clone_descriptions(&self.terminals),
            productions: clone_descriptions(&self.productions),
        }
    }
}

/// The index of the first family named `name`, or `-1` if none is.
pub open spec fn family_index(fams: Seq<SystemFamily>, name: Seq<char>) -> int
    decreases fams.len(),
{
    if fams.len() == 0 {
        -1
    } else if fams[0].spec_name() == name {
        0
    } else {
        let rest = family_index(fams.drop_first(), name);
        if rest < 0 {
            -1
        } else {
            rest + 1
        }
    }
}

pub proof fn lemma_family_index_spec(fams: Seq<SystemFamily>, name: Seq<char>)
    ensures
        -1 <= family_index(fams, name) < fams.len(),
        family_index(fams, name) >= 0 ==> fams[family_index(fams, name)].spec_name() == name,
        family_index(fams, name) == -1 ==> forall|i: int|
            0 <= i < fams.len() ==> (#[trigger] fams[i]).spec_name() != name,
        forall|j: int| 0 <= j < family_index(fams, name) ==> (#[trigger] fams[j]).spec_name()
            != name,
    decreases fams.len(),
{
    if fams.len() > 0 && fams[0].spec_name() != name {
        lemma_family_index_spec(fams.drop_first(), name);
        assert(forall|i: int| 1 <= i < fams.len() ==> fams[i] == fams.drop_first()[i - 1]);
    }
}

/// If no family before `i` has the name and the one at `i` does, then `i`
/// is the first index with that name.
proof fn lemma_family_index_prefix_miss(fams: Seq<SystemFamily>, name: Seq<char>, i: int)
    requires
        0 <= i < fams.len(),
        fams[i].spec_name() == name,
        forall|j: int| 0 <= j < i ==> (#[trigger] fams[j]).spec_name() != name,
    ensures
        family_index(fams, name) == i,
    decreases i,
{
    if i > 0 {
        assert(forall|j: int| 0 <= j < i - 1 ==> fams.drop_first()[j] == fams[j + 1]);
        lemma_family_index_prefix_miss(fams.drop_first(), name, i - 1);
    }
}

/// The first registered family with the given name, if any.
pub open spec fn spec_get_family(fams: Seq<SystemFamily>, name: Seq<char>) -> Option<
    SystemFamily,
> {
    let i = family_index(fams, name);
    if i >= 0 {
        Option::Some(fams[i])
    } else {
        Option::None
    }
}

/// The registry of the families a program has defined, by name.
#[derive(Debug)]
pub struct FamilyRegistry {
    families: Vec<SystemFamily>,
}

impl FamilyRegistry {
    /// The registered families, as a spec-level value.
    pub closed spec fn spec_families(&self) -> Seq<SystemFamily> {
        self.families@
    }

    /// Creates an empty registry.
    pub fn new() -> (r: Self)
        ensures
            r.spec_families() =~= Seq::<SystemFamily>::empty(),
    {
        FamilyRegistry { families: Vec::new() }
    }

    /// Returns the first registered family with the given name, if there is
    /// one.
    pub fn get_family(&self, name: &str) -> (r: Option<&SystemFamily>)
        ensures
            match r {
                Option::Some(f) => spec_get_family(self.spec_families(), name@) == Option::Some(
                    *f,
                ),
                Option::None => spec_get_family(self.spec_families(), name@) is None,
            },
    {
        let mut i: usize = 0;
        while i < self.families.len()
            invariant
                i <= self.spec_families().len(),
                self.spec_families() == self.families@,
                forall|j: int|
                    0 <= j < i ==> (#[trigger] self.spec_families()[j]).spec_name() != name@,
            decreases self.spec_families().len() - i,
        {
            if str_eq(self.families[i].name().as_str(), name) {
                proof {
                    lemma_family_index_prefix_miss(self.spec_families(), name@, i as int);
                }
                return Option::Some(&self.families[i]);
            }
            i += 1;
        }
        proof {
            lemma_family_index_spec(self.spec_families(), name@);
        }
        Option::None
    }

    /// Returns true if and only if a family with the given name has been
    /// registered.
    pub fn family_exists(&self, name: &str) -> (r: bool)
        ensures
            r == (spec_get_family(self.spec_families(), name@) is Some),
    {
        match self.get_family(name) {
            Option::Some(_) => true,
            Option::None => false,
        }
    }

    /// Registers a family under its own name, returning a copy of what was
    /// registered. Fails with a duplicate error iff the name is taken; the
    /// registry is then untouched.
    pub fn register(&mut self, family: SystemFamily) -> (r: Result<SystemFamily, Error>)
        ensures
            r matches Ok(f) ==> {
                &&& final(self).spec_families() == old(self).spec_families().push(family)
                &&& f.spec_name() == family.spec_name()
                &&& f.spec_terminals() == family.spec_terminals()
                &&& f.spec_productions() == family.spec_productions()
            },
            r is Err ==> final(self).spec_families() == old(self).spec_families(),
            r is Err <==> spec_get_family(old(self).spec_families(), family.spec_name()) is Some,
            r matches Err(e) ==> e.spec_kind() == ErrorKind::Duplicate,
    {
        if self.family_exists(family.name().as_str()) {
            return Err(Error::new(ErrorKind::Duplicate, "the family name is already taken"));
        }
        let copy = family.clone();
        self.families.push(family);
        Ok(copy)
    }

    /// Returns a copy of the registered family with the given name,
    /// registering `default` under that name first if none exists.
    pub fn get_or_init_family(&mut self, name: &str, default: SystemFamily) -> (r: SystemFamily)
        requires
            default.spec_name() == name@,
        ensures
            spec_get_family(old(self).spec_families(), name@) matches Option::Some(f) ==> {
                &&& final(self).spec_families() == old(self).spec_families()
                &&& r.spec_name() == f.spec_name()
                &&& r.spec_terminals() == f.spec_terminals()
                &&& r.spec_productions() == f.spec_productions()
            },
            spec_get_family(old(self).spec_families(), name@) is None ==> {
                &&& final(self).spec_families() == old(self).spec_families().push(default)
                &&& r.spec_name() == default.spec_name()
                &&& r.spec_terminals() == default.spec_terminals()
                &&& r.spec_productions() == default.spec_productions()
            },
            r.spec_name() == name@,
    {
        match self.get_family(name) {
            Option::Some(found) => {
                proof {
                    lemma_family_index_spec(self.spec_families(), name@);
                }
                found.clone()
            },
            Option::None => {
                let copy = default.clone();
                match self.register(default) {
                    Ok(registered) => registered,
                    Err(_) => {
                        proof {
                            assert(false);
                        }
                        copy
                    },
                }
            },
        }
    }
}

/// Conversions into a family, resolving names through a registry.
pub trait TryIntoFamily: Sized {
    /// The family this value stands for against the registry, if any.
    spec fn spec_family(&self, registry: &FamilyRegistry) -> Option<SystemFamily>;

    /// The family this value stands for, resolved against the registry.
    fn into_family(self, registry: &FamilyRegistry) -> (r: Result<SystemFamily, Error>)
        ensures
            r matches Ok(f) ==> self.spec_family(registry) matches Option::Some(g) && {
                &&& f.spec_name() == g.spec_name()
                &&& f.spec_terminals() == g.spec_terminals()
                &&& f.spec_productions() == g.spec_productions()
            },
            r is Ok <==> self.spec_family(registry) is Some,
            r matches Err(e) ==> e.spec_kind() == ErrorKind::Definitions,
    ;
}

impl TryIntoFamily for SystemFamily {
    /// A family stands for itself; the registry is not consulted.
    open spec fn spec_family(&self, registry: &FamilyRegistry) -> Option<SystemFamily> {
        Option::Some(*self)
    }

    fn into_family(self, registry: &FamilyRegistry) -> (r: Result<SystemFamily, Error>) {
        Ok(self)
    }
}

impl TryIntoFamily for &str {
    /// A name stands for the first registered family with that name.
    open spec fn spec_family(&self, registry: &FamilyRegistry) -> Option<SystemFamily> {
        spec_get_family(registry.spec_families(), self@)
    }

    fn into_family(self, registry: &FamilyRegistry) -> (r: Result<SystemFamily, Error>) {
        match registry.get_family(self) {
            Option::Some(found) => Ok(found.clone()),
            Option::None => Err(Error::new(ErrorKind::Definitions, "the family is not registered")),
        }
    }
}

} // verus!
