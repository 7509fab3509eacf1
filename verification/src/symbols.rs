//! Symbols and the interner that maps symbol names to stable numeric codes.
//!
//! A [`Symbol`] is an opaque integer handle for a name. The name-to-code
//! mapping lives in a [`SymbolTable`]: an append-only arena of interned names
//! indexed by dense integers. Identical names always resolve to identical
//! codes in one table, however many grammars share it; codes are never reused
//! or freed. Callers that want to share one table across threads wrap it in a
//! reference-counted lock of their own.

use vstd::prelude::*;

use crate::error::{Error, ErrorKind};
use crate::strings::ProductionString;

verus! {

/// The first code that a [`SymbolTable`] hands out. Codes below this value
/// form a small reserved range that never names a symbol.
pub const FIRST_CODE: u32 = 16;

/// An opaque handle for an interned symbol name.
///
/// Two symbols with the same code stand for the same name within one
/// [`SymbolTable`]. A symbol carries no terminal/non-terminal tag of its own:
/// whether it is rewritten is decided entirely by whether some production
/// head targets it at a given position.
#[derive(Debug, Copy, Clone, PartialEq, Eq, Hash, Structural)]
pub struct Symbol {
    pub code: u32,
}

impl Symbol {
    pub fn new(code: u32) -> (r: Self)
        ensures
            r.code == code,
    {
        Symbol { code }
    }

    /// The unique identifier of the symbol within its table.
    pub fn code(&self) -> (r: u32)
        ensures
            r == self.code,
    {
        self.code
    }
}

/// The index of the first occurrence of `name` in `names`, or `-1` if the
/// name does not occur.
pub open spec fn first_index(names: Seq<Seq<char>>, name: Seq<char>) -> int
    decreases names.len(),
{
    if names.len() == 0 {
        -1
    } else if names[0] == name {
        0
    } else {
        let rest = first_index(names.drop_first(), name);
        if rest < 0 {
            -1
        } else {
            rest + 1
        }
    }
}

/// What interning does to a table: an already-present name leaves the table
/// unchanged and resolves to its existing code; an absent name is appended
/// and receives the next code.
pub open spec fn spec_intern(names: Seq<Seq<char>>, name: Seq<char>) -> (Seq<Seq<char>>, u32) {
    let idx = first_index(names, name);
    if idx >= 0 {
        (names, (FIRST_CODE + idx) as u32)
    } else {
        (names.push(name), (FIRST_CODE + names.len()) as u32)
    }
}

/// A list of names holds each name at most once.
pub open spec fn names_wf(names: Seq<Seq<char>>) -> bool {
    forall|i: int, j: int| 0 <= i < j < names.len() ==> names[i] != names[j]
}

/// The name a code resolves to in a table, if any.
pub open spec fn spec_name_of(names: Seq<Seq<char>>, code: u32) -> Option<Seq<char>> {
    if FIRST_CODE <= code && code - FIRST_CODE < names.len() {
        Some(names[code - FIRST_CODE])
    } else {
        None
    }
}

pub proof fn lemma_first_index_spec(names: Seq<Seq<char>>, name: Seq<char>)
    ensures
        -1 <= first_index(names, name) < names.len(),
        first_index(names, name) >= 0 ==> names[first_index(names, name)] == name,
        first_index(names, name) == -1 ==> forall|i: int|
            0 <= i < names.len() ==> names[i] != name,
        forall|j: int| 0 <= j < first_index(names, name) ==> names[j] != name,
    decreases names.len(),
{
    if names.len() > 0 && names[0] != name {
        lemma_first_index_spec(names.drop_first(), name);
        assert(forall|i: int| 1 <= i < names.len() ==> names[i] == names.drop_first()[i - 1]);
    }
}

/// The first occurrence within a prefix: an occurrence before the cut is
/// kept, one at or past the cut is no occurrence at all.
pub proof fn lemma_first_index_take(names: Seq<Seq<char>>, name: Seq<char>, m: int)
    requires
        0 <= m <= names.len(),
    ensures
        0 <= first_index(names, name) < m ==> first_index(names.take(m), name) == first_index(
            names,
            name,
        ),
        !(0 <= first_index(names, name) < m) ==> first_index(names.take(m), name) == -1,
{
    lemma_first_index_spec(names, name);
    lemma_first_index_spec(names.take(m), name);
    let fi = first_index(names, name);
    if 0 <= fi < m {
        assert(names.take(m)[fi] == names[fi]);
        assert forall|j: int| 0 <= j < fi implies names.take(m)[j] != name by {
            assert(names.take(m)[j] == names[j]);
        }
        lemma_first_index_prefix_miss(names.take(m), name, fi);
    } else {
        let ft = first_index(names.take(m), name);
        if ft >= 0 {
            assert(names.take(m)[ft] == names[ft]);
        }
    }
}

/// Appending a fresh name to a table in which it is absent places its first
/// occurrence at the end; appending any name leaves the first occurrence of
/// the names already present unchanged.
pub proof fn lemma_first_index_push(names: Seq<Seq<char>>, name: Seq<char>, added: Seq<char>)
    ensures
        first_index(names, name) >= 0 ==> first_index(names.push(added), name) == first_index(
            names,
            name,
        ),
        first_index(names, name) < 0 && added == name ==> first_index(names.push(added), name)
            == names.len(),
        first_index(names, name) < 0 && added != name ==> first_index(names.push(added), name) < 0,
    decreases names.len(),
{
    if names.len() == 0 {
        assert(names.push(added).drop_first() =~= Seq::<Seq<char>>::empty());
        assert(first_index(Seq::<Seq<char>>::empty(), name) == -1);
        assert(names.push(added)[0] == added);
    } else {
        assert(names.push(added).drop_first() =~= names.drop_first().push(added));
        lemma_first_index_push(names.drop_first(), name, added);
    }
}

/// A code resolves to the name it was interned from.
pub proof fn lemma_intern_resolves(names: Seq<Seq<char>>, name: Seq<char>)
    requires
        names.len() + FIRST_CODE <= u32::MAX,
    ensures
        spec_name_of(spec_intern(names, name).0, spec_intern(names, name).1) == Some(name),
{
    lemma_first_index_spec(names, name);
}

/// Interning consistency: interning the same name twice resolves to the same
/// code both times, and the second call leaves the table untouched. Since the
/// table is the one place codes come from, this holds no matter how many
/// grammar instances share it.
pub proof fn lemma_intern_twice_same_code(names: Seq<Seq<char>>, name: Seq<char>)
    ensures
        spec_intern(spec_intern(names, name).0, name).1 == spec_intern(names, name).1,
        spec_intern(spec_intern(names, name).0, name).0 == spec_intern(names, name).0,
{
    lemma_first_index_spec(names, name);
    if first_index(names, name) < 0 {
        lemma_first_index_push(names, name, name);
    }
}

/// Compares two string slices character by character.
pub fn str_eq(a: &str, b: &str) -> (r: bool)
    ensures
        r == (a@ == b@),
{
    let a_len = a.unicode_len();
    let b_len = b.unicode_len();
    if a_len != b_len {
        return false;
    }
    let mut i: usize = 0;
    while i < a_len
        invariant
            i <= a_len,
            a_len == a@.len(),
            a_len == b@.len(),
            forall|j: int| 0 <= j < i ==> a@[j] == b@[j],
        decreases a_len - i,
    {
        if a.get_char(i) != b.get_char(i) {
            return false;
        }
        i += 1;
    }
    proof {
        assert(a@ =~= b@);
    }
    true
}

/// The process-wide arena of interned symbol names.
///
/// The table is append-only: once a name has been given a code, neither is
/// ever removed or changed, so a `Symbol` stays valid for the life of the
/// table. Its view is the sequence of interned names in interning order; the
/// name at index `i` owns the code `FIRST_CODE + i`.
#[derive(Debug)]
pub struct SymbolTable {
    names: Vec<String>,
}

impl View for SymbolTable {
    type V = Seq<Seq<char>>;

    closed spec fn view(&self) -> Seq<Seq<char>> {
        self.names@.map(|i: int, s: String| s@)
    }
}

impl SymbolTable {
    /// A table holds each name at most once, and never more names than the
    /// code space can address.
    pub open spec fn wf(&self) -> bool {
        &&& names_wf(self@)
        &&& self@.len() + FIRST_CODE <= u32::MAX
    }

    /// Creates an empty table. Codes start at [`FIRST_CODE`].
    pub fn new() -> (r: Self)
        ensures
            r@ =~= Seq::<Seq<char>>::empty(),
            r.wf(),
    {
        SymbolTable { names: Vec::new() }
    }

    /// The number of names interned so far.
    pub fn len(&self) -> (r: usize)
        ensures
            r == self@.len(),
    {
        self.names.len()
    }

    /// Create-or-get: returns the symbol whose name is `name`, interning the
    /// name if the table does not hold it yet. Fails only on an empty name,
    /// or once the table has exhausted the code space.
    pub fn intern(&mut self, name: &str) -> (r: Result<Symbol, Error>)
        requires
            old(self).wf(),
        ensures
            final(self).wf(),
            r matches Ok(sym) ==> {
                &&& final(self)@ == spec_intern(old(self)@, name@).0
                &&& sym.code == spec_intern(old(self)@, name@).1
            },
            r is Ok <==> name@.len() > 0 && (first_index(old(self)@, name@) >= 0 || old(
                self,
            )@.len() + FIRST_CODE < u32::MAX),
            r is Err ==> final(self)@ == old(self)@,
            r matches Err(e) ==> e.spec_kind() == (if name@.len() == 0 {
                ErrorKind::Parse
            } else {
                ErrorKind::Execution
            }),
    {
        if name.unicode_len() == 0 {
            return Err(Error::new(ErrorKind::Parse, "symbol name may not be empty"));
        }
        match self.position_of(name) {
            Some(i) => {
                proof {
                    lemma_first_index_spec(self@, name@);
                }
                Ok(Symbol { code: FIRST_CODE + (i as u32) })
            },
            None => {
                if self.names.len() as u64 >= (u32::MAX - FIRST_CODE) as u64 {
                    return Err(
                        Error::new(ErrorKind::Execution, "the symbol code space is exhausted"),
                    );
                }
                let code = FIRST_CODE + (self.names.len() as u32);
                self.names.push(name.to_owned());
                proof {
                    assert(self@ =~= old(self)@.push(name@));
                    lemma_first_index_push_preserves_wf(old(self)@, name@);
                }
                Ok(Symbol { code })
            },
        }
    }

    /// Returns the symbol that represents the given name, if the name has
    /// been interned. Never creates a symbol.
    pub fn lookup(&self, name: &str) -> (r: Option<Symbol>)
        requires
            self.wf(),
        ensures
            r matches Some(sym) ==> {
                &&& first_index(self@, name@) >= 0
                &&& sym.code == FIRST_CODE + first_index(self@, name@)
            },
            r is None <==> first_index(self@, name@) < 0,
    {
        proof {
            lemma_first_index_spec(self@, name@);
        }
        match self.position_of(name) {
            Some(i) => Some(Symbol { code: FIRST_CODE + (i as u32) }),
            None => None,
        }
    }

    /// Reverse lookup: the name that was interned for the given code, used
    /// for output formatting.
    pub fn name_of(&self, code: u32) -> (r: Option<String>)
        ensures
            r matches Some(s) ==> spec_name_of(self@, code) == Some(s@),
            r is Some <==> spec_name_of(self@, code) is Some,
    {
        if code < FIRST_CODE {
            return None;
        }
        let index = (code - FIRST_CODE) as usize;
        if index < self.names.len() {
            Some(self.names[index].clone())
        } else {
            None
        }
    }

    /// The index of `name` among the interned names, or `None`.
    fn position_of(&self, name: &str) -> (r: Option<usize>)
        ensures
            r matches Some(i) ==> i == first_index(self@, name@) && i < self@.len(),
            r is Some <==> first_index(self@, name@) >= 0,
    {
        let mut i: usize = 0;
        proof {
            lemma_first_index_spec(self@, name@);
        }
        while i < self.names.len()
            invariant
                i <= self@.len(),
                self@.len() == self.names@.len(),
                forall|j: int| 0 <= j < self@.len() ==> self@[j] == self.names@[j]@,
                forall|j: int| 0 <= j < i ==> self@[j] != name@,
                -1 <= first_index(self@, name@) < self@.len(),
                first_index(self@, name@) >= 0 ==> self@[first_index(self@, name@)] == name@,
                first_index(self@, name@) == -1 ==> forall|k: int|
                    0 <= k < self@.len() ==> self@[k] != name@,
            decreases self@.len() - i,
        {
            if str_eq(self.names[i].as_str(), name) {
                proof {
                    lemma_first_index_prefix_miss(self@, name@, i as int);
                }
                return Some(i);
            }
            i += 1;
        }
        None
    }
}

/// If a name differs from every entry before index `i` and equals the entry
/// at `i`, then `i` is its first occurrence.
pub proof fn lemma_first_index_prefix_miss(names: Seq<Seq<char>>, name: Seq<char>, i: int)
    requires
        0 <= i < names.len(),
        names[i] == name,
        forall|j: int| 0 <= j < i ==> names[j] != name,
    ensures
        first_index(names, name) == i,
    decreases i,
{
    if i == 0 {
    } else {
        assert(names.drop_first()[i - 1] == names[i]);
        assert(forall|j: int| 0 <= j < i - 1 ==> names.drop_first()[j] == names[j + 1]);
        lemma_first_index_prefix_miss(names.drop_first(), name, i - 1);
    }
}

/// Appending a name that a well-formed table does not hold keeps the table
/// well-formed.
pub proof fn lemma_first_index_push_preserves_wf(names: Seq<Seq<char>>, name: Seq<char>)
    requires
        names_wf(names),
        first_index(names, name) < 0,
    ensures
        names_wf(names.push(name)),
{
    lemma_first_index_spec(names, name);
}

/// Whether every symbol of `syms` has a name in the table.
pub open spec fn all_known(names: Seq<Seq<char>>, syms: Seq<Symbol>) -> bool {
    forall|i: int| 0 <= i < syms.len() ==> spec_name_of(names, (#[trigger] syms[i]).code) is Some
}

/// The text that formatting a symbol sequence produces: the names of the
/// symbols, joined by single spaces. Meaningful only when every symbol is
/// known to the table.
pub open spec fn spec_format(names: Seq<Seq<char>>, syms: Seq<Symbol>) -> Seq<char>
    decreases syms.len(),
{
    if syms.len() == 0 {
        Seq::empty()
    } else if syms.len() == 1 {
        spec_name_of(names, syms[0].code).unwrap_or(Seq::empty())
    } else {
        spec_format(names, syms.drop_last()) + seq![' '] + spec_name_of(
            names,
            syms.last().code,
        ).unwrap_or(Seq::empty())
    }
}

impl SymbolTable {
    /// The inverse of parsing: turns a sequence of symbol codes back into
    /// their names, joined by single spaces. Fails with a general error when
    /// a symbol's code is not known to this table.
    pub fn format(&self, string: &ProductionString) -> (r: Result<String, Error>)
        ensures
            r is Ok <==> all_known(self@, string@),
            r matches Ok(out) ==> out@ == spec_format(self@, string@),
            r matches Err(e) ==> e.spec_kind() == ErrorKind::General,
    {
        let mut out = String::new();
        let mut i: usize = 0;
        let len = string.len();
        while i < len
            invariant
                i <= len,
                len == string@.len(),
                all_known(self@, string@.take(i as int)),
                out@ == spec_format(self@, string@.take(i as int)),
            decreases len - i,
        {
            match self.name_of(string.symbol_at(i).code()) {
                Option::None => {
                    return Err(Error::new(ErrorKind::General, "a symbol has no interned name"));
                },
                Option::Some(name) => {
                    if i > 0 {
                        out.append(" ");
                    }
                    out.append(name.as_str());
                },
            }
            proof {
                assert(string@.take(i + 1).drop_last() =~= string@.take(i as int));
                assert(string@.take(i + 1).last() == string@[i as int]);
                proof_single_space(" ");
                assert(all_known(self@, string@.take(i + 1)));
            }
            i += 1;
        }
        proof {
            assert(string@.take(len as int) =~= string@);
        }
        Ok(out)
    }
}

/// The view of the one-character space literal.
proof fn proof_single_space(s: &str)
    requires
        s@ == " "@,
    ensures
        s@ =~= seq![' '],
{
    reveal_strlit(" ");
}

/// A collection that accepts and stores symbols by name.
pub trait SymbolStore {
    /// The store's own validity condition, preserved by every operation.
    spec fn inv(&self) -> bool;

    /// Create-or-get a symbol for the given name.
    fn add_symbol(&mut self, name: &str) -> (r: Result<Symbol, Error>)
        requires
            old(self).inv(),
        ensures
            final(self).inv(),
    ;

    /// Return the symbol that represents the given name, if it exists,
    /// without creating any new symbol.
    fn get_symbol(&self, name: &str) -> Option<Symbol>
        requires
            self.inv(),
    ;
}

impl SymbolStore for SymbolTable {
    open spec fn inv(&self) -> bool {
        self.wf()
    }

    fn add_symbol(&mut self, name: &str) -> Result<Symbol, Error> {
        self.intern(name)
    }

    fn get_symbol(&self, name: &str) -> Option<Symbol> {
        self.lookup(name)
    }
}

} // verus!
