use vstd::prelude::*;

use crate::collections::Key;

verus! {

/// Represents a unique interned string by its index in an [`Interner`].
#[derive(Copy, Clone, Debug, PartialEq, Eq, Structural, Hash, PartialOrd, Ord)]
pub struct Symbol(pub usize);

impl View for Symbol {
    type V = Symbol;

    open spec fn view(&self) -> Symbol {
        *self
    }
}

impl Key for Symbol {
    fn same(&self, other: &Self) -> (same: bool) {
        self.0 == other.0
    }

    fn duplicate(&self) -> (copy: Self) {
        *self
    }
}

/// Naive string internment: each distinct string is stored once, and a
/// [`Symbol`] is its position in insertion order.
pub struct Interner {
    strings: Vec<String>,
}

impl View for Interner {
    type V = Seq<Seq<char>>;

    closed spec fn view(&self) -> Seq<Seq<char>> {
        self.strings@.map_values(|string: String| string@)
    }
}

impl Interner {
    /// No string is stored twice.
    pub closed spec fn wf(&self) -> bool {
        forall|i: int, j: int|
            0 <= i < j < self@.len() ==> #[trigger] self@[i] != #[trigger] self@[j]
    }

    /// The symbol of `string` in this interner, if it was interned.
    pub open spec fn lookup(&self, string: Seq<char>) -> Option<Symbol> {
        if self@.contains(string) {
            Some(Symbol(choose|i: usize| i < self@.len() && self@[i as int] == string))
        } else {
            None
        }
    }

    pub fn new() -> (interner: Self)
        ensures
            interner.wf(),
            interner@ == Seq::<Seq<char>>::empty(),
    {
        let interner = Interner { strings: Vec::new() };
        assert(interner@ =~= Seq::<Seq<char>>::empty());
        interner
    }

    pub fn len(&self) -> (len: usize)
        ensures
            len == self@.len(),
    {
        self.strings.len()
    }

    /// Store `string` if not already cached, and return its symbol.
    pub fn intern(&mut self, string: &str) -> (symbol: Symbol)
        requires
            old(self).wf(),
        ensures
            final(self).wf(),
            symbol.0 < final(self)@.len(),
            final(self)@[symbol.0 as int] == string@,
            old(self)@.contains(string@) ==> final(self)@ == old(self)@,
            !old(self)@.contains(string@) ==> final(self)@ == old(self)@.push(string@)
                && symbol.0 == old(self)@.len(),
    {
        let owned = String::from_str(string);
        let mut index: usize = 0;
        while index < self.strings.len()
            invariant
                self.wf(),
                owned@ == string@,
                index <= self@.len(),
                self@.len() == self.strings@.len(),
                forall|j: int| 0 <= j < index ==> self@[j] != string@,
            decreases self.strings@.len() - index,
        {
            if self.strings[index] == owned {
                assert(self@[index as int] == string@);
                assert(self@.contains(string@));
                return Symbol(index);
            }
            index += 1;
        }
        let ghost before = self@;
        assert(!before.contains(string@)) by {
            if before.contains(string@) {
                let j = choose|j: int| 0 <= j < before.len() && before[j] == string@;
                assert(before[j] != string@);
            }
        }
        self.strings.push(owned);
        assert(self@ =~= before.push(string@));
        Symbol(index)
    }

    /// Resolve `symbol` to the string it was interned from.
    pub fn resolve(&self, symbol: Symbol) -> (string: &str)
        requires
            symbol.0 < self@.len(),
        ensures
            string@ == self@[symbol.0 as int],
    {
        self.strings[symbol.0].as_str()
    }

    /// Interning never maps two different strings to one symbol, nor one
    /// string to two symbols: symbols are equal exactly when their strings are.
    pub proof fn lemma_symbols_injective(self, a: Symbol, b: Symbol)
        requires
            self.wf(),
            a.0 < self@.len(),
            b.0 < self@.len(),
        ensures
            (self@[a.0 as int] == self@[b.0 as int]) == (a == b),
    {
        if a.0 < b.0 {
            assert(self@[a.0 as int] != self@[b.0 as int]);
        } else if b.0 < a.0 {
            assert(self@[b.0 as int] != self@[a.0 as int]);
        }
    }

    /// As [`Interner::intern`], for strings that live for the whole program.
    pub fn intern_static(&mut self, string: &'static str) -> (symbol: Symbol)
        requires
            old(self).wf(),
        ensures
            final(self).wf(),
            symbol.0 < final(self)@.len(),
            final(self)@[symbol.0 as int] == string@,
            old(self)@.contains(string@) ==> final(self)@ == old(self)@,
            !old(self)@.contains(string@) ==> final(self)@ == old(self)@.push(string@)
                && symbol.0 == old(self)@.len(),
    {
        self.intern(string)
    }
}

/// Collects `chars` into a string (std's `String: FromIterator<char>`): the
/// string holds exactly those characters, in order.
#[verifier::external_body]
pub(crate) fn string_from_chars(chars: &Vec<char>) -> (string: String)
    ensures
        string@ == chars@,
{
    chars.iter().collect()
}

} // verus!
