use vstd::prelude::*;

use crate::collections::KeyMap;
use crate::data::symbol::Interner;
use crate::data::symbol::Symbol;
use crate::data::typ;

verus! {

/// What a name is bound to in the procedural language's environment.
#[derive(Debug, PartialEq, Eq)]
pub enum Entry {
    Var(typ::Exp),
    Fun(Vec<typ::Exp>, typ::Typ),
    Sig(Vec<typ::Exp>, typ::Typ),
}

/// A stack of scopes, innermost last, and the result type of the function being checked.
#[derive(Debug)]
pub struct Env {
    stack: Vec<KeyMap<Symbol, Entry>>,
    ret: typ::Typ,
}

/// The innermost binding of `symbol` in `stack`.
pub open spec fn lookup(stack: Seq<Map<Symbol, Entry>>, symbol: Symbol) -> Option<Entry>
    decreases stack.len(),
{
    if stack.len() == 0 {
        None
    } else if stack.last().contains_key(symbol) {
        Some(stack.last()[symbol])
    } else {
        lookup(stack.drop_last(), symbol)
    }
}

/// The stack with the innermost binding of `symbol` removed.
pub open spec fn remove(stack: Seq<Map<Symbol, Entry>>, symbol: Symbol) -> Seq<Map<Symbol, Entry>>
    decreases stack.len(),
{
    if stack.len() == 0 {
        stack
    } else if stack.last().contains_key(symbol) {
        stack.drop_last().push(stack.last().remove(symbol))
    } else {
        remove(stack.drop_last(), symbol).push(stack.last())
    }
}

impl View for Env {
    type V = Seq<Map<Symbol, Entry>>;

    closed spec fn view(&self) -> Seq<Map<Symbol, Entry>> {
        self.stack@.map_values(|scope: KeyMap<Symbol, Entry>| scope@)
    }
}

impl Env {
    pub closed spec fn wf(self) -> bool {
        forall|i: int| 0 <= i < self.stack@.len() ==> (#[trigger] self.stack@[i]).wf()
    }

    pub closed spec fn spec_return(self) -> typ::Typ {
        self.ret
    }

}

/// `typ` is the result type of a function returning `returned`: unit for
/// none, the type itself for one, a tuple otherwise.
pub open spec fn returns_like(typ: typ::Typ, returned: Seq<typ::Exp>) -> bool {
    if returned.len() == 0 {
        typ == typ::Typ::Unit
    } else if returned.len() == 1 {
        typ == typ::Typ::Exp(returned[0])
    } else {
        typ matches typ::Typ::Tup(types) && types@ == returned
    }
}

/// The names of the library functions.
pub open spec fn library_name(name: Seq<char>) -> bool {
    name == "print"@ || name == "println"@ || name == "readln"@ || name == "getchar"@ || name == "eof"@
        || name == "unparseInt"@ || name == "parseInt"@
}

/// `scope` binds the symbol of `name` to a function from `parameters` to `returned`.
pub open spec fn binds(scope: Map<Symbol, Entry>, interner: Seq<Seq<char>>, name: Seq<char>, parameters: Seq<typ::Exp>, returned: Seq<typ::Exp>) -> bool {
    exists|symbol: Symbol| {
        &&& symbol.0 < interner.len()
        &&& #[trigger] interner[symbol.0 as int] == name
        &&& scope.contains_key(symbol)
        &&& scope[symbol] matches Entry::Fun(found, result) && found@ == parameters && returns_like(result, returned)
    }
}

fn function(parameters: Vec<typ::Exp>, returned: typ::Typ) -> (entry: Entry)
    ensures
        entry == Entry::Fun(parameters, returned),
{
    Entry::Fun(parameters, returned)
}

fn int_array() -> (typ: typ::Exp)
    ensures
        typ == typ::Exp::Arr(Box::new(typ::Exp::Int)),
{
    typ::Exp::Arr(Box::new(typ::Exp::Int))
}

impl Env {
    /// An environment holding only the library functions, and a unit result type.
    pub fn new(interner: &mut Interner) -> (env: Self)
        requires
            old(interner).wf(),
        ensures
            final(interner).wf(),
            env.wf(),
            env.spec_return() == typ::Typ::Unit,
            env@.len() == 1,
            forall|symbol: Symbol| #[trigger] env@[0].contains_key(symbol) ==> symbol.0 < final(interner)@.len()
                && library_name(final(interner)@[symbol.0 as int]),
            binds(env@[0], final(interner)@, "print"@, seq![typ::Exp::Arr(Box::new(typ::Exp::Int))], seq![]),
            binds(env@[0], final(interner)@, "println"@, seq![typ::Exp::Arr(Box::new(typ::Exp::Int))], seq![]),
            binds(env@[0], final(interner)@, "readln"@, seq![], seq![typ::Exp::Arr(Box::new(typ::Exp::Int))]),
            binds(env@[0], final(interner)@, "getchar"@, seq![], seq![typ::Exp::Int]),
            binds(env@[0], final(interner)@, "eof"@, seq![], seq![typ::Exp::Bool]),
            binds(env@[0], final(interner)@, "unparseInt"@, seq![typ::Exp::Int], seq![typ::Exp::Arr(Box::new(typ::Exp::Int))]),
            binds(env@[0], final(interner)@, "parseInt"@, seq![typ::Exp::Arr(Box::new(typ::Exp::Int))], seq![typ::Exp::Int, typ::Exp::Bool]),
    {
        let mut library: KeyMap<Symbol, Entry> = KeyMap::new();
        let print = interner.intern("print");
        library.insert(print, function(vec![int_array()], typ::Typ::Unit));
        let println = interner.intern("println");
        library.insert(println, function(vec![int_array()], typ::Typ::Unit));
        let readln = interner.intern("readln");
        library.insert(readln, function(vec![], typ::Typ::array(typ::Exp::Int)));
        let getchar = interner.intern("getchar");
        library.insert(getchar, function(vec![], typ::Typ::integer()));
        let eof = interner.intern("eof");
        library.insert(eof, function(vec![], typ::Typ::boolean()));
        let unparse = interner.intern("unparseInt");
        library.insert(unparse, function(vec![typ::Exp::Int], typ::Typ::array(typ::Exp::Int)));
        let parse = interner.intern("parseInt");
        library.insert(parse, function(vec![int_array()], typ::Typ::Tup(vec![typ::Exp::Int, typ::Exp::Bool])));
        let mut stack: Vec<KeyMap<Symbol, Entry>> = Vec::new();
        stack.push(library);
        let env = Env { stack, ret: typ::Typ::Unit };
        proof {
            reveal_strlit("print");
            reveal_strlit("println");
            reveal_strlit("readln");
            reveal_strlit("getchar");
            reveal_strlit("eof");
            reveal_strlit("unparseInt");
            reveal_strlit("parseInt");
            let strings = interner@;
            assert("print"@[1] == 'r' && "println"@[0] == 'p' && "println"@[1] == 'r' && "readln"@[0] == 'r');
            assert("getchar"@[0] == 'g' && "eof"@[0] == 'e' && "unparseInt"@[0] == 'u');
            assert("parseInt"@[0] == 'p' && "parseInt"@[1] == 'a');
            let scope = env@[0];
            assert(env@ =~= seq![library@]);
            assert(strings[print.0 as int] == "print"@);
            assert(strings[println.0 as int] == "println"@);
            assert(strings[readln.0 as int] == "readln"@);
            assert(strings[getchar.0 as int] == "getchar"@);
            assert(strings[eof.0 as int] == "eof"@);
            assert(strings[unparse.0 as int] == "unparseInt"@);
            assert(strings[parse.0 as int] == "parseInt"@);
            assert(print != println && print != readln && print != getchar && print != eof && print != unparse && print != parse);
            assert(println != readln && println != getchar && println != eof && println != unparse && println != parse);
            assert(readln != getchar && readln != eof && readln != unparse && readln != parse);
            assert(getchar != eof && getchar != unparse && getchar != parse);
            assert(eof != unparse && eof != parse && unparse != parse);
            assert(scope[print] matches Entry::Fun(found, result) && found@ == seq![typ::Exp::Arr(Box::new(typ::Exp::Int))]);
            assert(binds(scope, strings, "print"@, seq![typ::Exp::Arr(Box::new(typ::Exp::Int))], seq![]));
            assert(binds(scope, strings, "println"@, seq![typ::Exp::Arr(Box::new(typ::Exp::Int))], seq![]));
            assert(binds(scope, strings, "readln"@, seq![], seq![typ::Exp::Arr(Box::new(typ::Exp::Int))]));
            assert(binds(scope, strings, "getchar"@, seq![], seq![typ::Exp::Int]));
            assert(binds(scope, strings, "eof"@, seq![], seq![typ::Exp::Bool]));
            assert(scope[unparse] matches Entry::Fun(found, result) && found@ == seq![typ::Exp::Int]);
            assert(binds(scope, strings, "unparseInt"@, seq![typ::Exp::Int], seq![typ::Exp::Arr(Box::new(typ::Exp::Int))]));
            assert(binds(scope, strings, "parseInt"@, seq![typ::Exp::Arr(Box::new(typ::Exp::Int))], seq![typ::Exp::Int, typ::Exp::Bool]));
        }
        env
    }
}

/// Removing from the scopes above those that bind `symbol` changes nothing there.
proof fn lemma_remove_above(stack: Seq<Map<Symbol, Entry>>, symbol: Symbol, k: int)
    requires
        0 <= k <= stack.len(),
        forall|j: int| k <= j < stack.len() ==> !(#[trigger] stack[j]).contains_key(symbol),
    ensures
        remove(stack, symbol) == remove(stack.take(k), symbol) + stack.skip(k),
        lookup(stack, symbol) == lookup(stack.take(k), symbol),
    decreases stack.len() - k,
{
    if k == stack.len() {
        assert(stack.take(k) =~= stack);
        assert(stack.skip(k) =~= Seq::<Map<Symbol, Entry>>::empty());
        assert(remove(stack, symbol) + Seq::<Map<Symbol, Entry>>::empty() =~= remove(stack, symbol));
    } else {
        let shorter = stack.drop_last();
        lemma_remove_above(shorter, symbol, k);
        assert(shorter.take(k) =~= stack.take(k));
        assert(stack.skip(k) =~= shorter.skip(k).push(stack.last()));
        assert(remove(stack, symbol) =~= remove(shorter, symbol).push(stack.last()));
        assert((remove(stack.take(k), symbol) + shorter.skip(k)).push(stack.last()) =~= remove(stack.take(k), symbol) + stack.skip(k));
    }
}

impl Env {
    proof fn lemma_view(self)
        ensures
            self@.len() == self.stack@.len(),
            forall|i: int| 0 <= i < self.stack@.len() ==> #[trigger] self@[i] == self.stack@[i]@,
    {
    }

    /// The innermost binding of `symbol`.
    pub fn get(&self, symbol: Symbol) -> (entry: Option<&Entry>)
        requires
            self.wf(),
        ensures
            entry is Some == lookup(self@, symbol) is Some,
            entry matches Some(entry) ==> lookup(self@, symbol) == Some(*entry),
    {
        proof {
            self.lemma_view();
        }
        let mut index: usize = self.stack.len();
        assert(self@.take(index as int) =~= self@);
        while index > 0
            invariant
                self.wf(),
                index <= self@.len(),
                self@.len() == self.stack@.len(),
                forall|i: int| 0 <= i < self.stack@.len() ==> #[trigger] self@[i] == self.stack@[i]@,
                lookup(self@.take(index as int), symbol) == lookup(self@, symbol),
            decreases index,
        {
            let ghost prefix = self@.take(index as int);
            assert(prefix.drop_last() =~= self@.take(index - 1));
            assert(prefix.last() == self.stack@[index - 1]@);
            match self.stack[index - 1].get(&symbol) {
                Some(entry) => return Some(entry),
                None => {},
            }
            index -= 1;
        }
        None
    }

    /// Bind `symbol` in the innermost scope.
    pub fn insert(&mut self, symbol: Symbol, entry: Entry)
        requires
            old(self).wf(),
            old(self)@.len() > 0,
        ensures
            final(self).wf(),
            final(self)@ == bind(old(self)@, symbol, entry),
            final(self).spec_return() == old(self).spec_return(),
    {
        let ghost before = self@;
        proof {
            self.lemma_view();
        }
        let last = self.stack.len() - 1;
        let mut scope = self.stack.remove(last);
        scope.insert(symbol, entry);
        self.stack.push(scope);
        proof {
            self.lemma_view();
            assert(self@ =~= before.drop_last().push(before.last().insert(symbol, entry)));
        }
    }

    /// Remove the innermost binding of `name`, returning what it was bound to.
    pub fn remove(&mut self, name: Symbol) -> (removed: Option<Entry>)
        requires
            old(self).wf(),
        ensures
            final(self).wf(),
            removed == lookup(old(self)@, name),
            final(self)@ == remove(old(self)@, name),
            final(self).spec_return() == old(self).spec_return(),
    {
        let ghost before = self@;
        proof {
            self.lemma_view();
        }
        let mut index: usize = self.stack.len();
        while index > 0
            invariant
                self.wf(),
                self@ == before,
                before == old(self)@,
                self.spec_return() == old(self).spec_return(),
                index <= self@.len(),
                self@.len() == self.stack@.len(),
                forall|i: int| 0 <= i < self.stack@.len() ==> #[trigger] self@[i] == self.stack@[i]@,
                forall|j: int| index <= j < before.len() ==> !(#[trigger] before[j]).contains_key(name),
            decreases index,
        {
            let position = index - 1;
            if self.stack[position].contains_key(&name) {
                proof {
                    lemma_remove_above(before, name, index as int);
                    let prefix = before.take(index as int);
                    assert(prefix.drop_last() =~= before.take(position as int));
                    assert(prefix.last() == before[position as int]);
                    assert(remove(prefix, name) == prefix.drop_last().push(prefix.last().remove(name)));
                    assert(lookup(prefix, name) == Some(prefix.last()[name]));
                }
                let mut scope = self.stack.remove(position);
                let removed = scope.remove(&name);
                self.stack.insert(position, scope);
                proof {
                    self.lemma_view();
                    assert(self@ =~= before.take(position as int).push(before[position as int].remove(name)) + before.skip(index as int));
                }
                return removed;
            }
            index -= 1;
        }
        proof {
            lemma_remove_above(before, name, 0);
            assert(before.take(0) =~= Seq::<Map<Symbol, Entry>>::empty());
            assert(before.skip(0) =~= before);
        }
        None
    }

    /// Enter a new, empty scope.
    pub fn push(&mut self)
        requires
            old(self).wf(),
        ensures
            final(self).wf(),
            final(self)@ == old(self)@.push(Map::<Symbol, Entry>::empty()),
            final(self).spec_return() == old(self).spec_return(),
    {
        let ghost before = self@;
        self.stack.push(KeyMap::new());
        proof {
            self.lemma_view();
            assert(self@ =~= before.push(Map::<Symbol, Entry>::empty()));
        }
    }

    /// Leave the innermost scope.
    pub fn pop(&mut self)
        requires
            old(self).wf(),
        ensures
            final(self).wf(),
            final(self)@ == if old(self)@.len() == 0 { old(self)@ } else { old(self)@.drop_last() },
            final(self).spec_return() == old(self).spec_return(),
    {
        let ghost before = self@;
        self.stack.pop();
        proof {
            self.lemma_view();
            if before.len() > 0 {
                assert(self@ =~= before.drop_last());
            }
        }
    }

    /// The result type of the function being checked.
    pub fn get_return(&self) -> (typ: &typ::Typ)
        ensures
            *typ == self.spec_return(),
    {
        &self.ret
    }

    pub fn set_return(&mut self, typ: typ::Typ)
        requires
            old(self).wf(),
        ensures
            final(self).wf(),
            final(self)@ == old(self)@,
            final(self).spec_return() == typ,
    {
        self.ret = typ;
    }
}

/// The stack after binding `symbol` to `entry` in its innermost scope.
pub open spec fn bind(stack: Seq<Map<Symbol, Entry>>, symbol: Symbol, entry: Entry) -> Seq<Map<Symbol, Entry>> {
    stack.drop_last().push(stack.last().insert(symbol, entry))
}

/// A lookup right after a binding finds the entry just bound.
pub proof fn lemma_lookup_after_bind(stack: Seq<Map<Symbol, Entry>>, symbol: Symbol, entry: Entry)
    requires
        stack.len() > 0,
    ensures
        lookup(bind(stack, symbol, entry), symbol) == Some(entry),
{
}

/// Removing a name just bound in the innermost scope, where it was not bound
/// before, leaves the stack as it was.
pub proof fn lemma_remove_after_bind(stack: Seq<Map<Symbol, Entry>>, symbol: Symbol, entry: Entry)
    requires
        stack.len() > 0,
        !stack.last().contains_key(symbol),
    ensures
        remove(bind(stack, symbol, entry), symbol) == stack,
{
    let bound = bind(stack, symbol, entry);
    assert(bound.drop_last() =~= stack.drop_last());
    assert(bound.last().remove(symbol) =~= stack.last());
    assert(stack.drop_last().push(stack.last()) =~= stack);
}

} // verus!
