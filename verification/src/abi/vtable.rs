use vstd::prelude::*;

use crate::check::context::Context;
use crate::check::context::Entry;
use crate::check::context::Environment;
use crate::collections::KeyMap;
use crate::data::ast::Identifier;
use crate::data::symbol::Symbol;

verus! {

/// The fields and the virtual table methods of each implemented class.
pub struct Table {
    fields: KeyMap<Symbol, Vec<Symbol>>,
    methods: KeyMap<Symbol, Vec<(Symbol, usize)>>,
}

/// The fields and methods of one class, collected from the root class down.
pub struct ClassTable {
    pub fields: Seq<Symbol>,
    pub methods: Seq<(Symbol, usize)>,
    pub offset: int,
}

pub open spec fn state(fields: Seq<Symbol>, methods: Seq<(Symbol, usize)>, offset: usize) -> ClassTable {
    ClassTable { fields, methods, offset: offset as int }
}

pub open spec fn names(methods: Seq<(Symbol, usize)>) -> Seq<Symbol> {
    methods.map_values(|method: (Symbol, usize)| method.0)
}

/// Add a member: a field not seen yet, or a method not seen yet at the next offset.
pub open spec fn absorb_member(table: ClassTable, member: (Identifier, Entry)) -> ClassTable {
    match member.1 {
        Entry::Variable(_) => if table.fields.contains(member.0.symbol) {
            table
        } else {
            ClassTable { fields: table.fields.push(member.0.symbol), ..table }
        },
        _ => if names(table.methods).contains(member.0.symbol) {
            table
        } else {
            ClassTable {
                methods: table.methods.push((member.0.symbol, table.offset as usize)),
                offset: table.offset + 1,
                ..table
            }
        },
    }
}

pub open spec fn absorb_members(table: ClassTable, members: Environment<Entry>, count: nat) -> ClassTable
    decreases count,
{
    if count == 0 {
        table
    } else {
        absorb_member(absorb_members(table, members, (count - 1) as nat), members.at_spec(count - 1))
    }
}

/// Add a class of the hierarchy: one more offset, then its members in order.
pub open spec fn absorb_superclass(context: Context, table: ClassTable, class: Symbol) -> ClassTable {
    let members = context.classes@[class].1;
    absorb_members(ClassTable { offset: table.offset + 1, ..table }, members, members.size())
}

/// Add `chain` (nearest first), farthest first.
pub open spec fn absorb_chain(context: Context, table: ClassTable, chain: Seq<Symbol>) -> ClassTable
    decreases chain.len(),
{
    if chain.len() == 0 {
        table
    } else {
        absorb_chain(context, absorb_superclass(context, table, chain.last()), chain.drop_last())
    }
}

/// The table of `class`: its hierarchy from the root down to itself.
pub open spec fn class_table(context: Context, class: Symbol) -> ClassTable {
    absorb_chain(
        context,
        ClassTable { fields: seq![], methods: seq![], offset: 0 },
        seq![class] + context.fixed().ancestors(class),
    )
}

/// Each class of the hierarchy of `class` is bound, and declares no signature
/// left without an implementation.
pub open spec fn implemented(context: Context, class: Symbol) -> bool {
    let chain = seq![class] + context.fixed().ancestors(class);
    forall|i: int| 0 <= i < chain.len() ==> {
        &&& context.classes@.contains_key(#[trigger] chain[i])
        &&& forall|j: int| 0 <= j < context.classes@[chain[i]].1.size()
            ==> !(#[trigger] context.classes@[chain[i]].1.at_spec(j).1 is Signature)
    }
}

proof fn lemma_members_grow(table: ClassTable, members: Environment<Entry>, i: nat, count: nat)
    requires
        i <= count,
    ensures
        table.offset <= absorb_members(table, members, i).offset,
        absorb_members(table, members, i).offset <= absorb_members(table, members, count).offset,
    decreases count,
{
    if count > 0 && i < count {
        lemma_members_grow(table, members, i, (count - 1) as nat);
    }
    if i > 0 {
        lemma_members_grow(table, members, (i - 1) as nat, (i - 1) as nat);
    }
}

proof fn lemma_chain_grows(context: Context, table: ClassTable, chain: Seq<Symbol>)
    ensures
        table.offset <= absorb_chain(context, table, chain).offset,
    decreases chain.len(),
{
    if chain.len() > 0 {
        let members = context.classes@[chain.last()].1;
        lemma_members_grow(ClassTable { offset: table.offset + 1, ..table }, members, members.size(), members.size());
        lemma_chain_grows(context, absorb_superclass(context, table, chain.last()), chain.drop_last());
    }
}

fn position_of(symbols: &Vec<Symbol>, symbol: Symbol) -> (position: Option<usize>)
    ensures
        match position {
            Some(position) => position < symbols@.len() && symbols@[position as int] == symbol
                && forall|j: int| 0 <= j < position ==> symbols@[j] != symbol,
            None => !symbols@.contains(symbol),
        },
{
    let mut index: usize = 0;
    while index < symbols.len()
        invariant
            index <= symbols@.len(),
            forall|j: int| 0 <= j < index ==> symbols@[j] != symbol,
        decreases symbols@.len() - index,
    {
        if symbols[index].0 == symbol.0 {
            return Some(index);
        }
        index += 1;
    }
    None
}

fn method_position(methods: &Vec<(Symbol, usize)>, symbol: Symbol) -> (position: Option<usize>)
    ensures
        match position {
            Some(position) => position < methods@.len() && methods@[position as int].0 == symbol
                && forall|j: int| 0 <= j < position ==> methods@[j].0 != symbol,
            None => !names(methods@).contains(symbol),
        },
{
    let mut index: usize = 0;
    while index < methods.len()
        invariant
            index <= methods@.len(),
            forall|j: int| 0 <= j < index ==> methods@[j].0 != symbol,
        decreases methods@.len() - index,
    {
        if methods[index].0.0 == symbol.0 {
            return Some(index);
        }
        index += 1;
    }
    assert forall|j: int| 0 <= j < methods@.len() implies names(methods@)[j] != symbol by {}
    None
}

/// The table of one class, from its hierarchy (`chain`, nearest first).
fn build_class(context: &Context, chain: &Vec<Symbol>) -> (built: (Vec<Symbol>, Vec<(Symbol, usize)>))
    requires
        context.wf(),
        chain@.len() > 0,
        implemented(*context, chain@[0]),
        chain@ == seq![chain@[0]] + context.fixed().ancestors(chain@[0]),
        class_table(*context, chain@[0]).offset <= usize::MAX,
    ensures
        built.0@ == class_table(*context, chain@[0]).fields,
        built.1@ == class_table(*context, chain@[0]).methods,
{
    let ghost target = class_table(*context, chain@[0]);
    let mut fields: Vec<Symbol> = Vec::new();
    let mut methods: Vec<(Symbol, usize)> = Vec::new();
    let mut offset: usize = 0;
    let mut index: usize = chain.len();
    assert(chain@.take(index as int) =~= chain@);
    while index > 0
        invariant
            context.wf(),
            index <= chain@.len(),
            implemented(*context, chain@[0]),
            chain@ == seq![chain@[0]] + context.fixed().ancestors(chain@[0]),
            target == class_table(*context, chain@[0]),
            target.offset <= usize::MAX,
            absorb_chain(*context, state(fields@, methods@, offset), chain@.take(index as int)) == target,
        decreases index,
    {
        let ghost current = ClassTable { fields: fields@, methods: methods@, offset: offset as int };
        let ghost rest = chain@.take(index as int);
        assert(rest.drop_last() =~= chain@.take(index - 1));
        assert(rest.last() == chain@[index - 1]);
        let class = chain[index - 1];
        assert(context.classes@.contains_key(chain@[index - 1]));
        let members = match context.get_class(&class) {
            Some(members) => members,
            None => {
                assert(false);
                return (fields, methods);
            },
        };
        let ghost count = members.size();
        let ghost opened = ClassTable { offset: current.offset + 1, ..current };
        proof {
            lemma_chain_grows(*context, absorb_superclass(*context, current, class), rest.drop_last());
            lemma_members_grow(opened, *members, 0, count);
        }
        offset = offset + 1;
        let mut position: usize = 0;
        while position < members.len()
            invariant
                context.wf(),
                *members == context.classes@[class].1,
                count == members.size(),
                position <= count,
                absorb_members(opened, *members, count).offset <= usize::MAX,
                forall|j: int| 0 <= j < members.size() ==> !(#[trigger] members.at_spec(j).1 is Signature),
                state(fields@, methods@, offset) == absorb_members(opened, *members, position as nat),
            decreases count - position,
        {
            proof {
                lemma_members_grow(opened, *members, (position + 1) as nat, count);
            }
            let (identifier, entry) = members.at(position);
            assert(!(members.at_spec(position as int).1 is Signature));
            match entry {
                Entry::Variable(_) => {
                    if position_of(&fields, identifier.symbol).is_none() {
                        fields.push(identifier.symbol);
                    }
                },
                _ => {
                    if method_position(&methods, identifier.symbol).is_none() {
                        methods.push((identifier.symbol, offset));
                        offset = offset + 1;
                    } else {
                        assert(names(methods@).contains(identifier.symbol)) by {
                            let j = choose|j: int| 0 <= j < methods@.len() && methods@[j].0 == identifier.symbol;
                            assert(names(methods@)[j] == identifier.symbol);
                        }
                    }
                },
            }
            position += 1;
        }
        index -= 1;
    }
    assert(chain@.take(0) =~= Seq::<Symbol>::empty());
    (fields, methods)
}

impl Table {
    pub closed spec fn spec_fields(self) -> Map<Symbol, Seq<Symbol>> {
        self.fields@.map_values(|fields: Vec<Symbol>| fields@)
    }

    pub closed spec fn spec_methods(self) -> Map<Symbol, Seq<(Symbol, usize)>> {
        self.methods@.map_values(|methods: Vec<(Symbol, usize)>| methods@)
    }

    pub closed spec fn wf(self) -> bool {
        self.fields.wf() && self.methods.wf()
    }

    /// The table of each class the implementation defines.
    pub fn new(context: &Context) -> (table: Self)
        requires
            context.wf(),
            forall|class: Symbol| #[trigger] context.class_implementations@.contains_key(class)
                ==> implemented(*context, class) && class_table(*context, class).offset <= usize::MAX,
        ensures
            table.wf(),
            forall|class: Symbol| #[trigger] table.spec_fields().contains_key(class)
                <==> context.class_implementations@.contains_key(class),
            forall|class: Symbol| #[trigger] table.spec_methods().contains_key(class)
                <==> context.class_implementations@.contains_key(class),
            forall|class: Symbol| #[trigger] context.class_implementations@.contains_key(class) ==> {
                &&& table.spec_fields()[class] == class_table(*context, class).fields
                &&& table.spec_methods()[class] == class_table(*context, class).methods
            },
    {
        let classes = context.class_implementations();
        let mut fields: KeyMap<Symbol, Vec<Symbol>> = KeyMap::new();
        let mut methods: KeyMap<Symbol, Vec<(Symbol, usize)>> = KeyMap::new();
        proof {
            context.class_implementations.lemma_wf();
        }
        let mut index: usize = 0;
        while index < classes.len()
            invariant
                context.wf(),
                fields.wf(),
                methods.wf(),
                classes@.len() == context.class_implementations.size(),
                forall|i: int| 0 <= i < classes@.len() ==> #[trigger] classes@[i] == context.class_implementations.at_spec(i).0.symbol,
                forall|i: int| 0 <= i < context.class_implementations.size()
                    ==> context.class_implementations@.contains_key(#[trigger] context.class_implementations.at_spec(i).0.symbol),
                forall|class: Symbol| #[trigger] context.class_implementations@.contains_key(class)
                    ==> implemented(*context, class) && class_table(*context, class).offset <= usize::MAX,
                index <= classes@.len(),
                forall|class: Symbol| #[trigger] fields@.contains_key(class)
                    <==> exists|j: int| 0 <= j < index && classes@[j] == class,
                forall|class: Symbol| #[trigger] methods@.contains_key(class)
                    <==> exists|j: int| 0 <= j < index && classes@[j] == class,
                forall|class: Symbol| #[trigger] fields@.contains_key(class) ==> {
                    &&& fields@[class]@ == class_table(*context, class).fields
                    &&& methods@[class]@ == class_table(*context, class).methods
                },
            decreases classes@.len() - index,
        {
            let class = classes[index];
            assert(context.class_implementations@.contains_key(class));
            let chain = context.ancestors_inclusive(&class);
            let (class_fields, class_methods) = build_class(context, &chain);
            let ghost before_fields = fields@;
            let ghost before_methods = methods@;
            fields.insert(class, class_fields);
            methods.insert(class, class_methods);
            index += 1;
            assert forall|other: Symbol| #[trigger] fields@.contains_key(other)
                <==> exists|j: int| 0 <= j < index && classes@[j] == other by {
                if exists|j: int| 0 <= j < index && classes@[j] == other {
                    let j = choose|j: int| 0 <= j < index && classes@[j] == other;
                    if j < index - 1 {
                        assert(before_fields.contains_key(other));
                    }
                }
                if fields@.contains_key(other) && other != class {
                    assert(before_fields.contains_key(other));
                }
            }
            assert forall|other: Symbol| #[trigger] methods@.contains_key(other)
                <==> exists|j: int| 0 <= j < index && classes@[j] == other by {
                if exists|j: int| 0 <= j < index && classes@[j] == other {
                    let j = choose|j: int| 0 <= j < index && classes@[j] == other;
                    if j < index - 1 {
                        assert(before_methods.contains_key(other));
                    }
                }
                if methods@.contains_key(other) && other != class {
                    assert(before_methods.contains_key(other));
                }
            }
        }
        let table = Table { fields, methods };
        assert forall|class: Symbol| #[trigger] context.class_implementations@.contains_key(class)
            implies table.fields@.contains_key(class) by {
            let i = choose|i: int| 0 <= i < context.class_implementations.size()
                && #[trigger] context.class_implementations.at_spec(i).0.symbol == class;
            assert(classes@[i] == class);
        }
        assert forall|class: Symbol| #[trigger] table.fields@.contains_key(class)
            implies context.class_implementations@.contains_key(class) by {
            let j = choose|j: int| 0 <= j < index && classes@[j] == class;
        }
        table
    }

    /// Position of `field` among the fields of `class`.
    pub fn field(&self, class: &Symbol, field: &Symbol) -> (index: Option<usize>)
        requires
            self.wf(),
        ensures
            match index {
                Some(index) => self.spec_fields().contains_key(*class)
                    && first_index(self.spec_fields()[*class], *field) == Some(index as int),
                None => !self.spec_fields().contains_key(*class) || !self.spec_fields()[*class].contains(*field),
            },
    {
        let fields = match self.fields.get(class) {
            Some(fields) => fields,
            None => return None,
        };
        let position = position_of(fields, *field);
        proof {
            if let Some(p) = position {
                lemma_first_index(fields@, *field, p as int);
            }
        }
        position
    }

    /// Number of fields of `class`.
    pub fn field_len(&self, class: &Symbol) -> (len: Option<usize>)
        requires
            self.wf(),
        ensures
            match len {
                Some(len) => self.spec_fields().contains_key(*class) && len == self.spec_fields()[*class].len(),
                None => !self.spec_fields().contains_key(*class),
            },
    {
        match self.fields.get(class) {
            Some(fields) => Some(fields.len()),
            None => None,
        }
    }

    /// Position of `method` among the methods of `class`.
    pub fn method(&self, class: &Symbol, method: &Symbol) -> (index: Option<usize>)
        requires
            self.wf(),
        ensures
            match index {
                Some(index) => self.spec_methods().contains_key(*class)
                    && first_index(names(self.spec_methods()[*class]), *method) == Some(index as int),
                None => !self.spec_methods().contains_key(*class) || !names(self.spec_methods()[*class]).contains(*method),
            },
    {
        let methods = match self.methods.get(class) {
            Some(methods) => methods,
            None => return None,
        };
        let position = method_position(methods, *method);
        proof {
            if let Some(p) = position {
                assert forall|j: int| 0 <= j < p implies names(methods@)[j] != *method by {}
                lemma_first_index(names(methods@), *method, p as int);
            }
        }
        position
    }

    /// Size of the virtual table of `class`: one past the offset of its last
    /// method, or one when it has none.
    pub fn method_len(&self, class: &Symbol) -> (len: Option<usize>)
        requires
            self.wf(),
            forall|class: Symbol| #[trigger] self.spec_methods().contains_key(class) && self.spec_methods()[class].len() > 0
                ==> self.spec_methods()[class].last().1 < usize::MAX,
        ensures
            match len {
                Some(len) => self.spec_methods().contains_key(*class) && len == if self.spec_methods()[*class].len() == 0 {
                    1
                } else {
                    self.spec_methods()[*class].last().1 + 1
                },
                None => !self.spec_methods().contains_key(*class),
            },
    {
        let methods = match self.methods.get(class) {
            Some(methods) => methods,
            None => return None,
        };
        assert(self.spec_methods().contains_key(*class) && self.spec_methods()[*class] == methods@);
        if methods.len() == 0 {
            Some(1)
        } else {
            Some(methods[methods.len() - 1].1 + 1)
        }
    }
}

/// The first position of `symbol` in `symbols`.
pub open spec fn first_index(symbols: Seq<Symbol>, symbol: Symbol) -> Option<int> {
    if symbols.contains(symbol) {
        Some(choose|i: int| 0 <= i < symbols.len() && symbols[i] == symbol
            && forall|j: int| 0 <= j < i ==> symbols[j] != symbol)
    } else {
        None
    }
}

proof fn lemma_first_index(symbols: Seq<Symbol>, symbol: Symbol, position: int)
    requires
        0 <= position < symbols.len(),
        symbols[position] == symbol,
        forall|j: int| 0 <= j < position ==> symbols[j] != symbol,
    ensures
        first_index(symbols, symbol) == Some(position),
{
    assert(symbols.contains(symbol));
    let i = choose|i: int| 0 <= i < symbols.len() && symbols[i] == symbol
        && forall|j: int| 0 <= j < i ==> symbols[j] != symbol;
    if i < position {
        assert(symbols[i] != symbol);
    }
    if position < i {
        assert(symbols[position] != symbol);
    }
}

} // verus!
