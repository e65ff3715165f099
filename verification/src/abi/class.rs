use vstd::prelude::*;

use crate::abi::Abi;
use crate::check::context::Context;
use crate::check::context::Entry;
use crate::check::context::Environment;
use crate::collections::KeyMap;
use crate::data::ast::Identifier;
use crate::data::symbol::Symbol;

verus! {

/// The layout of a class: an instance holds a pointer to the virtual table and
/// then the fields, superclass fields first; the virtual table holds a private
/// slot for each class of the hierarchy, each followed by the methods that
/// class introduces.
///
/// A final class without a superclass needs no virtual table; a final class
/// with one keeps the table for its superclasses' methods only, and its own
/// methods are dispatched statically.
pub struct Layout {
    /// First interface-only class in this class's inheritance hierarchy: class
    /// size and field offsets are relative to its size.
    interface: Option<Symbol>,
    /// The fields accessible to this class, by declaring class and name, in order.
    fields: Vec<(Symbol, Symbol)>,
    /// The index of each method in the virtual table.
    methods: KeyMap<Symbol, usize>,
    /// The size of the virtual table in words, if there is one.
    slots: Option<usize>,
}

/// What the layout collects while walking down from the root class.
pub struct LayoutModel {
    pub interface: Option<Symbol>,
    pub fields: Seq<(Symbol, Symbol)>,
    pub methods: Map<Symbol, usize>,
    pub slots: int,
}

pub open spec fn state(interface: Option<Symbol>, fields: Seq<(Symbol, Symbol)>, methods: Map<Symbol, usize>, slots: usize) -> LayoutModel {
    LayoutModel { interface, fields, methods, slots: slots as int }
}

pub open spec fn empty_model() -> LayoutModel {
    LayoutModel { interface: None, fields: seq![], methods: Map::empty(), slots: 0 }
}

/// Add a member of `class`: a field at the end, or a method not seen yet at
/// the next slot (methods are left out when `skip`).
pub open spec fn absorb_entry(model: LayoutModel, class: Symbol, skip: bool, member: (Identifier, Entry)) -> LayoutModel {
    match member.1 {
        Entry::Variable(_) => if model.fields.contains((class, member.0.symbol)) {
            model
        } else {
            LayoutModel { fields: model.fields.push((class, member.0.symbol)), ..model }
        },
        _ => if skip || model.methods.contains_key(member.0.symbol) {
            model
        } else {
            LayoutModel {
                methods: model.methods.insert(member.0.symbol, model.slots as usize),
                slots: model.slots + 1,
                ..model
            }
        },
    }
}

/// Add the first `count` members of `class`, in order.
pub open spec fn absorb_entries(model: LayoutModel, class: Symbol, skip: bool, members: Environment<Entry>, count: nat) -> LayoutModel
    decreases count,
{
    if count == 0 {
        model
    } else {
        absorb_entry(absorb_entries(model, class, skip, members, (count - 1) as nat), class, skip, members.at_spec(count - 1))
    }
}

/// The model with `class` added: the interface updated if `class` is declared
/// but not implemented, a private slot reserved, then its members.
pub open spec fn absorb_class(context: Context, model: LayoutModel, class: Symbol, skip: bool) -> LayoutModel {
    let interface = if context.class_signatures@.contains_key(class) && !context.class_implementations@.contains_key(class) {
        Some(class)
    } else {
        model.interface
    };
    let opened = LayoutModel { interface, slots: model.slots + 1, ..model };
    let members = context.classes@[class].1;
    absorb_entries(opened, class, skip, members, members.size())
}

/// The model with `ancestors` (nearest first) added, farthest first.
pub open spec fn absorb_ancestors(context: Context, model: LayoutModel, ancestors: Seq<Symbol>) -> LayoutModel
    decreases ancestors.len(),
{
    if ancestors.len() == 0 {
        model
    } else {
        absorb_ancestors(context, absorb_class(context, model, ancestors.last(), false), ancestors.drop_last())
    }
}

/// The model of `class`: its superclasses from the root down, then the class
/// itself, whose methods are left out when it is final.
pub open spec fn layout_model(context: Context, class: Symbol, is_final: bool) -> LayoutModel {
    absorb_class(
        context,
        absorb_ancestors(context, empty_model(), context.fixed().ancestors(class)),
        class,
        is_final,
    )
}

pub open spec fn final_class(abi: Abi, declared_final: bool) -> bool {
    match abi {
        Abi::Xi => false,
        Abi::XiFinal => declared_final,
    }
}

pub proof fn lemma_absorb_entries_grows(model: LayoutModel, class: Symbol, skip: bool, members: Environment<Entry>, i: nat, count: nat)
    requires
        i <= count,
    ensures
        absorb_entries(model, class, skip, members, i).slots <= absorb_entries(model, class, skip, members, count).slots,
        model.slots <= absorb_entries(model, class, skip, members, i).slots,
    decreases count,
{
    if count > 0 && i < count {
        lemma_absorb_entries_grows(model, class, skip, members, i, (count - 1) as nat);
    }
    if i > 0 {
        lemma_absorb_entries_grows(model, class, skip, members, (i - 1) as nat, (i - 1) as nat);
    }
}

pub proof fn lemma_absorb_class_grows(context: Context, model: LayoutModel, class: Symbol, skip: bool)
    ensures
        model.slots < absorb_class(context, model, class, skip).slots,
{
    let interface = if context.class_signatures@.contains_key(class) && !context.class_implementations@.contains_key(class) {
        Some(class)
    } else {
        model.interface
    };
    let opened = LayoutModel { interface, slots: model.slots + 1, ..model };
    let members = context.classes@[class].1;
    lemma_absorb_entries_grows(opened, class, skip, members, members.size(), members.size());
}

pub proof fn lemma_absorb_ancestors_grows(context: Context, model: LayoutModel, ancestors: Seq<Symbol>)
    ensures
        model.slots <= absorb_ancestors(context, model, ancestors).slots,
    decreases ancestors.len(),
{
    if ancestors.len() > 0 {
        let opened = absorb_class(context, model, ancestors.last(), false);
        lemma_absorb_class_grows(context, model, ancestors.last(), false);
        lemma_absorb_ancestors_grows(context, opened, ancestors.drop_last());
    }
}

fn contains_field(fields: &Vec<(Symbol, Symbol)>, field: (Symbol, Symbol)) -> (contains: bool)
    ensures
        contains == fields@.contains(field),
{
    let mut index: usize = 0;
    while index < fields.len()
        invariant
            index <= fields@.len(),
            forall|j: int| 0 <= j < index ==> fields@[j] != field,
        decreases fields@.len() - index,
    {
        if fields[index].0.0 == field.0.0 && fields[index].1.0 == field.1.0 {
            assert(fields@[index as int] == field);
            return true;
        }
        index += 1;
    }
    false
}

impl Layout {
    pub closed spec fn spec_interface(self) -> Option<Symbol> {
        self.interface
    }

    pub closed spec fn spec_fields(self) -> Seq<(Symbol, Symbol)> {
        self.fields@
    }

    pub closed spec fn spec_methods(self) -> Map<Symbol, usize> {
        self.methods@
    }

    pub closed spec fn spec_slots(self) -> Option<usize> {
        self.slots
    }

    pub closed spec fn wf(self) -> bool {
        self.methods.wf()
    }

    /// Add `class` and its members; methods are left out when `skip`.
    fn absorb(
        context: &Context,
        class: Symbol,
        skip: bool,
        interface: &mut Option<Symbol>,
        fields: &mut Vec<(Symbol, Symbol)>,
        methods: &mut KeyMap<Symbol, usize>,
        slots: &mut usize,
        Ghost(limit): Ghost<int>,
    )
        requires
            context.wf(),
            context.classes@.contains_key(class),
            old(methods).wf(),
            absorb_class(*context, state(*old(interface), old(fields)@, old(methods)@, *old(slots)), class, skip).slots <= limit,
            limit <= usize::MAX,
        ensures
            final(methods).wf(),
            state(*final(interface), final(fields)@, final(methods)@, *final(slots))
                == absorb_class(*context, state(*old(interface), old(fields)@, old(methods)@, *old(slots)), class, skip),
    {
        let ghost before = LayoutModel { interface: *interface, fields: fields@, methods: methods@, slots: *slots as int };
        if context.get_class_signature(&class).is_some() && context.get_class_implementation(&class).is_none() {
            *interface = Some(class);
        }
        let members = match context.get_class(&class) {
            Some(members) => members,
            None => {
                assert(false);
                return;
            },
        };
        let ghost opened = LayoutModel { interface: *interface, slots: before.slots + 1, ..before };
        let ghost count = members.size();
        proof {
            lemma_absorb_entries_grows(opened, class, skip, *members, 0, count);
        }
        *slots = *slots + 1;
        let mut index: usize = 0;
        while index < members.len()
            invariant
                context.wf(),
                methods.wf(),
                *members == context.classes@[class].1,
                count == members.size(),
                index <= count,
                limit <= usize::MAX,
                absorb_entries(opened, class, skip, *members, count).slots <= limit,
                state(*interface, fields@, methods@, *slots) == absorb_entries(opened, class, skip, *members, index as nat),
            decreases count - index,
        {
            proof {
                lemma_absorb_entries_grows(opened, class, skip, *members, (index + 1) as nat, count);
            }
            let (identifier, entry) = members.at(index);
            match entry {
                Entry::Variable(_) => {
                    let field = (class, identifier.symbol);
                    if !contains_field(fields, field) {
                        fields.push(field);
                    }
                },
                _ => {
                    if !skip && !methods.contains_key(&identifier.symbol) {
                        let slot = *slots;
                        methods.insert(identifier.symbol, slot);
                        *slots = slot + 1;
                    }
                },
            }
            index += 1;
        }
    }

    /// Lay out `class`, which `declared_final` tells whether its declaration
    /// marks it final.
    pub fn new(context: &Context, abi: Abi, class: &Symbol, declared_final: bool) -> (layout: Self)
        requires
            context.wf(),
            context.classes@.contains_key(*class),
            forall|i: int| 0 <= i < context.fixed().ancestors(*class).len()
                ==> context.classes@.contains_key(#[trigger] context.fixed().ancestors(*class)[i]),
            layout_model(*context, *class, final_class(abi, declared_final)).slots <= usize::MAX,
        ensures
            layout.wf(),
            layout.spec_interface() == layout_model(*context, *class, final_class(abi, declared_final)).interface,
            layout.spec_fields() == layout_model(*context, *class, final_class(abi, declared_final)).fields,
            layout.spec_methods() == layout_model(*context, *class, final_class(abi, declared_final)).methods,
            layout.spec_slots() == if final_class(abi, declared_final)
                && layout_model(*context, *class, final_class(abi, declared_final)).slots == 1 {
                None
            } else {
                Some(layout_model(*context, *class, final_class(abi, declared_final)).slots as usize)
            },
    {
        let is_final = match abi {
            Abi::Xi => false,
            Abi::XiFinal => declared_final,
        };
        let ghost target = layout_model(*context, *class, is_final);
        let ghost ancestors = context.fixed().ancestors(*class);
        let mut interface: Option<Symbol> = None;
        let mut fields: Vec<(Symbol, Symbol)> = Vec::new();
        let mut methods: KeyMap<Symbol, usize> = KeyMap::new();
        let mut slots: usize = 0;
        let superclasses = context.ancestors_exclusive(class);
        let mut index: usize = superclasses.len();
        assert(superclasses@.take(index as int) =~= ancestors);
        while index > 0
            invariant
                context.wf(),
                methods.wf(),
                superclasses@ == ancestors,
                ancestors == context.fixed().ancestors(*class),
                index <= ancestors.len(),
                forall|i: int| 0 <= i < ancestors.len() ==> context.classes@.contains_key(#[trigger] ancestors[i]),
                target == layout_model(*context, *class, is_final),
                target.slots <= usize::MAX,
                absorb_class(
                    *context,
                    absorb_ancestors(*context, state(interface, fields@, methods@, slots), ancestors.take(index as int)),
                    *class,
                    is_final,
                ) == target,
            decreases index,
        {
            let ghost current = LayoutModel { interface, fields: fields@, methods: methods@, slots: slots as int };
            let ghost rest = ancestors.take(index as int);
            assert(rest.drop_last() =~= ancestors.take(index - 1));
            assert(rest.last() == ancestors[index - 1]);
            let ghost next = absorb_class(*context, current, rest.last(), false);
            proof {
                lemma_absorb_ancestors_grows(*context, next, rest.drop_last());
                let after = absorb_ancestors(*context, next, rest.drop_last());
                lemma_absorb_class_grows(*context, after, *class, is_final);
            }
            Self::absorb(context, superclasses[index - 1], false, &mut interface, &mut fields, &mut methods, &mut slots, Ghost(target.slots));
            index -= 1;
        }
        assert(ancestors.take(0) =~= Seq::<Symbol>::empty());
        Self::absorb(context, *class, is_final, &mut interface, &mut fields, &mut methods, &mut slots, Ghost(target.slots));
        Layout {
            interface,
            fields,
            methods,
            slots: if is_final && slots == 1 {
                None
            } else {
                Some(slots)
            },
        }
    }
}

/// The first position of `pair` in `fields`.
pub open spec fn first_position(fields: Seq<(Symbol, Symbol)>, pair: (Symbol, Symbol)) -> Option<int>
    decreases fields.len(),
{
    if fields.len() == 0 {
        None
    } else {
        match first_position(fields.drop_last(), pair) {
            Some(position) => Some(position),
            None => if fields.last() == pair { Some(fields.len() - 1) } else { None },
        }
    }
}

/// The last position of a field named `name`, whichever class declares it.
pub open spec fn last_named(fields: Seq<(Symbol, Symbol)>, name: Symbol) -> Option<int>
    decreases fields.len(),
{
    if fields.len() == 0 {
        None
    } else if fields.last().1 == name {
        Some(fields.len() - 1)
    } else {
        last_named(fields.drop_last(), name)
    }
}

/// Word 0 holds the virtual table pointer unless an interface ancestor carries
/// its own or there is no virtual table.
pub open spec fn table_offset(interface: Option<Symbol>, slots: Option<usize>) -> int {
    match (interface, slots) {
        (None, Some(_)) => 1,
        _ => 0,
    }
}

proof fn lemma_first_position(fields: Seq<(Symbol, Symbol)>, pair: (Symbol, Symbol), count: int)
    requires
        0 <= count <= fields.len(),
        forall|j: int| 0 <= j < count ==> fields[j] != pair,
    ensures
        first_position(fields.take(count), pair) is None,
    decreases count,
{
    if count > 0 {
        assert(fields.take(count).drop_last() =~= fields.take(count - 1));
        lemma_first_position(fields, pair, count - 1);
    }
}

proof fn lemma_last_named(fields: Seq<(Symbol, Symbol)>, name: Symbol, count: int)
    requires
        0 <= count <= fields.len(),
        forall|j: int| count <= j < fields.len() ==> fields[j].1 != name,
    ensures
        last_named(fields, name) == last_named(fields.take(count), name),
    decreases fields.len() - count,
{
    if count < fields.len() {
        lemma_last_named(fields, name, count + 1);
        assert(fields.take(count + 1).drop_last() =~= fields.take(count));
    } else {
        assert(fields.take(count) =~= fields);
    }
}

impl Layout {
    /// The first ancestor of this class with a signature and no implementation, if
    /// any: field accesses and the class size are relative to its size, which is
    /// unknown at compile time.
    pub fn interface(&self) -> (interface: Option<Symbol>)
        ensures
            interface == self.spec_interface(),
    {
        self.interface
    }

    fn virtual_table_field_offset(&self) -> (offset: usize)
        ensures
            offset == table_offset(self.spec_interface(), self.spec_slots()),
    {
        match (self.interface, self.slots) {
            (Some(_), _) => 0,
            (None, Some(_)) => 1,
            (None, None) => 0,
        }
    }

    /// Index of a field relative to the superclass: the field declared by `class`,
    /// else the last field of that name; past the virtual table pointer if any.
    pub fn field_index(&self, class: &Symbol, field: &Symbol) -> (index: Option<usize>)
        requires
            self.spec_fields().len() < usize::MAX,
        ensures
            index == match first_position(self.spec_fields(), (*class, *field)) {
                Some(position) => Some((position + table_offset(self.spec_interface(), self.spec_slots())) as usize),
                None => match last_named(self.spec_fields(), *field) {
                    Some(position) => Some((position + table_offset(self.spec_interface(), self.spec_slots())) as usize),
                    None => None,
                },
            },
    {
        let offset = self.virtual_table_field_offset();
        let ghost fields = self.fields@;
        let mut index: usize = 0;
        while index < self.fields.len()
            invariant
                fields == self.fields@,
                fields.len() < usize::MAX,
                offset == table_offset(self.spec_interface(), self.spec_slots()),
                index <= fields.len(),
                forall|j: int| 0 <= j < index ==> fields[j] != (*class, *field),
            decreases fields.len() - index,
        {
            if self.fields[index].0.0 == class.0 && self.fields[index].1.0 == field.0 {
                proof {
                    lemma_first_position(fields, (*class, *field), index as int);
                    assert(fields.take(index + 1).drop_last() =~= fields.take(index as int));
                    assert(fields.take(index + 1).last() == (*class, *field));
                    assert(first_position(fields.take(index + 1), (*class, *field)) == Some(index as int));
                    lemma_first_position_prefix(fields, (*class, *field), index + 1);
                }
                return Some(index + offset);
            }
            index += 1;
        }
        proof {
            lemma_first_position(fields, (*class, *field), fields.len() as int);
            assert(fields.take(fields.len() as int) =~= fields);
        }
        let mut back: usize = self.fields.len();
        while back > 0
            invariant
                fields == self.fields@,
                fields.len() < usize::MAX,
                offset == table_offset(self.spec_interface(), self.spec_slots()),
                first_position(fields, (*class, *field)) is None,
                back <= fields.len(),
                forall|j: int| back <= j < fields.len() ==> fields[j].1 != *field,
            decreases back,
        {
            if self.fields[back - 1].1.0 == field.0 {
                proof {
                    lemma_last_named(fields, *field, back as int);
                    assert(fields.take(back as int).last() == fields[back - 1]);
                }
                return Some(back - 1 + offset);
            }
            back -= 1;
        }
        proof {
            lemma_last_named(fields, *field, 0);
        }
        None
    }

    /// Number of fields relative to the superclass, counting the virtual table pointer if any.
    pub fn field_len(&self) -> (len: usize)
        requires
            self.spec_fields().len() < usize::MAX,
        ensures
            len == self.spec_fields().len() + table_offset(self.spec_interface(), self.spec_slots()),
    {
        self.fields.len() + self.virtual_table_field_offset()
    }

    /// Index of a method in the virtual table.
    pub fn method_index(&self, method: &Symbol) -> (index: Option<usize>)
        requires
            self.wf(),
        ensures
            index == self.spec_methods().get(*method),
    {
        match self.methods.get(method) {
            Some(index) => Some(*index),
            None => None,
        }
    }

    /// Size of the virtual table in words, if there is one.
    pub fn virtual_table_len(&self) -> (len: Option<usize>)
        ensures
            len == self.spec_slots(),
    {
        self.slots
    }
}

/// Once `pair` is found, longer prefixes find it at the same position.
proof fn lemma_first_position_prefix(fields: Seq<(Symbol, Symbol)>, pair: (Symbol, Symbol), count: int)
    requires
        0 <= count <= fields.len(),
        first_position(fields.take(count), pair) is Some,
    ensures
        first_position(fields, pair) == first_position(fields.take(count), pair),
    decreases fields.len() - count,
{
    if count < fields.len() {
        assert(fields.take(count + 1).drop_last() =~= fields.take(count));
        lemma_first_position_prefix(fields, pair, count + 1);
    } else {
        assert(fields.take(count) =~= fields);
    }
}

} // verus!
