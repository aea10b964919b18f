use vstd::prelude::*;

use crate::decode::{
    arg_decoded, arg_error, decode_arg, DecodeError, FieldEntry, FieldValue, Instance, MatchedBag,
    Tagged,
};
use crate::field::Field;
use crate::grammar::GrammarNode;

verus! {

/// A compiled command type: its grammar, its classified fields in
/// declaration order, and, where it has a subcommand slot, the compiled
/// command set that the slot offers.
pub struct Command {
    pub ident: String,
    pub grammar: GrammarNode,
    pub fields: Vec<Field>,
    pub nested: Option<CommandSet>,
}

/// One alternative of a command set: its tag and its compiled command.
pub struct Variant {
    pub tag: String,
    pub command: Command,
}

/// A compiled command set: a tagged union of commands, in declaration order.
pub struct CommandSet {
    pub ident: String,
    pub variants: Vec<Variant>,
}

/// The identifier of a classified field.
pub open spec fn field_ident(f: Field) -> String {
    match f {
        Field::Arg(a) => a.ident,
        Field::Subcommand(s) => s.ident,
    }
}

/// The first variant whose grammar is named `name`.
pub open spec fn find_variant(vs: Seq<Variant>, name: Seq<char>) -> Option<Variant>
    decreases vs.len(),
{
    if vs.len() == 0 {
        None
    } else if vs[0].command.grammar.name@ == name {
        Some(vs[0])
    } else {
        find_variant(vs.skip(1), name)
    }
}

/// The variant of `nested` that a selection names, if any.
pub open spec fn selected(nested: Option<CommandSet>, name: Seq<char>) -> Option<Variant> {
    match nested {
        Some(set) => find_variant(set.variants@, name),
        None => None,
    }
}

/// The failure that decoding the field `f` of `cmd` from `bag` gives, if any.
pub open spec fn field_error(cmd: Command, f: Field, bag: MatchedBag) -> Option<DecodeError>
    decreases bag, 0nat, 0int,
{
    match f {
        Field::Arg(a) => arg_error(a, bag),
        Field::Subcommand(s) => match bag.sub {
            None => if s.optional {
                None
            } else {
                Some(DecodeError::MissingCommand { field: s.ident })
            },
            Some(sm) => match selected(cmd.nested, sm.name@) {
                None => Some(DecodeError::UnknownCommand { name: sm.name }),
                Some(v) => decode_error(v.command, *sm.bag),
            },
        },
    }
}

/// The failure of the first of the first `n` fields of `cmd` that fails.
pub open spec fn first_error(cmd: Command, bag: MatchedBag, n: int) -> Option<DecodeError>
    decreases bag, 1nat, n,
{
    if n <= 0 {
        None
    } else {
        match first_error(cmd, bag, n - 1) {
            Some(e) => Some(e),
            None => field_error(cmd, cmd.fields@[n - 1], bag),
        }
    }
}

/// The failure that decoding `cmd` from `bag` gives, if any: that of the
/// first field, in declaration order, that fails.
pub open spec fn decode_error(cmd: Command, bag: MatchedBag) -> Option<DecodeError>
    decreases bag, 2nat, 0int,
{
    first_error(cmd, bag, cmd.fields@.len() as int)
}

proof fn lemma_first_error_stays(cmd: Command, bag: MatchedBag, n: int, m: int)
    requires
        0 <= n <= m,
        first_error(cmd, bag, n) is Some,
    ensures
        first_error(cmd, bag, m) == first_error(cmd, bag, n),
    decreases m - n,
{
    if n < m {
        lemma_first_error_stays(cmd, bag, n, m - 1);
    }
}

/// `v` is what decoding the field `f` of `cmd` from `bag` gives.
pub open spec fn field_decoded(cmd: Command, f: Field, bag: MatchedBag, v: FieldValue) -> bool
    decreases bag, 0nat, 0int,
{
    match f {
        Field::Arg(a) => arg_decoded(a, bag, Ok(v)),
        Field::Subcommand(s) => match bag.sub {
            None => s.optional && v == FieldValue::Command(None),
            Some(sm) => match selected(cmd.nested, sm.name@) {
                None => false,
                Some(var) => v is Command && v->Command_0 is Some && v->Command_0->Some_0.tag == var.tag
                    && decoded(var.command, *sm.bag, v->Command_0->Some_0.instance),
            },
        },
    }
}

/// `inst` is what decoding `cmd` from `bag` gives: each field in order.
pub open spec fn decoded(cmd: Command, bag: MatchedBag, inst: Instance) -> bool
    decreases bag, 1nat, 0int,
{
    &&& inst.fields@.len() == cmd.fields@.len()
    &&& forall|i: int|
        0 <= i < cmd.fields@.len() ==> (#[trigger] inst.fields@[i]).ident == field_ident(cmd.fields@[i])
            && field_decoded(cmd, cmd.fields@[i], bag, inst.fields@[i].value)
}

/// The position of the first variant whose grammar is named `name`.
pub fn variant_position(vs: &Vec<Variant>, name: &String) -> (r: Option<usize>)
    ensures
        match find_variant(vs@, name@) {
            Some(v) => r is Some && r->Some_0 < vs@.len() && vs@[r->Some_0 as int] == v,
            None => r is None,
        },
{
    let mut i: usize = 0;
    assert(vs@.skip(0) =~= vs@);
    while i < vs.len()
        invariant
            i <= vs@.len(),
            find_variant(vs@, name@) == find_variant(vs@.skip(i as int), name@),
        decreases vs@.len() - i,
    {
        assert(vs@.skip(i as int).skip(1) =~= vs@.skip(i + 1));
        assert(vs@.skip(i as int)[0] == vs@[i as int]);
        if vs[i].command.grammar.name == *name {
            return Some(i);
        }
        i = i + 1;
    }
    None
}

impl Command {
    /// Decodes a typed instance of this command from what the parser
    /// backend matched, recursing into the selected subcommand.
    pub fn decode(&self, bag: &MatchedBag) -> (r: Result<Instance, DecodeError>)
        ensures
            match decode_error(*self, *bag) {
                Some(e) => r == Err::<Instance, DecodeError>(e),
                None => r is Ok && decoded(*self, *bag, r->Ok_0),
            },
        decreases *bag,
    {
        let mut out: Vec<FieldEntry> = Vec::new();
        let mut i: usize = 0;
        while i < self.fields.len()
            invariant
                i <= self.fields@.len(),
                out@.len() == i,
                first_error(*self, *bag, i as int) is None,
                forall|j: int|
                    0 <= j < i ==> (#[trigger] out@[j]).ident == field_ident(self.fields@[j])
                        && field_decoded(*self, self.fields@[j], *bag, out@[j].value),
            decreases self.fields@.len() - i,
        {
            let f = &self.fields[i];
            assert(first_error(*self, *bag, i + 1) == field_error(*self, self.fields@[i as int], *bag));
            let value = match f {
                Field::Arg(a) => match decode_arg(a, bag) {
                    Ok(v) => v,
                    Err(e) => {
                        proof {
                            lemma_first_error_stays(*self, *bag, i + 1, self.fields@.len() as int);
                        }
                        return Err(e);
                    },
                },
                Field::Subcommand(s) => match &bag.sub {
                    None => {
                        if s.optional {
                            FieldValue::Command(None)
                        } else {
                            proof {
                                lemma_first_error_stays(*self, *bag, i + 1, self.fields@.len() as int);
                            }
                            return Err(DecodeError::MissingCommand { field: s.ident.clone() });
                        }
                    },
                    Some(sm) => {
                        let set = match &self.nested {
                            Some(set) => set,
                            None => {
                                proof {
                                    lemma_first_error_stays(*self, *bag, i + 1, self.fields@.len() as int);
                                }
                                return Err(DecodeError::UnknownCommand { name: sm.name.clone() });
                            },
                        };
                        let k = match variant_position(&set.variants, &sm.name) {
                            Some(k) => k,
                            None => {
                                proof {
                                    lemma_first_error_stays(*self, *bag, i + 1, self.fields@.len() as int);
                                }
                                return Err(DecodeError::UnknownCommand { name: sm.name.clone() });
                            },
                        };
                        let var = &set.variants[k];
                        let nested_bag: &MatchedBag = &sm.bag;
                        match var.command.decode(nested_bag) {
                            Ok(inst) => FieldValue::Command(Some(Tagged { tag: var.tag.clone(), instance: inst })),
                            Err(e) => {
                                proof {
                                    lemma_first_error_stays(*self, *bag, i + 1, self.fields@.len() as int);
                                }
                                return Err(e);
                            },
                        }
                    },
                },
            };
            let ident = match f {
                Field::Arg(a) => a.ident.clone(),
                Field::Subcommand(s) => s.ident.clone(),
            };
            out.push(FieldEntry { ident, value });
            i = i + 1;
        }
        Ok(Instance { fields: out })
    }
}

impl CommandSet {
    /// The grammars of the variants, in declaration order.
    pub fn commands(&self) -> (r: Vec<&GrammarNode>)
        ensures
            r@.len() == self.variants@.len(),
            forall|i: int| 0 <= i < r@.len() ==> *(#[trigger] r@[i]) == self.variants@[i].command.grammar,
    {
        let mut out: Vec<&GrammarNode> = Vec::new();
        let mut i: usize = 0;
        while i < self.variants.len()
            invariant
                i <= self.variants@.len(),
                out@.len() == i,
                forall|j: int| 0 <= j < i ==> *(#[trigger] out@[j]) == self.variants@[j].command.grammar,
            decreases self.variants@.len() - i,
        {
            out.push(&self.variants[i].command.grammar);
            i = i + 1;
        }
        out
    }

    /// The command of the variant whose grammar is named `name`.
    pub fn variant_named(&self, name: &String) -> (r: Option<&Command>)
        ensures
            match find_variant(self.variants@, name@) {
                Some(v) => r is Some && *r->Some_0 == v.command,
                None => r is None,
            },
    {
        match variant_position(&self.variants, name) {
            Some(k) => Some(&self.variants[k].command),
            None => None,
        }
    }

    /// Decodes the variant whose grammar is named `name` from `bag`, under
    /// its tag.
    pub fn parse(&self, name: &String, bag: &MatchedBag) -> (r: Result<Tagged, DecodeError>)
        ensures
            match find_variant(self.variants@, name@) {
                None => r == Err::<Tagged, DecodeError>(DecodeError::UnknownCommand { name: *name }),
                Some(v) => match decode_error(v.command, *bag) {
                    Some(e) => r == Err::<Tagged, DecodeError>(e),
                    None => r is Ok && r->Ok_0.tag == v.tag && decoded(v.command, *bag, r->Ok_0.instance),
                },
            },
    {
        match variant_position(&self.variants, name) {
            None => Err(DecodeError::UnknownCommand { name: name.clone() }),
            Some(k) => {
                let var = &self.variants[k];
                match var.command.decode(bag) {
                    Ok(inst) => Ok(Tagged { tag: var.tag.clone(), instance: inst }),
                    Err(e) => Err(e),
                }
            },
        }
    }
}

/// An optional subcommand slot with no selection decodes to `None`, never
/// to a failure.
pub proof fn lemma_optional_slot_omitted(cmd: Command, f: Field, bag: MatchedBag, v: FieldValue)
    requires
        f is Subcommand,
        f->Subcommand_0.optional,
        bag.sub is None,
    ensures
        field_error(cmd, f, bag) is None,
        field_decoded(cmd, f, bag, v) <==> v == FieldValue::Command(None),
{
}

/// Whether the grammars of `vs` have pairwise distinct names.
pub open spec fn distinct_names(vs: Seq<Variant>) -> bool {
    forall|i: int, j: int| 0 <= i < vs.len() && 0 <= j < vs.len() && i != j
        ==> (#[trigger] vs[i]).command.grammar.name@ != (#[trigger] vs[j]).command.grammar.name@
}

/// In a command set whose grammar names are distinct, selecting the name of
/// a listed grammar picks that grammar's variant.
pub proof fn lemma_dispatch_selects(vs: Seq<Variant>, i: int)
    requires
        distinct_names(vs),
        0 <= i < vs.len(),
    ensures
        find_variant(vs, vs[i].command.grammar.name@) == Some(vs[i]),
    decreases vs.len(),
{
    if i > 0 {
        let rest = vs.skip(1);
        assert forall|a: int, b: int| 0 <= a < rest.len() && 0 <= b < rest.len() && a != b
            implies (#[trigger] rest[a]).command.grammar.name@ != (#[trigger] rest[b]).command.grammar.name@ by {
            assert(rest[a] == vs[a + 1] && rest[b] == vs[b + 1]);
        }
        assert(vs[0].command.grammar.name@ != vs[i].command.grammar.name@);
        assert(rest[i - 1] == vs[i]);
        lemma_dispatch_selects(rest, i - 1);
    }
}

impl Command {
    /// The grammars that this command's subcommand slot offers, if it has one.
    pub fn subcommand_grammars(&self) -> (r: Option<Vec<&GrammarNode>>)
        ensures
            r is Some <==> self.nested is Some,
            r is Some ==> r->Some_0@.len() == self.nested->Some_0.variants@.len() && forall|i: int|
                0 <= i < r->Some_0@.len() ==> *(#[trigger] r->Some_0@[i])
                    == self.nested->Some_0.variants@[i].command.grammar,
    {
        match &self.nested {
            Some(set) => Some(set.commands()),
            None => None,
        }
    }
}

} // verus!
