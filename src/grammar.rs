use vstd::prelude::*;
use vstd::string::*;

use crate::attrs::{str_meta, Attributes, Usage};
use crate::error::SchemaError;
use crate::attrs::Attribute;
use crate::field::{classified, classify_error, lemma_consulted, Arg, Arity, ElemType, Field, TypeShape};
use crate::text::{lower_of, to_lowercase, trim, trim_of};

verus! {

/// The definition of one argument, as a parser backend reads it.
pub struct ArgumentSpec {
    pub name: String,
    pub short: Option<char>,
    pub long: Option<String>,
    pub value_name: Option<String>,
    pub index: Option<u64>,
    pub help: String,
    pub arity: Arity,
    pub takes_value: bool,
    pub multiple: bool,
    pub required: bool,
    pub default_value: Option<String>,
    pub min_values: Option<u64>,
    pub max_values: Option<u64>,
    /// The element type that each value must parse as, for arguments that
    /// take values.
    pub validator: Option<ElemType>,
}

/// The grammar of one command. The grammars of the commands that its
/// subcommand slot offers are held by the compiled command.
pub struct GrammarNode {
    pub name: String,
    pub version: Option<String>,
    pub author: Option<String>,
    pub summary: String,
    pub detail: String,
    pub aliases: Vec<String>,
    pub arguments: Vec<ArgumentSpec>,
    pub subcommand_required: bool,
}

/// The help text of an argument: its summary and detail joined by a blank
/// line, trimmed.
pub open spec fn help_text(summary: Seq<char>, detail: Seq<char>) -> Seq<char> {
    trim_of(summary + "\n\n"@ + detail)
}

/// The metadata keys that grammar synthesis reads.
pub open spec fn grammar_reads(k: Seq<char>) -> bool {
    k == "name"@ || k == "version"@ || k == "author"@ || k == "alias"@
}

/// The first fault in the metadata that grammar synthesis reads, in the
/// order in which it reads them.
pub open spec fn grammar_meta_error(es: Seq<Attribute>) -> Option<SchemaError> {
    if str_meta(es, "name"@) is Err {
        Some(str_meta(es, "name"@)->Err_0)
    } else if str_meta(es, "version"@) is Err {
        Some(str_meta(es, "version"@)->Err_0)
    } else if str_meta(es, "author"@) is Err {
        Some(str_meta(es, "author"@)->Err_0)
    } else if str_meta(es, "alias"@) is Err {
        Some(str_meta(es, "alias"@)->Err_0)
    } else {
        None
    }
}

/// Whether an argument of this arity takes values.
pub open spec fn takes_values(arity: Arity) -> bool {
    arity == Arity::Single || arity == Arity::Multi
}

/// `s` is the definition emitted for the leaf argument `a`.
pub open spec fn spec_of(s: ArgumentSpec, a: Arg) -> bool {
    &&& s.name == a.name
    &&& s.short == a.short
    &&& s.long == a.long
    &&& s.value_name == a.value_name
    &&& s.index == a.index
    &&& s.help@ == help_text(a.docs.summary@, a.docs.detail@)
    &&& s.arity == a.arity
    &&& s.takes_value == takes_values(a.arity)
    &&& s.multiple == (a.arity == Arity::Counted || a.arity == Arity::Multi)
    &&& s.required == a.required
    &&& s.default_value == a.default_value
    &&& s.min_values == a.min_values
    &&& s.max_values == a.max_values
    &&& s.validator == (if takes_values(a.arity) {
        Some(a.elem)
    } else {
        None::<ElemType>
    })
}

/// The leaf arguments among `fs`, in order.
pub open spec fn args_of(fs: Seq<Field>) -> Seq<Arg>
    decreases fs.len(),
{
    if fs.len() == 0 {
        Seq::empty()
    } else {
        match fs.last() {
            Field::Arg(a) => args_of(fs.drop_last()).push(a),
            _ => args_of(fs.drop_last()),
        }
    }
}

/// The first subcommand slot among `fs`, if any: whether it is optional.
pub open spec fn first_slot_optional(fs: Seq<Field>) -> Option<bool>
    decreases fs.len(),
{
    if fs.len() == 0 {
        None
    } else {
        match fs[0] {
            Field::Subcommand(s) => Some(s.optional),
            _ => first_slot_optional(fs.skip(1)),
        }
    }
}

/// The grammar name of a command: the `name` override, or its identifier
/// in lower case.
pub open spec fn command_name(ident: String, attrs: Attributes) -> Seq<char> {
    match str_meta(attrs.entries@, "name"@) {
        Ok(Some(n)) => n@,
        _ => lower_of(ident@),
    }
}

fn duplicate_opt(s: &Option<String>) -> (r: Option<String>)
    ensures
        r == *s,
{
    match s {
        Some(v) => Some(v.clone()),
        None => None,
    }
}

/// The definition emitted for a leaf argument: its shape copied one for one,
/// its help text, and a validator for arguments that take values.
pub fn synthesize_arg(a: &Arg) -> (r: ArgumentSpec)
    ensures
        spec_of(r, *a),
{
    let mut text = a.docs.summary.clone();
    text.append("\n\n");
    text.append(a.docs.detail.as_str());
    let help = trim(text.as_str());
    let takes_value = a.arity == Arity::Single || a.arity == Arity::Multi;
    ArgumentSpec {
        name: a.name.clone(),
        short: a.short,
        long: duplicate_opt(&a.long),
        value_name: duplicate_opt(&a.value_name),
        index: a.index,
        help,
        arity: a.arity,
        takes_value,
        multiple: a.arity == Arity::Counted || a.arity == Arity::Multi,
        required: a.required,
        default_value: duplicate_opt(&a.default_value),
        min_values: a.min_values,
        max_values: a.max_values,
        validator: if takes_value {
            Some(a.elem)
        } else {
            None
        },
    }
}

/// The definitions of the leaf arguments among `fields`, in order.
pub fn synthesize_args(fields: &Vec<Field>) -> (r: Vec<ArgumentSpec>)
    ensures
        r@.len() == args_of(fields@).len(),
        forall|i: int| 0 <= i < r@.len() ==> spec_of(#[trigger] r@[i], args_of(fields@)[i]),
{
    let mut out: Vec<ArgumentSpec> = Vec::new();
    let mut i: usize = 0;
    assert(fields@.take(0) =~= Seq::<Field>::empty());
    while i < fields.len()
        invariant
            i <= fields@.len(),
            out@.len() == args_of(fields@.take(i as int)).len(),
            forall|k: int| 0 <= k < out@.len() ==> spec_of(#[trigger] out@[k], args_of(fields@.take(i as int))[k]),
        decreases fields@.len() - i,
    {
        assert(fields@.take(i + 1).drop_last() =~= fields@.take(i as int));
        match fields[i].arg() {
            Some(a) => {
                out.push(synthesize_arg(a));
            },
            None => {},
        }
        i = i + 1;
    }
    assert(fields@.take(i as int) =~= fields@);
    out
}

/// Whether the first subcommand slot among `fields` is optional.
pub fn first_slot(fields: &Vec<Field>) -> (r: Option<bool>)
    ensures
        r == first_slot_optional(fields@),
{
    let mut i: usize = 0;
    assert(fields@.skip(0) =~= fields@);
    while i < fields.len()
        invariant
            i <= fields@.len(),
            first_slot_optional(fields@) == first_slot_optional(fields@.skip(i as int)),
        decreases fields@.len() - i,
    {
        assert(fields@.skip(i as int).skip(1) =~= fields@.skip(i + 1));
        match fields[i].subcommand() {
            Some(s) => {
                return Some(s.optional);
            },
            None => {},
        }
        i = i + 1;
    }
    None
}

/// The grammar of a command type, from its identifier, its metadata and
/// its classified fields.
pub fn synthesize_grammar(ident: &String, attrs: &Attributes, usage: &mut Usage, fields: &Vec<Field>) -> (r: Result<GrammarNode, SchemaError>)
    requires
        attrs.wf(),
        old(usage).used@.len() == attrs.entries@.len(),
    ensures
        final(usage).used@.len() == old(usage).used@.len(),
        r is Ok ==> forall|i: int| 0 <= i < attrs.entries@.len() ==> #[trigger] final(usage).used@[i] == (
        old(usage).used@[i] || grammar_reads(attrs.entries@[i].key@)),
        match grammar_meta_error(attrs.entries@) {
            Some(e) => r == Err::<GrammarNode, SchemaError>(e),
            None => r is Ok,
        },
        r is Ok ==> {
            let g = r->Ok_0;
            &&& g.name@ == command_name(*ident, *attrs)
            &&& g.version == str_meta(attrs.entries@, "version"@)->Ok_0
            &&& g.author == str_meta(attrs.entries@, "author"@)->Ok_0
            &&& g.summary == attrs.docs.summary
            &&& g.detail == attrs.docs.detail
            &&& g.aliases@ == (match str_meta(attrs.entries@, "alias"@)->Ok_0 {
                Some(a) => seq![a],
                None => Seq::<String>::empty(),
            })
            &&& g.arguments@.len() == args_of(fields@).len()
            &&& forall|i: int| 0 <= i < g.arguments@.len() ==> spec_of(#[trigger] g.arguments@[i], args_of(fields@)[i])
            &&& g.subcommand_required == (first_slot_optional(fields@) == Some(false))
        },
{
    let ghost es = attrs.entries@;
    let ghost seen0 = usage.used@;
    let name = match attrs.get_str("name", usage) {
        Ok(Some(n)) => n,
        Ok(None) => to_lowercase(ident.as_str()),
        Err(e) => return Err(e),
    };
    proof {
        lemma_consulted(es, "name"@, seen0, usage.used@);
    }
    let ghost seen1 = usage.used@;
    let version = match attrs.get_str("version", usage) {
        Ok(v) => v,
        Err(e) => return Err(e),
    };
    proof {
        lemma_consulted(es, "version"@, seen1, usage.used@);
    }
    let ghost seen2 = usage.used@;
    let author = match attrs.get_str("author", usage) {
        Ok(v) => v,
        Err(e) => return Err(e),
    };
    proof {
        lemma_consulted(es, "author"@, seen2, usage.used@);
    }
    let ghost seen3 = usage.used@;
    let mut aliases: Vec<String> = Vec::new();
    match attrs.get_str("alias", usage) {
        Ok(Some(a)) => aliases.push(a),
        Ok(None) => {},
        Err(e) => return Err(e),
    }
    proof {
        lemma_consulted(es, "alias"@, seen3, usage.used@);
    }
    let arguments = synthesize_args(fields);
    let subcommand_required = match first_slot(fields) {
        Some(optional) => !optional,
        None => false,
    };
    Ok(GrammarNode {
        name,
        version,
        author,
        summary: attrs.docs.summary.clone(),
        detail: attrs.docs.detail.clone(),
        aliases,
        arguments,
        subcommand_required,
    })
}

/// An emitted argument definition is never both positional and named: a
/// field classified without fault has no short or long form when it has a
/// positional index.
pub proof fn lemma_positional_unnamed(s: ArgumentSpec, a: Arg, ident: String, ty: TypeShape, es: Seq<Attribute>)
    requires
        classify_error(ident, ty, es) is None,
        classified(Field::Arg(a), ident, ty, es),
        spec_of(s, a),
    ensures
        !(s.index is Some && (s.short is Some || s.long is Some)),
{
}

} // verus!
