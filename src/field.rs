use vstd::prelude::*;

use crate::attrs::{
    bool_meta, char_meta, consulted, find_key, has_key, str_meta, u64_meta, unique_keys, Attributes,
    Annotation, DocText, Attribute, Usage,
};
use crate::error::SchemaError;
use crate::text::{lower_of, to_lowercase};

verus! {

/// The element type of a field's values.
#[derive(Clone, Copy, Debug, PartialEq, Eq, Structural)]
pub enum ElemType {
    Text,
    U8,
    U16,
    U32,
    U64,
    Usize,
    I8,
    I16,
    I32,
    I64,
    Isize,
    Char,
    Bool,
}

/// The declared type of a field, resolved once into a closed set of shapes.
pub enum TypeShape {
    /// A plain value.
    Scalar(ElemType),
    /// An optional wrapper around a value.
    Optional(ElemType),
    /// A sequence of values.
    Sequence(ElemType),
    /// A direct reference to a command-set type.
    Command(String),
    /// An optional wrapper around a command-set type.
    OptionalCommand(String),
    /// Any other type, by its text.
    Other(String),
}

/// A field of a command type, as declared.
pub struct FieldDecl {
    pub ident: String,
    pub ty: TypeShape,
    pub annotations: Vec<Annotation>,
}

/// How many values an argument takes.
#[derive(Clone, Copy, Debug, PartialEq, Eq, Structural)]
pub enum Arity {
    /// Present or absent.
    Flag,
    /// One value.
    Single,
    /// The number of occurrences.
    Counted,
    /// Any number of values.
    Multi,
}

/// A leaf argument of a command.
pub struct Arg {
    pub ident: String,
    pub name: String,
    pub short: Option<char>,
    pub long: Option<String>,
    pub value_name: Option<String>,
    pub index: Option<u64>,
    pub docs: DocText,
    pub arity: Arity,
    pub required: bool,
    pub optional: bool,
    pub elem: ElemType,
    pub default_value: Option<String>,
    pub min_values: Option<u64>,
    pub max_values: Option<u64>,
}

/// A slot that holds the choice of a nested command.
pub struct Subcommand {
    pub ident: String,
    pub ty: String,
    pub optional: bool,
}

/// A classified field.
pub enum Field {
    Arg(Arg),
    Subcommand(Subcommand),
}

impl Field {
    pub fn arg(&self) -> (r: Option<&Arg>)
        ensures
            r == (match self {
                Field::Arg(a) => Some(a),
                _ => None::<&Arg>,
            }),
    {
        match self {
            Field::Arg(a) => Some(a),
            _ => None,
        }
    }

    pub fn subcommand(&self) -> (r: Option<&Subcommand>)
        ensures
            r == (match self {
                Field::Subcommand(s) => Some(s),
                _ => None::<&Subcommand>,
            }),
    {
        match self {
            Field::Subcommand(s) => Some(s),
            _ => None,
        }
    }
}

/// The element type of a value-carrying shape.
pub open spec fn elem_of(ty: TypeShape) -> Option<ElemType> {
    match ty {
        TypeShape::Scalar(e) => Some(e),
        TypeShape::Optional(e) => Some(e),
        TypeShape::Sequence(e) => Some(e),
        _ => None,
    }
}

/// The first fault in the metadata that an argument field reads, in the
/// order in which they are read.
pub open spec fn arg_meta_error(es: Seq<Attribute>) -> Option<SchemaError> {
    if str_meta(es, "name"@) is Err {
        Some(str_meta(es, "name"@)->Err_0)
    } else if u64_meta(es, "index"@) is Err {
        Some(u64_meta(es, "index"@)->Err_0)
    } else if str_meta(es, "long"@) is Err {
        Some(str_meta(es, "long"@)->Err_0)
    } else if char_meta(es, "short"@) is Err {
        Some(char_meta(es, "short"@)->Err_0)
    } else if str_meta(es, "value_name"@) is Err {
        Some(str_meta(es, "value_name"@)->Err_0)
    } else if bool_meta(es, "counted"@) is Err {
        Some(bool_meta(es, "counted"@)->Err_0)
    } else if bool_meta(es, "counter"@) is Err {
        Some(bool_meta(es, "counter"@)->Err_0)
    } else if bool_meta(es, "takes_value"@) is Err {
        Some(bool_meta(es, "takes_value"@)->Err_0)
    } else if u64_meta(es, "min_values"@) is Err {
        Some(u64_meta(es, "min_values"@)->Err_0)
    } else if u64_meta(es, "max_values"@) is Err {
        Some(u64_meta(es, "max_values"@)->Err_0)
    } else if str_meta(es, "default_value"@) is Err {
        Some(str_meta(es, "default_value"@)->Err_0)
    } else {
        None
    }
}

/// Whether the field is counted, by its metadata.
pub open spec fn is_counted(es: Seq<Attribute>) -> bool {
    bool_meta(es, "counted"@) == Ok::<bool, SchemaError>(true) || bool_meta(es, "counter"@) == Ok::<
        bool,
        SchemaError,
    >(true)
}

/// Whether the field takes any number of values.
pub open spec fn is_multi(ty: TypeShape, es: Seq<Attribute>) -> bool {
    ty is Sequence || u64_meta(es, "min_values"@)->Ok_0 is Some || u64_meta(es, "max_values"@)->Ok_0 is Some
}

/// The arity that classification gives a field.
pub open spec fn arity_of(ty: TypeShape, es: Seq<Attribute>) -> Arity {
    if is_counted(es) {
        Arity::Counted
    } else if ty == TypeShape::Scalar(ElemType::Bool) && bool_meta(es, "takes_value"@)
        != Ok::<bool, SchemaError>(true) {
        Arity::Flag
    } else if is_multi(ty, es) {
        Arity::Multi
    } else {
        Arity::Single
    }
}

/// The fault that classification reports for a field, if any.
pub open spec fn classify_error(ident: String, ty: TypeShape, es: Seq<Attribute>) -> Option<SchemaError> {
    match bool_meta(es, "subcommand"@) {
        Err(e) => Some(e),
        Ok(true) => match ty {
            TypeShape::Command(_) => None,
            TypeShape::OptionalCommand(_) => None,
            _ => Some(SchemaError::UnsupportedFieldType { field: ident }),
        },
        Ok(false) => if arg_meta_error(es) is Some {
            arg_meta_error(es)
        } else if elem_of(ty) is None {
            Some(SchemaError::UnsupportedFieldType { field: ident })
        } else if u64_meta(es, "index"@)->Ok_0 is Some && (str_meta(es, "long"@)->Ok_0 is Some
            || char_meta(es, "short"@)->Ok_0 is Some) {
            Some(SchemaError::PositionalWithName { field: ident })
        } else if is_counted(es) && is_multi(ty, es) {
            Some(SchemaError::ConflictingArity { field: ident })
        } else {
            None
        },
    }
}

/// The external name of an argument field: the `name` override, or the
/// field's identifier in lower case.
pub open spec fn external_name(ident: String, es: Seq<Attribute>) -> Seq<char> {
    match str_meta(es, "name"@) {
        Ok(Some(n)) => n@,
        _ => lower_of(ident@),
    }
}

/// `a` is the leaf argument that classification gives a field without fault.
pub open spec fn arg_classified(a: Arg, ident: String, ty: TypeShape, es: Seq<Attribute>) -> bool {
    let index = u64_meta(es, "index"@)->Ok_0;
    &&& a.ident == ident
    &&& a.name@ == external_name(ident, es)
    &&& a.index == index
    &&& a.long == (match str_meta(es, "long"@)->Ok_0 {
        Some(l) => Some(l),
        None => if index is None {
            Some(a.name)
        } else {
            None::<String>
        },
    })
    &&& a.short == char_meta(es, "short"@)->Ok_0
    &&& a.value_name == str_meta(es, "value_name"@)->Ok_0
    &&& a.arity == arity_of(ty, es)
    &&& a.optional == (ty is Optional)
    &&& a.required == (a.arity == Arity::Single && !a.optional)
    &&& elem_of(ty) == Some(a.elem)
    &&& a.default_value == str_meta(es, "default_value"@)->Ok_0
    &&& a.min_values == u64_meta(es, "min_values"@)->Ok_0
    &&& a.max_values == u64_meta(es, "max_values"@)->Ok_0
}

/// `f` is what classification gives a field without fault.
pub open spec fn classified(f: Field, ident: String, ty: TypeShape, es: Seq<Attribute>) -> bool {
    match f {
        Field::Subcommand(s) => {
            &&& bool_meta(es, "subcommand"@) == Ok::<bool, SchemaError>(true)
            &&& s.ident == ident
            &&& match ty {
                TypeShape::Command(t) => s.ty == t && !s.optional,
                TypeShape::OptionalCommand(t) => s.ty == t && s.optional,
                _ => false,
            }
        },
        Field::Arg(a) => bool_meta(es, "subcommand"@) == Ok::<bool, SchemaError>(false)
            && arg_classified(a, ident, ty, es),
    }
}

/// The metadata keys that classification reads for `f`.
pub open spec fn reads(f: Field, k: Seq<char>) -> bool {
    match f {
        Field::Subcommand(_) => k == "subcommand"@,
        Field::Arg(_) => k == "subcommand"@ || k == "name"@ || k == "index"@ || k == "long"@ || k
            == "short"@ || k == "value_name"@ || k == "counted"@ || k == "counter"@ || k
            == "takes_value"@ || k == "min_values"@ || k == "max_values"@ || k == "default_value"@,
    }
}

/// Consulting a key marks exactly the entries with that key.
pub proof fn lemma_consulted(es: Seq<Attribute>, k: Seq<char>, before: Seq<bool>, after: Seq<bool>)
    requires
        unique_keys(es),
        before.len() == es.len(),
        consulted(es, k, before, after),
    ensures
        after.len() == es.len(),
        forall|i: int| 0 <= i < es.len() ==> #[trigger] after[i] == (before[i] || es[i].key@ == k),
{
    if has_key(es, k) {
        let j = find_key(es, k)->Some_0;
        assert forall|i: int| 0 <= i < es.len() implies #[trigger] after[i] == (before[i] || es[i].key@
            == k) by {
            if i != j && es[i].key@ == k {
                assert(es[i].key@ != es[j].key@);
            }
        }
    } else {
        assert forall|i: int| 0 <= i < es.len() implies #[trigger] after[i] == (before[i] || es[i].key@
            == k) by {
            if es[i].key@ == k {
                assert(has_key(es, k));
            }
        }
    }
}

impl DocText {
    pub fn duplicate(&self) -> (r: DocText)
        ensures
            r == *self,
    {
        DocText { summary: self.summary.clone(), detail: self.detail.clone() }
    }
}

/// The element type of a value-carrying shape.
fn elem_type(ty: &TypeShape) -> (r: Option<ElemType>)
    ensures
        r == elem_of(*ty),
{
    match ty {
        TypeShape::Scalar(e) => Some(*e),
        TypeShape::Optional(e) => Some(*e),
        TypeShape::Sequence(e) => Some(*e),
        _ => None,
    }
}

/// Classifies a field, by its declared type and its metadata, as a leaf
/// argument or a subcommand slot, and records which keys were read.
pub fn classify(field: &FieldDecl, attrs: &Attributes, usage: &mut Usage) -> (r: Result<Field, SchemaError>)
    requires
        attrs.wf(),
        old(usage).used@.len() == attrs.entries@.len(),
    ensures
        final(usage).used@.len() == old(usage).used@.len(),
        match classify_error(field.ident, field.ty, attrs.entries@) {
            Some(e) => r == Err::<Field, SchemaError>(e),
            None => r is Ok && classified(r->Ok_0, field.ident, field.ty, attrs.entries@),
        },
        r is Ok && r->Ok_0 is Arg ==> r->Ok_0->Arg_0.docs == attrs.docs,
        r is Ok ==> forall|i: int| 0 <= i < attrs.entries@.len() ==> #[trigger] final(usage).used@[i] == (
        old(usage).used@[i] || reads(r->Ok_0, attrs.entries@[i].key@)),
{
    let ghost es = attrs.entries@;
    let ghost seen0 = usage.used@;
    let is_sub = match attrs.get_bool("subcommand", usage) {
        Ok(b) => b,
        Err(e) => return Err(e),
    };
    proof {
        lemma_consulted(es, "subcommand"@, seen0, usage.used@);
    }
    if is_sub {
        let (ty, optional) = match &field.ty {
            TypeShape::Command(t) => (t.clone(), false),
            TypeShape::OptionalCommand(t) => (t.clone(), true),
            _ => return Err(SchemaError::UnsupportedFieldType { field: field.ident.clone() }),
        };
        return Ok(Field::Subcommand(Subcommand { ident: field.ident.clone(), ty, optional }));
    }
    let ghost seen1 = usage.used@;
    let name_override = match attrs.get_str("name", usage) {
        Ok(v) => v,
        Err(e) => return Err(e),
    };
    proof {
        lemma_consulted(es, "name"@, seen1, usage.used@);
    }
    let ghost seen2 = usage.used@;
    let index = match attrs.get_u64("index", usage) {
        Ok(v) => v,
        Err(e) => return Err(e),
    };
    proof {
        lemma_consulted(es, "index"@, seen2, usage.used@);
    }
    let ghost seen3 = usage.used@;
    let long_override = match attrs.get_str("long", usage) {
        Ok(v) => v,
        Err(e) => return Err(e),
    };
    proof {
        lemma_consulted(es, "long"@, seen3, usage.used@);
    }
    let ghost seen4 = usage.used@;
    let short = match attrs.get_char("short", usage) {
        Ok(v) => v,
        Err(e) => return Err(e),
    };
    proof {
        lemma_consulted(es, "short"@, seen4, usage.used@);
    }
    let ghost seen5 = usage.used@;
    let value_name = match attrs.get_str("value_name", usage) {
        Ok(v) => v,
        Err(e) => return Err(e),
    };
    proof {
        lemma_consulted(es, "value_name"@, seen5, usage.used@);
    }
    let ghost seen6 = usage.used@;
    let counted = match attrs.get_bool("counted", usage) {
        Ok(v) => v,
        Err(e) => return Err(e),
    };
    proof {
        lemma_consulted(es, "counted"@, seen6, usage.used@);
    }
    let ghost seen7 = usage.used@;
    let counter = match attrs.get_bool("counter", usage) {
        Ok(v) => v,
        Err(e) => return Err(e),
    };
    proof {
        lemma_consulted(es, "counter"@, seen7, usage.used@);
    }
    let ghost seen8 = usage.used@;
    let takes_value = match attrs.get_bool("takes_value", usage) {
        Ok(v) => v,
        Err(e) => return Err(e),
    };
    proof {
        lemma_consulted(es, "takes_value"@, seen8, usage.used@);
    }
    let ghost seen9 = usage.used@;
    let min_values = match attrs.get_u64("min_values", usage) {
        Ok(v) => v,
        Err(e) => return Err(e),
    };
    proof {
        lemma_consulted(es, "min_values"@, seen9, usage.used@);
    }
    let ghost seen10 = usage.used@;
    let max_values = match attrs.get_u64("max_values", usage) {
        Ok(v) => v,
        Err(e) => return Err(e),
    };
    proof {
        lemma_consulted(es, "max_values"@, seen10, usage.used@);
    }
    let ghost seen11 = usage.used@;
    let default_value = match attrs.get_str("default_value", usage) {
        Ok(v) => v,
        Err(e) => return Err(e),
    };
    proof {
        lemma_consulted(es, "default_value"@, seen11, usage.used@);
    }
    let elem = match elem_type(&field.ty) {
        Some(e) => e,
        None => return Err(SchemaError::UnsupportedFieldType { field: field.ident.clone() }),
    };
    if index.is_some() && (long_override.is_some() || short.is_some()) {
        return Err(SchemaError::PositionalWithName { field: field.ident.clone() });
    }
    let is_counted = counted || counter;
    let multi = match &field.ty {
        TypeShape::Sequence(_) => true,
        _ => false,
    } || min_values.is_some() || max_values.is_some();
    if is_counted && multi {
        return Err(SchemaError::ConflictingArity { field: field.ident.clone() });
    }
    let is_bool = match &field.ty {
        TypeShape::Scalar(ElemType::Bool) => true,
        _ => false,
    };
    let arity = if is_counted {
        Arity::Counted
    } else if is_bool && !takes_value {
        Arity::Flag
    } else if multi {
        Arity::Multi
    } else {
        Arity::Single
    };
    let optional = match &field.ty {
        TypeShape::Optional(_) => true,
        _ => false,
    };
    let name = match name_override {
        Some(n) => n,
        None => to_lowercase(field.ident.as_str()),
    };
    let long = match long_override {
        Some(l) => Some(l),
        None => if index.is_none() {
            Some(name.clone())
        } else {
            None
        },
    };
    let required = arity == Arity::Single && !optional;
    let a = Arg {
        ident: field.ident.clone(),
        name,
        short,
        long,
        value_name,
        index,
        docs: attrs.docs.duplicate(),
        arity,
        required,
        optional,
        elem,
        default_value,
        min_values,
        max_values,
    };
    Ok(Field::Arg(a))
}

/// A flag argument is never required, whatever else its metadata says.
pub proof fn lemma_flag_not_required(a: Arg, ident: String, ty: TypeShape, es: Seq<Attribute>)
    requires
        classified(Field::Arg(a), ident, ty, es),
        a.arity == Arity::Flag,
    ensures
        !a.required,
{
}

} // verus!
