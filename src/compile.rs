use vstd::prelude::*;

use crate::attrs::{
    bool_meta, doc_lines, entries_of, extract_attrs_inner, joined_docs, kept, reserved_entries,
    all_name, lemma_reports_of, report_of, reports, split_as, str_meta, unused_keys, usage_reports,
    Annotation, Attribute, Attributes, Diagnostic, FieldAttributes, Usage,
};
use crate::command::{Command, CommandSet, Variant};
use crate::error::SchemaError;
use crate::field::{classified, classify, classify_error, reads, Field, FieldDecl, TypeShape};
use crate::grammar::{
    args_of, first_slot_optional, grammar_meta_error, grammar_reads, spec_of, synthesize_grammar,
};
use crate::text::lower_of;

verus! {

/// The fields of a command type, as declared.
pub enum Body {
    Named(Vec<FieldDecl>),
    Tuple,
    Unit,
}

/// A command type, as declared.
pub struct CommandDecl {
    pub ident: String,
    pub annotations: Vec<Annotation>,
    pub body: Body,
}

/// The payload of a command-set variant, as declared.
pub enum VariantShape {
    /// Exactly one payload, of the named command type.
    Single(String),
    Tuple,
    Struct,
    Unit,
}

/// A variant of a command set, as declared.
pub struct VariantDecl {
    pub ident: String,
    pub shape: VariantShape,
}

/// A command set, as declared: a tagged union of command types.
pub struct CommandSetDecl {
    pub ident: String,
    pub variants: Vec<VariantDecl>,
}

/// A compiled command with the diagnostics of metadata never consulted.
pub struct Compiled {
    pub command: Command,
    pub diagnostics: Vec<Diagnostic>,
}

/// The metadata entries of a list of annotations, when they are well formed.
pub open spec fn entries_in(annots: Seq<Annotation>) -> Seq<Attribute> {
    entries_of(reserved_entries(annots))->Ok_0
}

/// The declared fields of a body.
pub open spec fn decl_fields(b: Body) -> Seq<FieldDecl> {
    match b {
        Body::Named(fs) => fs@,
        _ => Seq::empty(),
    }
}

/// Whether the metadata and the classification of a declared field are
/// free of faults.
pub open spec fn field_sound(fd: FieldDecl) -> bool {
    &&& entries_of(reserved_entries(fd.annotations@)) is Ok
    &&& classify_error(fd.ident, fd.ty, entries_in(fd.annotations@)) is None
}

/// `f` is the classified form of the declared field `fd`.
pub open spec fn field_compiled(f: Field, fd: FieldDecl) -> bool {
    &&& classified(f, fd.ident, fd.ty, entries_in(fd.annotations@))
    &&& f is Arg ==> split_as(
        joined_docs(doc_lines(fd.annotations@)),
        f->Arg_0.docs.summary@,
        f->Arg_0.docs.detail@,
    )
}

/// No two fields of `fs` are subcommand slots.
pub open spec fn at_most_one_slot(fs: Seq<Field>) -> bool {
    forall|i: int, j: int| 0 <= i < j < fs.len() ==> !(#[trigger] fs[i] is Subcommand && #[trigger] fs[j] is Subcommand)
}

/// The grammar name of a command type.
pub open spec fn grammar_name(ident: String, es: Seq<Attribute>) -> Seq<char> {
    match str_meta(es, "name"@) {
        Ok(Some(n)) => n@,
        _ => lower_of(ident@),
    }
}

/// The first metadata fault among the annotations of `fds`, in order.
pub open spec fn first_field_meta_error(fds: Seq<FieldDecl>) -> Option<SchemaError>
    decreases fds.len(),
{
    if fds.len() == 0 {
        None
    } else {
        match first_field_meta_error(fds.drop_last()) {
            Some(e) => Some(e),
            None => match entries_of(reserved_entries(fds.last().annotations@)) {
                Err(e) => Some(e),
                Ok(_) => None,
            },
        }
    }
}

/// The first metadata fault of a declaration: that of its own annotations,
/// else that of the first field whose annotations have one.
pub open spec fn first_meta_error(decl: CommandDecl) -> Option<SchemaError> {
    match entries_of(reserved_entries(decl.annotations@)) {
        Err(e) => Some(e),
        Ok(_) => first_field_meta_error(decl_fields(decl.body)),
    }
}

proof fn lemma_field_meta_error_extends(fds: Seq<FieldDecl>, j: int)
    requires
        0 <= j <= fds.len(),
        first_field_meta_error(fds.take(j)) is Some,
    ensures
        first_field_meta_error(fds) == first_field_meta_error(fds.take(j)),
    decreases fds.len() - j,
{
    if j < fds.len() {
        assert(fds.take(j + 1).drop_last() =~= fds.take(j));
        lemma_field_meta_error_extends(fds, j + 1);
    } else {
        assert(fds.take(j) =~= fds);
    }
}

/// Extracts the metadata of a command type and of each of its fields, and
/// hands back the declaration without its reserved annotations.
pub fn extract_attrs(decl: CommandDecl) -> (r: Result<(CommandDecl, Attributes, FieldAttributes), SchemaError>)
    ensures
        decl.body is Tuple ==> r == Err::<(CommandDecl, Attributes, FieldAttributes), SchemaError>(
            SchemaError::TupleStruct { name: decl.ident },
        ),
        !(decl.body is Tuple) ==> match first_meta_error(decl) {
            Some(e) => r == Err::<(CommandDecl, Attributes, FieldAttributes), SchemaError>(e),
            None => r is Ok,
        },
        r is Ok ==> {
            let (d, a, fa) = r->Ok_0;
            &&& d.ident == decl.ident
            &&& d.annotations@ == kept(decl.annotations@)
            &&& a.wf()
            &&& a.entries@ == entries_in(decl.annotations@)
            &&& split_as(joined_docs(doc_lines(decl.annotations@)), a.docs.summary@, a.docs.detail@)
            &&& entries_of(reserved_entries(decl.annotations@)) is Ok
            &&& fa.fields@.len() == decl_fields(decl.body).len()
            &&& decl_fields(d.body).len() == decl_fields(decl.body).len()
            &&& forall|i: int| 0 <= i < fa.fields@.len() ==> {
                let fd = decl_fields(decl.body)[i];
                let nd = #[trigger] decl_fields(d.body)[i];
                &&& fa.fields@[i].wf()
                &&& entries_of(reserved_entries(fd.annotations@)) is Ok
                &&& fa.fields@[i].entries@ == entries_in(fd.annotations@)
                &&& split_as(joined_docs(doc_lines(fd.annotations@)), fa.fields@[i].docs.summary@, fa.fields@[i].docs.detail@)
                &&& nd.ident == fd.ident && nd.ty == fd.ty && nd.annotations@ == kept(fd.annotations@)
            }
        },
{
    let CommandDecl { ident, annotations, body } = decl;
    let ghost orig_fields = decl_fields(body);
    let (mut fields, named) = match body {
        Body::Tuple => return Err(SchemaError::TupleStruct { name: ident }),
        Body::Unit => (Vec::new(), false),
        Body::Named(fs) => (fs, true),
    };
    let (attrs, rest) = match extract_attrs_inner(annotations) {
        Ok(x) => x,
        Err(e) => return Err(e),
    };
    let mut out_fields: Vec<FieldDecl> = Vec::new();
    let mut out_attrs: Vec<Attributes> = Vec::new();
    let mut j: usize = 0;
    assert(orig_fields.len() == fields.len());
    assert(orig_fields.take(0) =~= Seq::<FieldDecl>::empty());
    while fields.len() > 0
        invariant
            !(decl.body is Tuple),
            orig_fields == decl_fields(decl.body),
            orig_fields.len() <= usize::MAX,
            j <= orig_fields.len(),
            fields@ == orig_fields.skip(j as int),
            out_fields@.len() == j,
            out_attrs@.len() == j,
            first_field_meta_error(orig_fields.take(j as int)) is None,
            entries_of(reserved_entries(decl.annotations@)) is Ok,
            forall|i: int| 0 <= i < j ==> {
                let fd = orig_fields[i];
                let nd = #[trigger] out_fields@[i];
                &&& out_attrs@[i].wf()
                &&& entries_of(reserved_entries(fd.annotations@)) is Ok
                &&& out_attrs@[i].entries@ == entries_in(fd.annotations@)
                &&& split_as(joined_docs(doc_lines(fd.annotations@)), out_attrs@[i].docs.summary@, out_attrs@[i].docs.detail@)
                &&& nd.ident == fd.ident && nd.ty == fd.ty && nd.annotations@ == kept(fd.annotations@)
            },
        decreases fields@.len(),
    {
        let fd = fields.remove(0);
        assert(fd == orig_fields[j as int]);
        assert(orig_fields.take(j + 1).drop_last() =~= orig_fields.take(j as int));
        assert(orig_fields.skip(j as int).remove(0) =~= orig_fields.skip(j + 1));
        let FieldDecl { ident: fident, ty, annotations: fannots } = fd;
        let (fattrs, frest) = match extract_attrs_inner(fannots) {
            Ok(x) => x,
            Err(e) => {
                assert(first_field_meta_error(orig_fields.take(j + 1)) == Some(e));
                proof {
                    lemma_field_meta_error_extends(orig_fields, j + 1);
                }
                return Err(e);
            },
        };
        out_fields.push(FieldDecl { ident: fident, ty, annotations: frest });
        out_attrs.push(fattrs);
        j = j + 1;
    }
    assert(orig_fields.skip(j as int).len() == 0);
    assert(orig_fields.take(j as int) =~= orig_fields);
    let new_body = if named {
        Body::Named(out_fields)
    } else {
        Body::Unit
    };
    assert(decl_fields(new_body) == out_fields@);
    Ok((CommandDecl { ident, annotations: rest, body: new_body }, attrs, FieldAttributes { fields: out_attrs }))
}

/// Whether the metadata of a declared field marks it as a subcommand slot.
pub open spec fn is_slot(fd: FieldDecl) -> bool {
    bool_meta(entries_in(fd.annotations@), "subcommand"@) == Ok::<bool, SchemaError>(true)
}

/// The type named by a subcommand slot's declared type.
pub open spec fn slot_type_of(ty: TypeShape) -> Option<String> {
    match ty {
        TypeShape::Command(t) => Some(t),
        TypeShape::OptionalCommand(t) => Some(t),
        _ => None,
    }
}

/// The fault of the field at position `i` of `fds`, given the fields
/// before it: its classification fault, or a second subcommand slot.
pub open spec fn field_fault(fds: Seq<FieldDecl>, i: int) -> Option<SchemaError> {
    match classify_error(fds[i].ident, fds[i].ty, entries_in(fds[i].annotations@)) {
        Some(e) => Some(e),
        None => if is_slot(fds[i]) && exists|j: int| 0 <= j < i && is_slot(#[trigger] fds[j]) {
            Some(SchemaError::MultipleSubcommands { field: fds[i].ident })
        } else {
            None
        },
    }
}

/// The fault of the first of the first `n` fields of `fds` that has one.
pub open spec fn first_field_fault(fds: Seq<FieldDecl>, n: int) -> Option<SchemaError>
    decreases n,
{
    if n <= 0 {
        None
    } else {
        match first_field_fault(fds, n - 1) {
            Some(e) => Some(e),
            None => field_fault(fds, n - 1),
        }
    }
}

/// The fault in the compiled command set handed in for the subcommand slot
/// of `fds`, if it has one: none handed in, or one of another type.
pub open spec fn nested_error(fds: Seq<FieldDecl>, nested: Option<CommandSet>) -> Option<SchemaError> {
    if exists|i: int| 0 <= i < fds.len() && is_slot(#[trigger] fds[i]) {
        let i = choose|i: int| 0 <= i < fds.len() && is_slot(#[trigger] fds[i]);
        let t = slot_type_of(fds[i].ty)->Some_0;
        match nested {
            None => Some(SchemaError::MissingCommandSet { field: t }),
            Some(set) => if set.ident@ == t@ {
                None
            } else {
                Some(SchemaError::CommandSetMismatch { field: t })
            },
        }
    } else {
        None
    }
}

/// The fault that compiling a command type reports, if any, with `nested`
/// as the compiled command set of its subcommand slot: a tuple body, then
/// the first metadata fault, then the first field fault in declaration
/// order, then a fault in the grammar metadata, then a fault in `nested`.
/// Metadata that is never consulted is no fault.
pub open spec fn schema_fault(decl: CommandDecl, nested: Option<CommandSet>) -> Option<SchemaError> {
    let fds = decl_fields(decl.body);
    if decl.body is Tuple {
        Some(SchemaError::TupleStruct { name: decl.ident })
    } else if first_meta_error(decl) is Some {
        first_meta_error(decl)
    } else if first_field_fault(fds, fds.len() as int) is Some {
        first_field_fault(fds, fds.len() as int)
    } else if grammar_meta_error(entries_in(decl.annotations@)) is Some {
        grammar_meta_error(entries_in(decl.annotations@))
    } else {
        nested_error(fds, nested)
    }
}

proof fn lemma_first_field_fault_stays(fds: Seq<FieldDecl>, n: int, m: int)
    requires
        0 <= n <= m,
        first_field_fault(fds, n) is Some,
    ensures
        first_field_fault(fds, m) == first_field_fault(fds, n),
    decreases m - n,
{
    if n < m {
        lemma_first_field_fault_stays(fds, n, m - 1);
    }
}

/// For each entry of `es`, whether classification as `f` reads its key.
pub open spec fn field_mask(es: Seq<Attribute>, f: Field) -> Seq<bool> {
    Seq::new(es.len(), |i: int| reads(f, es[i].key@))
}

/// For each entry of `es`, whether grammar synthesis reads its key.
pub open spec fn grammar_mask(es: Seq<Attribute>) -> Seq<bool> {
    Seq::new(es.len(), |i: int| grammar_reads(es[i].key@))
}

/// The reports of the unread keys of the first `n` fields, in field order,
/// each naming its field.
pub open spec fn field_reports(fds: Seq<FieldDecl>, fields: Seq<Field>, n: int) -> Seq<(Option<String>, String)>
    decreases n,
{
    if n <= 0 {
        Seq::empty()
    } else {
        let es = entries_in(fds[n - 1].annotations@);
        field_reports(fds, fields, n - 1) + reports(
            unused_keys(es, field_mask(es, fields[n - 1])),
            Some(fds[n - 1].ident),
        )
    }
}

proof fn lemma_usage_reports_are_field_reports(
    fa: Seq<Attributes>,
    usages: Seq<Usage>,
    idents: Seq<String>,
    fds: Seq<FieldDecl>,
    fields: Seq<Field>,
    n: int,
)
    requires
        forall|k: int| 0 <= k < n ==> (#[trigger] usages[k]).used@ == field_mask(entries_in(fds[k].annotations@), fields[k])
            && idents[k] == fds[k].ident && fa[k].entries@ == entries_in(fds[k].annotations@),
    ensures
        usage_reports(fa, usages, idents, n) == field_reports(fds, fields, n),
    decreases n,
{
    if n > 0 {
        lemma_usage_reports_are_field_reports(fa, usages, idents, fds, fields, n - 1);
        assert(usages[n - 1].used@ == field_mask(entries_in(fds[n - 1].annotations@), fields[n - 1]));
    }
}

/// Compiles a command type: extracts its metadata, classifies its fields in
/// order, allows at most one subcommand slot, synthesizes its grammar, and
/// reports the metadata keys that were never consulted. `nested` is the
/// compiled command set that its subcommand slot offers, if it has one.
pub fn compile_command(decl: CommandDecl, nested: Option<CommandSet>) -> (r: Result<Compiled, SchemaError>)
    ensures
        match schema_fault(decl, nested) {
            Some(e) => r == Err::<Compiled, SchemaError>(e),
            None => r is Ok,
        },
        r is Ok ==> {
            let c = r->Ok_0.command;
            let fds = decl_fields(decl.body);
            &&& c.ident == decl.ident
            &&& entries_of(reserved_entries(decl.annotations@)) is Ok
            &&& c.fields@.len() == fds.len()
            &&& forall|i: int| 0 <= i < fds.len() ==> field_sound(#[trigger] fds[i])
            &&& forall|i: int| 0 <= i < fds.len() ==> field_compiled(#[trigger] c.fields@[i], fds[i])
            &&& at_most_one_slot(c.fields@)
            &&& c.grammar.name@ == grammar_name(decl.ident, entries_in(decl.annotations@))
            &&& c.grammar.version == str_meta(entries_in(decl.annotations@), "version"@)->Ok_0
            &&& c.grammar.author == str_meta(entries_in(decl.annotations@), "author"@)->Ok_0
            &&& c.grammar.aliases@ == (match str_meta(entries_in(decl.annotations@), "alias"@)->Ok_0 {
                Some(a) => seq![a],
                None => Seq::<String>::empty(),
            })
            &&& split_as(joined_docs(doc_lines(decl.annotations@)), c.grammar.summary@, c.grammar.detail@)
            &&& (exists|k: int| 0 <= k < fds.len() && is_slot(#[trigger] fds[k])) ==> c.nested == nested
            &&& c.grammar.arguments@.len() == args_of(c.fields@).len()
            &&& forall|i: int| 0 <= i < c.grammar.arguments@.len() ==> spec_of(#[trigger] c.grammar.arguments@[i], args_of(c.fields@)[i])
            &&& c.grammar.subcommand_required == (first_slot_optional(c.fields@) == Some(false))
            &&& match c.nested {
                Some(set) => exists|k: int| 0 <= k < c.fields@.len() && #[trigger] c.fields@[k] is Subcommand
                    && c.fields@[k]->Subcommand_0.ty@ == set.ident@,
                None => forall|k: int| 0 <= k < c.fields@.len() ==> !(#[trigger] c.fields@[k] is Subcommand),
            }
            &&& all_name(r->Ok_0.diagnostics@, decl.ident)
            &&& r->Ok_0.diagnostics@.map_values(|d: Diagnostic| report_of(d)) == field_reports(
                fds,
                c.fields@,
                fds.len() as int,
            ) + reports(
                unused_keys(entries_in(decl.annotations@), grammar_mask(entries_in(decl.annotations@))),
                None,
            )
        },
{
    let ghost d0 = decl;
    let ghost n0 = nested;
    let (d, attrs, fattrs) = match extract_attrs(decl) {
        Ok(x) => x,
        Err(e) => return Err(e),
    };
    let empty: Vec<FieldDecl> = Vec::new();
    let fds: &Vec<FieldDecl> = match &d.body {
        Body::Named(fs) => fs,
        _ => &empty,
    };
    assert(fds@ == decl_fields(d.body));
    let mut fields: Vec<Field> = Vec::new();
    let mut usages: Vec<Usage> = Vec::new();
    let mut idents: Vec<String> = Vec::new();
    let mut slot: Option<String> = None;
    let mut i: usize = 0;
    while i < fds.len()
        invariant
            d0 == decl,
            !(d0.body is Tuple),
            first_meta_error(d0) is None,
            first_field_fault(decl_fields(d0.body), i as int) is None,
            attrs.wf(),
            attrs.entries@ == entries_in(d0.annotations@),
            split_as(joined_docs(doc_lines(d0.annotations@)), attrs.docs.summary@, attrs.docs.detail@),
            entries_of(reserved_entries(d0.annotations@)) is Ok,
            fds@ == decl_fields(d.body),
            fattrs.fields@.len() == fds@.len(),
            fds@.len() == decl_fields(d0.body).len(),
            d.ident == d0.ident,
            forall|k: int| 0 <= k < fattrs.fields@.len() ==> {
                let fd = decl_fields(d0.body)[k];
                let nd = #[trigger] decl_fields(d.body)[k];
                &&& fattrs.fields@[k].wf()
                &&& entries_of(reserved_entries(fd.annotations@)) is Ok
                &&& fattrs.fields@[k].entries@ == entries_in(fd.annotations@)
                &&& split_as(joined_docs(doc_lines(fd.annotations@)), fattrs.fields@[k].docs.summary@, fattrs.fields@[k].docs.detail@)
                &&& nd.ident == fd.ident && nd.ty == fd.ty
            },
            i <= fds@.len(),
            fields@.len() == i,
            forall|k: int| 0 <= k < i ==> field_sound(#[trigger] decl_fields(d0.body)[k]),
            forall|k: int| 0 <= k < i ==> field_compiled(#[trigger] fields@[k], decl_fields(d0.body)[k]),
            at_most_one_slot(fields@),
            match slot {
                Some(t) => exists|k: int| 0 <= k < fields@.len() && #[trigger] fields@[k] is Subcommand
                    && fields@[k]->Subcommand_0.ty == t,
                None => forall|k: int| 0 <= k < fields@.len() ==> !(#[trigger] fields@[k] is Subcommand),
            },
            usages@.len() == i,
            idents@.len() == i,
            forall|k: int| 0 <= k < i ==> (#[trigger] usages@[k]).used@ == field_mask(
                entries_in(decl_fields(d0.body)[k].annotations@),
                fields@[k],
            ) && idents@[k] == decl_fields(d0.body)[k].ident,
        decreases fds@.len() - i,
    {
        let fa = fattrs.get(i);
        let fd = &fds[i];
        assert(fattrs.fields@[i as int].wf());
        let mut usage = fa.new_usage();
        assert(first_field_fault(decl_fields(d0.body), i + 1) == field_fault(decl_fields(d0.body), i as int));
        let f = match classify(fd, fa, &mut usage) {
            Ok(f) => f,
            Err(e) => {
                proof {
                    lemma_first_field_fault_stays(decl_fields(d0.body), i + 1, fds@.len() as int);
                }
                return Err(e);
            },
        };
        let ghost before = fields@;
        match &f {
            Field::Subcommand(s) => {
                if slot.is_some() {
                    proof {
                        let fds0 = decl_fields(d0.body);
                        let m = choose|m: int| 0 <= m < fields@.len() && #[trigger] fields@[m] is Subcommand
                            && fields@[m]->Subcommand_0.ty == slot->Some_0;
                        assert(field_compiled(fields@[m], fds0[m]));
                        assert(is_slot(fds0[m]));
                        assert(field_fault(fds0, i as int) == Some(SchemaError::MultipleSubcommands { field: fds0[i as int].ident }));
                        lemma_first_field_fault_stays(fds0, i + 1, fds@.len() as int);
                    }
                    return Err(SchemaError::MultipleSubcommands { field: s.ident.clone() });
                }
                slot = Some(s.ty.clone());
            },
            Field::Arg(_) => {},
        }
        assert(usage.used@ =~= field_mask(fa.entries@, f));
        usages.push(usage);
        idents.push(fd.ident.clone());
        fields.push(f);
        assert(fields@[i as int] == f);
        assert forall|k: int| 0 <= k < i implies fields@[k] == before[k] by {}
        proof {
            let fds0 = decl_fields(d0.body);
            if is_slot(fds0[i as int]) && exists|j: int| 0 <= j < i && is_slot(#[trigger] fds0[j]) {
                let j = choose|j: int| 0 <= j < i && is_slot(#[trigger] fds0[j]);
                assert(field_compiled(fields@[j], fds0[j]));
                assert(fields@[j] is Subcommand);
                assert(false);
            }
            assert(field_fault(fds0, i as int) is None);
        }
        i = i + 1;
    }
    assert forall|k: int| 0 <= k < usages@.len() implies (#[trigger] usages@[k]).used@ == field_mask(
        entries_in(decl_fields(d0.body)[k].annotations@),
        fields@[k],
    ) && idents@[k] == decl_fields(d0.body)[k].ident && fattrs.fields@[k].entries@ == entries_in(
        decl_fields(d0.body)[k].annotations@,
    ) && usages@[k].used@.len() == fattrs.fields@[k].entries@.len() by {
        assert(k < fattrs.fields@.len());
        assert(decl_fields(d.body)[k].ident == decl_fields(d0.body)[k].ident);
        assert(fattrs.fields@[k].entries@ == entries_in(decl_fields(d0.body)[k].annotations@));
        assert(usages@[k].used@ == field_mask(entries_in(decl_fields(d0.body)[k].annotations@), fields@[k]));
    }
    let mut diagnostics = fattrs.check_used(&usages, &d.ident, &idents);
    proof {
        lemma_usage_reports_are_field_reports(fattrs.fields@, usages@, idents@, decl_fields(d0.body), fields@, i as int);
    }
    let mut usage = attrs.new_usage();
    let grammar = match synthesize_grammar(&d.ident, &attrs, &mut usage, &fields) {
        Ok(g) => g,
        Err(e) => return Err(e),
    };
    let mut ds = attrs.check_used(&usage, &d.ident, None);
    proof {
        assert(usage.used@ =~= grammar_mask(attrs.entries@));
        lemma_reports_of(ds@, unused_keys(attrs.entries@, usage.used@), d.ident, None);
    }
    let ghost dbefore = diagnostics@;
    let ghost dsv = ds@;
    diagnostics.append(&mut ds);
    assert(diagnostics@.map_values(|x: Diagnostic| report_of(x)) =~= dbefore.map_values(
        |x: Diagnostic| report_of(x),
    ) + dsv.map_values(|x: Diagnostic| report_of(x)));
    assert(all_name(diagnostics@, d0.ident)) by {
        assert forall|k: int| 0 <= k < diagnostics@.len() implies #[trigger] diagnostics@[k].item == d0.ident by {
            if k < dbefore.len() {
                assert(diagnostics@[k] == dbefore[k]);
            }
        }
    }
    proof {
        let fds = decl_fields(d0.body);
        assert forall|k: int| 0 <= k < fds.len() implies (is_slot(#[trigger] fds[k]) <==> fields@[k] is Subcommand) by {
            assert(field_compiled(fields@[k], fds[k]));
        }
        assert forall|k: int| 0 <= k < fds.len() && is_slot(#[trigger] fds[k]) implies slot is Some
            && slot_type_of(fds[k].ty) == slot by {
            assert(fields@[k] is Subcommand);
            assert(field_compiled(fields@[k], fds[k]));
            let m = choose|m: int| 0 <= m < fields@.len() && #[trigger] fields@[m] is Subcommand
                && fields@[m]->Subcommand_0.ty == slot->Some_0;
            if m != k {
                if m < k {
                    assert(!(fields@[m] is Subcommand && fields@[k] is Subcommand));
                } else {
                    assert(!(fields@[k] is Subcommand && fields@[m] is Subcommand));
                }
            }
        }
        if slot is Some {
            let m = choose|m: int| 0 <= m < fields@.len() && #[trigger] fields@[m] is Subcommand
                && fields@[m]->Subcommand_0.ty == slot->Some_0;
            assert(field_compiled(fields@[m], fds[m]));
            assert(is_slot(fds[m]));
        }
    }
    let nested = match slot {
        Some(t) => match nested {
            Some(set) => {
                if set.ident == t {
                    Some(set)
                } else {
                    return Err(SchemaError::CommandSetMismatch { field: t });
                }
            },
            None => return Err(SchemaError::MissingCommandSet { field: t }),
        },
        None => None,
    };
    let CommandDecl { ident, annotations: _, body: _ } = d;
    let c = Command { ident, grammar, fields, nested };
    Ok(Compiled { command: c, diagnostics })
}

/// Aggregates compiled commands into a command set: one variant per
/// declared variant, in order, each carrying exactly one payload, whose
/// compiled command is the one at the same position of `commands`.
pub fn aggregate(decl: CommandSetDecl, commands: Vec<Command>) -> (r: Result<CommandSet, SchemaError>)
    ensures
        r is Ok <==> (decl.variants@.len() == commands@.len() && forall|i: int|
            0 <= i < decl.variants@.len() ==> (#[trigger] decl.variants@[i]).shape is Single
                && decl.variants@[i].shape->Single_0@ == commands@[i].ident@),
        r is Ok ==> {
            let s = r->Ok_0;
            &&& s.ident == decl.ident
            &&& s.variants@.len() == decl.variants@.len()
            &&& forall|i: int| 0 <= i < s.variants@.len() ==> (#[trigger] s.variants@[i]).tag
                == decl.variants@[i].ident && s.variants@[i].command == commands@[i]
        },
{
    let CommandSetDecl { ident, variants: vdecls } = decl;
    let ghost vs0 = vdecls@;
    let ghost cs0 = commands@;
    let mut cmds = commands;
    let mut out: Vec<Variant> = Vec::new();
    let mut i: usize = 0;
    if vdecls.len() != cmds.len() {
        return Err(SchemaError::PayloadMismatch { variant: ident });
    }
    while i < vdecls.len()
        invariant
            vs0 == vdecls@,
            vs0 == decl.variants@,
            cs0 == commands@,
            ident == decl.ident,
            vs0.len() == cs0.len(),
            i <= vs0.len(),
            cmds@ == cs0.skip(i as int),
            out@.len() == i,
            forall|k: int| 0 <= k < i ==> (#[trigger] vs0[k]).shape is Single && vs0[k].shape->Single_0@ == cs0[k].ident@,
            forall|k: int| 0 <= k < i ==> (#[trigger] out@[k]).tag == vs0[k].ident && out@[k].command == cs0[k],
        decreases vs0.len() - i,
    {
        let vd = &vdecls[i];
        let c = cmds.remove(0);
        assert(c == cs0[i as int]);
        assert(cs0.skip(i as int).remove(0) =~= cs0.skip(i + 1));
        match &vd.shape {
            VariantShape::Single(t) => {
                if !(*t == c.ident) {
                    return Err(SchemaError::PayloadMismatch { variant: vd.ident.clone() });
                }
            },
            _ => return Err(SchemaError::UnsupportedVariant { variant: vd.ident.clone() }),
        }
        out.push(Variant { tag: vd.ident.clone(), command: c });
        i = i + 1;
    }
    Ok(CommandSet { ident, variants: out })
}

proof fn lemma_first_field_fault_none(fds: Seq<FieldDecl>, n: int)
    requires
        first_field_fault(fds, n) is None,
    ensures
        forall|k: int| 0 <= k < n ==> (#[trigger] field_fault(fds, k)) is None,
    decreases n,
{
    if n > 0 {
        lemma_first_field_fault_none(fds, n - 1);
    }
}

/// A command type with a field that is both counted and of a sequence type
/// is rejected with a schema fault, so no command, grammar or decoder is
/// compiled from it.
pub proof fn lemma_counted_sequence_rejected(decl: CommandDecl, nested: Option<CommandSet>, i: int)
    requires
        0 <= i < decl_fields(decl.body).len(),
        decl_fields(decl.body)[i].ty is Sequence,
        crate::field::is_counted(entries_in(decl_fields(decl.body)[i].annotations@)),
    ensures
        schema_fault(decl, nested) is Some,
{
    let fds = decl_fields(decl.body);
    if !(decl.body is Tuple) && first_meta_error(decl) is None && first_field_fault(fds, fds.len() as int) is None {
        lemma_first_field_fault_none(fds, fds.len() as int);
        assert(field_fault(fds, i) is None);
    }
}

} // verus!
