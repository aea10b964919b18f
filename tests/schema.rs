use stomp::attrs::{extract_attrs_inner, Annotation, Attribute, MetaEntry};
use stomp::command::{Command, CommandSet};
use stomp::compile::{aggregate, compile_command, extract_attrs, Body, CommandDecl, CommandSetDecl, Compiled, VariantDecl, VariantShape};
use stomp::decode::{parse_decimal, validate, DecodeError, FieldValue, Instance, Matched, MatchedBag, ParseFailure, SubMatch, Value};
use stomp::error::SchemaError;
use stomp::field::{Arity, ElemType, Field, FieldDecl, TypeShape};
use stomp::literal::Literal;

fn s(t: &str) -> String {
    t.to_string()
}

fn doc(t: &str) -> Annotation {
    Annotation::Doc(s(t))
}

fn kv(k: &str, v: Literal) -> MetaEntry {
    MetaEntry::NameValue(s(k), v)
}

fn word(k: &str) -> MetaEntry {
    MetaEntry::Word(s(k))
}

fn field(ident: &str, ty: TypeShape, annotations: Vec<Annotation>) -> FieldDecl {
    FieldDecl { ident: s(ident), ty, annotations }
}

fn decl(ident: &str, annotations: Vec<Annotation>, fields: Vec<FieldDecl>) -> CommandDecl {
    CommandDecl { ident: s(ident), annotations, body: Body::Named(fields) }
}

fn matched(name: &str, values: &[&str]) -> Matched {
    Matched { name: s(name), occurrences: values.len() as u64, values: values.iter().map(|v| s(v)).collect() }
}

fn bag(args: Vec<Matched>) -> MatchedBag {
    MatchedBag { args, sub: None }
}

fn compile(d: CommandDecl) -> Compiled {
    match compile_command(d, None) {
        Ok(c) => c,
        Err(e) => panic!("{}", e.message()),
    }
}

fn compile_err(d: CommandDecl, nested: Option<CommandSet>) -> SchemaError {
    match compile_command(d, nested) {
        Ok(_) => panic!("expected a schema error"),
        Err(e) => e,
    }
}

fn arg_of(c: &Command, i: usize) -> &stomp::field::Arg {
    c.fields[i].arg().expect("an argument")
}

fn value<'a>(inst: &'a Instance, ident: &str) -> &'a FieldValue {
    &inst.fields.iter().find(|f| f.ident == ident).expect("a field").value
}

fn unsigned(vs: &[Value]) -> Vec<u64> {
    vs.iter()
        .map(|v| match v {
            Value::Unsigned(n) => *n,
            _ => panic!("not an unsigned value"),
        })
        .collect()
}

fn typed_values() -> Command {
    compile(decl(
        "MyApp",
        vec![],
        vec![
            field(
                "seq",
                TypeShape::Sequence(ElemType::U32),
                vec![
                    doc("/// A sequence of whole positive numbers, i.e. 20 25 30"),
                    Annotation::Reserved(vec![kv("index", Literal::Int(1)), kv("min_values", Literal::Int(1))]),
                ],
            ),
            field(
                "len",
                TypeShape::Scalar(ElemType::U32),
                vec![
                    doc("/// A length to use"),
                    Annotation::Reserved(vec![kv("short", Literal::Char('l')), kv("default_value", Literal::Str(s("10")))]),
                ],
            ),
        ],
    ))
    .command
}

#[test]
fn round_trip_with_short_option() {
    let c = typed_values();
    let b = bag(vec![matched("seq", &["20", "25", "30"]), matched("len", &["7"])]);
    let inst = c.decode(&b).ok().expect("decodes");
    match value(&inst, "seq") {
        FieldValue::Many(vs) => assert_eq!(unsigned(vs), vec![20, 25, 30]),
        _ => panic!("seq is not a sequence"),
    }
    match value(&inst, "len") {
        FieldValue::One(Value::Unsigned(n)) => assert_eq!(*n, 7),
        _ => panic!("len is not one value"),
    }
}

#[test]
fn round_trip_with_default() {
    let c = typed_values();
    let b = bag(vec![matched("seq", &["20", "25", "30"]), matched("len", &["10"])]);
    let inst = c.decode(&b).ok().expect("decodes");
    match value(&inst, "seq") {
        FieldValue::Many(vs) => assert_eq!(unsigned(vs), vec![20, 25, 30]),
        _ => panic!("seq is not a sequence"),
    }
    match value(&inst, "len") {
        FieldValue::One(Value::Unsigned(n)) => assert_eq!(*n, 10),
        _ => panic!("len is not one value"),
    }
}

#[test]
fn grammar_of_typed_values() {
    let c = typed_values();
    let g = &c.grammar;
    assert_eq!(g.name, "myapp");
    assert_eq!(g.arguments.len(), 2);
    let seq = &g.arguments[0];
    assert_eq!(seq.name, "seq");
    assert_eq!(seq.index, Some(1));
    assert_eq!(seq.long, None);
    assert_eq!(seq.short, None);
    assert!(seq.takes_value && seq.multiple);
    assert!(!seq.required);
    assert_eq!(seq.min_values, Some(1));
    assert_eq!(seq.help, "A sequence of whole positive numbers, i.e. 20 25 30");
    assert!(seq.validator == Some(ElemType::U32));
    let len = &g.arguments[1];
    assert_eq!(len.long, Some(s("len")));
    assert_eq!(len.short, Some('l'));
    assert_eq!(len.default_value, Some(s("10")));
    assert!(len.arity == Arity::Single);
    assert!(len.required);
    assert!(!g.subcommand_required);
}

fn add_remove() -> CommandSet {
    let add = compile(decl(
        "AddArgs",
        vec![Annotation::Reserved(vec![kv("name", Literal::Str(s("add")))])],
        vec![field("path", TypeShape::Scalar(ElemType::Text), vec![Annotation::Reserved(vec![kv("index", Literal::Int(1))])])],
    ))
    .command;
    let remove = compile(decl(
        "RemoveArgs",
        vec![Annotation::Reserved(vec![kv("name", Literal::Str(s("remove")))])],
        vec![field("force", TypeShape::Scalar(ElemType::Bool), vec![])],
    ))
    .command;
    let set_decl = CommandSetDecl {
        ident: s("Commands"),
        variants: vec![
            VariantDecl { ident: s("Add"), shape: VariantShape::Single(s("AddArgs")) },
            VariantDecl { ident: s("Remove"), shape: VariantShape::Single(s("RemoveArgs")) },
        ],
    };
    match aggregate(set_decl, vec![add, remove]) {
        Ok(set) => set,
        Err(e) => panic!("{}", e.message()),
    }
}

#[test]
fn command_set_lists_grammars_in_order() {
    let set = add_remove();
    let names: Vec<&str> = set.commands().iter().map(|g| g.name.as_str()).collect();
    assert_eq!(names, vec!["add", "remove"]);
}

#[test]
fn command_set_dispatches_by_name() {
    let set = add_remove();
    let tagged = set.parse(&s("add"), &bag(vec![matched("path", &["a.txt"])])).ok().expect("dispatches");
    assert_eq!(tagged.tag, "Add");
    match value(&tagged.instance, "path") {
        FieldValue::One(Value::Text(t)) => assert_eq!(t, "a.txt"),
        _ => panic!("path is not text"),
    }
    let tagged = set.parse(&s("remove"), &bag(vec![matched("force", &[])])).ok().expect("dispatches");
    assert_eq!(tagged.tag, "Remove");
    assert!(matches!(value(&tagged.instance, "force"), FieldValue::Flag(true)));
}

#[test]
fn unknown_selection_is_a_dispatch_error() {
    let set = add_remove();
    match set.parse(&s("list"), &bag(vec![])) {
        Err(DecodeError::UnknownCommand { name }) => assert_eq!(name, "list"),
        _ => panic!("expected an unknown command"),
    }
}

fn with_slot(optional: bool) -> Command {
    let set = add_remove();
    let ty = if optional { TypeShape::OptionalCommand(s("Commands")) } else { TypeShape::Command(s("Commands")) };
    match compile_command(
        decl("Tool", vec![], vec![
            field("verbose", TypeShape::Scalar(ElemType::U64), vec![Annotation::Reserved(vec![word("counted"), kv("short", Literal::Char('v'))])]),
            field("cmd", ty, vec![Annotation::Reserved(vec![word("subcommand")])]),
        ]),
        Some(set),
    ) {
        Ok(c) => c.command,
        Err(e) => panic!("{}", e.message()),
    }
}

#[test]
fn nested_subcommand_is_decoded() {
    let c = with_slot(false);
    assert!(c.grammar.subcommand_required);
    let names: Vec<String> = c.subcommand_grammars().expect("a slot").iter().map(|g| g.name.clone()).collect();
    assert_eq!(names, vec![s("add"), s("remove")]);
    let mut v = matched("verbose", &[]);
    v.occurrences = 2;
    let b = MatchedBag {
        args: vec![v],
        sub: Some(SubMatch { name: s("add"), bag: Box::new(bag(vec![matched("path", &["x"])])) }),
    };
    let inst = c.decode(&b).ok().expect("decodes");
    assert!(matches!(value(&inst, "verbose"), FieldValue::Count(2)));
    match value(&inst, "cmd") {
        FieldValue::Command(Some(t)) => {
            assert_eq!(t.tag, "Add");
            assert!(matches!(value(&t.instance, "path"), FieldValue::One(Value::Text(p)) if p == "x"));
        }
        _ => panic!("cmd is not a selected command"),
    }
}

#[test]
fn required_slot_without_selection_fails() {
    let c = with_slot(false);
    match c.decode(&bag(vec![])) {
        Err(DecodeError::MissingCommand { field }) => assert_eq!(field, "cmd"),
        _ => panic!("expected a missing command"),
    }
}

#[test]
fn optional_slot_without_selection_is_none() {
    let c = with_slot(true);
    assert!(!c.grammar.subcommand_required);
    let inst = c.decode(&bag(vec![])).ok().expect("decodes");
    assert!(matches!(value(&inst, "cmd"), FieldValue::Command(None)));
    assert!(matches!(value(&inst, "verbose"), FieldValue::Count(0)));
}

#[test]
fn multi_without_values_is_empty() {
    let c = compile(decl("Files", vec![], vec![field("files", TypeShape::Sequence(ElemType::Text), vec![])])).command;
    assert!(arg_of(&c, 0).arity == Arity::Multi);
    assert!(!arg_of(&c, 0).required);
    let inst = c.decode(&bag(vec![])).ok().expect("decodes");
    assert!(matches!(value(&inst, "files"), FieldValue::Many(vs) if vs.is_empty()));
    let inst = c.decode(&bag(vec![matched("files", &[])])).ok().expect("decodes");
    assert!(matches!(value(&inst, "files"), FieldValue::Many(vs) if vs.is_empty()));
}

#[test]
fn optional_without_value_is_none() {
    let c = compile(decl("Opt", vec![], vec![field("limit", TypeShape::Optional(ElemType::U64), vec![])])).command;
    assert!(!arg_of(&c, 0).required);
    let inst = c.decode(&bag(vec![])).ok().expect("decodes");
    assert!(matches!(value(&inst, "limit"), FieldValue::Maybe(None)));
    let inst = c.decode(&bag(vec![matched("limit", &["12"])])).ok().expect("decodes");
    assert!(matches!(value(&inst, "limit"), FieldValue::Maybe(Some(Value::Unsigned(12)))));
}

#[test]
fn flag_is_never_required() {
    let c = compile(decl("Flags", vec![], vec![
        field("quiet", TypeShape::Scalar(ElemType::Bool), vec![]),
        field("dry", TypeShape::Scalar(ElemType::Bool), vec![Annotation::Reserved(vec![kv("short", Literal::Char('n')), kv("value_name", Literal::Str(s("X")))])]),
    ]))
    .command;
    for i in 0..2 {
        let a = arg_of(&c, i);
        assert!(a.arity == Arity::Flag);
        assert!(!a.required);
        assert!(!c.grammar.arguments[i].takes_value);
        assert!(c.grammar.arguments[i].validator.is_none());
    }
    let inst = c.decode(&bag(vec![matched("quiet", &[])])).ok().expect("decodes");
    assert!(matches!(value(&inst, "quiet"), FieldValue::Flag(true)));
    assert!(matches!(value(&inst, "dry"), FieldValue::Flag(false)));
}

#[test]
fn bool_that_takes_a_value_is_single() {
    let c = compile(decl("B", vec![], vec![field("on", TypeShape::Scalar(ElemType::Bool), vec![Annotation::Reserved(vec![word("takes_value")])])])).command;
    assert!(arg_of(&c, 0).arity == Arity::Single);
    let inst = c.decode(&bag(vec![matched("on", &["false"])])).ok().expect("decodes");
    assert!(matches!(value(&inst, "on"), FieldValue::One(Value::Bool(false))));
}

#[test]
fn positional_has_no_long_form() {
    let c = compile(decl("P", vec![], vec![field("input", TypeShape::Scalar(ElemType::Text), vec![Annotation::Reserved(vec![kv("index", Literal::Int(1))])])])).command;
    let a = &c.grammar.arguments[0];
    assert_eq!(a.index, Some(1));
    assert!(a.short.is_none() && a.long.is_none());
}

#[test]
fn positional_with_short_is_rejected() {
    let e = compile_err(
        decl("P", vec![], vec![field("input", TypeShape::Scalar(ElemType::Text), vec![Annotation::Reserved(vec![kv("index", Literal::Int(1)), kv("short", Literal::Char('i'))])])]),
        None,
    );
    assert!(matches!(e, SchemaError::PositionalWithName { ref field } if field == "input"));
}

#[test]
fn unused_metadata_is_reported_once() {
    let d = decl(
        "Tool",
        vec![Annotation::Reserved(vec![kv("context", Literal::Str(s("Ctx")))])],
        vec![
            field("cmd", TypeShape::OptionalCommand(s("Commands")), vec![Annotation::Reserved(vec![word("subcommand"), kv("value_name", Literal::Str(s("C")))])]),
            field("n", TypeShape::Scalar(ElemType::U8), vec![Annotation::Reserved(vec![kv("long", Literal::Str(s("count")))])]),
        ],
    );
    let compiled = match compile_command(d, Some(add_remove())) {
        Ok(c) => c,
        Err(e) => panic!("{}", e.message()),
    };
    let msgs: Vec<String> = compiled.diagnostics.iter().map(|d| d.message()).collect();
    assert_eq!(msgs, vec![
        s("unexpected attribute 'value_name' on field 'cmd' of struct 'Tool'"),
        s("unexpected attribute 'context' on struct 'Tool'"),
    ]);
    assert_eq!(compiled.command.grammar.arguments[0].long, Some(s("count")));
}

#[test]
fn counted_sequence_is_rejected() {
    let e = compile_err(decl("C", vec![], vec![field("v", TypeShape::Sequence(ElemType::U64), vec![Annotation::Reserved(vec![word("counted")])])]), None);
    assert!(matches!(e, SchemaError::ConflictingArity { ref field } if field == "v"));
    let e = compile_err(decl("C", vec![], vec![field("v", TypeShape::Scalar(ElemType::U64), vec![Annotation::Reserved(vec![word("counter"), kv("max_values", Literal::Int(3))])])]), None);
    assert!(matches!(e, SchemaError::ConflictingArity { .. }));
}

#[test]
fn malformed_annotations_are_rejected() {
    let one = |m: MetaEntry| compile_err(decl("M", vec![Annotation::Reserved(vec![m])], vec![]), None);
    let e = one(MetaEntry::List(s("name(x)")));
    assert!(matches!(e, SchemaError::NestedList { ref text } if text == "name(x)"));
    assert_eq!(e.message(), "invalid attribute 'name(x)': unexpected sublist");
    let e = one(MetaEntry::Lit(s("3")));
    assert!(matches!(e, SchemaError::BareLiteral { ref text } if text == "3"));
    assert_eq!(e.message(), "invalid attribute '3': literal value not supported");
    assert!(matches!(one(word("colour")), SchemaError::UnknownKey { ref key } if key == "colour"));
    assert!(matches!(one(kv("version", Literal::Int(3))), SchemaError::WrongValueKind { ref key } if key == "version"));
    let e = compile_err(decl("M", vec![Annotation::Reserved(vec![kv("author", Literal::Str(s("a")))]), Annotation::Reserved(vec![kv("author", Literal::Str(s("b")))])], vec![]), None);
    assert!(matches!(e, SchemaError::DuplicateKey { ref key } if key == "author"));
    assert_eq!(e.message(), "duplicate attribute 'author'");
}

#[test]
fn unsupported_shapes_are_rejected() {
    let e = compile_err(decl("U", vec![], vec![field("x", TypeShape::Other(s("(u8, u8)")), vec![])]), None);
    assert!(matches!(e, SchemaError::UnsupportedFieldType { ref field } if field == "x"));
    let e = compile_err(decl("U", vec![], vec![field("x", TypeShape::Scalar(ElemType::U8), vec![Annotation::Reserved(vec![word("subcommand")])])]), None);
    assert!(matches!(e, SchemaError::UnsupportedFieldType { .. }));
    let e = compile_err(CommandDecl { ident: s("T"), annotations: vec![], body: Body::Tuple }, None);
    assert!(matches!(e, SchemaError::TupleStruct { ref name } if name == "T"));
    let unit = compile(CommandDecl { ident: s("Unit"), annotations: vec![], body: Body::Unit }).command;
    assert!(unit.fields.is_empty());
}

#[test]
fn subcommand_slots_are_checked() {
    let slot = |name: &str| field(name, TypeShape::Command(s("Commands")), vec![Annotation::Reserved(vec![word("subcommand")])]);
    let e = compile_err(decl("S", vec![], vec![slot("a"), slot("b")]), Some(add_remove()));
    assert!(matches!(e, SchemaError::MultipleSubcommands { ref field } if field == "b"));
    let e = compile_err(decl("S", vec![], vec![slot("a")]), None);
    assert!(matches!(e, SchemaError::MissingCommandSet { ref field } if field == "Commands"));
    let mut other = add_remove();
    other.ident = s("Other");
    let e = compile_err(decl("S", vec![], vec![slot("a")]), Some(other));
    assert!(matches!(e, SchemaError::CommandSetMismatch { .. }));
}

#[test]
fn variants_must_carry_one_matching_payload() {
    let cmd = || compile(decl("AddArgs", vec![], vec![])).command;
    let e = aggregate(CommandSetDecl { ident: s("C"), variants: vec![VariantDecl { ident: s("Add"), shape: VariantShape::Unit }] }, vec![cmd()]);
    assert!(matches!(e, Err(SchemaError::UnsupportedVariant { ref variant }) if variant == "Add"));
    let e = aggregate(CommandSetDecl { ident: s("C"), variants: vec![VariantDecl { ident: s("Add"), shape: VariantShape::Single(s("Other")) }] }, vec![cmd()]);
    assert!(matches!(e, Err(SchemaError::PayloadMismatch { ref variant }) if variant == "Add"));
}

#[test]
fn documentation_is_split_at_the_first_blank_line() {
    let c = compile(decl(
        "Doc",
        vec![doc("/// Short summary"), doc("///"), doc("/// Longer detail."), doc("/// More.")],
        vec![field("Level", TypeShape::Scalar(ElemType::U8), vec![doc("/// The level"), doc("///"), doc("///  in detail  ")])],
    ))
    .command;
    assert_eq!(c.grammar.summary, "Short summary");
    assert_eq!(c.grammar.detail, "Longer detail.\nMore.\n");
    let a = arg_of(&c, 0);
    assert_eq!(a.name, "level");
    assert_eq!(a.docs.summary, "The level");
    assert_eq!(a.docs.detail, "in detail\n");
    assert_eq!(c.grammar.arguments[0].help, "The level\n\nin detail");
    let plain = compile(decl("Plain", vec![doc("/// One line")], vec![])).command;
    assert_eq!(plain.grammar.summary, "One line\n");
    assert_eq!(plain.grammar.detail, "");
}

#[test]
fn grammar_metadata_is_copied() {
    let c = compile(decl(
        "App",
        vec![Annotation::Reserved(vec![kv("version", Literal::Str(s("1.2"))), kv("author", Literal::Str(s("me"))), kv("alias", Literal::Str(s("a")))])],
        vec![],
    ))
    .command;
    assert_eq!(c.grammar.name, "app");
    assert_eq!(c.grammar.version, Some(s("1.2")));
    assert_eq!(c.grammar.author, Some(s("me")));
    assert_eq!(c.grammar.aliases, vec![s("a")]);
}

#[test]
fn bad_values_are_reported() {
    let c = typed_values();
    match c.decode(&bag(vec![matched("seq", &["20", "x5"])])) {
        Err(e) => {
            assert!(matches!(e, DecodeError::BadValue { reason: ParseFailure::InvalidDigit, .. }));
            assert_eq!(e.message(), "failed to parse value 'x5' for argument 'seq': invalid digit found in string");
        }
        Ok(_) => panic!("expected a bad value"),
    }
    let r = validate(ElemType::U8, &s("n"), &s("256"));
    assert!(matches!(r, Err(DecodeError::BadValue { reason: ParseFailure::Overflow, .. })));
    assert!(validate(ElemType::U8, &s("n"), &s("255")).is_ok());
    assert!(matches!(validate(ElemType::Char, &s("c"), &s("ab")), Err(DecodeError::BadValue { reason: ParseFailure::TooManyChars, .. })));
    assert!(matches!(validate(ElemType::Char, &s("c"), &s("")), Err(DecodeError::BadValue { reason: ParseFailure::EmptyChar, .. })));
    assert!(matches!(validate(ElemType::Bool, &s("b"), &s("yes")), Err(DecodeError::BadValue { reason: ParseFailure::NotBool, .. })));
}

#[test]
fn required_single_without_value_is_missing() {
    let c = compile(decl("R", vec![], vec![field("name", TypeShape::Scalar(ElemType::Text), vec![])])).command;
    match c.decode(&bag(vec![])) {
        Err(e) => {
            assert!(matches!(e, DecodeError::Missing { ref name } if name == "name"));
            assert_eq!(e.message(), "missing value for argument 'name'");
        }
        Ok(_) => panic!("expected a missing value"),
    }
}

#[test]
fn decimal_parsing() {
    assert_eq!(parse_decimal("+42", u64::MAX), Ok(42));
    assert_eq!(parse_decimal("0", 10), Ok(0));
    assert_eq!(parse_decimal("18446744073709551615", u64::MAX), Ok(u64::MAX));
    assert_eq!(parse_decimal("18446744073709551616", u64::MAX), Err(ParseFailure::Overflow));
    assert_eq!(parse_decimal("", u64::MAX), Err(ParseFailure::Empty));
    assert_eq!(parse_decimal("+", u64::MAX), Err(ParseFailure::InvalidDigit));
    assert_eq!(parse_decimal("-1", u64::MAX), Err(ParseFailure::InvalidDigit));
    assert_eq!(parse_decimal("11", 10), Err(ParseFailure::Overflow));
}

#[test]
fn counted_field_counts_occurrences() {
    let c = compile(decl("V", vec![], vec![field("verbose", TypeShape::Scalar(ElemType::U64), vec![Annotation::Reserved(vec![word("counted")])])])).command;
    let a = &c.grammar.arguments[0];
    assert!(a.multiple && !a.takes_value && !a.required);
    let mut m = matched("verbose", &[]);
    m.occurrences = 3;
    let inst = c.decode(&bag(vec![m])).ok().expect("decodes");
    assert!(matches!(value(&inst, "verbose"), FieldValue::Count(3)));
}

#[test]
fn field_accessors() {
    let c = typed_values();
    assert!(c.fields[0].subcommand().is_none());
    assert!(matches!(c.fields[0], Field::Arg(_)));
    let slot = with_slot(true);
    assert!(slot.fields[1].arg().is_none());
    assert_eq!(slot.fields[1].subcommand().expect("a slot").ty, "Commands");
    assert_eq!(Literal::Char('x').as_char(), Some('x'));
    assert_eq!(Literal::Int(3).as_str(), None);
    assert_eq!(Literal::Bool(true).as_bool(), Some(true));
}

#[test]
fn extracted_attributes_are_kept_per_field() {
    let d = decl(
        "E",
        vec![Annotation::Other(s("derive")), Annotation::Reserved(vec![kv("version", Literal::Str(s("2")))])],
        vec![field("a", TypeShape::Scalar(ElemType::Text), vec![Annotation::Reserved(vec![word("takes_value")]), Annotation::Other(s("serde"))])],
    );
    let (stripped, attrs, fields) = match extract_attrs(d) {
        Ok(x) => x,
        Err(e) => panic!("{}", e.message()),
    };
    assert_eq!(stripped.annotations.len(), 1);
    assert!(matches!(&stripped.annotations[0], Annotation::Other(o) if o == "derive"));
    assert_eq!(attrs.entries.len(), 1);
    assert_eq!(attrs.entries[0].key, "version");
    let fa = fields.get(0);
    assert_eq!(fa.entries[0].key, "takes_value");
    assert!(matches!(fa.entries[0].value, Literal::Bool(true)));
    match &stripped.body {
        Body::Named(fs) => assert!(matches!(&fs[0].annotations[..], [Annotation::Other(o)] if o == "serde")),
        _ => panic!("named fields expected"),
    }
    let a = Attribute::new(s("k"), Literal::Byte(7));
    assert_eq!(a.key, "k");
    assert_eq!(a.value.as_byte(), Some(7));
}

#[test]
fn lookups_record_usage() {
    let (attrs, rest) = match extract_attrs_inner(vec![
        doc("/// Text"),
        Annotation::Reserved(vec![kv("short", Literal::Char('s')), word("counted"), kv("alias", Literal::Str(s("x")))]),
    ]) {
        Ok(x) => x,
        Err(e) => panic!("{}", e.message()),
    };
    assert_eq!(rest.len(), 1);
    assert_eq!(attrs.docs.summary, "Text\n");
    let mut usage = attrs.new_usage();
    assert!(matches!(attrs.get("short", &mut usage), Some(Literal::Char('s'))));
    assert!(attrs.get("long", &mut usage).is_none());
    assert_eq!(attrs.get_bool("counted", &mut usage).ok(), Some(true));
    assert_eq!(attrs.get_bool("subcommand", &mut usage).ok(), Some(false));
    assert!(matches!(attrs.get_u64("short", &mut usage), Err(SchemaError::WrongValueKind { .. })));
    assert_eq!(usage.used, vec![true, true, false]);
    let ds = attrs.check_used(&usage, &s("S"), None);
    assert_eq!(ds.len(), 1);
    assert_eq!(ds[0].key, "alias");
    assert_eq!(ds[0].message(), "unexpected attribute 'alias' on struct 'S'");
}

#[test]
fn required_value_missing_from_bag_is_fatal_despite_default() {
    let c = typed_values();
    match c.decode(&bag(vec![matched("seq", &["1"])])) {
        Err(DecodeError::Missing { name }) => assert_eq!(name, "len"),
        _ => panic!("expected a missing value"),
    }
}

#[test]
fn optional_value_falls_back_to_default() {
    let c = compile(decl("O", vec![], vec![field(
        "limit",
        TypeShape::Optional(ElemType::U16),
        vec![Annotation::Reserved(vec![kv("default_value", Literal::Str(s("5")))])],
    )]))
    .command;
    let inst = c.decode(&bag(vec![])).ok().expect("decodes");
    assert!(matches!(value(&inst, "limit"), FieldValue::Maybe(Some(Value::Unsigned(5)))));
}

#[test]
fn signed_and_pointer_sized_values() {
    let c = compile(decl("S", vec![], vec![
        field("offset", TypeShape::Scalar(ElemType::I32), vec![]),
        field("deltas", TypeShape::Sequence(ElemType::I64), vec![]),
        field("size", TypeShape::Scalar(ElemType::Usize), vec![]),
        field("step", TypeShape::Scalar(ElemType::Isize), vec![]),
    ]))
    .command;
    let b = bag(vec![
        matched("offset", &["-5"]),
        matched("deltas", &["+3", "-9223372036854775808", "9223372036854775807"]),
        matched("size", &["42"]),
        matched("step", &["-1"]),
    ]);
    let inst = c.decode(&b).ok().expect("decodes");
    assert!(matches!(value(&inst, "offset"), FieldValue::One(Value::Signed(-5))));
    match value(&inst, "deltas") {
        FieldValue::Many(vs) => {
            let ns: Vec<i64> = vs.iter().map(|v| match v {
                Value::Signed(n) => *n,
                _ => panic!("not a signed value"),
            }).collect();
            assert_eq!(ns, vec![3, i64::MIN, i64::MAX]);
        }
        _ => panic!("deltas is not a sequence"),
    }
    assert!(matches!(value(&inst, "size"), FieldValue::One(Value::Unsigned(42))));
    assert!(matches!(value(&inst, "step"), FieldValue::One(Value::Signed(-1))));
    assert!(matches!(validate(ElemType::I8, &s("n"), &s("-129")), Err(DecodeError::BadValue { reason: ParseFailure::NegOverflow, .. })));
    assert!(matches!(validate(ElemType::I8, &s("n"), &s("128")), Err(DecodeError::BadValue { reason: ParseFailure::Overflow, .. })));
    assert!(validate(ElemType::I8, &s("n"), &s("-128")).is_ok());
    assert!(matches!(validate(ElemType::I16, &s("n"), &s("-")), Err(DecodeError::BadValue { reason: ParseFailure::InvalidDigit, .. })));
    assert!(matches!(validate(ElemType::U32, &s("n"), &s("-1")), Err(DecodeError::BadValue { reason: ParseFailure::InvalidDigit, .. })));
    match validate(ElemType::I16, &s("n"), &s("-40000")) {
        Err(e) => assert_eq!(e.message(), "failed to parse value '-40000' for argument 'n': number too small to fit in target type"),
        Ok(_) => panic!("expected a bad value"),
    }
}

#[test]
fn field_attributes_report_per_field() {
    let d = decl("F", vec![], vec![
        field("a", TypeShape::Scalar(ElemType::Text), vec![Annotation::Reserved(vec![kv("context", Literal::Str(s("c")))])]),
        field("b", TypeShape::Scalar(ElemType::Text), vec![Annotation::Reserved(vec![kv("author", Literal::Str(s("x"))), kv("long", Literal::Str(s("bee")))])]),
    ]);
    let (_, _, fields) = match extract_attrs(d) {
        Ok(x) => x,
        Err(e) => panic!("{}", e.message()),
    };
    let mut usages = vec![fields.get(0).new_usage(), fields.get(1).new_usage()];
    assert!(fields.get(1).get("long", &mut usages[1]).is_some());
    let ds = fields.check_used(&usages, &s("F"), &vec![s("a"), s("b")]);
    let msgs: Vec<String> = ds.iter().map(|d| d.message()).collect();
    assert_eq!(msgs, vec![
        s("unexpected attribute 'context' on field 'a' of struct 'F'"),
        s("unexpected attribute 'author' on field 'b' of struct 'F'"),
    ]);
}
