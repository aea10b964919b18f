use vstd::prelude::*;
use vstd::string::*;

verus! {

/// A fault in a declaration or its metadata, found while compiling it.
pub enum SchemaError {
    /// A reserved entry holds a nested list; the entry's text.
    NestedList { text: String },
    /// A reserved entry is a bare literal; the entry's text.
    BareLiteral { text: String },
    /// A metadata key is given twice on one declaration.
    DuplicateKey { key: String },
    /// A metadata key that the reserved namespace does not know.
    UnknownKey { key: String },
    /// A metadata value of the wrong literal kind.
    WrongValueKind { key: String },
    /// A field whose declared type shape is not supported.
    UnsupportedFieldType { field: String },
    /// A second subcommand slot on one command type.
    MultipleSubcommands { field: String },
    /// A positional field that also names a short or long form.
    PositionalWithName { field: String },
    /// A field that is both counted and multi-valued.
    ConflictingArity { field: String },
    /// A command type that is a tuple struct.
    TupleStruct { name: String },
    /// A command-set variant that does not carry exactly one payload.
    UnsupportedVariant { variant: String },
    /// A compiled command that does not belong to its variant.
    PayloadMismatch { variant: String },
    /// The compiled command set handed in does not belong to the slot.
    CommandSetMismatch { field: String },
    /// A subcommand slot without its compiled command set.
    MissingCommandSet { field: String },
}

/// The message that reports a schema fault.
pub open spec fn schema_message(e: SchemaError) -> Seq<char> {
    match e {
        SchemaError::BareLiteral { text } => "invalid attribute '"@ + text@ + "': literal value not supported"@,
        SchemaError::NestedList { text } => "invalid attribute '"@ + text@ + "': unexpected sublist"@,
        SchemaError::DuplicateKey { key } => "duplicate attribute '"@ + key@ + "'"@,
        SchemaError::UnknownKey { key } => "unknown attribute '"@ + key@ + "'"@,
        SchemaError::WrongValueKind { key } => "wrong kind of value for attribute '"@ + key@ + "'"@,
        SchemaError::UnsupportedFieldType { field } => "unsupported type for field '"@ + field@ + "'"@,
        SchemaError::MultipleSubcommands { field } => "second subcommand field '"@ + field@ + "'"@,
        SchemaError::PositionalWithName { field } => "positional field '"@ + field@ + "' also has a short or long name"@,
        SchemaError::ConflictingArity { field } => "field '"@ + field@ + "' is both counted and multi-valued"@,
        SchemaError::TupleStruct { name } => "tuple struct '"@ + name@ + "' is not supported"@,
        SchemaError::UnsupportedVariant { variant } => "variant '"@ + variant@ + "' must carry exactly one payload"@,
        SchemaError::PayloadMismatch { variant } => "variant '"@ + variant@ + "' does not match its compiled command"@,
        SchemaError::CommandSetMismatch { field } => "field '"@ + field@ + "' does not match its compiled command set"@,
        SchemaError::MissingCommandSet { field } => "no compiled command set for field '"@ + field@ + "'"@,
    }
}

impl SchemaError {
    /// The message that reports this fault to the developer.
    pub fn message(&self) -> (r: String)
        ensures
            r@ == schema_message(*self),
    {
        match self {
            SchemaError::BareLiteral { text } => {
                let mut m = String::from_str("invalid attribute '");
                m.append(text.as_str());
                m.append("': literal value not supported");
                m
            },
            SchemaError::NestedList { text } => {
                let mut m = String::from_str("invalid attribute '");
                m.append(text.as_str());
                m.append("': unexpected sublist");
                m
            },
            SchemaError::DuplicateKey { key } => {
                let mut m = String::from_str("duplicate attribute '");
                m.append(key.as_str());
                m.append("'");
                m
            },
            SchemaError::UnknownKey { key } => {
                let mut m = String::from_str("unknown attribute '");
                m.append(key.as_str());
                m.append("'");
                m
            },
            SchemaError::WrongValueKind { key } => {
                let mut m = String::from_str("wrong kind of value for attribute '");
                m.append(key.as_str());
                m.append("'");
                m
            },
            SchemaError::UnsupportedFieldType { field } => {
                let mut m = String::from_str("unsupported type for field '");
                m.append(field.as_str());
                m.append("'");
                m
            },
            SchemaError::MultipleSubcommands { field } => {
                let mut m = String::from_str("second subcommand field '");
                m.append(field.as_str());
                m.append("'");
                m
            },
            SchemaError::PositionalWithName { field } => {
                let mut m = String::from_str("positional field '");
                m.append(field.as_str());
                m.append("' also has a short or long name");
                m
            },
            SchemaError::ConflictingArity { field } => {
                let mut m = String::from_str("field '");
                m.append(field.as_str());
                m.append("' is both counted and multi-valued");
                m
            },
            SchemaError::TupleStruct { name } => {
                let mut m = String::from_str("tuple struct '");
                m.append(name.as_str());
                m.append("' is not supported");
                m
            },
            SchemaError::UnsupportedVariant { variant } => {
                let mut m = String::from_str("variant '");
                m.append(variant.as_str());
                m.append("' must carry exactly one payload");
                m
            },
            SchemaError::PayloadMismatch { variant } => {
                let mut m = String::from_str("variant '");
                m.append(variant.as_str());
                m.append("' does not match its compiled command");
                m
            },
            SchemaError::CommandSetMismatch { field } => {
                let mut m = String::from_str("field '");
                m.append(field.as_str());
                m.append("' does not match its compiled command set");
                m
            },
            SchemaError::MissingCommandSet { field } => {
                let mut m = String::from_str("no compiled command set for field '");
                m.append(field.as_str());
                m.append("'");
                m
            },
        }
    }
}

} // verus!
