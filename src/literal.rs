use vstd::prelude::*;

verus! {

/// A literal value attached to a metadata key.
pub enum Literal {
    Str(String),
    ByteStr(Vec<u8>),
    Byte(u8),
    Char(char),
    Int(u64),
    Bool(bool),
}

impl Literal {
    pub fn as_str(&self) -> (r: Option<&String>)
        ensures
            r == (match self {
                Literal::Str(s) => Some(s),
                _ => None::<&String>,
            }),
    {
        match self {
            Literal::Str(s) => Some(s),
            _ => None,
        }
    }

    pub fn as_byte_str(&self) -> (r: Option<&Vec<u8>>)
        ensures
            r == (match self {
                Literal::ByteStr(b) => Some(b),
                _ => None::<&Vec<u8>>,
            }),
    {
        match self {
            Literal::ByteStr(b) => Some(b),
            _ => None,
        }
    }

    pub fn as_byte(&self) -> (r: Option<u8>)
        ensures
            r == (match self {
                Literal::Byte(b) => Some(*b),
                _ => None::<u8>,
            }),
    {
        match self {
            Literal::Byte(b) => Some(*b),
            _ => None,
        }
    }

    pub fn as_char(&self) -> (r: Option<char>)
        ensures
            r == (match self {
                Literal::Char(c) => Some(*c),
                _ => None::<char>,
            }),
    {
        match self {
            Literal::Char(c) => Some(*c),
            _ => None,
        }
    }

    pub fn as_u64(&self) -> (r: Option<u64>)
        ensures
            r == (match self {
                Literal::Int(n) => Some(*n),
                _ => None::<u64>,
            }),
    {
        match self {
            Literal::Int(n) => Some(*n),
            _ => None,
        }
    }

    pub fn as_bool(&self) -> (r: Option<bool>)
        ensures
            r == (match self {
                Literal::Bool(b) => Some(*b),
                _ => None::<bool>,
            }),
    {
        match self {
            Literal::Bool(b) => Some(*b),
            _ => None,
        }
    }
}

} // verus!
