use vstd::prelude::*;
use vstd::string::*;

use crate::field::{Arg, Arity, ElemType};

verus! {

/// The values that a parser backend matched for one argument.
pub struct Matched {
    pub name: String,
    pub occurrences: u64,
    pub values: Vec<String>,
}

/// The nested command that a parser backend selected, with its own values.
pub struct SubMatch {
    pub name: String,
    pub bag: Box<MatchedBag>,
}

/// What a parser backend matched for one command.
pub struct MatchedBag {
    pub args: Vec<Matched>,
    pub sub: Option<SubMatch>,
}

/// A typed value.
pub enum Value {
    Text(String),
    Unsigned(u64),
    Signed(i64),
    Char(char),
    Bool(bool),
}

/// Why a raw string is not a value of an element type.
#[derive(Clone, Copy, Debug, PartialEq, Eq, Structural)]
pub enum ParseFailure {
    /// An empty string where a number was expected.
    Empty,
    /// A character that is not a decimal digit.
    InvalidDigit,
    /// A number too large for the element type.
    Overflow,
    /// A number too small for the element type.
    NegOverflow,
    /// An empty string where a character was expected.
    EmptyChar,
    /// More than one character where one was expected.
    TooManyChars,
    /// Neither `true` nor `false`.
    NotBool,
}

/// A failure to decode matched values.
pub enum DecodeError {
    /// A raw value that is not a value of the argument's element type.
    BadValue { name: String, raw: String, reason: ParseFailure },
    /// A required argument with no value.
    Missing { name: String },
    /// A required subcommand slot with no selection.
    MissingCommand { field: String },
    /// A selected command name that the command set does not list.
    UnknownCommand { name: String },
}

/// The decoded value of one field.
pub enum FieldValue {
    Count(u64),
    Flag(bool),
    Many(Vec<Value>),
    One(Value),
    Maybe(Option<Value>),
    Command(Option<Tagged>),
}

/// A field of a decoded instance, with its identifier.
pub struct FieldEntry {
    pub ident: String,
    pub value: FieldValue,
}

/// A decoded instance of a command type: its fields in declaration order.
pub struct Instance {
    pub fields: Vec<FieldEntry>,
}

/// A decoded instance of one variant of a command set, under its tag.
pub struct Tagged {
    pub tag: String,
    pub instance: Instance,
}

/// Whether an element type is a signed integer type.
pub open spec fn is_signed(e: ElemType) -> bool {
    e == ElemType::I8 || e == ElemType::I16 || e == ElemType::I32 || e == ElemType::I64 || e
        == ElemType::Isize
}

/// The largest value of an integer element type.
pub open spec fn max_of(e: ElemType) -> int {
    match e {
        ElemType::U8 => u8::MAX as int,
        ElemType::U16 => u16::MAX as int,
        ElemType::U32 => u32::MAX as int,
        ElemType::Usize => usize::MAX as int,
        ElemType::I8 => i8::MAX as int,
        ElemType::I16 => i16::MAX as int,
        ElemType::I32 => i32::MAX as int,
        ElemType::I64 => i64::MAX as int,
        ElemType::Isize => isize::MAX as int,
        _ => u64::MAX as int,
    }
}

/// The magnitude of the smallest value of a signed element type.
pub open spec fn min_magnitude_of(e: ElemType) -> int {
    max_of(e) + 1
}

pub open spec fn is_digit(c: char) -> bool {
    '0' <= c <= '9'
}

pub open spec fn digit_value(c: char) -> int {
    c as int - '0' as int
}

/// Reads decimal digits from left to right: the first character that is no
/// digit, or the first prefix whose value exceeds `max`, is a failure.
pub open spec fn scan_digits(s: Seq<char>, max: int) -> Result<int, ParseFailure>
    decreases s.len(),
{
    if s.len() == 0 {
        Ok(0)
    } else {
        match scan_digits(s.drop_last(), max) {
            Err(e) => Err(e),
            Ok(v) => if !is_digit(s.last()) {
                Err(ParseFailure::InvalidDigit)
            } else if v * 10 + digit_value(s.last()) > max {
                Err(ParseFailure::Overflow)
            } else {
                Ok(v * 10 + digit_value(s.last()))
            },
        }
    }
}

/// An unsigned decimal number with an optional leading `+`, at most `max`.
pub open spec fn parse_unsigned(s: Seq<char>, max: int) -> Result<int, ParseFailure> {
    if s.len() == 0 {
        Err(ParseFailure::Empty)
    } else {
        let body = if s[0] == '+' {
            s.skip(1)
        } else {
            s
        };
        if body.len() == 0 {
            Err(ParseFailure::InvalidDigit)
        } else {
            scan_digits(body, max)
        }
    }
}

/// A signed decimal number: a leading `-` followed by the digits of a
/// magnitude of at most `min_magnitude`, or what `parse_unsigned` accepts.
pub open spec fn parse_signed(s: Seq<char>, min_magnitude: int, max: int) -> Result<int, ParseFailure> {
    if s.len() > 0 && s[0] == '-' {
        if s.len() == 1 {
            Err(ParseFailure::InvalidDigit)
        } else {
            match scan_digits(s.skip(1), min_magnitude) {
                Ok(v) => Ok(-v),
                Err(ParseFailure::Overflow) => Err(ParseFailure::NegOverflow),
                Err(f) => Err(f),
            }
        }
    } else {
        parse_unsigned(s, max)
    }
}

/// The value of a raw string as an element type.
pub open spec fn coerce_spec(e: ElemType, raw: String) -> Result<Value, ParseFailure> {
    match e {
        ElemType::Text => Ok(Value::Text(raw)),
        ElemType::Char => if raw@.len() == 0 {
            Err(ParseFailure::EmptyChar)
        } else if raw@.len() > 1 {
            Err(ParseFailure::TooManyChars)
        } else {
            Ok(Value::Char(raw@[0]))
        },
        ElemType::Bool => if raw@ == "true"@ {
            Ok(Value::Bool(true))
        } else if raw@ == "false"@ {
            Ok(Value::Bool(false))
        } else {
            Err(ParseFailure::NotBool)
        },
        _ => if is_signed(e) {
            match parse_signed(raw@, min_magnitude_of(e), max_of(e)) {
                Ok(n) => Ok(Value::Signed(n as i64)),
                Err(f) => Err(f),
            }
        } else {
            match parse_unsigned(raw@, max_of(e)) {
                Ok(n) => Ok(Value::Unsigned(n as u64)),
                Err(f) => Err(f),
            }
        },
    }
}

fn max_value(e: ElemType) -> (r: u64)
    ensures
        r == max_of(e),
{
    match e {
        ElemType::U8 => 0xff,
        ElemType::U16 => 0xffff,
        ElemType::U32 => 0xffff_ffff,
        ElemType::Usize => usize::MAX as u64,
        ElemType::I8 => 0x7f,
        ElemType::I16 => 0x7fff,
        ElemType::I32 => 0x7fff_ffff,
        ElemType::I64 => 0x7fff_ffff_ffff_ffff,
        ElemType::Isize => isize::MAX as u64,
        _ => 0xffff_ffff_ffff_ffff,
    }
}

/// Reads the decimal digits of `s` from position `start` on, as
/// `scan_digits` does.
pub fn scan_digits_from(s: &str, start: usize, max: u64) -> (r: Result<u64, ParseFailure>)
    requires
        start <= s@.len(),
    ensures
        match scan_digits(s@.subrange(start as int, s@.len() as int), max as int) {
            Ok(v) => r == Ok::<u64, ParseFailure>(v as u64) && 0 <= v <= max,
            Err(f) => r == Err::<u64, ParseFailure>(f),
        },
{
    let n = s.unicode_len();
    let ghost body = s@.subrange(start as int, n as int);
    let mut v: u64 = 0;
    let mut i: usize = start;
    assert(body.take(0) =~= Seq::<char>::empty());
    while i < n
        invariant
            n == s@.len(),
            start <= i <= n,
            body == s@.subrange(start as int, n as int),
            scan_digits(body.take(i - start), max as int) == Ok::<int, ParseFailure>(v as int),
            v <= max,
        decreases n - i,
    {
        let c = s.get_char(i);
        assert(body.take(i + 1 - start).drop_last() =~= body.take(i - start));
        assert(body.take(i + 1 - start).last() == c);
        if !('0' <= c && c <= '9') {
            assert(scan_digits(body.take(i + 1 - start), max as int) == Err::<int, ParseFailure>(
                ParseFailure::InvalidDigit,
            ));
            proof {
                lemma_scan_err_extends(body, max as int, i + 1 - start);
            }
            return Err(ParseFailure::InvalidDigit);
        }
        let d: u64 = (c as u32 - '0' as u32) as u64;
        let next: u128 = (v as u128) * 10 + (d as u128);
        if next > max as u128 {
            assert(scan_digits(body.take(i + 1 - start), max as int) == Err::<int, ParseFailure>(
                ParseFailure::Overflow,
            ));
            proof {
                lemma_scan_err_extends(body, max as int, i + 1 - start);
            }
            return Err(ParseFailure::Overflow);
        }
        v = next as u64;
        i = i + 1;
    }
    assert(body.take(n - start) =~= body);
    Ok(v)
}

/// Parses an unsigned decimal number with an optional leading `+`, no
/// larger than `max`.
pub fn parse_decimal(s: &str, max: u64) -> (r: Result<u64, ParseFailure>)
    ensures
        match parse_unsigned(s@, max as int) {
            Ok(n) => r == Ok::<u64, ParseFailure>(n as u64) && 0 <= n <= max,
            Err(f) => r == Err::<u64, ParseFailure>(f),
        },
{
    let n = s.unicode_len();
    if n == 0 {
        return Err(ParseFailure::Empty);
    }
    let start: usize = if s.get_char(0) == '+' {
        1
    } else {
        0
    };
    assert(s@.skip(1) =~= s@.subrange(1, n as int));
    assert(s@ =~= s@.subrange(0, n as int));
    if start == n {
        return Err(ParseFailure::InvalidDigit);
    }
    scan_digits_from(s, start, max)
}

/// Parses a signed decimal number: a leading `-` and a magnitude of at
/// most `min_magnitude`, or an optional leading `+` and a value of at most
/// `max`.
pub fn parse_signed_decimal(s: &str, min_magnitude: u64, max: u64) -> (r: Result<i64, ParseFailure>)
    requires
        min_magnitude <= 0x8000_0000_0000_0000,
        max < 0x8000_0000_0000_0000,
    ensures
        match parse_signed(s@, min_magnitude as int, max as int) {
            Ok(n) => r == Ok::<i64, ParseFailure>(n as i64) && -(min_magnitude as int) <= n <= max,
            Err(f) => r == Err::<i64, ParseFailure>(f),
        },
{
    let n = s.unicode_len();
    if n > 0 && s.get_char(0) == '-' {
        if n == 1 {
            return Err(ParseFailure::InvalidDigit);
        }
        assert(s@.skip(1) =~= s@.subrange(1, n as int));
        let scanned = scan_digits_from(s, 1, min_magnitude);
        let ghost spec_scan = scan_digits(s@.skip(1), min_magnitude as int);
        match scanned {
            Ok(v) => {
                assert(spec_scan is Ok && spec_scan->Ok_0 == v as int);
                assert(v <= min_magnitude);
                if v == 0x8000_0000_0000_0000 {
                    Ok(i64::MIN)
                } else {
                    let m: i64 = v as i64;
                    Ok(-m)
                }
            },
            Err(f) => {
                assert(spec_scan == Err::<int, ParseFailure>(f));
                if f == ParseFailure::Overflow {
                    Err(ParseFailure::NegOverflow)
                } else {
                    Err(f)
                }
            },
        }
    } else {
        match parse_decimal(s, max) {
            Ok(v) => {
                assert(v < 0x8000_0000_0000_0000);
                Ok(v as i64)
            },
            Err(f) => Err(f),
        }
    }
}

proof fn lemma_scan_err_extends(s: Seq<char>, max: int, j: int)
    requires
        0 <= j <= s.len(),
        scan_digits(s.take(j), max) is Err,
    ensures
        scan_digits(s, max) == scan_digits(s.take(j), max),
    decreases s.len() - j,
{
    if j < s.len() {
        assert(s.take(j + 1).drop_last() =~= s.take(j));
        lemma_scan_err_extends(s, max, j + 1);
    } else {
        assert(s.take(j) =~= s);
    }
}

/// The value of a raw string as an element type, or why it is none.
pub fn coerce(e: ElemType, raw: &String) -> (r: Result<Value, ParseFailure>)
    ensures
        r == coerce_spec(e, *raw),
{
    match e {
        ElemType::Text => Ok(Value::Text(raw.clone())),
        ElemType::Char => {
            let n = raw.as_str().unicode_len();
            if n == 0 {
                Err(ParseFailure::EmptyChar)
            } else if n > 1 {
                Err(ParseFailure::TooManyChars)
            } else {
                Ok(Value::Char(raw.as_str().get_char(0)))
            }
        },
        ElemType::Bool => {
            if crate::text::str_eq(raw.as_str(), "true") {
                Ok(Value::Bool(true))
            } else if crate::text::str_eq(raw.as_str(), "false") {
                Ok(Value::Bool(false))
            } else {
                Err(ParseFailure::NotBool)
            }
        },
        ElemType::I8 | ElemType::I16 | ElemType::I32 | ElemType::I64 | ElemType::Isize => {
            let max = max_value(e);
            match parse_signed_decimal(raw.as_str(), max + 1, max) {
                Ok(n) => Ok(Value::Signed(n)),
                Err(f) => Err(f),
            }
        },
        _ => match parse_decimal(raw.as_str(), max_value(e)) {
            Ok(n) => Ok(Value::Unsigned(n)),
            Err(f) => Err(f),
        },
    }
}

/// The first matched entry named `name`.
pub open spec fn find_matched(ms: Seq<Matched>, name: Seq<char>) -> Option<Matched>
    decreases ms.len(),
{
    if ms.len() == 0 {
        None
    } else if ms[0].name@ == name {
        Some(ms[0])
    } else {
        find_matched(ms.skip(1), name)
    }
}

/// The values of raw strings as an element type, in order, or the first raw
/// string that is none, with why.
pub open spec fn coerce_all(e: ElemType, raws: Seq<String>) -> Result<Seq<Value>, (String, ParseFailure)>
    decreases raws.len(),
{
    if raws.len() == 0 {
        Ok(Seq::empty())
    } else {
        match coerce_all(e, raws.drop_last()) {
            Err(x) => Err(x),
            Ok(vs) => match coerce_spec(e, raws.last()) {
                Ok(v) => Ok(vs.push(v)),
                Err(f) => Err((raws.last(), f)),
            },
        }
    }
}

/// The raw string that a single-valued argument decodes: the first matched
/// value, else, for an optional argument, its default. A required argument
/// gets its default from the parser backend, which puts it in the bag.
pub open spec fn single_raw(a: Arg, m: Option<Matched>) -> Option<String> {
    let fallback = if a.optional {
        a.default_value
    } else {
        None
    };
    match m {
        Some(x) => if x.values@.len() > 0 {
            Some(x.values@[0])
        } else {
            fallback
        },
        None => fallback,
    }
}

/// The raw strings that a multi-valued argument decodes.
pub open spec fn multi_raws(m: Option<Matched>) -> Seq<String> {
    match m {
        Some(x) => x.values@,
        None => Seq::empty(),
    }
}

/// `r` is what decoding the leaf argument `a` from `bag` gives.
pub open spec fn arg_decoded(a: Arg, bag: MatchedBag, r: Result<FieldValue, DecodeError>) -> bool {
    let m = find_matched(bag.args@, a.name@);
    match a.arity {
        Arity::Counted => r == Ok::<FieldValue, DecodeError>(FieldValue::Count(
            match m {
                Some(x) => x.occurrences,
                None => 0,
            },
        )),
        Arity::Flag => r == Ok::<FieldValue, DecodeError>(FieldValue::Flag(m is Some)),
        Arity::Multi => match coerce_all(a.elem, multi_raws(m)) {
            Ok(vs) => r is Ok && r->Ok_0 is Many && r->Ok_0->Many_0@ == vs,
            Err((raw, why)) => r == Err::<FieldValue, DecodeError>(
                DecodeError::BadValue { name: a.name, raw, reason: why },
            ),
        },
        Arity::Single => match single_raw(a, m) {
            Some(raw) => match coerce_spec(a.elem, raw) {
                Ok(v) => r == Ok::<FieldValue, DecodeError>(
                    if a.optional {
                        FieldValue::Maybe(Some(v))
                    } else {
                        FieldValue::One(v)
                    },
                ),
                Err(why) => r == Err::<FieldValue, DecodeError>(
                    DecodeError::BadValue { name: a.name, raw, reason: why },
                ),
            },
            None => if a.optional {
                r == Ok::<FieldValue, DecodeError>(FieldValue::Maybe(None))
            } else {
                r == Err::<FieldValue, DecodeError>(DecodeError::Missing { name: a.name })
            },
        },
    }
}

/// The failure that decoding the leaf argument `a` from `bag` gives, if any.
pub open spec fn arg_error(a: Arg, bag: MatchedBag) -> Option<DecodeError> {
    let m = find_matched(bag.args@, a.name@);
    match a.arity {
        Arity::Multi => match coerce_all(a.elem, multi_raws(m)) {
            Err((raw, why)) => Some(DecodeError::BadValue { name: a.name, raw, reason: why }),
            Ok(_) => None,
        },
        Arity::Single => match single_raw(a, m) {
            Some(raw) => match coerce_spec(a.elem, raw) {
                Err(why) => Some(DecodeError::BadValue { name: a.name, raw, reason: why }),
                Ok(_) => None,
            },
            None => if a.optional {
                None
            } else {
                Some(DecodeError::Missing { name: a.name })
            },
        },
        _ => None,
    }
}

/// The first matched entry named `name`.
pub fn lookup_matched(ms: &Vec<Matched>, name: &String) -> (r: Option<usize>)
    ensures
        match find_matched(ms@, name@) {
            Some(x) => r is Some && r->Some_0 < ms@.len() && ms@[r->Some_0 as int] == x,
            None => r is None,
        },
{
    let mut i: usize = 0;
    assert(ms@.skip(0) =~= ms@);
    while i < ms.len()
        invariant
            i <= ms@.len(),
            find_matched(ms@, name@) == find_matched(ms@.skip(i as int), name@),
        decreases ms@.len() - i,
    {
        assert(ms@.skip(i as int).skip(1) =~= ms@.skip(i + 1));
        assert(ms@.skip(i as int)[0] == ms@[i as int]);
        if ms[i].name == *name {
            return Some(i);
        }
        i = i + 1;
    }
    None
}

proof fn lemma_coerce_all_err_extends(e: ElemType, s: Seq<String>, j: int)
    requires
        0 <= j <= s.len(),
        coerce_all(e, s.take(j)) is Err,
    ensures
        coerce_all(e, s) == coerce_all(e, s.take(j)),
    decreases s.len() - j,
{
    if j < s.len() {
        assert(s.take(j + 1).drop_last() =~= s.take(j));
        lemma_coerce_all_err_extends(e, s, j + 1);
    } else {
        assert(s.take(j) =~= s);
    }
}

/// The values of raw strings as an element type, in order, or the first raw
/// string that is none, with why.
pub fn coerce_values(e: ElemType, raws: &Vec<String>) -> (r: Result<Vec<Value>, (String, ParseFailure)>)
    ensures
        match coerce_all(e, raws@) {
            Ok(vs) => r is Ok && r->Ok_0@ == vs,
            Err(x) => r == Err::<Vec<Value>, (String, ParseFailure)>(x),
        },
{
    let mut out: Vec<Value> = Vec::new();
    let mut i: usize = 0;
    assert(raws@.take(0) =~= Seq::<String>::empty());
    while i < raws.len()
        invariant
            i <= raws@.len(),
            coerce_all(e, raws@.take(i as int)) == Ok::<Seq<Value>, (String, ParseFailure)>(out@),
        decreases raws@.len() - i,
    {
        assert(raws@.take(i + 1).drop_last() =~= raws@.take(i as int));
        assert(raws@.take(i + 1).last() == raws@[i as int]);
        match coerce(e, &raws[i]) {
            Ok(v) => {
                out.push(v);
            },
            Err(f) => {
                proof {
                    lemma_coerce_all_err_extends(e, raws@, i + 1);
                }
                return Err((raws[i].clone(), f));
            },
        }
        i = i + 1;
    }
    assert(raws@.take(i as int) =~= raws@);
    Ok(out)
}

/// Decodes one leaf argument from what the parser backend matched.
pub fn decode_arg(a: &Arg, bag: &MatchedBag) -> (r: Result<FieldValue, DecodeError>)
    ensures
        arg_decoded(*a, *bag, r),
        match arg_error(*a, *bag) {
            Some(e) => r == Err::<FieldValue, DecodeError>(e),
            None => r is Ok,
        },
{
    let m: Option<&Matched> = match lookup_matched(&bag.args, &a.name) {
        Some(i) => Some(&bag.args[i]),
        None => None,
    };
    match a.arity {
        Arity::Counted => Ok(FieldValue::Count(
            match m {
                Some(x) => x.occurrences,
                None => 0,
            },
        )),
        Arity::Flag => Ok(FieldValue::Flag(m.is_some())),
        Arity::Multi => {
            let empty: Vec<String> = Vec::new();
            let raws = match m {
                Some(x) => &x.values,
                None => &empty,
            };
            assert(raws@ == multi_raws(find_matched(bag.args@, a.name@)));
            match coerce_values(a.elem, raws) {
                Ok(vs) => Ok(FieldValue::Many(vs)),
                Err((raw, why)) => Err(DecodeError::BadValue { name: a.name.clone(), raw, reason: why }),
            }
        },
        Arity::Single => {
            let fallback: Option<&String> = if a.optional {
                a.default_value.as_ref()
            } else {
                None
            };
            let raw: Option<&String> = match m {
                Some(x) => if x.values.len() > 0 {
                    Some(&x.values[0])
                } else {
                    fallback
                },
                None => fallback,
            };
            match raw {
                Some(s) => match coerce(a.elem, s) {
                    Ok(v) => if a.optional {
                        Ok(FieldValue::Maybe(Some(v)))
                    } else {
                        Ok(FieldValue::One(v))
                    },
                    Err(why) => Err(DecodeError::BadValue { name: a.name.clone(), raw: s.clone(), reason: why }),
                },
                None => if a.optional {
                    Ok(FieldValue::Maybe(None))
                } else {
                    Err(DecodeError::Missing { name: a.name.clone() })
                },
            }
        },
    }
}

/// Checks up front that a raw string is a value of an argument's element
/// type, naming the argument and the raw string when it is not.
pub fn validate(e: ElemType, name: &String, raw: &String) -> (r: Result<(), DecodeError>)
    ensures
        match coerce_spec(e, *raw) {
            Ok(_) => r is Ok,
            Err(why) => r == Err::<(), DecodeError>(
                DecodeError::BadValue { name: *name, raw: *raw, reason: why },
            ),
        },
{
    match coerce(e, raw) {
        Ok(_) => Ok(()),
        Err(why) => Err(DecodeError::BadValue { name: name.clone(), raw: raw.clone(), reason: why }),
    }
}

/// A multi-valued argument with no matched values decodes to an empty
/// sequence, never to an absence or a failure.
pub proof fn lemma_multi_empty(a: Arg, bag: MatchedBag, r: Result<FieldValue, DecodeError>)
    requires
        a.arity == Arity::Multi,
        multi_raws(find_matched(bag.args@, a.name@)).len() == 0,
        arg_decoded(a, bag, r),
    ensures
        arg_error(a, bag) is None,
        r is Ok && r->Ok_0 is Many && r->Ok_0->Many_0@.len() == 0,
{
    assert(multi_raws(find_matched(bag.args@, a.name@)) =~= Seq::<String>::empty());
}

/// An optional single-valued argument without a default that was left out
/// decodes to `None`, never to a failure.
pub proof fn lemma_optional_omitted(a: Arg, bag: MatchedBag, r: Result<FieldValue, DecodeError>)
    requires
        a.optional,
        a.arity == Arity::Single,
        a.default_value is None,
        find_matched(bag.args@, a.name@) is None,
        arg_decoded(a, bag, r),
    ensures
        arg_error(a, bag) is None,
        r == Ok::<FieldValue, DecodeError>(FieldValue::Maybe(None)),
{
}

/// The words that explain a parse failure.
pub open spec fn failure_text(f: ParseFailure) -> Seq<char> {
    match f {
        ParseFailure::Empty => "cannot parse integer from empty string"@,
        ParseFailure::InvalidDigit => "invalid digit found in string"@,
        ParseFailure::Overflow => "number too large to fit in target type"@,
        ParseFailure::NegOverflow => "number too small to fit in target type"@,
        ParseFailure::EmptyChar => "cannot parse char from empty string"@,
        ParseFailure::TooManyChars => "too many characters in string"@,
        ParseFailure::NotBool => "provided string was not `true` or `false`"@,
    }
}

/// The message that reports a decode failure.
pub open spec fn decode_message(e: DecodeError) -> Seq<char> {
    match e {
        DecodeError::BadValue { name, raw, reason } => "failed to parse value '"@ + raw@
            + "' for argument '"@ + name@ + "': "@ + failure_text(reason),
        DecodeError::Missing { name } => "missing value for argument '"@ + name@ + "'"@,
        DecodeError::MissingCommand { field } => "no subcommand selected for '"@ + field@ + "'"@,
        DecodeError::UnknownCommand { name } => "unknown subcommand '"@ + name@ + "'"@,
    }
}

impl ParseFailure {
    pub fn text(&self) -> (r: &'static str)
        ensures
            r@ == failure_text(*self),
    {
        match self {
            ParseFailure::Empty => "cannot parse integer from empty string",
            ParseFailure::InvalidDigit => "invalid digit found in string",
            ParseFailure::Overflow => "number too large to fit in target type",
            ParseFailure::NegOverflow => "number too small to fit in target type",
            ParseFailure::EmptyChar => "cannot parse char from empty string",
            ParseFailure::TooManyChars => "too many characters in string",
            ParseFailure::NotBool => "provided string was not `true` or `false`",
        }
    }
}

impl DecodeError {
    /// The message that reports this failure to the end user.
    pub fn message(&self) -> (r: String)
        ensures
            r@ == decode_message(*self),
    {
        match self {
            DecodeError::BadValue { name, raw, reason } => {
                let mut m = String::from_str("failed to parse value '");
                m.append(raw.as_str());
                m.append("' for argument '");
                m.append(name.as_str());
                m.append("': ");
                m.append(reason.text());
                m
            },
            DecodeError::Missing { name } => {
                let mut m = String::from_str("missing value for argument '");
                m.append(name.as_str());
                m.append("'");
                m
            },
            DecodeError::MissingCommand { field } => {
                let mut m = String::from_str("no subcommand selected for '");
                m.append(field.as_str());
                m.append("'");
                m
            },
            DecodeError::UnknownCommand { name } => {
                let mut m = String::from_str("unknown subcommand '");
                m.append(name.as_str());
                m.append("'");
                m
            },
        }
    }
}

} // verus!
