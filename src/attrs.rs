use vstd::prelude::*;
use vstd::string::*;

use crate::error::SchemaError;
use crate::literal::Literal;
use crate::text::{str_eq, strip_leading_slashes, strip_slashes, trim, trim_of, blank_at, find_blank_line};

verus! {

/// One entry inside a reserved annotation, as written on a declaration.
pub enum MetaEntry {
    /// `key = literal`
    NameValue(String, Literal),
    /// a bare `key`, meaning `key = true`
    Word(String),
    /// `key(...)`, which is not accepted; it holds the entry's text as written
    List(String),
    /// a bare literal, which is not accepted; it holds the entry's text as
    /// written
    Lit(String),
}

/// An annotation attached to a declaration.
pub enum Annotation {
    /// A documentation line, as written (with its comment marker).
    Doc(String),
    /// The reserved namespace, with its entries.
    Reserved(Vec<MetaEntry>),
    /// Any other annotation, passed through untouched.
    Other(String),
}

/// A metadata key with its value.
pub struct Attribute {
    pub key: String,
    pub value: Literal,
}

impl Attribute {
    pub fn new(key: String, value: Literal) -> (r: Attribute)
        ensures
            r.key == key,
            r.value == value,
    {
        Attribute { key, value }
    }
}

/// Documentation split into a one-line summary and the rest.
pub struct DocText {
    pub summary: String,
    pub detail: String,
}

/// The metadata of one declaration: its documentation and its entries, whose
/// keys are unique.
pub struct Attributes {
    pub docs: DocText,
    pub entries: Vec<Attribute>,
}

/// The metadata of each field of a declaration, in field order.
pub struct FieldAttributes {
    pub fields: Vec<Attributes>,
}

impl FieldAttributes {
    /// The metadata of the field at position `i`.
    pub fn get(&self, i: usize) -> (r: &Attributes)
        requires
            i < self.fields@.len(),
        ensures
            *r == self.fields@[i as int],
    {
        &self.fields[i]
    }
}

/// Which entries of an `Attributes` have been consulted, entry by entry.
pub struct Usage {
    pub used: Vec<bool>,
}

/// A metadata key that was supplied and never consulted.
pub struct Diagnostic {
    pub item: String,
    pub field: Option<String>,
    pub key: String,
}

/// The keys that the reserved namespace knows.
pub open spec fn known_key(k: Seq<char>) -> bool {
    k == "name"@ || k == "short"@ || k == "long"@ || k == "value_name"@ || k == "index"@
        || k == "version"@ || k == "author"@ || k == "alias"@ || k == "context"@
        || k == "subcommand"@ || k == "counter"@ || k == "counted"@ || k == "min_values"@
        || k == "max_values"@ || k == "default_value"@ || k == "takes_value"@
}

/// Whether some entry of `es` has key `k`.
pub open spec fn has_key(es: Seq<Attribute>, k: Seq<char>) -> bool {
    exists|i: int| 0 <= i < es.len() && #[trigger] es[i].key@ == k
}

/// No two entries of `es` share a key.
pub open spec fn unique_keys(es: Seq<Attribute>) -> bool {
    forall|i: int, j: int| 0 <= i < es.len() && 0 <= j < es.len() && i != j
        ==> #[trigger] es[i].key@ != #[trigger] es[j].key@
}

/// The outcome of adding the metadata entry `m` after the entries `es`.
pub open spec fn entry_step(m: MetaEntry, es: Seq<Attribute>) -> Result<Attribute, SchemaError> {
    match m {
        MetaEntry::List(t) => Err(SchemaError::NestedList { text: t }),
        MetaEntry::Lit(t) => Err(SchemaError::BareLiteral { text: t }),
        MetaEntry::NameValue(k, v) => if !known_key(k@) {
            Err(SchemaError::UnknownKey { key: k })
        } else if has_key(es, k@) {
            Err(SchemaError::DuplicateKey { key: k })
        } else {
            Ok(Attribute { key: k, value: v })
        },
        MetaEntry::Word(k) => if !known_key(k@) {
            Err(SchemaError::UnknownKey { key: k })
        } else if has_key(es, k@) {
            Err(SchemaError::DuplicateKey { key: k })
        } else {
            Ok(Attribute { key: k, value: Literal::Bool(true) })
        },
    }
}

/// The entries that a list of metadata entries gives, in order, or the first
/// fault among them.
pub open spec fn entries_of(ms: Seq<MetaEntry>) -> Result<Seq<Attribute>, SchemaError>
    decreases ms.len(),
{
    if ms.len() == 0 {
        Ok(Seq::empty())
    } else {
        match entries_of(ms.drop_last()) {
            Err(e) => Err(e),
            Ok(es) => match entry_step(ms.last(), es) {
                Err(e) => Err(e),
                Ok(en) => Ok(es.push(en)),
            },
        }
    }
}

/// The reserved entries of a list of annotations, in order.
pub open spec fn reserved_entries(s: Seq<Annotation>) -> Seq<MetaEntry>
    decreases s.len(),
{
    if s.len() == 0 {
        Seq::empty()
    } else {
        match s.last() {
            Annotation::Reserved(v) => reserved_entries(s.drop_last()) + v@,
            _ => reserved_entries(s.drop_last()),
        }
    }
}

/// The annotations that stay on a declaration: all but the reserved ones.
pub open spec fn kept(s: Seq<Annotation>) -> Seq<Annotation>
    decreases s.len(),
{
    if s.len() == 0 {
        Seq::empty()
    } else {
        match s.last() {
            Annotation::Reserved(_) => kept(s.drop_last()),
            _ => kept(s.drop_last()).push(s.last()),
        }
    }
}

/// The documentation lines of a list of annotations, in order.
pub open spec fn doc_lines(s: Seq<Annotation>) -> Seq<Seq<char>>
    decreases s.len(),
{
    if s.len() == 0 {
        Seq::empty()
    } else {
        match s.last() {
            Annotation::Doc(d) => doc_lines(s.drop_last()).push(d@),
            _ => doc_lines(s.drop_last()),
        }
    }
}

/// Documentation lines joined: each with its comment marker stripped and
/// trimmed, followed by a line break.
pub open spec fn joined_docs(lines: Seq<Seq<char>>) -> Seq<char>
    decreases lines.len(),
{
    if lines.len() == 0 {
        Seq::empty()
    } else {
        joined_docs(lines.drop_last()) + trim_of(strip_slashes(lines.last())) + seq!['\n']
    }
}

/// `summary` and `detail` split `t` at its first blank line; with none,
/// `summary` is all of `t` and `detail` is empty.
pub open spec fn split_as(t: Seq<char>, summary: Seq<char>, detail: Seq<char>) -> bool {
    if exists|i: int| blank_at(t, i) {
        exists|i: int|
            blank_at(t, i) && (forall|j: int| 0 <= j < i ==> !blank_at(t, j)) && summary
                == t.subrange(0, i) && detail == t.subrange(i + 2, t.len() as int)
    } else {
        summary == t && detail == Seq::<char>::empty()
    }
}

/// The position of an entry of `es` with key `k`: with unique keys, as in
/// well-formed attributes, the only one.
pub open spec fn find_key(es: Seq<Attribute>, k: Seq<char>) -> Option<int> {
    if has_key(es, k) {
        Some(choose|i: int| 0 <= i < es.len() && es[i].key@ == k)
    } else {
        None
    }
}

/// The keys of the entries of `es` that `used` marks as never consulted, in
/// order.
pub open spec fn unused_keys(es: Seq<Attribute>, used: Seq<bool>) -> Seq<String>
    decreases es.len(),
{
    if es.len() == 0 || used.len() < es.len() {
        Seq::empty()
    } else {
        let rest = unused_keys(es.drop_last(), used);
        if used[es.len() - 1] {
            rest
        } else {
            rest.push(es.last().key)
        }
    }
}

/// Whether `k` is a key that the reserved namespace knows.
pub fn is_known_key(k: &String) -> (r: bool)
    ensures
        r == known_key(k@),
{
    let s = k.as_str();
    str_eq(s, "name") || str_eq(s, "short") || str_eq(s, "long") || str_eq(s, "value_name")
        || str_eq(s, "index") || str_eq(s, "version") || str_eq(s, "author") || str_eq(s, "alias")
        || str_eq(s, "context") || str_eq(s, "subcommand") || str_eq(s, "counter")
        || str_eq(s, "counted") || str_eq(s, "min_values") || str_eq(s, "max_values")
        || str_eq(s, "default_value") || str_eq(s, "takes_value")
}

/// The position of the first entry of `es` with key `k`.
pub fn find_entry(es: &Vec<Attribute>, k: &str) -> (r: Option<usize>)
    ensures
        match r {
            Some(i) => i < es@.len() && es@[i as int].key@ == k@ && forall|j: int|
                0 <= j < i ==> es@[j].key@ != k@,
            None => !has_key(es@, k@),
        },
{
    let mut i: usize = 0;
    while i < es.len()
        invariant
            i <= es@.len(),
            forall|j: int| 0 <= j < i ==> es@[j].key@ != k@,
        decreases es@.len() - i,
    {
        if str_eq(es[i].key.as_str(), k) {
            return Some(i);
        }
        i = i + 1;
    }
    None
}

proof fn lemma_entries_err_extends(ms: Seq<MetaEntry>, j: int)
    requires
        0 <= j <= ms.len(),
        entries_of(ms.take(j)) is Err,
    ensures
        entries_of(ms) == entries_of(ms.take(j)),
    decreases ms.len() - j,
{
    if j < ms.len() {
        assert(ms.take(j + 1).drop_last() =~= ms.take(j));
        lemma_entries_err_extends(ms, j + 1);
    } else {
        assert(ms.take(j) =~= ms);
    }
}

/// The string that an optional reference points to.
pub open spec fn owned(field: Option<&String>) -> Option<String> {
    match field {
        Some(f) => Some(*f),
        None => None,
    }
}

/// Every diagnostic of `ds` names the declaration `item` and the field `field`.
pub open spec fn names_item(ds: Seq<Diagnostic>, item: String, field: Option<String>) -> bool {
    forall|k: int| #![trigger ds[k]] 0 <= k < ds.len() ==> ds[k].item == item && ds[k].field == field
}

/// The texts of a sequence of strings.
pub open spec fn views(s: Seq<String>) -> Seq<Seq<char>> {
    s.map_values(|x: String| x@)
}

/// Keys of a successful run of `entries_of` are known and unique.
proof fn lemma_entries_unique(ms: Seq<MetaEntry>)
    requires
        entries_of(ms) is Ok,
    ensures
        unique_keys(entries_of(ms)->Ok_0),
        forall|i: int| 0 <= i < entries_of(ms)->Ok_0.len()
            ==> known_key(#[trigger] entries_of(ms)->Ok_0[i].key@),
    decreases ms.len(),
{
    if ms.len() > 0 {
        lemma_entries_unique(ms.drop_last());
        let es = entries_of(ms.drop_last())->Ok_0;
        let en = entry_step(ms.last(), es)->Ok_0;
        assert(!has_key(es, en.key@));
        let all = es.push(en);
        assert forall|i: int, j: int| 0 <= i < all.len() && 0 <= j < all.len() && i != j
            implies #[trigger] all[i].key@ != #[trigger] all[j].key@ by {
            if i == es.len() {
                assert(es[j].key@ != en.key@);
            } else if j == es.len() {
                assert(es[i].key@ != en.key@);
            }
        }
    }
}

/// The entries of a reserved list, in order, or its first fault: a nested
/// list, a bare literal, an unknown key or a key given twice.
pub fn build_entries(metas: Vec<MetaEntry>) -> (r: Result<Vec<Attribute>, SchemaError>)
    ensures
        match entries_of(metas@) {
            Ok(es) => r is Ok && r->Ok_0@ == es,
            Err(e) => r == Err::<Vec<Attribute>, SchemaError>(e),
        },
        r is Ok ==> unique_keys(r->Ok_0@),
{
    let ghost orig = metas@;
    let mut items = metas;
    let mut out: Vec<Attribute> = Vec::new();
    let mut j: usize = 0;
    assert(orig.take(0) =~= Seq::<MetaEntry>::empty());
    assert(orig.len() == items.len());
    while items.len() > 0
        invariant
            orig == metas@,
            orig.len() <= usize::MAX,
            j <= orig.len(),
            items@ == orig.skip(j as int),
            entries_of(orig.take(j as int)) == Ok::<Seq<Attribute>, SchemaError>(out@),
        decreases items@.len(),
    {
        let m = items.remove(0);
        assert(m == orig[j as int]);
        assert(orig.take(j + 1).drop_last() =~= orig.take(j as int));
        assert(orig.take(j + 1).last() == orig[j as int]);
        assert(orig.skip(j as int).remove(0) =~= orig.skip(j + 1));
        let step: Result<Attribute, SchemaError> = match m {
            MetaEntry::List(t) => Err(SchemaError::NestedList { text: t }),
            MetaEntry::Lit(t) => Err(SchemaError::BareLiteral { text: t }),
            MetaEntry::NameValue(k, v) => {
                if !is_known_key(&k) {
                    Err(SchemaError::UnknownKey { key: k })
                } else if find_entry(&out, k.as_str()).is_some() {
                    Err(SchemaError::DuplicateKey { key: k })
                } else {
                    Ok(Attribute::new(k, v))
                }
            },
            MetaEntry::Word(k) => {
                if !is_known_key(&k) {
                    Err(SchemaError::UnknownKey { key: k })
                } else if find_entry(&out, k.as_str()).is_some() {
                    Err(SchemaError::DuplicateKey { key: k })
                } else {
                    Ok(Attribute::new(k, Literal::Bool(true)))
                }
            },
        };
        assert(step == entry_step(orig[j as int], out@));
        match step {
            Err(e) => {
                assert(entries_of(orig.take(j + 1)) == Err::<Seq<Attribute>, SchemaError>(e));
                proof {
                    lemma_entries_err_extends(orig, j + 1);
                }
                return Err(e);
            },
            Ok(en) => {
                out.push(en);
            },
        }
        j = j + 1;
    }
    assert(orig.take(j as int) =~= orig);
    proof {
        lemma_entries_unique(orig);
    }
    Ok(out)
}

/// Splits annotations into the reserved entries, the documentation lines and
/// the annotations that stay on the declaration, each in order.
pub fn split_annotations(annots: Vec<Annotation>) -> (r: (Vec<MetaEntry>, Vec<String>, Vec<Annotation>))
    ensures
        r.0@ == reserved_entries(annots@),
        r.1@.map_values(|d: String| d@) == doc_lines(annots@),
        r.2@ == kept(annots@),
{
    let ghost orig = annots@;
    let mut items = annots;
    let mut metas: Vec<MetaEntry> = Vec::new();
    let mut docs: Vec<String> = Vec::new();
    let mut rest: Vec<Annotation> = Vec::new();
    let mut j: usize = 0;
    assert(orig.take(0) =~= Seq::<Annotation>::empty());
    assert(docs@.map_values(|d: String| d@) =~= Seq::<Seq<char>>::empty());
    assert(orig.len() == items.len());
    while items.len() > 0
        invariant
            orig == annots@,
            orig.len() <= usize::MAX,
            j <= orig.len(),
            items@ == orig.skip(j as int),
            metas@ == reserved_entries(orig.take(j as int)),
            docs@.map_values(|d: String| d@) == doc_lines(orig.take(j as int)),
            rest@ == kept(orig.take(j as int)),
        decreases items@.len(),
    {
        let a = items.remove(0);
        assert(a == orig[j as int]);
        assert(orig.take(j + 1).drop_last() =~= orig.take(j as int));
        assert(orig.take(j + 1).last() == orig[j as int]);
        assert(orig.skip(j as int).remove(0) =~= orig.skip(j + 1));
        match a {
            Annotation::Reserved(v) => {
                let mut v = v;
                metas.append(&mut v);
            },
            Annotation::Doc(d) => {
                let ghost before = docs@;
                docs.push(d.clone());
                assert(docs@.map_values(|d: String| d@) =~= before.map_values(|d: String| d@).push(
                    d@,
                ));
                rest.push(Annotation::Doc(d));
            },
            Annotation::Other(o) => {
                rest.push(Annotation::Other(o));
            },
        }
        j = j + 1;
    }
    assert(orig.take(j as int) =~= orig);
    (metas, docs, rest)
}

/// Joins documentation lines: each stripped of its comment marker and
/// trimmed, followed by a line break.
pub fn join_doc_lines(lines: &Vec<String>) -> (r: String)
    ensures
        r@ == joined_docs(lines@.map_values(|d: String| d@)),
{
    let ghost ls = lines@.map_values(|d: String| d@);
    let mut out = String::new();
    let mut i: usize = 0;
    assert(ls.take(0) =~= Seq::<Seq<char>>::empty());
    while i < lines.len()
        invariant
            ls == lines@.map_values(|d: String| d@),
            i <= lines@.len(),
            out@ == joined_docs(ls.take(i as int)),
        decreases lines@.len() - i,
    {
        let line = trim(strip_leading_slashes(lines[i].as_str()));
        assert(ls.take(i + 1).drop_last() =~= ls.take(i as int));
        out.append(line.as_str());
        out.append("\n");
        proof {
            reveal_strlit("\n");
        }
        i = i + 1;
    }
    assert(ls.take(i as int) =~= ls);
    out
}

/// Splits text at its first blank line into a summary and the rest; without
/// a blank line the rest is empty.
pub fn split_doc_text(t: &str) -> (r: DocText)
    ensures
        split_as(t@, r.summary@, r.detail@),
{
    let n = t.unicode_len();
    match find_blank_line(t) {
        Some(i) => {
            let summary = String::from_str(t.substring_char(0, i));
            let detail = String::from_str(t.substring_char(i + 2, n));
            assert(blank_at(t@, i as int));
            DocText { summary, detail }
        },
        None => {
            DocText { summary: String::from_str(t), detail: String::new() }
        },
    }
}

/// The documentation text of a list of documentation lines.
pub fn doc_text(lines: &Vec<String>) -> (r: DocText)
    ensures
        split_as(joined_docs(lines@.map_values(|d: String| d@)), r.summary@, r.detail@),
{
    let joined = join_doc_lines(lines);
    split_doc_text(joined.as_str())
}

/// Extracts the metadata of one declaration from its annotations: the
/// documentation and the reserved entries. On success, also hands back the
/// annotations that stay on the declaration.
pub fn extract_attrs_inner(annots: Vec<Annotation>) -> (r: Result<(Attributes, Vec<Annotation>), SchemaError>)
    ensures
        match entries_of(reserved_entries(annots@)) {
            Ok(es) => r is Ok && r->Ok_0.0.entries@ == es && r->Ok_0.1@ == kept(annots@)
                && split_as(joined_docs(doc_lines(annots@)), r->Ok_0.0.docs.summary@, r->Ok_0.0.docs.detail@),
            Err(e) => r == Err::<(Attributes, Vec<Annotation>), SchemaError>(e),
        },
        r is Ok ==> r->Ok_0.0.wf(),
{
    let (metas, lines, rest) = split_annotations(annots);
    let entries = match build_entries(metas) {
        Ok(es) => es,
        Err(e) => {
            return Err(e);
        },
    };
    let docs = doc_text(&lines);
    Ok((Attributes { docs, entries }, rest))
}

impl Attributes {
    /// Keys are unique.
    pub open spec fn wf(&self) -> bool {
        unique_keys(self.entries@)
    }

    /// A fresh record in which no entry has been consulted.
    pub fn new_usage(&self) -> (r: Usage)
        ensures
            r.used@.len() == self.entries@.len(),
            forall|i: int| 0 <= i < r.used@.len() ==> !r.used@[i],
    {
        let mut used: Vec<bool> = Vec::new();
        let mut i: usize = 0;
        while i < self.entries.len()
            invariant
                i <= self.entries@.len(),
                used@.len() == i,
                forall|k: int| 0 <= k < used@.len() ==> !used@[k],
            decreases self.entries@.len() - i,
        {
            used.push(false);
            i = i + 1;
        }
        Usage { used }
    }

    /// Looks up the value of `key`, and records that the key was consulted.
    pub fn get(&self, key: &str, usage: &mut Usage) -> (r: Option<&Literal>)
        requires
            self.wf(),
            old(usage).used@.len() == self.entries@.len(),
        ensures
            match find_key(self.entries@, key@) {
                Some(i) => r == Some(&self.entries@[i].value) && final(usage).used@ == old(
                    usage,
                ).used@.update(i, true),
                None => r is None && final(usage).used@ == old(usage).used@,
            },
    {
        match find_entry(&self.entries, key) {
            Some(i) => {
                usage.used.set(i, true);
                Some(&self.entries[i].value)
            },
            None => None,
        }
    }
}

/// How consulting `key` changes the usage record `before` into `after`.
pub open spec fn consulted(es: Seq<Attribute>, key: Seq<char>, before: Seq<bool>, after: Seq<bool>) -> bool {
    match find_key(es, key) {
        Some(i) => after == before.update(i, true),
        None => after == before,
    }
}

/// The string value of `key`, if given.
pub open spec fn str_meta(es: Seq<Attribute>, key: Seq<char>) -> Result<Option<String>, SchemaError> {
    match find_key(es, key) {
        None => Ok(None),
        Some(i) => match es[i].value {
            Literal::Str(s) => Ok(Some(s)),
            _ => Err(SchemaError::WrongValueKind { key: es[i].key }),
        },
    }
}

/// The character value of `key`, if given.
pub open spec fn char_meta(es: Seq<Attribute>, key: Seq<char>) -> Result<Option<char>, SchemaError> {
    match find_key(es, key) {
        None => Ok(None),
        Some(i) => match es[i].value {
            Literal::Char(c) => Ok(Some(c)),
            _ => Err(SchemaError::WrongValueKind { key: es[i].key }),
        },
    }
}

/// The unsigned integer value of `key`, if given.
pub open spec fn u64_meta(es: Seq<Attribute>, key: Seq<char>) -> Result<Option<u64>, SchemaError> {
    match find_key(es, key) {
        None => Ok(None),
        Some(i) => match es[i].value {
            Literal::Int(n) => Ok(Some(n)),
            _ => Err(SchemaError::WrongValueKind { key: es[i].key }),
        },
    }
}

/// The boolean value of `key`; `false` when not given.
pub open spec fn bool_meta(es: Seq<Attribute>, key: Seq<char>) -> Result<bool, SchemaError> {
    match find_key(es, key) {
        None => Ok(false),
        Some(i) => match es[i].value {
            Literal::Bool(b) => Ok(b),
            _ => Err(SchemaError::WrongValueKind { key: es[i].key }),
        },
    }
}

impl Attributes {
    /// The string value of `key`; a value of another kind is an error.
    pub fn get_str(&self, key: &str, usage: &mut Usage) -> (r: Result<Option<String>, SchemaError>)
        requires
            self.wf(),
            old(usage).used@.len() == self.entries@.len(),
        ensures
            r == str_meta(self.entries@, key@),
            consulted(self.entries@, key@, old(usage).used@, final(usage).used@),
    {
        match find_entry(&self.entries, key) {
            Some(i) => {
                usage.used.set(i, true);
                match &self.entries[i].value {
                    Literal::Str(s) => Ok(Some(s.clone())),
                    _ => Err(SchemaError::WrongValueKind { key: self.entries[i].key.clone() }),
                }
            },
            None => Ok(None),
        }
    }

    /// The character value of `key`; a value of another kind is an error.
    pub fn get_char(&self, key: &str, usage: &mut Usage) -> (r: Result<Option<char>, SchemaError>)
        requires
            self.wf(),
            old(usage).used@.len() == self.entries@.len(),
        ensures
            r == char_meta(self.entries@, key@),
            consulted(self.entries@, key@, old(usage).used@, final(usage).used@),
    {
        match find_entry(&self.entries, key) {
            Some(i) => {
                usage.used.set(i, true);
                match self.entries[i].value.as_char() {
                    Some(c) => Ok(Some(c)),
                    None => Err(SchemaError::WrongValueKind { key: self.entries[i].key.clone() }),
                }
            },
            None => Ok(None),
        }
    }

    /// The unsigned integer value of `key`; a value of another kind is an error.
    pub fn get_u64(&self, key: &str, usage: &mut Usage) -> (r: Result<Option<u64>, SchemaError>)
        requires
            self.wf(),
            old(usage).used@.len() == self.entries@.len(),
        ensures
            r == u64_meta(self.entries@, key@),
            consulted(self.entries@, key@, old(usage).used@, final(usage).used@),
    {
        match find_entry(&self.entries, key) {
            Some(i) => {
                usage.used.set(i, true);
                match self.entries[i].value.as_u64() {
                    Some(n) => Ok(Some(n)),
                    None => Err(SchemaError::WrongValueKind { key: self.entries[i].key.clone() }),
                }
            },
            None => Ok(None),
        }
    }

    /// The boolean value of `key`, `false` when it is not given; a value of
    /// another kind is an error.
    pub fn get_bool(&self, key: &str, usage: &mut Usage) -> (r: Result<bool, SchemaError>)
        requires
            self.wf(),
            old(usage).used@.len() == self.entries@.len(),
        ensures
            r == bool_meta(self.entries@, key@),
            consulted(self.entries@, key@, old(usage).used@, final(usage).used@),
    {
        match find_entry(&self.entries, key) {
            Some(i) => {
                usage.used.set(i, true);
                match self.entries[i].value.as_bool() {
                    Some(b) => Ok(b),
                    None => Err(SchemaError::WrongValueKind { key: self.entries[i].key.clone() }),
                }
            },
            None => Ok(false),
        }
    }

    /// One diagnostic for each entry that was never consulted, in order,
    /// naming the declaration `item` and, for a field, the field.
    pub fn check_used(&self, usage: &Usage, item: &String, field: Option<&String>) -> (r: Vec<Diagnostic>)
        requires
            usage.used@.len() == self.entries@.len(),
        ensures
            r@.map_values(|d: Diagnostic| d.key) == unused_keys(self.entries@, usage.used@),
            names_item(r@, *item, owned(field)),
    {
        let mut out: Vec<Diagnostic> = Vec::new();
        let mut i: usize = 0;
        assert(self.entries@.take(0) =~= Seq::<Attribute>::empty());
        assert(out@.map_values(|d: Diagnostic| d.key) =~= Seq::<String>::empty());
        while i < self.entries.len()
            invariant
                usage.used@.len() == self.entries@.len(),
                i <= self.entries@.len(),
                out@.map_values(|d: Diagnostic| d.key) == unused_keys(self.entries@.take(i as int), usage.used@),
                names_item(out@, *item, owned(field)),
            decreases self.entries@.len() - i,
        {
            let ghost before = out@;
            assert(self.entries@.take(i + 1).drop_last() =~= self.entries@.take(i as int));
            if !usage.used[i] {
                let f: Option<String> = match field {
                    Some(f) => Some(f.clone()),
                    None => None,
                };
                out.push(Diagnostic { item: item.clone(), field: f, key: self.entries[i].key.clone() });
                assert(names_item(out@, *item, owned(field))) by {
                    assert forall|k: int| 0 <= k < before.len() implies out@[k] == before[k] by {}
                }
                assert(out@.map_values(|d: Diagnostic| d.key) =~= before.map_values(|d: Diagnostic| d.key).push(
                    self.entries@[i as int].key,
                ));
            }
            i = i + 1;
        }
        assert(self.entries@.take(i as int) =~= self.entries@);
        out
    }
}

proof fn lemma_unused_keys_members(es: Seq<Attribute>, used: Seq<bool>)
    requires
        used.len() >= es.len(),
    ensures
        forall|k: Seq<char>| #![trigger views(unused_keys(es, used)).contains(k)]
            views(unused_keys(es, used)).contains(k) <==> exists|i: int|
                0 <= i < es.len() && es[i].key@ == k && !used[i],
        forall|a: int| 0 <= a < unused_keys(es, used).len() ==> exists|i: int|
            0 <= i < es.len() && es[i].key == #[trigger] unused_keys(es, used)[a] && !used[i],
    decreases es.len(),
{
    if es.len() > 0 {
        let rest = es.drop_last();
        lemma_unused_keys_members(rest, used);
        let u = unused_keys(es, used);
        let ur = unused_keys(rest, used);
        assert forall|k: Seq<char>| views(u).contains(k) <==> exists|i: int|
            0 <= i < es.len() && es[i].key@ == k && !used[i] by {
            if views(u).contains(k) {
                let a = choose|a: int| 0 <= a < u.len() && views(u)[a] == k;
                if a < ur.len() {
                    assert(views(ur)[a] == k);
                    assert(views(ur).contains(k));
                    let i = choose|i: int| 0 <= i < rest.len() && rest[i].key@ == k && !used[i];
                    assert(es[i] == rest[i]);
                } else {
                    assert(es[es.len() - 1].key@ == k);
                }
            }
            if exists|i: int| 0 <= i < es.len() && es[i].key@ == k && !used[i] {
                let i = choose|i: int| 0 <= i < es.len() && es[i].key@ == k && !used[i];
                if i < rest.len() {
                    assert(rest[i] == es[i]);
                    assert(views(ur).contains(k));
                    let a = choose|a: int| 0 <= a < ur.len() && views(ur)[a] == k;
                    assert(views(u)[a] == k);
                } else {
                    assert(views(u)[u.len() - 1] == k);
                }
            }
        }
        assert forall|a: int| 0 <= a < u.len() implies exists|i: int|
            0 <= i < es.len() && es[i].key == #[trigger] u[a] && !used[i] by {
            if a < ur.len() {
                assert(u[a] == ur[a]);
                let i = choose|i: int| 0 <= i < rest.len() && rest[i].key == ur[a] && !used[i];
                assert(es[i] == rest[i]);
            } else {
                assert(es[es.len() - 1].key == u[a]);
            }
        }
    }
}

proof fn lemma_unused_keys_distinct(es: Seq<Attribute>, used: Seq<bool>)
    requires
        used.len() >= es.len(),
        unique_keys(es),
    ensures
        forall|a: int, b: int| 0 <= a < b < unused_keys(es, used).len()
            ==> (#[trigger] unused_keys(es, used)[a])@ != (#[trigger] unused_keys(es, used)[b])@,
    decreases es.len(),
{
    if es.len() > 0 {
        let rest = es.drop_last();
        assert(unique_keys(rest)) by {
            assert forall|i: int, j: int| 0 <= i < rest.len() && 0 <= j < rest.len() && i != j
                implies #[trigger] rest[i].key@ != #[trigger] rest[j].key@ by {
                assert(rest[i] == es[i] && rest[j] == es[j]);
            }
        }
        lemma_unused_keys_distinct(rest, used);
        lemma_unused_keys_members(rest, used);
        let u = unused_keys(es, used);
        let ur = unused_keys(rest, used);
        assert forall|a: int, b: int| 0 <= a < b < u.len() implies (#[trigger] u[a])@ != (#[trigger] u[b])@ by {
            if b == ur.len() && !used[es.len() - 1] {
                assert(u[a] == ur[a]);
                let i = choose|i: int| 0 <= i < rest.len() && rest[i].key == ur[a] && !used[i];
                assert(es[i] == rest[i]);
                assert(es[i].key@ != es[es.len() - 1].key@);
            } else {
                assert(u[a] == ur[a] && u[b] == ur[b]);
            }
        }
    }
}

/// Each metadata key that was supplied and never consulted gets exactly one
/// diagnostic, and a consulted key gets none.
pub proof fn lemma_unused_reported_once(attrs: Attributes, usage: Usage)
    requires
        attrs.wf(),
        usage.used@.len() == attrs.entries@.len(),
    ensures
        forall|k: Seq<char>|
            #![trigger views(unused_keys(attrs.entries@, usage.used@)).contains(k)]
            views(unused_keys(attrs.entries@, usage.used@)).contains(k)
                <==> exists|i: int|
                0 <= i < attrs.entries@.len() && attrs.entries@[i].key@ == k && !usage.used@[i],
        forall|a: int, b: int| 0 <= a < b < unused_keys(attrs.entries@, usage.used@).len()
            ==> (#[trigger] unused_keys(attrs.entries@, usage.used@)[a])@
                != (#[trigger] unused_keys(attrs.entries@, usage.used@)[b])@,
{
    lemma_unused_keys_members(attrs.entries@, usage.used@);
    lemma_unused_keys_distinct(attrs.entries@, usage.used@);
}

/// The message that reports a key that was never consulted.
pub open spec fn diagnostic_message(d: Diagnostic) -> Seq<char> {
    match d.field {
        Some(f) => "unexpected attribute '"@ + d.key@ + "' on field '"@ + f@ + "' of struct '"@
            + d.item@ + "'"@,
        None => "unexpected attribute '"@ + d.key@ + "' on struct '"@ + d.item@ + "'"@,
    }
}

impl Diagnostic {
    /// The message that reports this key.
    pub fn message(&self) -> (r: String)
        ensures
            r@ == diagnostic_message(*self),
    {
        let mut m = String::from_str("unexpected attribute '");
        m.append(self.key.as_str());
        match &self.field {
            Some(f) => {
                m.append("' on field '");
                m.append(f.as_str());
                m.append("' of struct '");
            },
            None => {
                m.append("' on struct '");
            },
        }
        m.append(self.item.as_str());
        m.append("'");
        m
    }
}

/// What a diagnostic reports: the field it names, if any, and the key.
pub open spec fn report_of(d: Diagnostic) -> (Option<String>, String) {
    (d.field, d.key)
}

/// Reports of `keys`, each naming `field`.
pub open spec fn reports(keys: Seq<String>, field: Option<String>) -> Seq<(Option<String>, String)> {
    keys.map_values(|k: String| (field, k))
}

/// Every diagnostic of `ds` names the declaration `item`.
pub open spec fn all_name(ds: Seq<Diagnostic>, item: String) -> bool {
    forall|k: int| #![trigger ds[k]] 0 <= k < ds.len() ==> ds[k].item == item
}

/// Diagnostics that name one field report its unused keys for that field.
pub proof fn lemma_reports_of(ds: Seq<Diagnostic>, keys: Seq<String>, item: String, field: Option<String>)
    requires
        ds.map_values(|d: Diagnostic| d.key) == keys,
        names_item(ds, item, field),
    ensures
        ds.map_values(|d: Diagnostic| report_of(d)) == reports(keys, field),
{
    assert(ds.map_values(|d: Diagnostic| report_of(d)) =~= reports(keys, field)) by {
        assert forall|k: int| 0 <= k < ds.len() implies ds.map_values(|d: Diagnostic| report_of(d))[k]
            == reports(keys, field)[k] by {
            assert(ds.map_values(|d: Diagnostic| d.key)[k] == ds[k].key);
            assert(ds[k].field == field);
        }
    }
}

/// The reports of the keys that `usages` marks as never consulted, for the
/// first `n` fields in order, each naming its field by `idents`.
pub open spec fn usage_reports(fields: Seq<Attributes>, usages: Seq<Usage>, idents: Seq<String>, n: int) -> Seq<(Option<String>, String)>
    decreases n,
{
    if n <= 0 {
        Seq::empty()
    } else {
        usage_reports(fields, usages, idents, n - 1) + reports(
            unused_keys(fields[n - 1].entries@, usages[n - 1].used@),
            Some(idents[n - 1]),
        )
    }
}

impl FieldAttributes {
    /// One diagnostic for each key of each field that `usages` marks as never
    /// consulted, field by field in order, naming the struct `name` and the
    /// field by `idents`.
    pub fn check_used(&self, usages: &Vec<Usage>, name: &String, idents: &Vec<String>) -> (r: Vec<Diagnostic>)
        requires
            usages@.len() == self.fields@.len(),
            idents@.len() == self.fields@.len(),
            forall|i: int| 0 <= i < usages@.len() ==> (#[trigger] usages@[i]).used@.len()
                == self.fields@[i].entries@.len(),
        ensures
            r@.map_values(|d: Diagnostic| report_of(d)) == usage_reports(
                self.fields@,
                usages@,
                idents@,
                self.fields@.len() as int,
            ),
            all_name(r@, *name),
    {
        let mut out: Vec<Diagnostic> = Vec::new();
        let mut i: usize = 0;
        assert(out@.map_values(|d: Diagnostic| report_of(d)) =~= Seq::<(Option<String>, String)>::empty());
        while i < self.fields.len()
            invariant
                usages@.len() == self.fields@.len(),
                idents@.len() == self.fields@.len(),
                forall|k: int| 0 <= k < usages@.len() ==> (#[trigger] usages@[k]).used@.len()
                    == self.fields@[k].entries@.len(),
                i <= self.fields@.len(),
                out@.map_values(|d: Diagnostic| report_of(d)) == usage_reports(self.fields@, usages@, idents@, i as int),
                all_name(out@, *name),
            decreases self.fields@.len() - i,
        {
            assert(usages@[i as int].used@.len() == self.fields@[i as int].entries@.len());
            let mut ds = self.fields[i].check_used(&usages[i], name, Some(&idents[i]));
            proof {
                lemma_reports_of(ds@, unused_keys(self.fields@[i as int].entries@, usages@[i as int].used@), *name, Some(idents@[i as int]));
            }
            let ghost before = out@;
            let ghost dsv = ds@;
            out.append(&mut ds);
            assert(out@.map_values(|d: Diagnostic| report_of(d)) =~= before.map_values(
                |d: Diagnostic| report_of(d),
            ) + dsv.map_values(|d: Diagnostic| report_of(d)));
            assert(all_name(out@, *name)) by {
                assert forall|k: int| 0 <= k < out@.len() implies #[trigger] out@[k].item == *name by {
                    if k < before.len() {
                        assert(out@[k] == before[k]);
                    } else {
                        assert(out@[k] == dsv[k - before.len()]);
                    }
                }
            }
            i = i + 1;
        }
        out
    }
}

} // verus!
