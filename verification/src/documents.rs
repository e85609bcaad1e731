//! Parsed JSON and TOML documents, as far as this crate reads them: text,
//! flags, lists and tables. Anything else (numbers, dates, `null`) is
//! `Other`, kept as the document writes it.
use vstd::prelude::*;

use crate::text::{chars_of, same};

verus! {

broadcast use crate::views::lemma_text_deep_view;

/// A value of a parsed JSON or TOML document.
#[derive(Debug)]
pub enum DocValue {
    Text(String),
    Flag(bool),
    List(Vec<DocValue>),
    /// Entries in the order the reader hands them over (the TOML and JSON
    /// readers here give keys in byte order); keys do not repeat.
    Table(Vec<(String, DocValue)>),
    /// Any other value (a number, a date, `null`), as the document writes it.
    Other(String),
}

/// Where the first entry named `key` sits in `es`, looking from `i` on.
pub open spec fn key_index_from(es: Seq<(String, DocValue)>, key: Seq<char>, i: int) -> Option<int>
    decreases es.len() - i,
{
    if i < 0 || i >= es.len() {
        None
    } else if es[i].0@ == key {
        Some(i)
    } else {
        key_index_from(es, key, i + 1)
    }
}

/// The value under `key` when `v` is a table that has it.
pub open spec fn doc_get(v: DocValue, key: Seq<char>) -> Option<DocValue> {
    match v {
        DocValue::Table(es) => match key_index_from(es@, key, 0) {
            Some(i) => Some(es@[i].1),
            None => None,
        },
        _ => None,
    }
}

/// The text `v` holds, if it is text.
pub open spec fn doc_text(v: Option<DocValue>) -> Option<Seq<char>> {
    match v {
        Some(DocValue::Text(s)) => Some(s@),
        _ => None,
    }
}

proof fn lemma_key_index_from(es: Seq<(String, DocValue)>, key: Seq<char>, i: int)
    ensures
        key_index_from(es, key, i) matches Some(k) ==> 0 <= i <= k < es.len(),
    decreases es.len() - i,
{
    if !(i < 0 || i >= es.len()) && es[i].0@ != key {
        lemma_key_index_from(es, key, i + 1);
    }
}

impl DocValue {
    /// The value under `key` when this is a table that has it.
    pub fn get(&self, key: &str) -> (r: Option<&DocValue>)
        ensures
            match doc_get(*self, key@) {
                Some(v) => r matches Some(x) && *x == v,
                None => r is None,
            },
    {
        match self {
            DocValue::Table(es) => {
                let k = chars_of(key);
                let mut i: usize = 0;
                while i < es.len()
                    invariant
                        k@ == key@,
                        i <= es@.len(),
                        doc_get(*self, key@) == (match key_index_from(es@, key@, 0) {
                            Some(j) => Some(es@[j].1),
                            None => None,
                        }),
                        key_index_from(es@, key@, 0) == key_index_from(es@, key@, i as int),
                    decreases es@.len() - i,
                {
                    if same(&chars_of(es[i].0.as_str()), &k) {
                        return Some(&es[i].1);
                    }
                    i = i + 1;
                }
                None
            },
            _ => None,
        }
    }

    /// The text this holds, if it is text.
    pub fn text(&self) -> (r: Option<&String>)
        ensures
            match *self {
                DocValue::Text(s) => r == Some(&s),
                _ => r is None,
            },
    {
        match self {
            DocValue::Text(s) => Some(s),
            _ => None,
        }
    }
}

#[verifier::external_type_specification]
#[verifier::external_body]
pub struct ExJsonValue(serde_json::Value);

#[verifier::external_type_specification]
#[verifier::external_body]
pub struct ExTomlValue(toml::Value);

/// What `serde_json::from_str::<serde_json::Value>` makes of `text`, in
/// this crate's document form, or the message of the error it reports.
pub uninterp spec fn json_doc_of(text: Seq<char>) -> Result<DocValue, Seq<char>>;

/// What `toml::from_str::<toml::Value>` makes of `text`, in this crate's
/// document form, or the message of the error it reports.
pub uninterp spec fn toml_doc_of(text: Seq<char>) -> Result<DocValue, Seq<char>>;

/// A `serde_json::Value` in this crate's document form, variant for
/// variant; a number or `null` is kept as JSON writes it.
#[verifier::external_body]
fn doc_of_json(v: serde_json::Value) -> DocValue {
    match v {
        serde_json::Value::String(s) => DocValue::Text(s),
        serde_json::Value::Bool(b) => DocValue::Flag(b),
        serde_json::Value::Array(items) => DocValue::List(items.into_iter().map(doc_of_json).collect()),
        serde_json::Value::Object(m) => DocValue::Table(m.into_iter().map(|(k, x)| (k, doc_of_json(x))).collect()),
        other => DocValue::Other(other.to_string()),
    }
}

/// A `toml::Value` in this crate's document form, variant for variant; a
/// number or a date is kept as TOML writes it.
#[verifier::external_body]
fn doc_of_toml(v: toml::Value) -> DocValue {
    match v {
        toml::Value::String(s) => DocValue::Text(s),
        toml::Value::Boolean(b) => DocValue::Flag(b),
        toml::Value::Array(items) => DocValue::List(items.into_iter().map(doc_of_toml).collect()),
        toml::Value::Table(m) => DocValue::Table(m.into_iter().map(|(k, x)| (k, doc_of_toml(x))).collect()),
        other => DocValue::Other(other.to_string()),
    }
}

/// `text` read by `serde_json::from_str` into a `serde_json::Value`, given
/// in this crate's document form; the error is the one `serde_json` writes.
#[verifier::external_body]
pub fn read_json(text: &str) -> (r: Result<DocValue, String>)
    ensures
        match r {
            Ok(d) => json_doc_of(text@) == Ok::<DocValue, Seq<char>>(d),
            Err(e) => json_doc_of(text@) == Err::<DocValue, Seq<char>>(e@),
        },
{
    match serde_json::from_str::<serde_json::Value>(text) {
        Ok(v) => Ok(doc_of_json(v)),
        Err(e) => Err(e.to_string()),
    }
}

/// `text` read by `toml::from_str` into a `toml::Value`, given in this
/// crate's document form; the error is the one `toml` writes.
#[verifier::external_body]
pub fn read_toml(text: &str) -> (r: Result<DocValue, String>)
    ensures
        match r {
            Ok(d) => toml_doc_of(text@) == Ok::<DocValue, Seq<char>>(d),
            Err(e) => toml_doc_of(text@) == Err::<DocValue, Seq<char>>(e@),
        },
{
    match toml::from_str::<toml::Value>(text) {
        Ok(v) => Ok(doc_of_toml(v)),
        Err(e) => Err(e.to_string()),
    }
}

/// A document value as the contracts compare it: the same shape as
/// `DocValue`, with sequences in place of strings and vectors.
pub enum DocTree {
    Text(Seq<char>),
    Flag(bool),
    List(Seq<DocTree>),
    Table(Seq<(Seq<char>, DocTree)>),
    Other(Seq<char>),
}

/// A document value as a tree.
pub open spec fn doc_tree(v: DocValue) -> DocTree
    decreases v, 0int,
{
    match v {
        DocValue::Text(s) => DocTree::Text(s@),
        DocValue::Flag(b) => DocTree::Flag(b),
        DocValue::List(items) => DocTree::List(item_trees(items@, 0)),
        DocValue::Table(es) => DocTree::Table(entry_trees(es@, 0)),
        DocValue::Other(s) => DocTree::Other(s@),
    }
}

/// Items `i..` of a list as trees.
pub open spec fn item_trees(items: Seq<DocValue>, i: int) -> Seq<DocTree>
    decreases items, items.len() - i,
{
    if i < 0 || i >= items.len() {
        Seq::empty()
    } else {
        seq![doc_tree(items[i])] + item_trees(items, i + 1)
    }
}

/// Entries `i..` of a table as trees.
pub open spec fn entry_trees(es: Seq<(String, DocValue)>, i: int) -> Seq<(Seq<char>, DocTree)>
    decreases es, es.len() - i,
{
    if i < 0 || i >= es.len() {
        Seq::empty()
    } else {
        seq![(es[i].0@, doc_tree(es[i].1))] + entry_trees(es, i + 1)
    }
}

/// A list's items as trees, one for one.
pub proof fn lemma_item_trees(items: Seq<DocValue>, i: int)
    requires
        0 <= i <= items.len(),
    ensures
        item_trees(items, i) == items.subrange(i, items.len() as int).map_values(|x: DocValue| doc_tree(x)),
    decreases items.len() - i,
{
    if i < items.len() {
        lemma_item_trees(items, i + 1);
    }
    assert(item_trees(items, i) =~= items.subrange(i, items.len() as int).map_values(|x: DocValue| doc_tree(x)));
}

/// A table's entries as trees, one for one.
pub proof fn lemma_entry_trees(es: Seq<(String, DocValue)>, i: int)
    requires
        0 <= i <= es.len(),
    ensures
        entry_trees(es, i) == es.subrange(i, es.len() as int).map_values(|e: (String, DocValue)| (e.0@, doc_tree(e.1))),
    decreases es.len() - i,
{
    if i < es.len() {
        lemma_entry_trees(es, i + 1);
    }
    assert(entry_trees(es, i) =~= es.subrange(i, es.len() as int).map_values(|e: (String, DocValue)| (e.0@, doc_tree(e.1))));
}

} // verus!
