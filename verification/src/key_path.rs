//! A byte offset to the dotted TOML key path it falls on, for naming the
//! key the config reader refused. Ignorant of oakum's config shape: it
//! walks the keys a span-preserving reader found, in document order.
use vstd::prelude::*;

use crate::text::{chars_of, join, joined, Text};

verus! {

broadcast use crate::views::lemma_text_deep_view;

/// One key of a document, as a span-preserving TOML reader found it.
pub struct KeyEntry {
    /// The key as a path segment: quoted exactly when TOML requires it.
    pub segment: String,
    /// The bytes the key itself covers, when the reader recorded them.
    pub span: Option<(usize, usize)>,
    /// The tables the key's value opens, in document order: a table or an
    /// inline table is one, an array of tables or of inline tables one per
    /// element, and any other value none.
    pub tables: Vec<Vec<KeyEntry>>,
}

/// Whether `span` covers byte `offset`.
pub open spec fn covers(span: Option<(usize, usize)>, offset: int) -> bool {
    match span {
        Some((start, end)) => start <= offset < end,
        None => false,
    }
}

/// Depth-first through `es`, in order, for the first key whose own span
/// covers `offset`: the path walked to reach it.
pub open spec fn path_in_table(es: Seq<KeyEntry>, offset: int) -> Option<Seq<Seq<char>>>
    decreases es,
{
    if es.len() == 0 {
        None
    } else {
        match path_at_entry(es[0], offset) {
            Some(p) => Some(p),
            None => path_in_table(es.subrange(1, es.len() as int), offset),
        }
    }
}

/// The path from `e`: `e` itself when its span covers `offset`, else `e`
/// followed by the path found in the tables its value opens.
pub open spec fn path_at_entry(e: KeyEntry, offset: int) -> Option<Seq<Seq<char>>>
    decreases e,
{
    if covers(e.span, offset) {
        Some(seq![e.segment@])
    } else {
        match path_in_tables(e.tables@, offset) {
            Some(p) => Some(seq![e.segment@] + p),
            None => None,
        }
    }
}

/// The first of `ts`, in order, with a path to `offset`.
pub open spec fn path_in_tables(ts: Seq<Vec<KeyEntry>>, offset: int) -> Option<Seq<Seq<char>>>
    decreases ts,
{
    if ts.len() == 0 {
        None
    } else {
        match path_in_table(ts[0]@, offset) {
            Some(p) => Some(p),
            None => path_in_tables(ts.subrange(1, ts.len() as int), offset),
        }
    }
}

/// The name of the key at `offset`, spelled the way TOML resolved it.
pub open spec fn qualified(keys: Seq<KeyEntry>, offset: int) -> Option<Seq<char>> {
    match path_in_table(keys, offset) {
        Some(p) => Some(join(p, "."@)),
        None => None,
    }
}

fn found_in_table(es: &Vec<KeyEntry>, offset: usize) -> (r: Option<Vec<Text>>)
    ensures
        match path_in_table(es@, offset as int) {
            Some(p) => r matches Some(v) && v.deep_view() == p,
            None => r is None,
        },
    decreases es@,
{
    let mut i: usize = 0;
    assert(es@.subrange(0, es@.len() as int) =~= es@);
    while i < es.len()
        invariant
            i <= es@.len(),
            path_in_table(es@, offset as int) == path_in_table(es@.subrange(i as int, es@.len() as int), offset as int),
        decreases es@.len() - i,
    {
        let ghost rest = es@.subrange(i as int, es@.len() as int);
        assert(rest[0] == es@[i as int]);
        assert(rest.subrange(1, rest.len() as int) =~= es@.subrange(i + 1, es@.len() as int));
        proof {
            assert(decreases_to!(es@ => es@[i as int]));
        }
        match found_at_entry(&es[i], offset) {
            Some(p) => {
                return Some(p);
            },
            None => {},
        }
        i = i + 1;
    }
    assert(es@.subrange(i as int, es@.len() as int) =~= Seq::<KeyEntry>::empty());
    None
}

fn found_at_entry(e: &KeyEntry, offset: usize) -> (r: Option<Vec<Text>>)
    ensures
        match path_at_entry(*e, offset as int) {
            Some(p) => r matches Some(v) && v.deep_view() == p,
            None => r is None,
        },
    decreases *e,
{
    let here = match e.span {
        Some((start, end)) => start <= offset && offset < end,
        None => false,
    };
    if here {
        let mut v: Vec<Text> = Vec::new();
        v.push(chars_of(e.segment.as_str()));
        assert(v.deep_view() =~= seq![e.segment@]);
        return Some(v);
    }
    let mut j: usize = 0;
    assert(e.tables@.subrange(0, e.tables@.len() as int) =~= e.tables@);
    while j < e.tables.len()
        invariant
            j <= e.tables@.len(),
            !covers(e.span, offset as int),
            path_in_tables(e.tables@, offset as int) == path_in_tables(
                e.tables@.subrange(j as int, e.tables@.len() as int),
                offset as int,
            ),
        decreases e.tables@.len() - j,
    {
        let ghost rest = e.tables@.subrange(j as int, e.tables@.len() as int);
        assert(rest[0] == e.tables@[j as int]);
        assert(rest.subrange(1, rest.len() as int) =~= e.tables@.subrange(j + 1, e.tables@.len() as int));
        proof {
            assert(decreases_to!(*e => e.tables));
            assert(decreases_to!(e.tables => e.tables@));
            assert(decreases_to!(e.tables@ => e.tables@[j as int]));
            assert(decreases_to!(e.tables@[j as int] => e.tables@[j as int]@));
        }
        match found_in_table(&e.tables[j], offset) {
            Some(p) => {
                let mut v: Vec<Text> = Vec::new();
                v.push(chars_of(e.segment.as_str()));
                let ghost pv = p.deep_view();
                let mut k: usize = 0;
                while k < p.len()
                    invariant
                        k <= p@.len(),
                        pv == p.deep_view(),
                        v.deep_view() == seq![e.segment@] + pv.take(k as int),
                    decreases p@.len() - k,
                {
                    let ghost before = v.deep_view();
                    v.push(crate::text::copy(&p[k]));
                    assert(v.deep_view() =~= before.push(pv[k as int]));
                    k = k + 1;
                    assert(v.deep_view() =~= seq![e.segment@] + pv.take(k as int));
                }
                assert(pv.take(p@.len() as int) =~= pv);
                return Some(v);
            },
            None => {},
        }
        j = j + 1;
    }
    assert(e.tables@.subrange(j as int, e.tables@.len() as int) =~= Seq::<Vec<KeyEntry>>::empty());
    None
}

/// The key at byte `offset` of the document whose keys are `keys`, spelled
/// the way TOML resolved it: a scalar written below a table header is named
/// with that table, a key inside an inline table with the keys around it,
/// and a segment that needs quotes keeps them. `None` when no key's own span
/// covers the offset, which keeps the unqualified message.
pub fn qualified_key(keys: &Vec<KeyEntry>, offset: usize) -> (r: Option<String>)
    ensures
        match qualified(keys@, offset as int) {
            Some(q) => r matches Some(s) && s@ == q,
            None => r is None,
        },
{
    match found_in_table(keys, offset) {
        Some(p) => {
            let t = joined(&p, ".");
            Some(crate::text::string_of(&t))
        },
        None => None,
    }
}

#[verifier::external_type_specification]
#[verifier::external_body]
pub struct ExTomlEditTable(toml_edit::Table);

#[verifier::external_type_specification]
#[verifier::external_body]
pub struct ExTomlEditInlineTable(toml_edit::InlineTable);

#[verifier::external_type_specification]
#[verifier::external_body]
pub struct ExTomlEditValue(toml_edit::Value);

#[verifier::external_type_specification]
#[verifier::external_body]
pub struct ExTomlEditItem(toml_edit::Item);

#[verifier::external_type_specification]
#[verifier::external_body]
pub struct ExTomlEditKey(toml_edit::Key);

/// A key as a span-preserving TOML reader found it: its spelling in the
/// document, when the reader kept one, its decoded name, and the bytes it
/// covers.
#[derive(Debug)]
pub struct RawKey {
    pub raw: Option<String>,
    pub name: String,
    pub span: Option<(usize, usize)>,
}

/// A TOML document as a span-preserving reader found it, down to the keys:
/// the entries of a table or an inline table (a key the reader could not
/// name is `None`), the tables of an array of tables, the values of an
/// array, and any other value.
#[derive(Debug)]
pub enum TomlNode {
    Table(Vec<(Option<RawKey>, TomlNode)>),
    TableArray(Vec<Vec<(Option<RawKey>, TomlNode)>>),
    InlineTable(Vec<(Option<RawKey>, TomlNode)>),
    Array(Vec<TomlNode>),
    Scalar,
}

/// A key as a path segment: as the document spells it (so quoted exactly
/// when it was), else its name.
pub open spec fn key_segment(k: RawKey) -> Seq<char> {
    match k.raw {
        Some(r) => r@,
        None => k.name@,
    }
}

/// Depth-first through entries `i..` of a table, in order, for the first
/// key whose own span covers `offset`: the path walked to reach it.
pub open spec fn node_table_path(es: Seq<(Option<RawKey>, TomlNode)>, i: int, offset: int) -> Option<Seq<Seq<char>>>
    decreases es, es.len() - i,
{
    if i < 0 || i >= es.len() {
        None
    } else {
        match es[i].0 {
            None => node_table_path(es, i + 1, offset),
            Some(k) => if covers(k.span, offset) {
                Some(seq![key_segment(k)])
            } else {
                match node_tables_path(es[i].1, offset) {
                    Some(p) => Some(seq![key_segment(k)] + p),
                    None => node_table_path(es, i + 1, offset),
                }
            },
        }
    }
}

/// The path to `offset` through the tables a value opens: a table or an
/// inline table is one, an array of tables or of inline tables one per
/// element (other elements open none), and any other value none.
pub open spec fn node_tables_path(n: TomlNode, offset: int) -> Option<Seq<Seq<char>>>
    decreases n, 0int,
{
    match n {
        TomlNode::Table(es) => node_table_path(es@, 0, offset),
        TomlNode::InlineTable(es) => node_table_path(es@, 0, offset),
        TomlNode::TableArray(tss) => node_arrays_path(tss@, 0, offset),
        TomlNode::Array(items) => node_items_path(items@, 0, offset),
        TomlNode::Scalar => None,
    }
}

/// The first of tables `i..` of an array of tables with a path to `offset`.
pub open spec fn node_arrays_path(tss: Seq<Vec<(Option<RawKey>, TomlNode)>>, i: int, offset: int) -> Option<Seq<Seq<char>>>
    decreases tss, tss.len() - i,
{
    if i < 0 || i >= tss.len() {
        None
    } else {
        proof {
            assert(decreases_to!(tss => tss[i]));
            assert(decreases_to!(tss[i] => tss[i]@));
        }
        match node_table_path(tss[i]@, 0, offset) {
            Some(p) => Some(p),
            None => node_arrays_path(tss, i + 1, offset),
        }
    }
}

/// The first inline table among items `i..` of an array with a path to
/// `offset`.
pub open spec fn node_items_path(items: Seq<TomlNode>, i: int, offset: int) -> Option<Seq<Seq<char>>>
    decreases items, items.len() - i,
{
    if i < 0 || i >= items.len() {
        None
    } else {
        match items[i] {
            TomlNode::InlineTable(es) => match node_table_path(es@, 0, offset) {
                Some(p) => Some(p),
                None => node_items_path(items, i + 1, offset),
            },
            _ => node_items_path(items, i + 1, offset),
        }
    }
}

/// The name of the key at `offset` in a document's root table, spelled the
/// way TOML resolved it.
pub open spec fn node_qualified(es: Seq<(Option<RawKey>, TomlNode)>, offset: int) -> Option<Seq<char>> {
    match node_table_path(es, 0, offset) {
        Some(p) => Some(join(p, "."@)),
        None => None,
    }
}

fn segment(k: &RawKey) -> (s: String)
    ensures
        s@ == key_segment(*k),
{
    match &k.raw {
        Some(r) => r.clone(),
        None => k.name.clone(),
    }
}

fn prepend<T>(first: T, mut rest: Vec<T>) -> (r: Vec<T>)
    ensures
        r@ == seq![first] + rest@,
{
    rest.insert(0, first);
    rest
}

/// The keys of entries `i..` of a table, each with the tables its value
/// opens.
fn entries_from(es: &Vec<(Option<RawKey>, TomlNode)>, i: usize) -> (r: Vec<KeyEntry>)
    ensures
        forall|o: int| #[trigger] path_in_table(r@, o) == node_table_path(es@, i as int, o),
    decreases es@, es@.len() - i,
{
    if i >= es.len() {
        return Vec::new();
    }
    let rest = entries_from(es, i + 1);
    match &es[i].0 {
        None => {
            assert(forall|o: int| #[trigger] node_table_path(es@, i as int, o) == node_table_path(es@, i + 1, o));
            rest
        },
        Some(k) => {
            proof {
                assert(decreases_to!(es@ => es@[i as int]));
                assert(decreases_to!(es@[i as int] => es@[i as int].1));
            }
            let tables = tables_of(&es[i].1);
            let e = KeyEntry { segment: segment(k), span: k.span, tables };
            let r = prepend(e, rest);
            proof {
                assert forall|o: int| #[trigger] path_in_table(r@, o) == node_table_path(es@, i as int, o) by {
                    assert(r@[0] == e);
                    assert(r@.subrange(1, r@.len() as int) =~= rest@);
                    assert(path_in_table(rest@, o) == node_table_path(es@, i + 1, o));
                    assert(path_in_tables(e.tables@, o) == node_tables_path(es@[i as int].1, o));
                    assert(es@[i as int].0 == Some(*k));
                    assert(path_at_entry(e, o) == (if covers(k.span, o) {
                        Some(seq![key_segment(*k)])
                    } else {
                        match node_tables_path(es@[i as int].1, o) {
                            Some(p) => Some(seq![key_segment(*k)] + p),
                            None => None,
                        }
                    }));
                }
            }
            r
        },
    }
}

/// The tables a value opens, each as its keys.
fn tables_of(n: &TomlNode) -> (r: Vec<Vec<KeyEntry>>)
    ensures
        forall|o: int| #[trigger] path_in_tables(r@, o) == node_tables_path(*n, o),
    decreases *n, 0int,
{
    match n {
        TomlNode::Table(es) => {
            let t = entries_from(es, 0);
            let r = vec![t];
            proof {
                assert forall|o: int| #[trigger] path_in_tables(r@, o) == node_tables_path(*n, o) by {
                    assert(r@[0] == t);
                    assert(r@.subrange(1, r@.len() as int) =~= Seq::<Vec<KeyEntry>>::empty());
                    assert(path_in_tables(Seq::<Vec<KeyEntry>>::empty(), o) is None);
                    assert(path_in_table(t@, o) == node_table_path(es@, 0, o));
                }
            }
            r
        },
        TomlNode::InlineTable(es) => {
            let t = entries_from(es, 0);
            let r = vec![t];
            proof {
                assert forall|o: int| #[trigger] path_in_tables(r@, o) == node_tables_path(*n, o) by {
                    assert(r@[0] == t);
                    assert(r@.subrange(1, r@.len() as int) =~= Seq::<Vec<KeyEntry>>::empty());
                    assert(path_in_tables(Seq::<Vec<KeyEntry>>::empty(), o) is None);
                    assert(path_in_table(t@, o) == node_table_path(es@, 0, o));
                }
            }
            r
        },
        TomlNode::TableArray(tss) => arrays_from(tss, 0),
        TomlNode::Array(items) => items_from(items, 0),
        TomlNode::Scalar => Vec::new(),
    }
}

fn arrays_from(tss: &Vec<Vec<(Option<RawKey>, TomlNode)>>, i: usize) -> (r: Vec<Vec<KeyEntry>>)
    ensures
        forall|o: int| #[trigger] path_in_tables(r@, o) == node_arrays_path(tss@, i as int, o),
    decreases tss@, tss@.len() - i,
{
    if i >= tss.len() {
        return Vec::new();
    }
    proof {
        assert(decreases_to!(tss@ => tss@[i as int]));
        assert(decreases_to!(tss@[i as int] => tss@[i as int]@));
    }
    let t = entries_from(&tss[i], 0);
    let rest = arrays_from(tss, i + 1);
    let r = prepend(t, rest);
    proof {
        assert forall|o: int| #[trigger] path_in_tables(r@, o) == node_arrays_path(tss@, i as int, o) by {
            assert(r@[0] == t);
            assert(r@.subrange(1, r@.len() as int) =~= rest@);
            assert(path_in_tables(rest@, o) == node_arrays_path(tss@, i + 1, o));
            assert(path_in_table(t@, o) == node_table_path(tss@[i as int]@, 0, o));
        }
    }
    r
}

fn items_from(items: &Vec<TomlNode>, i: usize) -> (r: Vec<Vec<KeyEntry>>)
    ensures
        forall|o: int| #[trigger] path_in_tables(r@, o) == node_items_path(items@, i as int, o),
    decreases items@, items@.len() - i,
{
    if i >= items.len() {
        return Vec::new();
    }
    let rest = items_from(items, i + 1);
    match &items[i] {
        TomlNode::InlineTable(es) => {
            proof {
                assert(decreases_to!(items@ => items@[i as int]));
            }
            let t = entries_from(es, 0);
            let r = prepend(t, rest);
            proof {
                assert forall|o: int| #[trigger] path_in_tables(r@, o) == node_items_path(items@, i as int, o) by {
                    assert(r@[0] == t);
                    assert(r@.subrange(1, r@.len() as int) =~= rest@);
                    assert(path_in_tables(rest@, o) == node_items_path(items@, i + 1, o));
                    assert(path_in_table(t@, o) == node_table_path(es@, 0, o));
                }
            }
            r
        },
        _ => rest,
    }
}

/// What `toml_edit` reads `text` as, down to its keys, as a `TomlNode`
/// tree of its root table; `None` where `toml_edit` refuses the text.
pub uninterp spec fn toml_tree_of(text: Seq<char>) -> Option<Seq<(Option<RawKey>, TomlNode)>>;

/// A `toml_edit` key: its raw spelling, its name and its span.
#[verifier::external_body]
fn raw_key(key: &toml_edit::Key) -> RawKey {
    RawKey {
        raw: key.default_repr().as_raw().as_str().map(ToOwned::to_owned),
        name: key.get().to_owned(),
        span: key.span().map(|span| (span.start, span.end)),
    }
}

/// A `toml_edit` table's entries, in document order.
#[verifier::external_body]
fn table_node(table: &toml_edit::Table) -> Vec<(Option<RawKey>, TomlNode)> {
    table.iter().map(|(name, item)| (table.key(name).map(raw_key), item_node(item))).collect()
}

/// A `toml_edit` inline table's entries, in document order.
#[verifier::external_body]
fn inline_node(inline: &toml_edit::InlineTable) -> Vec<(Option<RawKey>, TomlNode)> {
    inline.iter().map(|(name, value)| (inline.key(name).map(raw_key), value_node(value))).collect()
}

/// A `toml_edit` value, variant for variant.
#[verifier::external_body]
fn value_node(value: &toml_edit::Value) -> TomlNode {
    match value {
        toml_edit::Value::InlineTable(nested) => TomlNode::InlineTable(inline_node(nested)),
        toml_edit::Value::Array(array) => TomlNode::Array(array.iter().map(value_node).collect()),
        _ => TomlNode::Scalar,
    }
}

/// A `toml_edit` item, variant for variant.
#[verifier::external_body]
fn item_node(item: &toml_edit::Item) -> TomlNode {
    match item {
        toml_edit::Item::Table(child) => TomlNode::Table(table_node(child)),
        toml_edit::Item::ArrayOfTables(array) => TomlNode::TableArray(array.iter().map(table_node).collect()),
        toml_edit::Item::Value(value) => value_node(value),
        toml_edit::Item::None => TomlNode::Scalar,
    }
}

/// `text` read by `toml_edit`, which keeps every key's span, as the
/// entries of its root table.
#[verifier::external_body]
fn read_toml_tree(text: &str) -> (r: Option<Vec<(Option<RawKey>, TomlNode)>>)
    ensures
        match r {
            Some(es) => toml_tree_of(text@) == Some(es@),
            None => toml_tree_of(text@) is None,
        },
{
    let document: toml_edit::Document<String> = text.parse().ok()?;
    Some(table_node(document.as_table()))
}

/// The qualified name of the key at byte `offset` of `text`, as a
/// span-keeping read of the document resolves it.
pub fn key_at(text: &str, offset: usize) -> (r: Option<String>)
    ensures
        match toml_tree_of(text@) {
            None => r is None,
            Some(es) => match node_qualified(es, offset as int) {
                Some(q) => r matches Some(s) && s@ == q,
                None => r is None,
            },
        },
{
    match read_toml_tree(text) {
        None => None,
        Some(es) => {
            let keys = entries_from(&es, 0);
            assert(path_in_table(keys@, offset as int) == node_table_path(es@, 0, offset as int));
            qualified_key(&keys, offset)
        },
    }
}

} // verus!
