//! Documents as pretty JSON: two spaces a level, one entry a line, and a
//! list of scalars kept on one line.
use vstd::prelude::*;

use crate::documents::{doc_tree, entry_trees, item_trees, lemma_entry_trees, lemma_item_trees, DocTree, DocValue};
use crate::migrate_config::{json_quoted, json_string};
use crate::text::{push_all, push_str, string_of, Text};

verus! {

/// A value printed on one line wherever it stands: anything but a list or
/// a table.
pub open spec fn is_scalar(v: DocValue) -> bool {
    !(v is List) && !(v is Table)
}

/// Whether every item of a list is a scalar.
pub open spec fn all_scalar(items: Seq<DocValue>) -> bool {
    forall|i: int| 0 <= i < items.len() ==> #[trigger] is_scalar(items[i])
}

/// A scalar as JSON: a string quoted and escaped, a flag as `true` or
/// `false`, any other value as it is written.
pub open spec fn scalar_json(v: DocValue) -> Seq<char> {
    match v {
        DocValue::Text(s) => json_string(s@),
        DocValue::Flag(b) => if b { "true"@ } else { "false"@ },
        DocValue::Other(s) => s@,
        _ => Seq::empty(),
    }
}

/// Scalars `i..` of a list, separated by `, `.
pub open spec fn inline_items(items: Seq<DocValue>, i: int) -> Seq<char>
    decreases items.len() - i,
{
    if i < 0 || i >= items.len() {
        Seq::empty()
    } else if i + 1 == items.len() {
        scalar_json(items[i])
    } else {
        scalar_json(items[i]) + ", "@ + inline_items(items, i + 1)
    }
}

/// `v` as pretty JSON, its nested lines indented by `pad` plus two spaces
/// a level: a list of scalars stays on one line, anything else opens one
/// line per item or entry; an empty list or table is `[]` or `{}`.
pub open spec fn pretty(v: DocValue, pad: Seq<char>) -> Seq<char>
    decreases v, 0int,
{
    match v {
        DocValue::List(items) => if items@.len() == 0 {
            "[]"@
        } else if all_scalar(items@) {
            "["@ + inline_items(items@, 0) + "]"@
        } else {
            "[\n"@ + block_items(items@, pad + "  "@, 0) + "\n"@ + pad + "]"@
        },
        DocValue::Table(es) => if es@.len() == 0 {
            "{}"@
        } else {
            "{\n"@ + block_entries(es@, pad + "  "@, 0) + "\n"@ + pad + "}"@
        },
        _ => scalar_json(v),
    }
}

/// Items `i..` of a list, one a line at `pad`, separated by `,`.
pub open spec fn block_items(items: Seq<DocValue>, pad: Seq<char>, i: int) -> Seq<char>
    decreases items, items.len() - i,
{
    if i < 0 || i >= items.len() {
        Seq::empty()
    } else {
        let line = pad + pretty(items[i], pad);
        if i + 1 == items.len() {
            line
        } else {
            line + ",\n"@ + block_items(items, pad, i + 1)
        }
    }
}

/// Entries `i..` of a table, one a line at `pad` as `"key": value`,
/// separated by `,`.
pub open spec fn block_entries(es: Seq<(String, DocValue)>, pad: Seq<char>, i: int) -> Seq<char>
    decreases es, es.len() - i,
{
    if i < 0 || i >= es.len() {
        Seq::empty()
    } else {
        let line = pad + json_string(es[i].0@) + ": "@ + pretty(es[i].1, pad);
        if i + 1 == es.len() {
            line
        } else {
            line + ",\n"@ + block_entries(es, pad, i + 1)
        }
    }
}

fn write_scalar(v: &DocValue, out: &mut Text)
    requires
        is_scalar(*v),
    ensures
        final(out)@ == old(out)@ + scalar_json(*v),
{
    match v {
        DocValue::Text(t) => push_str(out, json_quoted(t.as_str()).as_str()),
        DocValue::Flag(b) => if *b {
            push_str(out, "true")
        } else {
            push_str(out, "false")
        },
        DocValue::Other(t) => push_str(out, t.as_str()),
        _ => {},
    }
}

fn write_inline(items: &Vec<DocValue>, i: usize, out: &mut Text)
    requires
        all_scalar(items@),
        i < items.len(),
    ensures
        final(out)@ == old(out)@ + inline_items(items@, i as int),
    decreases items.len() - i,
{
    assert(is_scalar(items@[i as int]));
    write_scalar(&items[i], out);
    if i + 1 < items.len() {
        push_str(out, ", ");
        write_inline(items, i + 1, out);
        assert(out@ =~= old(out)@ + inline_items(items@, i as int));
    }
}

fn all_scalar_exec(items: &Vec<DocValue>) -> (b: bool)
    ensures
        b == all_scalar(items@),
{
    let mut i: usize = 0;
    while i < items.len()
        invariant
            i <= items.len(),
            forall|j: int| 0 <= j < i ==> #[trigger] is_scalar(items@[j]),
        decreases items.len() - i,
    {
        match &items[i] {
            DocValue::List(_) | DocValue::Table(_) => {
                assert(!is_scalar(items@[i as int]));
                return false;
            },
            _ => {},
        }
        i = i + 1;
    }
    true
}

fn write_pretty(v: &DocValue, pad: &Text, out: &mut Text)
    ensures
        final(out)@ == old(out)@ + pretty(*v, pad@),
    decreases *v, 0int,
{
    match v {
        DocValue::List(items) => {
            if items.len() == 0 {
                push_str(out, "[]");
            } else if all_scalar_exec(items) {
                push_str(out, "[");
                write_inline(items, 0, out);
                push_str(out, "]");
            } else {
                let mut inner = pad.clone();
                push_str(&mut inner, "  ");
                push_str(out, "[\n");
                write_items(items, &inner, 0, out);
                push_str(out, "\n");
                push_all(out, pad.as_slice());
                push_str(out, "]");
            }
        },
        DocValue::Table(es) => {
            if es.len() == 0 {
                push_str(out, "{}");
            } else {
                let mut inner = pad.clone();
                push_str(&mut inner, "  ");
                push_str(out, "{\n");
                write_entries(es, &inner, 0, out);
                push_str(out, "\n");
                push_all(out, pad.as_slice());
                push_str(out, "}");
            }
        },
        _ => write_scalar(v, out),
    }
    assert(out@ =~= old(out)@ + pretty(*v, pad@));
}

fn write_items(items: &Vec<DocValue>, pad: &Text, i: usize, out: &mut Text)
    requires
        i < items.len(),
    ensures
        final(out)@ == old(out)@ + block_items(items@, pad@, i as int),
    decreases items@, items.len() - i,
{
    push_all(out, pad.as_slice());
    proof {
        assert(decreases_to!(items@ => items@[i as int]));
    }
    write_pretty(&items[i], pad, out);
    if i + 1 < items.len() {
        push_str(out, ",\n");
        write_items(items, pad, i + 1, out);
    }
    assert(out@ =~= old(out)@ + block_items(items@, pad@, i as int));
}

fn write_entries(es: &Vec<(String, DocValue)>, pad: &Text, i: usize, out: &mut Text)
    requires
        i < es.len(),
    ensures
        final(out)@ == old(out)@ + block_entries(es@, pad@, i as int),
    decreases es@, es.len() - i,
{
    push_all(out, pad.as_slice());
    push_str(out, json_quoted(es[i].0.as_str()).as_str());
    push_str(out, ": ");
    proof {
        assert(decreases_to!(es@ => es@[i as int]));
        assert(decreases_to!(es@[i as int] => es@[i as int].1));
    }
    write_pretty(&es[i].1, pad, out);
    if i + 1 < es.len() {
        push_str(out, ",\n");
        write_entries(es, pad, i + 1, out);
    }
    assert(out@ =~= old(out)@ + block_entries(es@, pad@, i as int));
}

/// `v` as pretty JSON, with a closing newline.
pub fn pretty_json(v: &DocValue) -> (s: String)
    ensures
        s@ == pretty(*v, Seq::empty()) + "\n"@,
        s@ == pretty_tree(doc_tree(*v), Seq::empty()) + "\n"@,
{
    let mut out: Text = Vec::new();
    let pad: Text = Vec::new();
    write_pretty(v, &pad, &mut out);
    push_str(&mut out, "\n");
    assert(out@ =~= pretty(*v, Seq::empty()) + "\n"@);
    proof {
        lemma_pretty_tree(*v, Seq::empty());
    }
    string_of(&out)
}

/// A tree printed on one line wherever it stands: anything but a list or
/// a table.
pub open spec fn tree_is_scalar(t: DocTree) -> bool {
    !(t is List) && !(t is Table)
}

/// Whether every item of a list of trees is a scalar.
pub open spec fn tree_all_scalar(items: Seq<DocTree>) -> bool {
    forall|i: int| 0 <= i < items.len() ==> #[trigger] tree_is_scalar(items[i])
}

/// A scalar tree as JSON.
pub open spec fn tree_scalar_json(t: DocTree) -> Seq<char> {
    match t {
        DocTree::Text(s) => json_string(s),
        DocTree::Flag(b) => if b { "true"@ } else { "false"@ },
        DocTree::Other(s) => s,
        _ => Seq::empty(),
    }
}

/// Scalar trees `i..` of a list, separated by `, `.
pub open spec fn tree_inline(items: Seq<DocTree>, i: int) -> Seq<char>
    decreases items.len() - i,
{
    if i < 0 || i >= items.len() {
        Seq::empty()
    } else if i + 1 == items.len() {
        tree_scalar_json(items[i])
    } else {
        tree_scalar_json(items[i]) + ", "@ + tree_inline(items, i + 1)
    }
}

/// A tree as pretty JSON, laid out as `pretty` lays out a document value.
pub open spec fn pretty_tree(t: DocTree, pad: Seq<char>) -> Seq<char>
    decreases t, 0int,
{
    match t {
        DocTree::List(items) => if items.len() == 0 {
            "[]"@
        } else if tree_all_scalar(items) {
            "["@ + tree_inline(items, 0) + "]"@
        } else {
            "[\n"@ + tree_items(items, pad + "  "@, 0) + "\n"@ + pad + "]"@
        },
        DocTree::Table(es) => if es.len() == 0 {
            "{}"@
        } else {
            "{\n"@ + tree_entries(es, pad + "  "@, 0) + "\n"@ + pad + "}"@
        },
        _ => tree_scalar_json(t),
    }
}

/// Trees `i..` of a list, one a line at `pad`.
pub open spec fn tree_items(items: Seq<DocTree>, pad: Seq<char>, i: int) -> Seq<char>
    decreases items, items.len() - i,
{
    if i < 0 || i >= items.len() {
        Seq::empty()
    } else {
        let line = pad + pretty_tree(items[i], pad);
        if i + 1 == items.len() {
            line
        } else {
            line + ",\n"@ + tree_items(items, pad, i + 1)
        }
    }
}

/// Entries `i..` of a table of trees, one a line at `pad`.
pub open spec fn tree_entries(es: Seq<(Seq<char>, DocTree)>, pad: Seq<char>, i: int) -> Seq<char>
    decreases es, es.len() - i,
{
    if i < 0 || i >= es.len() {
        Seq::empty()
    } else {
        let line = pad + json_string(es[i].0) + ": "@ + pretty_tree(es[i].1, pad);
        if i + 1 == es.len() {
            line
        } else {
            line + ",\n"@ + tree_entries(es, pad, i + 1)
        }
    }
}

proof fn lemma_inline_tree(items: Seq<DocValue>, i: int)
    requires
        0 <= i <= items.len(),
        item_trees(items, 0) == items.map_values(|x: DocValue| doc_tree(x)),
    ensures
        inline_items(items, i) == tree_inline(item_trees(items, 0), i),
    decreases items.len() - i,
{
    if i < items.len() {
        lemma_inline_tree(items, i + 1);
        assert(item_trees(items, 0)[i] == doc_tree(items[i]));
    }
}

/// A document value prints as its tree does.
pub proof fn lemma_pretty_tree(v: DocValue, pad: Seq<char>)
    ensures
        pretty(v, pad) == pretty_tree(doc_tree(v), pad),
    decreases v, 0int,
{
    match v {
        DocValue::List(items) => {
            lemma_item_trees(items@, 0);
            assert(items@.subrange(0, items@.len() as int) =~= items@);
            let ts = item_trees(items@, 0);
            assert(all_scalar(items@) == tree_all_scalar(ts)) by {
                assert forall|k: int| 0 <= k < items@.len() implies is_scalar(#[trigger] items@[k]) == tree_is_scalar(ts[k]) by {
                    assert(ts[k] == doc_tree(items@[k]));
                }
                if all_scalar(items@) {
                    assert forall|k: int| 0 <= k < ts.len() implies #[trigger] tree_is_scalar(ts[k]) by {
                        assert(is_scalar(items@[k]) == tree_is_scalar(ts[k]));
                    }
                }
                if tree_all_scalar(ts) {
                    assert forall|k: int| 0 <= k < items@.len() implies #[trigger] is_scalar(items@[k]) by {
                        assert(is_scalar(items@[k]) == tree_is_scalar(ts[k]));
                    }
                }
            }
            lemma_inline_tree(items@, 0);
            lemma_block_items_tree(items@, pad + "  "@, 0);
        },
        DocValue::Table(es) => {
            lemma_entry_trees(es@, 0);
            assert(es@.subrange(0, es@.len() as int) =~= es@);
            lemma_block_entries_tree(es@, pad + "  "@, 0);
        },
        _ => {},
    }
}

proof fn lemma_block_items_tree(items: Seq<DocValue>, pad: Seq<char>, i: int)
    requires
        0 <= i <= items.len(),
    ensures
        block_items(items, pad, i) == tree_items(item_trees(items, 0), pad, i),
    decreases items, items.len() - i,
{
    lemma_item_trees(items, 0);
    assert(items.subrange(0, items.len() as int) =~= items);
    if i < items.len() {
        assert(decreases_to!(items => items[i]));
        lemma_pretty_tree(items[i], pad);
        assert(item_trees(items, 0)[i] == doc_tree(items[i]));
        lemma_block_items_tree(items, pad, i + 1);
    }
}

proof fn lemma_block_entries_tree(es: Seq<(String, DocValue)>, pad: Seq<char>, i: int)
    requires
        0 <= i <= es.len(),
    ensures
        block_entries(es, pad, i) == tree_entries(entry_trees(es, 0), pad, i),
    decreases es, es.len() - i,
{
    lemma_entry_trees(es, 0);
    assert(es.subrange(0, es.len() as int) =~= es);
    if i < es.len() {
        assert(decreases_to!(es => es[i]));
        assert(decreases_to!(es[i] => es[i].1));
        lemma_pretty_tree(es[i].1, pad);
        assert(entry_trees(es, 0)[i] == (es[i].0@, doc_tree(es[i].1)));
        lemma_block_entries_tree(es, pad, i + 1);
    }
}

} // verus!
