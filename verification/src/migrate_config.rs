//! The source tool's config as `migrate` reads it: the settings oakum carries
//! into `.changeset/_config.toml`, and the key names it leaves behind.
//!
//! Both source tools name the carried setting `privatePackages`, with the
//! independent `version` and `tag` axes oakum spells `private-packages`;
//! changesets also accepts a bare boolean, which expands to both axes. bumpy's
//! `versionCommitMessage` maps exactly onto `commit-message` and carries when
//! oakum can write it. Every other key is reported, never guessed at.
use vstd::prelude::*;

use crate::config::PrivatePackages;
use crate::plan::Versioning;
use crate::tag_shape::ReadableTemplate;
use crate::documents::{doc_get, doc_text, DocValue};
use crate::text::{
    chars_of, contains, ends_with, join, push_all, push_str, starts_with, string_of, trim,
    trimmed, Text,
};
use crate::write_set::sorted_le;

verus! {

broadcast use crate::views::lemma_text_deep_view;

// ---------------------------------------------------------------------------
// The commit message a source states
// ---------------------------------------------------------------------------

/// Why oakum will not write a stated commit message.
#[derive(Clone, Copy, Debug, PartialEq, Eq, Structural)]
pub enum Refusal {
    Empty,
    WhitespaceOnly,
    /// A newline breaks the config's string form; the rest make a commit
    /// headline no reader wants.
    ControlCharacter,
    /// `commit-message` is rendered as a template, not written literally.
    TemplateSyntax,
    /// A module path is code the source tool runs; oakum runs none.
    ModulePath,
}

/// What completes "oakum could not carry it because ...".
pub open spec fn refusal_reason(r: Refusal) -> Seq<char> {
    match r {
        Refusal::Empty => "it states an empty message"@,
        Refusal::WhitespaceOnly =>
            "it is only whitespace, and `ci version-pr` refuses a message that renders to nothing"@,
        Refusal::ControlCharacter => "it holds a control character, which no commit headline should carry"@,
        Refusal::TemplateSyntax =>
            "it holds template syntax, and `commit-message` is rendered as a template rather than written literally"@,
        Refusal::ModulePath => "it names a module rather than a message, and oakum runs no such module"@,
    }
}

impl Refusal {
    /// Completes "oakum could not carry it because ...".
    pub fn because(self) -> (s: &'static str)
        ensures
            s@ == refusal_reason(self),
    {
        match self {
            Refusal::Empty => "it states an empty message",
            Refusal::WhitespaceOnly =>
                "it is only whitespace, and `ci version-pr` refuses a message that renders to nothing",
            Refusal::ControlCharacter => "it holds a control character, which no commit headline should carry",
            Refusal::TemplateSyntax =>
                "it holds template syntax, and `commit-message` is rendered as a template rather than written literally",
            Refusal::ModulePath => "it names a module rather than a message, and oakum runs no such module",
        }
    }

    /// An empty message is nothing to put back, so it is reported rather than
    /// handed to the reader as work.
    pub fn owed_to_the_reader(self) -> (b: bool)
        ensures
            b == (self != Refusal::Empty),
    {
        !matches!(self, Refusal::Empty)
    }
}

/// What a source tool's `versionCommitMessage` turned out to be.
#[derive(Clone, Debug, PartialEq, Eq)]
pub enum CarriedMessage {
    /// The file states none, or a value that is not a string.
    Absent,
    /// Stated, and identical to what `ci version-pr` writes anyway.
    SameAsDefault,
    /// Stated, and oakum will not write it.
    Unwritable(Refusal),
    /// Stated, and carried into `commit-message`, trimmed.
    Carried(String),
}

/// A carried message as the contracts read it.
pub enum MessageView {
    Absent,
    SameAsDefault,
    Unwritable(Refusal),
    Carried(Seq<char>),
}

impl View for CarriedMessage {
    type V = MessageView;

    open spec fn view(&self) -> MessageView {
        match self {
            CarriedMessage::Absent => MessageView::Absent,
            CarriedMessage::SameAsDefault => MessageView::SameAsDefault,
            CarriedMessage::Unwritable(r) => MessageView::Unwritable(*r),
            CarriedMessage::Carried(m) => MessageView::Carried(m@),
        }
    }
}

/// `char::is_control`: the C0 and C1 control characters.
pub open spec fn is_control(c: char) -> bool {
    let u = c as u32;
    u <= 0x1F || (0x7F <= u && u <= 0x9F)
}

/// Whether a message names code rather than stating a message.
pub open spec fn looks_like_a_module_path(m: Seq<char>) -> bool {
    starts_with(m, "./"@) || starts_with(m, "../"@) || ends_with(m, ".js"@) || ends_with(m, ".mjs"@)
        || ends_with(m, ".cjs"@) || ends_with(m, ".ts"@) || ends_with(m, ".mts"@) || ends_with(m, ".cts"@)
}

/// Why oakum will not write a message stated as `stated`, trimmed to
/// `trimmed`, if it will not.
pub open spec fn refusal_of(stated: Seq<char>, trimmed: Seq<char>) -> Option<Refusal> {
    if stated.len() == 0 {
        Some(Refusal::Empty)
    } else if trimmed.len() == 0 {
        Some(Refusal::WhitespaceOnly)
    } else if exists|i: int| 0 <= i < trimmed.len() && is_control(#[trigger] trimmed[i]) {
        Some(Refusal::ControlCharacter)
    } else if contains(trimmed, "{{"@) || contains(trimmed, "{%"@) || contains(trimmed, "{#"@) {
        Some(Refusal::TemplateSyntax)
    } else if looks_like_a_module_path(trimmed) {
        Some(Refusal::ModulePath)
    } else {
        None
    }
}

fn control(c: char) -> (b: bool)
    ensures
        b == is_control(c),
{
    let u = c as u32;
    u <= 0x1F || (0x7F <= u && u <= 0x9F)
}

fn names_a_module(m: &[char]) -> (b: bool)
    ensures
        b == looks_like_a_module_path(m@),
{
    crate::text::begins_str(m, "./") || crate::text::begins_str(m, "../") || crate::text::finishes_str(m, ".js")
        || crate::text::finishes_str(m, ".mjs") || crate::text::finishes_str(m, ".cjs")
        || crate::text::finishes_str(m, ".ts") || crate::text::finishes_str(m, ".mts")
        || crate::text::finishes_str(m, ".cts")
}

fn refuses_carrying(stated: &[char], trimmed: &[char]) -> (r: Option<Refusal>)
    ensures
        r == refusal_of(stated@, trimmed@),
{
    if stated.len() == 0 {
        return Some(Refusal::Empty);
    }
    if trimmed.len() == 0 {
        return Some(Refusal::WhitespaceOnly);
    }
    let mut i: usize = 0;
    while i < trimmed.len()
        invariant
            stated@.len() > 0,
            trimmed@.len() > 0,
            i <= trimmed@.len(),
            forall|k: int| 0 <= k < i ==> !is_control(#[trigger] trimmed@[k]),
        decreases trimmed@.len() - i,
    {
        if control(trimmed[i]) {
            assert(is_control(trimmed@[i as int]));
            return Some(Refusal::ControlCharacter);
        }
        i = i + 1;
    }
    if crate::text::has_str(trimmed, "{{") || crate::text::has_str(trimmed, "{%") || crate::text::has_str(
        trimmed,
        "{#",
    ) {
        return Some(Refusal::TemplateSyntax);
    }
    if names_a_module(trimmed) {
        return Some(Refusal::ModulePath);
    }
    None
}

/// What a source config states as `versionCommitMessage`, given the message
/// `ci version-pr` writes when none is configured.
pub open spec fn message_of(object: DocValue, default_commit: Seq<char>) -> MessageView {
    match doc_text(doc_get(object, "versionCommitMessage"@)) {
        None => MessageView::Absent,
        Some(m) => {
            let t = trim(m);
            if t == default_commit {
                MessageView::SameAsDefault
            } else {
                match refusal_of(m, t) {
                    Some(r) => MessageView::Unwritable(r),
                    None => MessageView::Carried(t),
                }
            }
        },
    }
}

/// What a source config states as `versionCommitMessage`, classified once,
/// given the message `ci version-pr` writes when none is configured.
pub fn read_commit_message(object: &DocValue, default_commit: &str) -> (m: CarriedMessage)
    ensures
        m@ == message_of(*object, default_commit@),
{
    let stated = match object.get("versionCommitMessage") {
        Some(DocValue::Text(s)) => chars_of(s.as_str()),
        _ => return CarriedMessage::Absent,
    };
    let t = trimmed(&stated);
    if crate::text::is(&t, default_commit) {
        return CarriedMessage::SameAsDefault;
    }
    match refuses_carrying(&stated, &t) {
        Some(r) => CarriedMessage::Unwritable(r),
        None => CarriedMessage::Carried(string_of(&t)),
    }
}

// ---------------------------------------------------------------------------
// privatePackages
// ---------------------------------------------------------------------------

/// A lowercase hexadecimal digit.
pub open spec fn hex_digit(d: int) -> char {
    seq!['0', '1', '2', '3', '4', '5', '6', '7', '8', '9', 'a', 'b', 'c', 'd', 'e', 'f'][d]
}

/// One character as `serde_json` writes it inside a string: the quote and
/// the backslash escaped, backspace, form feed, line feed, carriage return
/// and tab by their short escapes, every other control character below
/// U+0020 as `\u00XX` in lowercase hex, and everything else as it is.
pub open spec fn json_escape_char(c: char) -> Seq<char> {
    let u = c as u32 as int;
    if c == '"' {
        seq!['\\', '"']
    } else if c == '\\' {
        seq!['\\', '\\']
    } else if u == 8 {
        seq!['\\', 'b']
    } else if u == 12 {
        seq!['\\', 'f']
    } else if c == '\n' {
        seq!['\\', 'n']
    } else if c == '\r' {
        seq!['\\', 'r']
    } else if c == '\t' {
        seq!['\\', 't']
    } else if u < 32 {
        seq!['\\', 'u', '0', '0', hex_digit(u / 16), hex_digit(u % 16)]
    } else {
        seq![c]
    }
}

/// The characters of `s`, each as `serde_json` writes it inside a string.
pub open spec fn json_escaped(s: Seq<char>) -> Seq<char>
    decreases s.len(),
{
    if s.len() == 0 {
        Seq::empty()
    } else {
        json_escaped(s.drop_last()) + json_escape_char(s.last())
    }
}

/// A JSON string written the way `serde_json` writes it: in double quotes,
/// each character escaped as above.
pub open spec fn json_string(s: Seq<char>) -> Seq<char> {
    seq!['"'] + json_escaped(s) + seq!['"']
}

/// `s` as `serde_json::to_string` writes a string: quoted, with its
/// per-character escape table. Serializing a `str` cannot fail.
#[verifier::external_body]
pub(crate) fn json_quoted(s: &str) -> (out: String)
    ensures
        out@ == json_string(s@),
{
    match serde_json::to_string(s) {
        Ok(t) => t,
        Err(e) => e.to_string(),
    }
}

/// A document value written as compact JSON, as `serde_json::Value`
/// displays: text quoted, flags as `true`/`false`, any other scalar as the
/// document wrote it, lists and tables with `,` between items and `:` after
/// each key.
pub open spec fn json_shown(v: DocValue) -> Seq<char>
    decreases v, 0int,
{
    match v {
        DocValue::Text(s) => json_string(s@),
        DocValue::Flag(b) => if b {
            "true"@
        } else {
            "false"@
        },
        DocValue::Other(s) => s@,
        DocValue::List(items) => "["@ + shown_items(items@, items@.len() as int) + "]"@,
        DocValue::Table(es) => "{"@ + shown_entries(es@, es@.len() as int) + "}"@,
    }
}

/// The first `n` of `items` as compact JSON, comma-separated.
pub open spec fn shown_items(items: Seq<DocValue>, n: int) -> Seq<char>
    decreases items, n,
{
    if n <= 0 || n > items.len() {
        Seq::empty()
    } else if n == 1 {
        json_shown(items[0])
    } else {
        shown_items(items, n - 1) + ","@ + json_shown(items[n - 1])
    }
}

/// The first `n` of `es` as compact JSON `key:value` pairs, comma-separated.
pub open spec fn shown_entries(es: Seq<(String, DocValue)>, n: int) -> Seq<char>
    decreases es, n,
{
    if n <= 0 || n > es.len() {
        Seq::empty()
    } else if n == 1 {
        json_string(es[0].0@) + ":"@ + json_shown(es[0].1)
    } else {
        shown_entries(es, n - 1) + ","@ + json_string(es[n - 1].0@) + ":"@ + json_shown(es[n - 1].1)
    }
}

fn json_shown_of(v: &DocValue) -> (out: Text)
    ensures
        out@ == json_shown(*v),
    decreases v,
{
    match v {
        DocValue::Text(s) => chars_of(json_quoted(s.as_str()).as_str()),
        DocValue::Flag(b) => if *b {
            chars_of("true")
        } else {
            chars_of("false")
        },
        DocValue::Other(s) => chars_of(s.as_str()),
        DocValue::List(items) => {
            let mut out: Text = Vec::new();
            let mut i: usize = 0;
            while i < items.len()
                invariant
                    *v == DocValue::List(*items),
                    i <= items@.len(),
                    out@ == shown_items(items@, i as int),
                decreases items@.len() - i,
            {
                assert(decreases_to!(*v => (*v)->List_0));
                assert(decreases_to!(*items => items@));
                assert(decreases_to!(items@ => items@[i as int]));
                let item = json_shown_of(&items[i]);
                if i > 0 {
                    push_str(&mut out, ",");
                }
                push_all(&mut out, &item);
                i = i + 1;
            }
            let mut r = chars_of("[");
            push_all(&mut r, &out);
            push_str(&mut r, "]");
            r
        },
        DocValue::Table(es) => {
            let mut out: Text = Vec::new();
            let mut i: usize = 0;
            while i < es.len()
                invariant
                    *v == DocValue::Table(*es),
                    i <= es@.len(),
                    out@ == shown_entries(es@, i as int),
                decreases es@.len() - i,
            {
                assert(decreases_to!(*v => (*v)->Table_0));
                assert(decreases_to!(*es => es@));
                assert(decreases_to!(es@ => es@[i as int]));
                assert(decreases_to!(es@[i as int] => es@[i as int].1));
                let value = json_shown_of(&es[i].1);
                if i > 0 {
                    push_str(&mut out, ",");
                }
                push_all(&mut out, &chars_of(json_quoted(es[i].0.as_str()).as_str()));
                push_str(&mut out, ":");
                push_all(&mut out, &value);
                i = i + 1;
            }
            let mut r = chars_of("{");
            push_all(&mut r, &out);
            push_str(&mut r, "}");
            r
        },
    }
}

/// One axis of an object-form `privatePackages`: absent is off; anything
/// but a boolean, `null` included, is refused.
pub open spec fn axis_of(file: Seq<char>, object: DocValue, name: Seq<char>) -> Result<bool, Seq<char>> {
    match doc_get(object, name) {
        None => Ok(false),
        Some(DocValue::Flag(b)) => Ok(b),
        Some(other) => Err("`privatePackages."@ + name + "` in `"@ + file + "` is `"@ + json_shown(other)
            + "`, not a boolean"@),
    }
}

/// What a source file's `privatePackages` opts in: a bare boolean turns both
/// axes, an object each of its own.
pub open spec fn private_packages_of(file: Seq<char>, value: DocValue) -> Result<(bool, bool), Seq<char>> {
    match value {
        DocValue::Flag(on) => Ok((on, on)),
        DocValue::Table(_) => match axis_of(file, value, "version"@) {
            Err(e) => Err(e),
            Ok(v) => match axis_of(file, value, "tag"@) {
                Err(e) => Err(e),
                Ok(t) => Ok((v, t)),
            },
        },
        _ => Err("`privatePackages` in `"@ + file + "` is neither an object nor a boolean"@),
    }
}

fn axis(file: &str, object: &DocValue, name: &str) -> (r: Result<bool, String>)
    ensures
        match axis_of(file@, *object, name@) {
            Ok(b) => r == Ok::<bool, String>(b),
            Err(e) => r matches Err(x) && x@ == e,
        },
{
    match object.get(name) {
        None => Ok(false),
        Some(DocValue::Flag(b)) => Ok(*b),
        Some(other) => {
            let mut m = chars_of("`privatePackages.");
            push_str(&mut m, name);
            push_str(&mut m, "` in `");
            push_str(&mut m, file);
            push_str(&mut m, "` is `");
            push_all(&mut m, &json_shown_of(other));
            push_str(&mut m, "`, not a boolean");
            Err(string_of(&m))
        },
    }
}

/// What a source file's `privatePackages` opts in, or why it cannot be read.
pub fn parse_private_packages(file: &str, value: &DocValue) -> (r: Result<PrivatePackages, String>)
    ensures
        match private_packages_of(file@, *value) {
            Ok(p) => r matches Ok(x) && x@ == p,
            Err(e) => r matches Err(x) && x@ == e,
        },
{
    match value {
        DocValue::Flag(on) => Ok(PrivatePackages::new(*on, *on)),
        DocValue::Table(_) => {
            let version = axis(file, value, "version")?;
            let tag = axis(file, value, "tag")?;
            Ok(PrivatePackages::new(version, tag))
        },
        _ => {
            let mut m = chars_of("`privatePackages` in `");
            push_str(&mut m, file);
            push_str(&mut m, "` is neither an object nor a boolean");
            Err(string_of(&m))
        },
    }
}

// ---------------------------------------------------------------------------
// One source config file
// ---------------------------------------------------------------------------

/// One source config file, read once: what oakum carries out of it and what
/// it does not.
#[derive(Debug)]
pub struct SourceConfig {
    /// Repository-relative, and still on disk after migrate.
    pub file: String,
    /// Top-level key names with no oakum counterpart, sorted.
    pub dropped: Vec<String>,
    pub commit_message: CarriedMessage,
    /// `None` when the file did not set `privatePackages`.
    pub private_packages: Option<PrivatePackages>,
}

/// The view of an optional `privatePackages` setting.
pub open spec fn opt_private_view(p: Option<PrivatePackages>) -> Option<(bool, bool)> {
    match p {
        Some(x) => Some(x@),
        None => None,
    }
}

impl SourceConfig {
    /// The carried setting, only when it opts an axis in: both axes off is
    /// what an absent setting already means.
    pub fn carried_private_packages(&self) -> (r: Option<PrivatePackages>)
        ensures
            opt_private_view(r) == match opt_private_view(self.private_packages) {
                Some(p) => if p.0 || p.1 {
                    Some(p)
                } else {
                    None
                },
                None => None,
            },
    {
        match self.private_packages {
            Some(p) => if p.any() {
                Some(p)
            } else {
                None
            },
            None => None,
        }
    }
}

/// The key names of a table's entries, in order.
pub open spec fn keys_of(es: Seq<(String, DocValue)>) -> Seq<Seq<char>>
    decreases es.len(),
{
    if es.len() == 0 {
        Seq::empty()
    } else {
        keys_of(es.drop_last()).push(es.last().0@)
    }
}

/// `keys` without those `carried` holds.
pub open spec fn without_keys(keys: Seq<Seq<char>>, carried: Seq<Seq<char>>) -> Seq<Seq<char>>
    decreases keys.len(),
{
    if keys.len() == 0 {
        Seq::empty()
    } else if carried.contains(keys.last()) {
        without_keys(keys.drop_last(), carried)
    } else {
        without_keys(keys.drop_last(), carried).push(keys.last())
    }
}

/// The keys a source file's settings are carried under: `versionCommitMessage`
/// too, unless the file states none, since every other outcome is reported
/// by name.
pub open spec fn carried_keys(m: MessageView) -> Seq<Seq<char>> {
    if m is Absent {
        seq!["privatePackages"@]
    } else {
        seq!["privatePackages"@, "versionCommitMessage"@]
    }
}

/// A parsed source config file: its `privatePackages` setting, its commit
/// message, and the keys it leaves behind (in the file's order); or why it
/// cannot be used.
pub open spec fn source_config_of(file: Seq<char>, object: DocValue, default_commit: Seq<char>) -> Result<(Option<(bool, bool)>, MessageView, Seq<Seq<char>>), Seq<char>> {
    match object {
        DocValue::Table(es) => {
            let m = message_of(object, default_commit);
            let dropped = without_keys(keys_of(es@), carried_keys(m));
            match doc_get(object, "privatePackages"@) {
                None => Ok((None, m, dropped)),
                Some(pv) => match private_packages_of(file, pv) {
                    Ok(p) => Ok((Some(p), m, dropped)),
                    Err(e) => Err(e),
                },
            }
        },
        _ => Err("`"@ + file + "` is not a JSON object"@),
    }
}

/// A source config file `file` as parsed JSON, given the message
/// `ci version-pr` writes when none is configured; or why it cannot be used.
/// The dropped keys come sorted.
pub fn parse_source_config(file: &str, object: &DocValue, default_commit: &str) -> (r: Result<SourceConfig, String>)
    ensures
        match source_config_of(file@, *object, default_commit@) {
            Ok((p, m, dropped)) => r matches Ok(c) && c.file@ == file@ && opt_private_view(c.private_packages) == p
                && c.commit_message@ == m && sorted_le(c.dropped.deep_view())
                && c.dropped.deep_view().to_multiset() == dropped.to_multiset(),
            Err(e) => r matches Err(x) && x@ == e,
        },
{
    let es = match object {
        DocValue::Table(es) => es,
        _ => {
            let mut m = chars_of("`");
            push_str(&mut m, file);
            push_str(&mut m, "` is not a JSON object");
            return Err(string_of(&m));
        },
    };
    let private_packages = match object.get("privatePackages") {
        None => None,
        Some(pv) => Some(parse_private_packages(file, pv)?),
    };
    let commit_message = read_commit_message(object, default_commit);
    let also_message = !matches!(commit_message, CarriedMessage::Absent);
    let ghost carried = carried_keys(commit_message@);
    let mut dropped: Vec<String> = Vec::new();
    let mut i: usize = 0;
    assert(es@.take(0) =~= Seq::<(String, DocValue)>::empty());
    proof {
        reveal_strlit("privatePackages");
        reveal_strlit("versionCommitMessage");
    }
    while i < es.len()
        invariant
            i <= es@.len(),
            carried == carried_keys(commit_message@),
            also_message == !(commit_message@ is Absent),
            dropped.deep_view() == without_keys(keys_of(es@.take(i as int)), carried),
        decreases es@.len() - i,
    {
        assert(es@.take(i + 1).drop_last() == es@.take(i as int));
        assert(es@.take(i + 1).last() == es@[i as int]);
        let ghost ks = keys_of(es@.take(i as int));
        assert(keys_of(es@.take(i + 1)) == ks.push(es@[i as int].0@));
        assert(ks.push(es@[i as int].0@).drop_last() =~= ks);
        let key = chars_of(es[i].0.as_str());
        let is_carried = crate::text::is(&key, "privatePackages") || (also_message && crate::text::is(
            &key,
            "versionCommitMessage",
        ));
        proof {
            reveal_strlit("privatePackages");
            reveal_strlit("versionCommitMessage");
            assert(is_carried == carried.contains(es@[i as int].0@)) by {
                if carried.contains(es@[i as int].0@) {
                    let k = choose|k: int| 0 <= k < carried.len() && carried[k] == es@[i as int].0@;
                    assert(k == 0 || k == 1);
                }
                if also_message {
                    assert(carried[1] == "versionCommitMessage"@);
                }
                assert(carried[0] == "privatePackages"@);
            }
        }
        if !is_carried {
            let ghost before = dropped.deep_view();
            dropped.push(es[i].0.clone());
            assert(dropped.deep_view() =~= before.push(es@[i as int].0@));
        }
        i = i + 1;
    }
    assert(es@.take(es@.len() as int) == es@);
    crate::write_set::sort_strings(&mut dropped);
    Ok(SourceConfig { file: file.to_owned(), dropped, commit_message, private_packages })
}

/// The refusal for a source config that is not JSON, given the parser's
/// own words.
pub fn not_valid_json(file: &str, err: &str) -> (out: String)
    ensures
        out@ == "`"@ + file@ + "` is not valid JSON: "@ + err@,
{
    let mut m = chars_of("`");
    push_str(&mut m, file);
    push_str(&mut m, "` is not valid JSON: ");
    push_str(&mut m, err);
    string_of(&m)
}

/// The line for a source config that could not be used.
pub open spec fn unreadable_line(file: Seq<char>, err: Seq<char>) -> Seq<char> {
    "could not use `"@ + file + "` ("@ + err
        + "); no settings carried from it, including `privatePackages` if it set one"@
}

/// The line for a source config that could not be used: nothing was carried
/// from it, perhaps an opt-in.
pub fn unreadable_config_line(file: &str, err: &str) -> (out: String)
    ensures
        out@ == unreadable_line(file@, err@),
{
    let mut m = chars_of("could not use `");
    push_str(&mut m, file);
    push_str(&mut m, "` (");
    push_str(&mut m, err);
    push_str(&mut m, "); no settings carried from it, including `privatePackages` if it set one");
    string_of(&m)
}

// ---------------------------------------------------------------------------
// Across the source configs of a repository
// ---------------------------------------------------------------------------

/// Each axis on when any source file turned it on.
pub open spec fn carried_axes(cs: Seq<SourceConfig>) -> (bool, bool)
    decreases cs.len(),
{
    if cs.len() == 0 {
        (false, false)
    } else {
        let (v, t) = carried_axes(cs.drop_last());
        match opt_private_view(cs.last().private_packages) {
            Some(p) => (v || p.0, t || p.1),
            None => (v, t),
        }
    }
}

/// On if any source file turned that axis on.
pub fn carried_private_packages(configs: &Vec<SourceConfig>) -> (p: PrivatePackages)
    ensures
        p@ == carried_axes(configs@),
{
    let mut acc = PrivatePackages::default();
    let mut i: usize = 0;
    assert(configs@.take(0) =~= Seq::<SourceConfig>::empty());
    while i < configs.len()
        invariant
            i <= configs@.len(),
            acc@ == carried_axes(configs@.take(i as int)),
        decreases configs@.len() - i,
    {
        assert(configs@.take(i + 1).drop_last() == configs@.take(i as int));
        assert(configs@.take(i + 1).last() == configs@[i as int]);
        if let Some(p) = configs[i].private_packages {
            acc = acc.union(p);
        }
        i = i + 1;
    }
    assert(configs@.take(configs@.len() as int) == configs@);
    acc
}

/// Whether a config left `key` behind.
pub open spec fn drops(c: SourceConfig, key: Seq<char>) -> bool {
    c.dropped.deep_view().contains(key)
}

fn dropped_key(c: &SourceConfig, key: &str) -> (b: bool)
    ensures
        b == drops(*c, key@),
{
    let k = chars_of(key);
    let ghost dv = c.dropped.deep_view();
    let mut i: usize = 0;
    while i < c.dropped.len()
        invariant
            k@ == key@,
            dv == c.dropped.deep_view(),
            i <= dv.len(),
            forall|j: int| 0 <= j < i ==> dv[j] != key@,
        decreases dv.len() - i,
    {
        assert(dv[i as int] == c.dropped@[i as int]@);
        if crate::text::same(&chars_of(c.dropped[i].as_str()), &k) {
            return true;
        }
        i = i + 1;
    }
    false
}

/// The steps for a key dropped from each config whose absence changes an
/// outcome, one per config that left it behind.
pub open spec fn drop_steps(cs: Seq<SourceConfig>, key: Seq<char>, step: spec_fn(Seq<char>) -> Seq<char>) -> Seq<Seq<char>>
    decreases cs.len(),
{
    if cs.len() == 0 {
        Seq::empty()
    } else if drops(cs.last(), key) {
        drop_steps(cs.drop_last(), key, step).push(step(cs.last().file@))
    } else {
        drop_steps(cs.drop_last(), key, step)
    }
}

/// The step `gitUser` left behind in `file`.
pub open spec fn git_user_step(file: Seq<char>) -> Seq<char> {
    "- `gitUser` from `"@ + file
        + "` was not carried over: it set who authored release commits and tags; oakum has no identity key. `git config user.name` / `user.email` in that job decides the tagger; the version commit is written through the GitHub API and carries the token's own account, which no git config can change"@
}

/// The step `changelog` left behind in `file`.
pub open spec fn changelog_step(file: Seq<char>) -> Seq<char> {
    "- decide what `changelog` from `"@ + file
        + "` should become: oakum's nearest setting is `template`, which does not mean the same thing, so oakum wrote neither"@
}

fn steps_for_dropped(configs: &Vec<SourceConfig>, key: &str, before: &str, after: &str) -> (out: Vec<String>)
    ensures
        out@.map_values(|s: String| s@) == drop_steps(configs@, key@, |f: Seq<char>| before@ + f + after@),
{
    let mut out: Vec<String> = Vec::new();
    let mut i: usize = 0;
    assert(configs@.take(0) =~= Seq::<SourceConfig>::empty());
    while i < configs.len()
        invariant
            i <= configs@.len(),
            out@.map_values(|s: String| s@) == drop_steps(configs@.take(i as int), key@, |f: Seq<char>| before@ + f + after@),
        decreases configs@.len() - i,
    {
        assert(configs@.take(i + 1).drop_last() == configs@.take(i as int));
        assert(configs@.take(i + 1).last() == configs@[i as int]);
        if dropped_key(&configs[i], key) {
            let mut m = chars_of(before);
            push_str(&mut m, configs[i].file.as_str());
            push_str(&mut m, after);
            let line = string_of(&m);
            let ghost prev = out@;
            out.push(line);
            assert(out@.map_values(|s: String| s@) =~= prev.map_values(|s: String| s@).push(before@ + configs@[i as int].file@ + after@));
        }
        i = i + 1;
    }
    assert(configs@.take(configs@.len() as int) == configs@);
    out
}

/// The remaining step for each dropped key whose absence changes an outcome
/// (`gitUser`: who authors release commits and tags).
pub fn consequential_drop_steps(configs: &Vec<SourceConfig>) -> (out: Vec<String>)
    ensures
        out@.map_values(|s: String| s@) == drop_steps(configs@, "gitUser"@, |f: Seq<char>| git_user_step(f)),
{
    let out = steps_for_dropped(
        configs,
        "gitUser",
        "- `gitUser` from `",
        "` was not carried over: it set who authored release commits and tags; oakum has no identity key. `git config user.name` / `user.email` in that job decides the tagger; the version commit is written through the GitHub API and carries the token's own account, which no git config can change",
    );
    assert((|f: Seq<char>| git_user_step(f)) =~= (|f: Seq<char>|
        "- `gitUser` from `"@ + f
            + "` was not carried over: it set who authored release commits and tags; oakum has no identity key. `git config user.name` / `user.email` in that job decides the tagger; the version commit is written through the GitHub API and carries the token's own account, which no git config can change"@));
    out
}

/// The remaining step for each dropped key oakum has a near-equivalent for
/// that does not mean the same thing (`changelog` against `template`).
pub fn lossy_mapping_steps(configs: &Vec<SourceConfig>) -> (out: Vec<String>)
    ensures
        out@.map_values(|s: String| s@) == drop_steps(configs@, "changelog"@, |f: Seq<char>| changelog_step(f)),
{
    let out = steps_for_dropped(
        configs,
        "changelog",
        "- decide what `changelog` from `",
        "` should become: oakum's nearest setting is `template`, which does not mean the same thing, so oakum wrote neither",
    );
    assert((|f: Seq<char>| changelog_step(f)) =~= (|f: Seq<char>|
        "- decide what `changelog` from `"@ + f
            + "` should become: oakum's nearest setting is `template`, which does not mean the same thing, so oakum wrote neither"@));
    out
}

/// The first config, from `i` on, that carries a message.
pub open spec fn first_carried_from(cs: Seq<SourceConfig>, i: int) -> Option<int>
    decreases cs.len() - i,
{
    if i < 0 || i >= cs.len() {
        None
    } else if cs[i].commit_message@ is Carried {
        Some(i)
    } else {
        first_carried_from(cs, i + 1)
    }
}

/// The one message that reaches the config, and which file stated it: the
/// first carried one.
pub open spec fn chosen_of(cs: Seq<SourceConfig>) -> Option<(Seq<char>, Seq<char>)> {
    match first_carried_from(cs, 0) {
        Some(i) => Some((cs[i].file@, cs[i].commit_message@->Carried_0)),
        None => None,
    }
}

proof fn lemma_first_carried(cs: Seq<SourceConfig>, i: int)
    ensures
        first_carried_from(cs, i) matches Some(k) ==> 0 <= i <= k < cs.len(),
    decreases cs.len() - i,
{
    if !(i < 0 || i >= cs.len()) && !(cs[i].commit_message@ is Carried) {
        lemma_first_carried(cs, i + 1);
    }
}

/// The one message that reaches the config, and which file stated it.
pub fn chosen_commit_message(configs: &Vec<SourceConfig>) -> (r: Option<(String, String)>)
    ensures
        match chosen_of(configs@) {
            Some((f, m)) => r matches Some((x, y)) && x@ == f && y@ == m,
            None => r is None,
        },
{
    let mut i: usize = 0;
    while i < configs.len()
        invariant
            i <= configs@.len(),
            first_carried_from(configs@, 0) == first_carried_from(configs@, i as int),
        decreases configs@.len() - i,
    {
        if let CarriedMessage::Carried(m) = &configs[i].commit_message {
            return Some((configs[i].file.clone(), m.clone()));
        }
        i = i + 1;
    }
    None
}

/// What each config's commit message comes to as a remaining step, given
/// the file whose message oakum wrote, if any.
pub open spec fn message_step(c: SourceConfig, chosen: Option<(Seq<char>, Seq<char>)>) -> Option<Seq<char>> {
    match c.commit_message@ {
        MessageView::Absent => None,
        MessageView::Carried(_) => None,
        MessageView::SameAsDefault => if chosen is None {
            Some("- `versionCommitMessage` in `"@ + c.file@ + "` is what oakum writes anyway, so no `commit-message` line was needed"@)
        } else {
            Some("- `versionCommitMessage` in `"@ + c.file@ + "` was not carried: another source file states one oakum wrote instead"@)
        },
        MessageView::Unwritable(r) => if r != Refusal::Empty {
            match chosen {
                Some((cf, _)) => Some("- restore `versionCommitMessage` from `"@ + c.file@
                    + "` by hand only if you want it instead of the one oakum wrote from `"@ + cf
                    + "`: oakum could not carry it because "@ + refusal_reason(r)),
                None => Some("- restore `versionCommitMessage` from `"@ + c.file@
                    + "` by hand: oakum could not carry it because "@ + refusal_reason(r)),
            }
        } else {
            Some("- `versionCommitMessage` in `"@ + c.file@ + "` was not carried: "@ + refusal_reason(r))
        },
    }
}

/// The message steps of the configs, in order.
pub open spec fn message_steps(cs: Seq<SourceConfig>, chosen: Option<(Seq<char>, Seq<char>)>) -> Seq<Seq<char>>
    decreases cs.len(),
{
    if cs.len() == 0 {
        Seq::empty()
    } else {
        match message_step(cs.last(), chosen) {
            Some(s) => message_steps(cs.drop_last(), chosen).push(s),
            None => message_steps(cs.drop_last(), chosen),
        }
    }
}

fn message_step_of(c: &SourceConfig, chosen: &Option<(String, String)>) -> (r: Option<String>)
    ensures
        message_step(
            *c,
            match chosen {
                Some((f, m)) => Some((f@, m@)),
                None => None,
            },
        ) == match r {
            Some(s) => Some(s@),
            None => None::<Seq<char>>,
        },
{
    match &c.commit_message {
        CarriedMessage::Absent => None,
        CarriedMessage::Carried(_) => None,
        CarriedMessage::SameAsDefault => {
            let mut m = chars_of("- `versionCommitMessage` in `");
            push_str(&mut m, c.file.as_str());
            if chosen.is_none() {
                push_str(&mut m, "` is what oakum writes anyway, so no `commit-message` line was needed");
            } else {
                push_str(&mut m, "` was not carried: another source file states one oakum wrote instead");
            }
            Some(string_of(&m))
        },
        CarriedMessage::Unwritable(r) => {
            if r.owed_to_the_reader() {
                let mut m = chars_of("- restore `versionCommitMessage` from `");
                push_str(&mut m, c.file.as_str());
                match chosen {
                    Some((cf, _)) => {
                        push_str(&mut m, "` by hand only if you want it instead of the one oakum wrote from `");
                        push_str(&mut m, cf.as_str());
                        push_str(&mut m, "`: oakum could not carry it because ");
                    },
                    None => {
                        push_str(&mut m, "` by hand: oakum could not carry it because ");
                    },
                }
                push_str(&mut m, r.because());
                Some(string_of(&m))
            } else {
                let mut m = chars_of("- `versionCommitMessage` in `");
                push_str(&mut m, c.file.as_str());
                push_str(&mut m, "` was not carried: ");
                push_str(&mut m, r.because());
                Some(string_of(&m))
            }
        },
    }
}

/// The remaining step for each stated message oakum did not write, and the
/// note for one it did not need to.
pub fn commit_message_steps(configs: &Vec<SourceConfig>) -> (out: Vec<String>)
    ensures
        out@.map_values(|s: String| s@) == message_steps(configs@, chosen_of(configs@)),
{
    let chosen = chosen_commit_message(configs);
    let ghost cv = chosen_of(configs@);
    let mut out: Vec<String> = Vec::new();
    let mut i: usize = 0;
    assert(configs@.take(0) =~= Seq::<SourceConfig>::empty());
    while i < configs.len()
        invariant
            i <= configs@.len(),
            cv == chosen_of(configs@),
            cv == match chosen {
                Some((f, m)) => Some((f@, m@)),
                None => None,
            },
            out@.map_values(|s: String| s@) == message_steps(configs@.take(i as int), cv),
        decreases configs@.len() - i,
    {
        assert(configs@.take(i + 1).drop_last() == configs@.take(i as int));
        assert(configs@.take(i + 1).last() == configs@[i as int]);
        if let Some(step) = message_step_of(&configs[i], &chosen) {
            let ghost prev = out@;
            let ghost sv = step@;
            out.push(step);
            assert(out@.map_values(|s: String| s@) =~= prev.map_values(|s: String| s@).push(sv));
        }
        i = i + 1;
    }
    assert(configs@.take(configs@.len() as int) == configs@);
    out
}

/// The configs from `i` on that carry a message after `winner` already did.
pub open spec fn shadowed_from(cs: Seq<SourceConfig>, i: int, winner: Option<Seq<char>>) -> Seq<Seq<char>>
    decreases cs.len() - i,
{
    if i < 0 || i >= cs.len() {
        Seq::empty()
    } else if !(cs[i].commit_message@ is Carried) {
        shadowed_from(cs, i + 1, winner)
    } else {
        match winner {
            None => shadowed_from(cs, i + 1, Some(cs[i].file@)),
            Some(chosen) => seq![
                "- `versionCommitMessage` in `"@ + cs[i].file@ + "` was not carried: `"@ + chosen
                    + "` states one too, and oakum writes a single `commit-message`"@,
            ] + shadowed_from(cs, i + 1, winner),
        }
    }
}

/// A message a later source file stated and oakum did not write, so the
/// loser is not lost silently.
pub fn shadowed_commit_messages(configs: &Vec<SourceConfig>) -> (out: Vec<String>)
    ensures
        out@.map_values(|s: String| s@) == shadowed_from(configs@, 0, None),
{
    let mut out: Vec<String> = Vec::new();
    let mut winner: Option<String> = None;
    let mut i: usize = 0;
    while i < configs.len()
        invariant
            i <= configs@.len(),
            shadowed_from(configs@, 0, None) == out@.map_values(|s: String| s@) + shadowed_from(
                configs@,
                i as int,
                match winner {
                    Some(w) => Some(w@),
                    None => None,
                },
            ),
        decreases configs@.len() - i,
    {
        if let CarriedMessage::Carried(_) = &configs[i].commit_message {
            match &winner {
                None => {
                    winner = Some(configs[i].file.clone());
                },
                Some(chosen) => {
                    let mut m = chars_of("- `versionCommitMessage` in `");
                    push_str(&mut m, configs[i].file.as_str());
                    push_str(&mut m, "` was not carried: `");
                    push_str(&mut m, chosen.as_str());
                    push_str(&mut m, "` states one too, and oakum writes a single `commit-message`");
                    let line = string_of(&m);
                    let ghost prev = out@;
                    let ghost lv = line@;
                    let ghost rest = shadowed_from(configs@, i + 1, Some(chosen@));
                    out.push(line);
                    assert(out@.map_values(|s: String| s@) =~= prev.map_values(|s: String| s@).push(lv));
                    assert(prev.map_values(|s: String| s@) + (seq![lv] + rest) =~= out@.map_values(|s: String| s@) + rest);
                },
            }
        }
        i = i + 1;
    }
    assert(out@.map_values(|s: String| s@) + Seq::<Seq<char>>::empty() =~= out@.map_values(|s: String| s@));
    out
}

/// The preferences `_config.toml` records after a migration.
#[derive(Debug)]
pub struct ConfigSettings {
    pub change_files: bool,
    pub conventional_commits: bool,
    pub versioning: Versioning,
    pub private_packages: PrivatePackages,
    /// Set only when the repository's tags derive a shape the default would
    /// not write.
    pub tag_format: Option<ReadableTemplate>,
    /// Carried from a source tool's own setting.
    pub commit_message: Option<String>,
}

/// What `migrate` writes into `_config.toml`: both intent mechanisms on, the
/// versioning it inferred, the source tools' carried settings, and the tag
/// shape derived from the repository's own history.
pub fn migrated_settings(versioning: Versioning, configs: &Vec<SourceConfig>, tag_format: Option<ReadableTemplate>) -> (s: ConfigSettings)
    ensures
        s.change_files && s.conventional_commits,
        s.versioning == versioning,
        s.private_packages@ == carried_axes(configs@),
        s.tag_format == tag_format,
        match chosen_of(configs@) {
            Some((_, m)) => s.commit_message matches Some(x) && x@ == m,
            None => s.commit_message is None,
        },
{
    ConfigSettings {
        change_files: true,
        conventional_commits: true,
        versioning,
        private_packages: carried_private_packages(configs),
        tag_format,
        commit_message: match chosen_commit_message(configs) {
            Some((_, m)) => Some(m),
            None => None,
        },
    }
}

// ---------------------------------------------------------------------------
// Laws
// ---------------------------------------------------------------------------

/// Whether a source file turns the `version` axis on.
pub open spec fn opts_version(c: SourceConfig) -> bool {
    c.private_packages matches Some(p) && p@.0
}

/// Whether a source file turns the `tag` axis on.
pub open spec fn opts_tag(c: SourceConfig) -> bool {
    c.private_packages matches Some(p) && p@.1
}

/// An axis is carried exactly when some source file turns it on.
pub proof fn lemma_an_axis_is_carried_exactly_when_a_source_opts_in(cs: Seq<SourceConfig>)
    ensures
        carried_axes(cs).0 == (exists|k: int| 0 <= k < cs.len() && opts_version(#[trigger] cs[k])),
        carried_axes(cs).1 == (exists|k: int| 0 <= k < cs.len() && opts_tag(#[trigger] cs[k])),
    decreases cs.len(),
{
    if cs.len() > 0 {
        let rest = cs.drop_last();
        lemma_an_axis_is_carried_exactly_when_a_source_opts_in(rest);
        assert forall|k: int| 0 <= k < rest.len() implies #[trigger] rest[k] == cs[k] by {}
        if exists|k: int| 0 <= k < cs.len() && opts_version(#[trigger] cs[k]) {
            let k = choose|k: int| 0 <= k < cs.len() && opts_version(#[trigger] cs[k]);
            if k < cs.len() - 1 {
                assert(rest[k] == cs[k]);
            } else {
                assert(cs[k] == cs.last());
            }
        }
        if exists|k: int| 0 <= k < cs.len() && opts_tag(#[trigger] cs[k]) {
            let k = choose|k: int| 0 <= k < cs.len() && opts_tag(#[trigger] cs[k]);
            if k < cs.len() - 1 {
                assert(rest[k] == cs[k]);
            } else {
                assert(cs[k] == cs.last());
            }
        }
    }
}

proof fn lemma_without_keys(keys: Seq<Seq<char>>, carried: Seq<Seq<char>>)
    ensures
        forall|k: int| 0 <= k < without_keys(keys, carried).len() ==> !carried.contains(
            #[trigger] without_keys(keys, carried)[k],
        ),
    decreases keys.len(),
{
    if keys.len() > 0 {
        lemma_without_keys(keys.drop_last(), carried);
        let w = without_keys(keys.drop_last(), carried);
        if !carried.contains(keys.last()) {
            assert forall|k: int| 0 <= k < w.push(keys.last()).len() implies !carried.contains(
                #[trigger] w.push(keys.last())[k],
            ) by {
                if k < w.len() {
                    assert(w.push(keys.last())[k] == w[k]);
                }
            }
        }
    }
}

/// The settings a source file carries are never reported as left behind:
/// `privatePackages` never, and `versionCommitMessage` whenever the file
/// states a message.
pub proof fn lemma_carried_keys_are_never_dropped(file: Seq<char>, object: DocValue, default_commit: Seq<char>)
    ensures
        source_config_of(file, object, default_commit) matches Ok((_, m, dropped)) ==> !dropped.contains(
            "privatePackages"@,
        ) && (!(m is Absent) ==> !dropped.contains("versionCommitMessage"@)),
{
    if let DocValue::Table(es) = object {
        let m = message_of(object, default_commit);
        let carried = carried_keys(m);
        lemma_without_keys(keys_of(es@), carried);
        let d = without_keys(keys_of(es@), carried);
        assert(carried.contains("privatePackages"@)) by {
            assert(carried[0] == "privatePackages"@);
        }
        if !(m is Absent) {
            assert(carried.contains("versionCommitMessage"@)) by {
                assert(carried[1] == "versionCommitMessage"@);
            }
        }
        if d.contains("privatePackages"@) {
            let k = choose|k: int| 0 <= k < d.len() && d[k] == "privatePackages"@;
            assert(!carried.contains(d[k]));
        }
        if !(m is Absent) && d.contains("versionCommitMessage"@) {
            let k = choose|k: int| 0 <= k < d.len() && d[k] == "versionCommitMessage"@;
            assert(!carried.contains(d[k]));
        }
    }
}

/// A source config read from its JSON text: a text `serde_json` refuses is
/// named as not valid JSON, with the error it reports.
pub fn parse_source_config_text(file: &str, body: &str, default_commit: &str) -> (r: Result<SourceConfig, String>)
    ensures
        match crate::documents::json_doc_of(body@) {
            Err(e) => r matches Err(x) && x@ == "`"@ + file@ + "` is not valid JSON: "@ + e,
            Ok(d) => match source_config_of(file@, d, default_commit@) {
                Ok((p, m, dropped)) => r matches Ok(c) && c.file@ == file@ && opt_private_view(c.private_packages) == p
                    && c.commit_message@ == m && sorted_le(c.dropped.deep_view())
                    && c.dropped.deep_view().to_multiset() == dropped.to_multiset(),
                Err(e) => r matches Err(x) && x@ == e,
            },
        },
{
    match crate::documents::read_json(body) {
        Ok(d) => parse_source_config(file, &d, default_commit),
        Err(e) => Err(not_valid_json(file, e.as_str())),
    }
}

} // verus!
