//! What `migrate` says: the text of its steps and of the refusal a failed
//! look owes stderr. Wording only; every decision stays in `migrate`.
use vstd::prelude::*;

use crate::migrate::{chosen_mode, tool_name, GateLook, VersioningChoice};
use crate::outcome::CliError;
use crate::config::PrivatePackages;
use crate::migrate::BumpRewrite;
use crate::migrate_config::{chosen_commit_message, chosen_of, opt_private_view, ConfigSettings, SourceConfig};
use crate::owned_files::{commit_line, commit_message_line, private_packages_line, OwnedPlan, ReadmeState, SchemaState};
use crate::plan::{versioning_word, Versioning};
use crate::tag_shape::{shape_text, ReadableTemplate, TagShape};
use crate::text::{
    chars_of, join, lines, lines_of, push_all, push_str, same, string_of, tick_list, ticked_list,
    trim, trimmed, Text,
};
use crate::verdict::strings_of;

verus! {

broadcast use crate::views::lemma_text_deep_view;

/// The schema clause of the pending line.
pub open spec fn schema_clause(s: SchemaState) -> Seq<char> {
    match s {
        SchemaState::Absent => "write .changeset/_schema.json"@,
        SchemaState::Stale => "replace the existing .changeset/_schema.json"@,
        SchemaState::Current => "leave the current .changeset/_schema.json"@,
    }
}

/// The pending line for the owned files.
pub open spec fn pending_line(owned: OwnedPlan) -> Seq<char> {
    if owned.readme == ReadmeState::Absent {
        "write .changeset/_config.toml and .changeset/README.md, and "@ + schema_clause(owned.schema)
    } else {
        "write .changeset/_config.toml and "@ + schema_clause(owned.schema) + " (keeping the existing .changeset/README.md)"@
    }
}

/// The pending line for the owned files, from the same probe the writes use.
pub fn pending_owned_line(owned: OwnedPlan) -> (s: String)
    ensures
        s@ == pending_line(owned),
{
    let schema = match owned.schema {
        SchemaState::Absent => "write .changeset/_schema.json",
        SchemaState::Stale => "replace the existing .changeset/_schema.json",
        SchemaState::Current => "leave the current .changeset/_schema.json",
    };
    let mut out: Text;
    if owned.readme == ReadmeState::Absent {
        out = chars_of("write .changeset/_config.toml and .changeset/README.md, and ");
        push_str(&mut out, schema);
    } else {
        out = chars_of("write .changeset/_config.toml and ");
        push_str(&mut out, schema);
        push_str(&mut out, " (keeping the existing .changeset/README.md)");
    }
    string_of(&out)
}

/// Why the written mode is the one it is.
pub open spec fn versioning_reason(chosen: VersioningChoice) -> Seq<char> {
    match chosen {
        VersioningChoice::Requested(_) => "from `--versioning`, not the source tool"@,
        VersioningChoice::Inferred(from) => if chosen_mode(chosen) == Versioning::ZeroMajor {
            tool_name(from) + " holds a breaking change below 1.0.0"@
        } else {
            tool_name(from)
                + " takes 0.1.3 to 1.0.0, and renumbering an established release line is not a migration's job; oakum's own default is `zero-major`"@
        },
    }
}

/// The `versioning` line: the mode, spelled as the config spells it, and
/// what settled it.
pub open spec fn versioning_sentence(chosen: VersioningChoice) -> Seq<char> {
    "  write `versioning = \""@ + versioning_word(chosen_mode(chosen)) + "\"` ("@ + versioning_reason(chosen) + ")"@
}

/// The one line of the written config a reader cannot check by reading it.
pub fn versioning_line(chosen: VersioningChoice) -> (s: String)
    ensures
        s@ == versioning_sentence(chosen),
{
    let versioning = chosen.versioning();
    let mut why: Text;
    match chosen {
        VersioningChoice::Requested(_) => {
            why = chars_of("from `--versioning`, not the source tool");
        },
        VersioningChoice::Inferred(from) => {
            why = chars_of(from.name());
            if versioning == Versioning::ZeroMajor {
                push_str(&mut why, " holds a breaking change below 1.0.0");
            } else {
                push_str(&mut why, " takes 0.1.3 to 1.0.0, and renumbering an established release line is not a migration's job; oakum's own default is `zero-major`");
            }
        },
    }
    let mut out = chars_of("  write `versioning = \"");
    push_str(&mut out, versioning.word());
    push_str(&mut out, "\"` (");
    push_all(&mut out, &why);
    push_str(&mut out, ")");
    string_of(&out)
}

/// The readable shapes as template texts.
pub open spec fn shape_texts(ts: Seq<ReadableTemplate>) -> Seq<Seq<char>> {
    ts.map_values(|t: ReadableTemplate| shape_text(t))
}

/// The remaining step for tags that were read and could not be explained.
pub open spec fn undecided_step(shape: TagShape) -> Option<Seq<char>> {
    match shape {
        TagShape::Undecided { why, offerable } => Some(
            "- set `tag-format` to match the existing tags ("@ + why@
                + "); `release` refuses at the first tag rather than writing a shape the repository does not use\n  oakum reads "@
                + ticked_list(shape_texts(offerable@)),
        ),
        _ => None,
    }
}

/// The remaining step for tags oakum read and could not explain.
pub fn undecided_tag_step(shape: &TagShape) -> (r: Option<String>)
    ensures
        match undecided_step(*shape) {
            Some(s) => r matches Some(x) && x@ == s,
            None => r is None,
        },
{
    match shape {
        TagShape::Undecided { why, offerable } => {
            let mut texts: Vec<Text> = Vec::new();
            let mut i: usize = 0;
            while i < offerable.len()
                invariant
                    i <= offerable@.len(),
                    texts.deep_view() == shape_texts(offerable@.take(i as int)),
                decreases offerable@.len() - i,
            {
                let ghost before = texts.deep_view();
                texts.push(offerable[i].text());
                assert(texts.deep_view() =~= before.push(shape_text(offerable@[i as int])));
                assert(shape_texts(offerable@.take(i + 1)) =~= shape_texts(offerable@.take(i as int)).push(shape_text(offerable@[i as int])));
                i = i + 1;
            }
            assert(offerable@.take(offerable@.len() as int) == offerable@);
            let mut out = chars_of("- set `tag-format` to match the existing tags (");
            push_str(&mut out, why.as_str());
            push_str(&mut out, "); `release` refuses at the first tag rather than writing a shape the repository does not use\n  oakum reads ");
            push_all(&mut out, &tick_list(&texts));
            Some(string_of(&out))
        },
        _ => None,
    }
}

/// The remaining step for bump files copied out and left behind.
pub open spec fn leftover_step(leftovers: Seq<Seq<char>>) -> Option<Seq<char>> {
    if leftovers.len() == 0 {
        None
    } else {
        Some(
            "- remove the bump files oakum copied out and left behind ("@ + ticked_list(leftovers)
                + "); the old tool still counts them, so a workflow still wired to it releases the same packages a second time"@,
        )
    }
}

/// The remaining step for the originals a copy left where the old tool
/// still counts them.
pub fn leftover_bump_files_step(leftovers: &Vec<String>) -> (r: Option<String>)
    ensures
        match leftover_step(leftovers.deep_view()) {
            Some(s) => r matches Some(x) && x@ == s,
            None => r is None,
        },
{
    if leftovers.len() == 0 {
        return None;
    }
    let texts = texts_of(leftovers);
    let mut out = chars_of("- remove the bump files oakum copied out and left behind (");
    push_all(&mut out, &tick_list(&texts));
    push_str(&mut out, "); the old tool still counts them, so a workflow still wired to it releases the same packages a second time");
    Some(string_of(&out))
}

fn texts_of(v: &Vec<String>) -> (out: Vec<Text>)
    ensures
        out.deep_view() == v.deep_view(),
{
    let mut out: Vec<Text> = Vec::new();
    let mut i: usize = 0;
    while i < v.len()
        invariant
            i <= v@.len(),
            out.deep_view() == v.deep_view().take(i as int),
        decreases v@.len() - i,
    {
        let ghost before = out.deep_view();
        let t = chars_of(v[i].as_str());
        assert(t@ == v.deep_view()[i as int]);
        out.push(t);
        assert(out.deep_view() =~= before.push(v.deep_view()[i as int]));
        assert(v.deep_view().take(i + 1) =~= v.deep_view().take(i as int).push(v.deep_view()[i as int]));
        i = i + 1;
    }
    assert(v.deep_view().take(v@.len() as int) == v.deep_view());
    out
}

/// The caveat every gate-look line carries: where the search cannot see.
pub open spec fn unsearched() -> Seq<char> {
    "oakum searched git's index outside `.changeset/`, so a gate that is untracked, an unstaged edit, inside a submodule, or in `.git/hooks/` is not covered — check those before the first release"@
}

/// The distinct non-blank lines of a diagnostic, trimmed, first seen first.
pub open spec fn distinct_lines(ls: Seq<Seq<char>>) -> Seq<Seq<char>>
    decreases ls.len(),
{
    if ls.len() == 0 {
        Seq::empty()
    } else {
        let prev = distinct_lines(ls.drop_last());
        let t = trim(ls.last());
        if t.len() == 0 || prev.contains(t) {
            prev
        } else {
            prev.push(t)
        }
    }
}

/// A diagnostic that may span lines, as one line.
pub open spec fn flattened(detail: Seq<char>) -> Seq<char> {
    join(distinct_lines(lines(detail)), "; "@)
}

/// One bullet from a diagnostic that may span lines: lines repeated verbatim
/// collapse, and the rest are joined with `; `.
pub fn one_line(detail: &str) -> (s: String)
    ensures
        s@ == flattened(detail@),
{
    let d = chars_of(detail);
    let ls = lines_of(&d);
    let ghost lv = ls.deep_view();
    let mut seen: Vec<Text> = Vec::new();
    let mut i: usize = 0;
    while i < ls.len()
        invariant
            lv == ls.deep_view(),
            lv == lines(detail@),
            i <= lv.len(),
            seen.deep_view() == distinct_lines(lv.take(i as int)),
        decreases lv.len() - i,
    {
        assert(lv.take(i + 1).drop_last() == lv.take(i as int));
        assert(lv.take(i + 1).last() == ls[i as int]@);
        let t = trimmed(&ls[i]);
        if t.len() > 0 && !crate::order::member(&seen, &t) {
            let ghost before = seen.deep_view();
            seen.push(t);
            assert(seen.deep_view() =~= before.push(t@));
        }
        i = i + 1;
    }
    assert(lv.take(lv.len() as int) == lv);
    let joined = crate::text::joined(&seen, "; ");
    string_of(&joined)
}

/// The fact a failed gate look establishes.
pub open spec fn look_failed(why: Seq<char>) -> Seq<char> {
    "could not look for files gating on the old bump-file directory ("@ + flattened(why) + ")"@
}

fn gate_look_failed(why: &str) -> (s: Text)
    ensures
        s@ == look_failed(why@),
{
    let mut out = chars_of("could not look for files gating on the old bump-file directory (");
    push_str(&mut out, one_line(why).as_str());
    push_str(&mut out, ")");
    out
}

/// What a failed gate look owes stderr: the same fact the step states.
pub fn gate_look_refusal(why: &str) -> (e: CliError)
    ensures
        e matches CliError::Unverified { detail } && detail@ == "unverified: migrated files were kept; oakum "@ + look_failed(why@),
{
    let mut out = chars_of("unverified: migrated files were kept; oakum ");
    push_all(&mut out, &gate_look_failed(why));
    CliError::unverified(string_of(&out))
}

/// The remaining step a gate look comes to; nothing when there was nothing
/// to repoint.
pub open spec fn gate_step(gates: GateLook) -> Option<Seq<char>> {
    match gates {
        GateLook::NothingToRepoint => None,
        GateLook::Failed(why) => Some(
            "- unverified: oakum "@ + look_failed(why@)
                + "; a commit or CI gate pointed at it will reject oakum's bump files"@,
        ),
        GateLook::NothingTracked => Some(
            "- git reports no commit and its index lists no file, so no tracked file could have gated anything. "@
                + unsearched(),
        ),
        GateLook::Found(paths) => if paths@.len() == 0 {
            Some("- no file in the index outside `.changeset/` names the old bump-file directory. "@ + unsearched())
        } else {
            Some(
                "- check what names the old bump-file directory ("@ + ticked_list(paths.deep_view())
                    + "); oakum cannot tell a commit or CI gate from a mention in prose, and a gate matching those paths rejects the bump files oakum writes. "@
                    + unsearched(),
            )
        },
    }
}

/// The remaining step for what names the old bump-file directory.
pub fn bump_file_gate_step(gates: &GateLook) -> (r: Option<String>)
    ensures
        match gate_step(*gates) {
            Some(s) => r matches Some(x) && x@ == s,
            None => r is None,
        },
{
    let caveat = "oakum searched git's index outside `.changeset/`, so a gate that is untracked, an unstaged edit, inside a submodule, or in `.git/hooks/` is not covered — check those before the first release";
    match gates {
        GateLook::NothingToRepoint => None,
        GateLook::Failed(why) => {
            let mut out = chars_of("- unverified: oakum ");
            push_all(&mut out, &gate_look_failed(why.as_str()));
            push_str(&mut out, "; a commit or CI gate pointed at it will reject oakum's bump files");
            Some(string_of(&out))
        },
        GateLook::NothingTracked => {
            let mut out = chars_of("- git reports no commit and its index lists no file, so no tracked file could have gated anything. ");
            push_str(&mut out, caveat);
            Some(string_of(&out))
        },
        GateLook::Found(paths) => {
            if paths.len() == 0 {
                let mut out = chars_of("- no file in the index outside `.changeset/` names the old bump-file directory. ");
                push_str(&mut out, caveat);
                Some(string_of(&out))
            } else {
                let texts = texts_of(paths);
                let mut out = chars_of("- check what names the old bump-file directory (");
                push_all(&mut out, &tick_list(&texts));
                push_str(&mut out, "); oakum cannot tell a commit or CI gate from a mention in prose, and a gate matching those paths rejects the bump files oakum writes. ");
                push_str(&mut out, caveat);
                Some(string_of(&out))
            }
        },
    }
}

/// Whether evidence a detection cited still needs removing: everything
/// under `.changeset/` is oakum's now, except the old changesets config.
pub open spec fn still_foreign(evidence: Seq<char>) -> bool {
    evidence != ".changeset/"@ && !(crate::text::starts_with(evidence, ".changeset/"@) && evidence != ".changeset/config.json"@)
}

/// The evidence a reader still has to remove, if any.
pub fn remaining_removal(evidence: &str) -> (r: Option<&str>)
    ensures
        still_foreign(evidence@) ==> (r matches Some(s) && s@ == evidence@),
        !still_foreign(evidence@) ==> r is None,
{
    let e = chars_of(evidence);
    if crate::text::is(&e, ".changeset/") {
        return None;
    }
    if crate::text::begins_str(&e, ".changeset/") && !crate::text::is(&e, ".changeset/config.json") {
        return None;
    }
    Some(evidence)
}

/// What the existing tags settled, in the line printed once the writes are
/// done; silent for no tags and for a shape that restates the default.
pub open spec fn tag_shape_sentence(shape: TagShape, written: Option<ReadableTemplate>) -> Option<Seq<char>> {
    match written {
        Some(t) => Some("carried over: `tag-format = \""@ + shape_text(t) + "\"` (derived from the existing tags)"@),
        None => match shape {
            TagShape::Unread(why) => Some("not derived: `tag-format` (could not read the existing tags: "@ + why@ + ")"@),
            _ => None,
        },
    }
}

/// The line reporting the tag shape, if one is owed.
pub fn tag_shape_line(shape: &TagShape, written: Option<ReadableTemplate>) -> (r: Option<String>)
    ensures
        match tag_shape_sentence(*shape, written) {
            Some(s) => r matches Some(x) && x@ == s,
            None => r is None,
        },
{
    if let Some(template) = written {
        let mut out = chars_of("carried over: `tag-format = \"");
        push_all(&mut out, &template.text());
        push_str(&mut out, "\"` (derived from the existing tags)");
        return Some(string_of(&out));
    }
    match shape {
        TagShape::Unread(why) => {
            let mut out = chars_of("not derived: `tag-format` (could not read the existing tags: ");
            push_str(&mut out, why.as_str());
            push_str(&mut out, ")");
            Some(string_of(&out))
        },
        _ => None,
    }
}


/// The `privatePackages` axes a source opts in, as the report names them.
pub open spec fn axes_phrase(p: (bool, bool)) -> Seq<char> {
    if p.0 && p.1 {
        "`privatePackages.version` and `privatePackages.tag`"@
    } else if p.0 {
        "`privatePackages.version`"@
    } else if p.1 {
        "`privatePackages.tag`"@
    } else {
        Seq::empty()
    }
}

fn axes_phrase_text(p: PrivatePackages) -> (t: Text)
    ensures
        t@ == axes_phrase(p@),
{
    if p.version() && p.tag() {
        chars_of("`privatePackages.version` and `privatePackages.tag`")
    } else if p.version() {
        chars_of("`privatePackages.version`")
    } else if p.tag() {
        chars_of("`privatePackages.tag`")
    } else {
        Vec::new()
    }
}

/// The setting a source carries: only one that opts an axis in.
pub open spec fn carried_of(s: SourceConfig) -> Option<(bool, bool)> {
    match opt_private_view(s.private_packages) {
        Some(p) => if p.0 || p.1 {
            Some(p)
        } else {
            None
        },
        None => None,
    }
}

/// The pending line for one planned bump-file write. A file copied out of
/// the old tool's directory is written, not rewritten: the original stays.
pub open spec fn rewrite_line(r: (Seq<char>, Seq<char>, Seq<char>)) -> Seq<char> {
    if r.0 != r.1 {
        "  write "@ + r.1 + " from "@ + r.0
    } else {
        "  rewrite "@ + r.1
    }
}

/// What the pending list says of one source config: the axes it carries,
/// then each key it leaves behind.
pub open spec fn source_pending(s: SourceConfig) -> Seq<Seq<char>> {
    (match carried_of(s) {
        Some(p) => seq!["  carry "@ + axes_phrase(p) + " from `"@ + s.file@ + "`"@],
        None => Seq::empty(),
    }) + s.dropped@.map_values(|k: String| "  leave `"@ + k@ + "` behind in `"@ + s.file@ + "` (not carried)"@)
}

/// What the closing summary says of one source config.
pub open spec fn source_left(s: SourceConfig) -> Seq<Seq<char>> {
    (match carried_of(s) {
        Some(p) => seq!["carried over: "@ + axes_phrase(p) + " from `"@ + s.file@ + "`"@],
        None => Seq::empty(),
    }) + s.dropped@.map_values(|k: String| "not carried over: `"@ + k@ + "` (`"@ + s.file@ + "` is untouched)"@)
}

/// Each source's lines, in order.
pub open spec fn each_source(ss: Seq<SourceConfig>, pending: bool) -> Seq<Seq<char>>
    decreases ss.len(),
{
    if ss.len() == 0 {
        Seq::empty()
    } else {
        each_source(ss.drop_last(), pending) + if pending {
            source_pending(ss.last())
        } else {
            source_left(ss.last())
        }
    }
}

/// What `migrate` says it will do, before it asks: each bump-file write,
/// the owned files, each source's carried axes and dropped keys, the one
/// `private-packages` line the write produces, the `versioning` line, the
/// one carried commit message as the file receives it, and the carried tag
/// shape.
pub open spec fn pending_text(
    planned: Seq<(Seq<char>, Seq<char>, Seq<char>)>,
    sources: Seq<SourceConfig>,
    private: (bool, bool),
    tag_format: Option<ReadableTemplate>,
    owned: OwnedPlan,
    chosen: VersioningChoice,
) -> Seq<Seq<char>> {
    seq!["pending:"@] + planned.map_values(|r: (Seq<char>, Seq<char>, Seq<char>)| rewrite_line(r)) + seq![
        "  "@ + pending_line(owned),
    ] + each_source(sources, true) + (if private.0 || private.1 {
        seq!["  write `"@ + private_packages_line(private) + "`"@]
    } else {
        Seq::empty()
    }) + seq![versioning_sentence(chosen)] + (match chosen_of(sources) {
        Some((f, m)) => seq!["  carry `versionCommitMessage` from `"@ + f + "` as `"@ + commit_line(m) + "`"@],
        None => Seq::empty(),
    }) + (match tag_format {
        Some(t) => seq!["  carry the existing tag shape as `tag-format = \""@ + shape_text(t) + "\"`"@],
        None => Seq::empty(),
    })
}

/// What `migrate` left as it was, said once the writes are done: a README
/// that is not oakum's, each config it could not read, the carried commit
/// message, and each source's carried axes and untouched keys.
pub open spec fn left_alone_text(readme: ReadmeState, sources: Seq<SourceConfig>, unreadable: Seq<Seq<char>>) -> Seq<Seq<char>> {
    (if readme == ReadmeState::Theirs {
        seq!["kept .changeset/README.md (oakum did not write it; left as is)"@]
    } else {
        Seq::empty()
    }) + unreadable + (match chosen_of(sources) {
        Some((f, _)) => seq!["carried over: `versionCommitMessage` from `"@ + f + "` as `commit-message`"@],
        None => Seq::empty(),
    }) + each_source(sources, false)
}

fn push_line(out: &mut Vec<String>, t: &Text)
    ensures
        final(out).deep_view() == old(out).deep_view().push(t@),
{
    let ghost before = out.deep_view();
    out.push(string_of(t));
    assert(out.deep_view() =~= before.push(t@));
}

fn push_source_lines(out: &mut Vec<String>, s: &SourceConfig, pending: bool)
    ensures
        final(out).deep_view() == old(out).deep_view() + if pending {
            source_pending(*s)
        } else {
            source_left(*s)
        },
{
    let ghost start = out.deep_view();
    let ghost head: Seq<Seq<char>> = match carried_of(*s) {
        Some(p) => if pending {
            seq!["  carry "@ + axes_phrase(p) + " from `"@ + s.file@ + "`"@]
        } else {
            seq!["carried over: "@ + axes_phrase(p) + " from `"@ + s.file@ + "`"@]
        },
        None => Seq::empty(),
    };
    let ghost each = if pending {
        s.dropped@.map_values(|k: String| "  leave `"@ + k@ + "` behind in `"@ + s.file@ + "` (not carried)"@)
    } else {
        s.dropped@.map_values(|k: String| "not carried over: `"@ + k@ + "` (`"@ + s.file@ + "` is untouched)"@)
    };
    match s.carried_private_packages() {
        Some(p) => {
            let mut t = if pending {
                chars_of("  carry ")
            } else {
                chars_of("carried over: ")
            };
            push_all(&mut t, &axes_phrase_text(p));
            push_str(&mut t, " from `");
            push_str(&mut t, s.file.as_str());
            push_str(&mut t, "`");
            push_line(out, &t);
        },
        None => {},
    }
    assert(out.deep_view() =~= start + head);
    let mut i: usize = 0;
    while i < s.dropped.len()
        invariant
            i <= s.dropped@.len(),
            each.len() == s.dropped@.len(),
            each == if pending {
                s.dropped@.map_values(|k: String| "  leave `"@ + k@ + "` behind in `"@ + s.file@ + "` (not carried)"@)
            } else {
                s.dropped@.map_values(|k: String| "not carried over: `"@ + k@ + "` (`"@ + s.file@ + "` is untouched)"@)
            },
            out.deep_view() == start + head + each.take(i as int),
        decreases s.dropped@.len() - i,
    {
        let mut t: Text;
        if pending {
            t = chars_of("  leave `");
            push_str(&mut t, s.dropped[i].as_str());
            push_str(&mut t, "` behind in `");
            push_str(&mut t, s.file.as_str());
            push_str(&mut t, "` (not carried)");
        } else {
            t = chars_of("not carried over: `");
            push_str(&mut t, s.dropped[i].as_str());
            push_str(&mut t, "` (`");
            push_str(&mut t, s.file.as_str());
            push_str(&mut t, "` is untouched)");
        }
        assert(t@ == each[i as int]);
        push_line(out, &t);
        assert(each.take(i + 1) =~= each.take(i as int).push(each[i as int]));
        i = i + 1;
        assert(out.deep_view() =~= start + head + each.take(i as int));
    }
    assert(each.take(each.len() as int) =~= each);
}

fn push_each_source(out: &mut Vec<String>, sources: &Vec<SourceConfig>, pending: bool)
    ensures
        final(out).deep_view() == old(out).deep_view() + each_source(sources@, pending),
{
    let ghost start = out.deep_view();
    let mut i: usize = 0;
    assert(sources@.take(0) =~= Seq::<SourceConfig>::empty());
    while i < sources.len()
        invariant
            i <= sources@.len(),
            out.deep_view() == start + each_source(sources@.take(i as int), pending),
        decreases sources@.len() - i,
    {
        let ghost before = out.deep_view();
        push_source_lines(out, &sources[i], pending);
        assert(sources@.take(i + 1).drop_last() =~= sources@.take(i as int));
        assert(sources@.take(i + 1).last() == sources@[i as int]);
        i = i + 1;
        assert(out.deep_view() =~= start + each_source(sources@.take(i as int), pending));
    }
    assert(sources@.take(sources@.len() as int) =~= sources@);
}

/// The pending list `migrate` prints before it asks, one line each.
pub fn pending_lines(
    planned: &Vec<BumpRewrite>,
    sources: &Vec<SourceConfig>,
    settings: &ConfigSettings,
    owned: OwnedPlan,
    chosen: VersioningChoice,
) -> (lines: Vec<String>)
    ensures
        lines.deep_view() == pending_text(
            planned@.map_values(|r: BumpRewrite| r@),
            sources@,
            settings.private_packages@,
            settings.tag_format,
            owned,
            chosen,
        ),
{
    let ghost pv = planned@.map_values(|r: BumpRewrite| r@);
    let mut out: Vec<String> = Vec::new();
    push_line(&mut out, &chars_of("pending:"));
    let mut i: usize = 0;
    while i < planned.len()
        invariant
            i <= planned@.len(),
            pv == planned@.map_values(|r: BumpRewrite| r@),
            out.deep_view() == seq!["pending:"@] + pv.take(i as int).map_values(
                |r: (Seq<char>, Seq<char>, Seq<char>)| rewrite_line(r),
            ),
        decreases planned@.len() - i,
    {
        let rewrite = &planned[i];
        let t = match rewrite.leftover() {
            Some(source) => {
                let mut t = chars_of("  write ");
                push_str(&mut t, rewrite.dest());
                push_str(&mut t, " from ");
                push_str(&mut t, source);
                t
            },
            None => {
                let mut t = chars_of("  rewrite ");
                push_str(&mut t, rewrite.dest());
                t
            },
        };
        assert(t@ == rewrite_line(pv[i as int]));
        push_line(&mut out, &t);
        assert(pv.take(i + 1).map_values(|r: (Seq<char>, Seq<char>, Seq<char>)| rewrite_line(r)) =~= pv.take(
            i as int,
        ).map_values(|r: (Seq<char>, Seq<char>, Seq<char>)| rewrite_line(r)).push(rewrite_line(pv[i as int])));
        i = i + 1;
    }
    assert(pv.take(pv.len() as int) =~= pv);
    let mut owned_line = chars_of("  ");
    push_str(&mut owned_line, pending_owned_line(owned).as_str());
    push_line(&mut out, &owned_line);
    push_each_source(&mut out, sources, true);
    let carried = settings.private_packages;
    if carried.any() {
        let mut t = chars_of("  write `");
        push_str(&mut t, carried.toml_line().as_str());
        push_str(&mut t, "`");
        push_line(&mut out, &t);
    }
    push_line(&mut out, &chars_of(versioning_line(chosen).as_str()));
    match chosen_commit_message(sources) {
        Some((file, message)) => {
            let mut t = chars_of("  carry `versionCommitMessage` from `");
            push_str(&mut t, file.as_str());
            push_str(&mut t, "` as `");
            push_str(&mut t, commit_message_line(message.as_str()).as_str());
            push_str(&mut t, "`");
            push_line(&mut out, &t);
        },
        None => {},
    }
    match settings.tag_format {
        Some(template) => {
            let mut t = chars_of("  carry the existing tag shape as `tag-format = \"");
            push_all(&mut t, &template.text());
            push_str(&mut t, "\"`");
            push_line(&mut out, &t);
        },
        None => {},
    }
    out
}

/// What the closing summary says `migrate` left as it was, one line each.
pub fn left_alone_lines(readme: ReadmeState, sources: &Vec<SourceConfig>, unreadable: &Vec<String>) -> (lines: Vec<
    String,
>)
    ensures
        lines.deep_view() == left_alone_text(readme, sources@, unreadable.deep_view()),
{
    let mut out: Vec<String> = Vec::new();
    if readme == ReadmeState::Theirs {
        push_line(&mut out, &chars_of("kept .changeset/README.md (oakum did not write it; left as is)"));
    }
    let ghost head = out.deep_view();
    let mut i: usize = 0;
    while i < unreadable.len()
        invariant
            i <= unreadable@.len(),
            out.deep_view() == head + unreadable.deep_view().take(i as int),
        decreases unreadable@.len() - i,
    {
        push_line(&mut out, &chars_of(unreadable[i].as_str()));
        assert(unreadable.deep_view().take(i + 1) =~= unreadable.deep_view().take(i as int).push(
            unreadable[i as int]@,
        ));
        i = i + 1;
    }
    assert(unreadable.deep_view().take(unreadable@.len() as int) =~= unreadable.deep_view());
    match chosen_commit_message(sources) {
        Some((file, _)) => {
            let mut t = chars_of("carried over: `versionCommitMessage` from `");
            push_str(&mut t, file.as_str());
            push_str(&mut t, "` as `commit-message`");
            push_line(&mut out, &t);
        },
        None => {},
    }
    push_each_source(&mut out, sources, false);
    out
}

} // verus!
