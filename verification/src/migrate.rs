//! The decisions `migrate` makes on its way from another release tool: which
//! `versioning` mode to write and why, whether to ask before applying, what a
//! bump file rewrite leaves behind, and what the look for gates on the old
//! bump-file directory found.
use vstd::prelude::*;

use crate::config::PrivatePackages;
use crate::migrate_config::{carried_axes, chosen_of, migrated_settings, ConfigSettings, SourceConfig};
use crate::outcome::CliError;
use crate::plan::{BumpLevel, Versioning, Workspace};
use crate::tag_shape::{default_tag_template, shape_text, tag_managed_count, tag_managed_of, ReadableTemplate, TagShape};
use crate::text::{chars_of, find, find_str, push_all, push_str, same, slice_of, split, split_on, string_of, Text};

verus! {

broadcast use crate::views::lemma_text_deep_view;

// ---------------------------------------------------------------------------
// Which versioning mode
// ---------------------------------------------------------------------------

/// A release tool a repository may be migrating away from.
#[derive(Clone, Copy, Debug, PartialEq, Eq, Structural)]
pub enum ReleaseTool {
    Changesets,
    Bumpy,
    Knope,
    ReleasePlz,
    ReleasePlease,
    SemanticRelease,
    NxRelease,
}

/// What a tool is called in a report.
pub open spec fn tool_name(t: ReleaseTool) -> Seq<char> {
    match t {
        ReleaseTool::Changesets => "changesets"@,
        ReleaseTool::Bumpy => "bumpy"@,
        ReleaseTool::Knope => "knope"@,
        ReleaseTool::ReleasePlz => "release-plz"@,
        ReleaseTool::ReleasePlease => "release-please"@,
        ReleaseTool::SemanticRelease => "semantic-release"@,
        ReleaseTool::NxRelease => "nx release"@,
    }
}

/// knope and release-plz hold a breaking change below 1.0.0; the rest take
/// `0.1.3` to `1.0.0`.
pub open spec fn implied(t: ReleaseTool) -> Versioning {
    match t {
        ReleaseTool::Knope | ReleaseTool::ReleasePlz => Versioning::ZeroMajor,
        _ => Versioning::Semver,
    }
}

impl ReleaseTool {
    /// What the tool is called in a report.
    pub fn name(self) -> (n: &'static str)
        ensures
            n@ == tool_name(self),
    {
        match self {
            ReleaseTool::Changesets => "changesets",
            ReleaseTool::Bumpy => "bumpy",
            ReleaseTool::Knope => "knope",
            ReleaseTool::ReleasePlz => "release-plz",
            ReleaseTool::ReleasePlease => "release-please",
            ReleaseTool::SemanticRelease => "semantic-release",
            ReleaseTool::NxRelease => "nx release",
        }
    }
}

/// The `versioning` mode and what settled it.
#[derive(Clone, Copy, Debug, PartialEq, Eq, Structural)]
pub enum VersioningChoice {
    /// `--versioning`, which overrides whatever the source tool implies.
    Requested(Versioning),
    /// Taken from the tool being migrated away from.
    Inferred(ReleaseTool),
}

/// The mode a choice writes.
pub open spec fn chosen_mode(c: VersioningChoice) -> Versioning {
    match c {
        VersioningChoice::Requested(v) => v,
        VersioningChoice::Inferred(t) => implied(t),
    }
}

impl VersioningChoice {
    /// The mode this choice writes.
    pub fn versioning(self) -> (v: Versioning)
        ensures
            v == chosen_mode(self),
    {
        match self {
            VersioningChoice::Requested(versioning) => versioning,
            VersioningChoice::Inferred(tool) => VersioningChoice::implied_by(tool),
        }
    }

    /// The mode a tool implies on its own.
    pub fn implied_by(tool: ReleaseTool) -> (v: Versioning)
        ensures
            v == implied(tool),
    {
        match tool {
            ReleaseTool::Knope | ReleaseTool::ReleasePlz => Versioning::ZeroMajor,
            ReleaseTool::Changesets | ReleaseTool::Bumpy | ReleaseTool::ReleasePlease
            | ReleaseTool::SemanticRelease | ReleaseTool::NxRelease => Versioning::Semver,
        }
    }
}

/// The first tool that holds a breaking change below 1.0.0.
pub open spec fn first_zero_major(tools: Seq<ReleaseTool>) -> Option<ReleaseTool>
    decreases tools.len(),
{
    if tools.len() == 0 {
        None
    } else if implied(tools[0]) == Versioning::ZeroMajor {
        Some(tools[0])
    } else {
        first_zero_major(tools.drop_first())
    }
}

/// The tool whose convention settles `versioning`: the first that holds a
/// breaking change below 1.0.0, else the first detected, else none.
pub open spec fn settling_tool(tools: Seq<ReleaseTool>) -> Option<ReleaseTool> {
    match first_zero_major(tools) {
        Some(t) => Some(t),
        None => if tools.len() > 0 {
            Some(tools[0])
        } else {
            None
        },
    }
}

/// The tool whose convention settles `versioning`; none for an empty scan.
pub fn settles_the_mode(tools: &[ReleaseTool]) -> (r: Option<ReleaseTool>)
    ensures
        r == settling_tool(tools@),
{
    let mut i: usize = 0;
    assert(tools@.skip(0) =~= tools@);
    while i < tools.len()
        invariant
            i <= tools@.len(),
            first_zero_major(tools@) == first_zero_major(tools@.skip(i as int)),
        decreases tools@.len() - i,
    {
        assert(tools@.skip(i as int)[0] == tools@[i as int]);
        assert(tools@.skip(i as int).drop_first() == tools@.skip(i + 1));
        if VersioningChoice::implied_by(tools[i]) == Versioning::ZeroMajor {
            return Some(tools[i]);
        }
        i = i + 1;
    }
    assert(tools@.skip(i as int).len() == 0);
    if tools.len() > 0 {
        Some(tools[0])
    } else {
        None
    }
}

/// The mode and where it came from: the flag wins; otherwise the tool that
/// settles it; nothing for an empty scan.
pub fn versioning_choice(tools: &[ReleaseTool], flag: Option<Versioning>) -> (r: Option<VersioningChoice>)
    ensures
        r == (match flag {
            Some(v) => Some(VersioningChoice::Requested(v)),
            None => match settling_tool(tools@) {
                Some(t) => Some(VersioningChoice::Inferred(t)),
                None => None,
            },
        }),
{
    if let Some(v) = flag {
        return Some(VersioningChoice::Requested(v));
    }
    match settles_the_mode(tools) {
        Some(t) => Some(VersioningChoice::Inferred(t)),
        None => None,
    }
}

/// The mode a scan implies, as [`infer_versioning`] states it.
pub open spec fn inferred_mode(tools: Seq<ReleaseTool>) -> Versioning {
    match settling_tool(tools) {
        Some(t) => implied(t),
        None => Versioning::Semver,
    }
}

proof fn lemma_first_zero_major(tools: Seq<ReleaseTool>)
    ensures
        (first_zero_major(tools) is Some) == (exists|i: int| 0 <= i < tools.len() && implied(#[trigger] tools[i]) == Versioning::ZeroMajor),
        first_zero_major(tools) matches Some(t) ==> implied(t) == Versioning::ZeroMajor,
    decreases tools.len(),
{
    if tools.len() > 0 {
        lemma_first_zero_major(tools.drop_first());
        if exists|i: int| 0 <= i < tools.len() && implied(#[trigger] tools[i]) == Versioning::ZeroMajor {
            let i = choose|i: int| 0 <= i < tools.len() && implied(#[trigger] tools[i]) == Versioning::ZeroMajor;
            if i > 0 {
                assert(tools.drop_first()[i - 1] == tools[i]);
            }
        }
        if exists|i: int| 0 <= i < tools.drop_first().len() && implied(#[trigger] tools.drop_first()[i]) == Versioning::ZeroMajor {
            let i = choose|i: int| 0 <= i < tools.drop_first().len() && implied(#[trigger] tools.drop_first()[i]) == Versioning::ZeroMajor;
            assert(tools[i + 1] == tools.drop_first()[i]);
        }
    }
}

/// A migration infers `zero-major` exactly when some detected tool holds
/// breaking changes below 1.0.0, and `semver` otherwise.
pub proof fn lemma_zero_major_exactly_when_a_tool_holds_it(tools: Seq<ReleaseTool>)
    ensures
        (inferred_mode(tools) == Versioning::ZeroMajor) == (exists|i: int|
            0 <= i < tools.len() && implied(#[trigger] tools[i]) == Versioning::ZeroMajor),
{
    lemma_first_zero_major(tools);
    if first_zero_major(tools) is None && tools.len() > 0 {
        assert(implied(tools[0]) != Versioning::ZeroMajor);
    }
}

/// The mode a migration infers does not depend on the order the tools were
/// detected in: a tool holding breaking changes below 1.0.0 settles it
/// wherever it stands.
pub proof fn lemma_inferred_mode_ignores_detection_order(a: Seq<ReleaseTool>, b: Seq<ReleaseTool>)
    requires
        a.to_multiset() == b.to_multiset(),
    ensures
        inferred_mode(a) == inferred_mode(b),
{
    broadcast use vstd::seq_lib::group_to_multiset_ensures;

    lemma_zero_major_exactly_when_a_tool_holds_it(a);
    lemma_zero_major_exactly_when_a_tool_holds_it(b);
    if exists|i: int| 0 <= i < a.len() && implied(#[trigger] a[i]) == Versioning::ZeroMajor {
        let i = choose|i: int| 0 <= i < a.len() && implied(#[trigger] a[i]) == Versioning::ZeroMajor;
        assert(a.contains(a[i]));
        assert(a.to_multiset().count(a[i]) > 0);
        assert(b.contains(a[i]));
        let j = choose|j: int| 0 <= j < b.len() && b[j] == a[i];
        assert(implied(b[j]) == Versioning::ZeroMajor);
    }
    if exists|j: int| 0 <= j < b.len() && implied(#[trigger] b[j]) == Versioning::ZeroMajor {
        let j = choose|j: int| 0 <= j < b.len() && implied(#[trigger] b[j]) == Versioning::ZeroMajor;
        assert(b.contains(b[j]));
        assert(b.to_multiset().count(b[j]) > 0);
        assert(a.contains(b[j]));
        let i = choose|i: int| 0 <= i < a.len() && a[i] == b[j];
        assert(implied(a[i]) == Versioning::ZeroMajor);
    }
}

/// The mode a scan implies, `semver` when nothing was detected.
pub fn infer_versioning(tools: &[ReleaseTool]) -> (v: Versioning)
    ensures
        v == inferred_mode(tools@),
{
    match versioning_choice(tools, None) {
        Some(choice) => choice.versioning(),
        None => Versioning::Semver,
    }
}

// ---------------------------------------------------------------------------
// Asking before applying
// ---------------------------------------------------------------------------

/// `Ok(true)` skips the prompt. Without a terminal nobody can answer it, so
/// `--yes` is required there, not assumed.
pub fn skip_migration_confirmation(yes: bool, stdin_is_tty: bool) -> (r: Result<bool, CliError>)
    ensures
        yes ==> r == Ok::<bool, CliError>(true),
        !yes && stdin_is_tty ==> r == Ok::<bool, CliError>(false),
        !yes && !stdin_is_tty ==> (r matches Err(CliError::Other(m))
            && m@ == "stdin is not a terminal; rerun with --yes to apply the changes above"@),
{
    if yes {
        return Ok(true);
    }
    if !stdin_is_tty {
        return Err(CliError::new("stdin is not a terminal; rerun with --yes to apply the changes above".to_owned()));
    }
    Ok(false)
}

/// The answers that apply a migration.
pub open spec fn is_yes(a: Seq<char>) -> bool {
    a == "y"@ || a == "yes"@ || a == "Y"@ || a == "Yes"@ || a == "YES"@
}

/// The answers that decline one.
pub open spec fn is_no(a: Seq<char>) -> bool {
    a == ""@ || a == "n"@ || a == "no"@ || a == "N"@ || a == "No"@ || a == "NO"@
}

/// A yes applies, an empty answer or a no cancels, and anything else cancels
/// naming what was typed.
pub fn accept_migration_answer(answer: &str) -> (r: Result<(), CliError>)
    ensures
        is_yes(answer@) ==> r is Ok,
        !is_yes(answer@) && is_no(answer@) ==> (r matches Err(CliError::Other(m)) && m@ == "migration cancelled"@),
        !is_yes(answer@) && !is_no(answer@) ==> (r matches Err(CliError::Other(m))
            && m@ == "migration cancelled: unknown answer `"@ + answer@ + "`; use y or n"@),
{
    let a = chars_of(answer);
    if crate::text::is(&a, "y") || crate::text::is(&a, "yes") || crate::text::is(&a, "Y") || crate::text::is(&a, "Yes")
        || crate::text::is(&a, "YES") {
        return Ok(());
    }
    if crate::text::is(&a, "") || crate::text::is(&a, "n") || crate::text::is(&a, "no") || crate::text::is(&a, "N")
        || crate::text::is(&a, "No") || crate::text::is(&a, "NO") {
        return Err(CliError::new("migration cancelled".to_owned()));
    }
    let mut m = chars_of("migration cancelled: unknown answer `");
    push_all(&mut m, &a);
    push_str(&mut m, "`; use y or n");
    Err(CliError::new(string_of(&m)))
}

// ---------------------------------------------------------------------------
// Quote style in bump-file frontmatter
// ---------------------------------------------------------------------------

/// `s` cut after each line break, as `str::split_inclusive('\n')` cuts it.
pub open spec fn pieces(s: Seq<char>) -> Seq<Seq<char>> {
    let parts = split(s, '\n');
    let n = parts.len() - 1;
    let ended = Seq::new(n as nat, |i: int| parts[i].push('\n'));
    if parts[n].len() == 0 {
        ended
    } else {
        ended.push(parts[n])
    }
}

/// `s` without its trailing `\n` and `\r` characters.
pub open spec fn without_line_end(s: Seq<char>) -> Seq<char>
    decreases s.len(),
{
    if s.len() > 0 && (s.last() == '\n' || s.last() == '\r') {
        without_line_end(s.drop_last())
    } else {
        s
    }
}

pub open spec fn delimiter() -> Seq<char> {
    seq!['-', '-', '-']
}

/// How many of `ps` are `---` lines.
pub open spec fn delimiters(ps: Seq<Seq<char>>) -> nat
    decreases ps.len(),
{
    if ps.len() == 0 {
        0
    } else {
        delimiters(ps.drop_last()) + (if without_line_end(ps.last()) == delimiter() {
            1nat
        } else {
            0nat
        })
    }
}

pub open spec fn quote_then_colon() -> Seq<char> {
    seq!['\'', ':', ' ']
}

/// One line, its single-quoted key written double-quoted when it sits in the
/// frontmatter (`seen` counts the `---` lines up to and including it).
pub open spec fn requoted_line(line: Seq<char>, seen: nat) -> Seq<char> {
    let content = without_line_end(line);
    let in_frontmatter = seen == 1 && content != delimiter();
    if in_frontmatter && content.len() > 0 && content[0] == '\'' {
        let rest = content.drop_first();
        match find(rest, quote_then_colon()) {
            Some(i) => seq!['"'] + rest.take(i) + seq!['"', ':', ' '] + rest.skip(i + 3) + line.skip(content.len() as int),
            None => line,
        }
    } else {
        line
    }
}

/// Every line of `ps`, requoted.
pub open spec fn requoted(ps: Seq<Seq<char>>) -> Seq<char>
    decreases ps.len(),
{
    if ps.len() == 0 {
        Seq::empty()
    } else {
        requoted(ps.drop_last()) + requoted_line(ps.last(), delimiters(ps))
    }
}

fn line_end_at(s: &[char]) -> (n: usize)
    ensures
        n <= s@.len(),
        s@.take(n as int) == without_line_end(s@),
{
    let mut n = s.len();
    assert(s@.take(n as int) =~= s@);
    while n > 0 && (s[n - 1] == '\n' || s[n - 1] == '\r')
        invariant
            n <= s@.len(),
            without_line_end(s@) == without_line_end(s@.take(n as int)),
        decreases n,
    {
        assert(s@.take(n as int).drop_last() =~= s@.take(n - 1));
        n = n - 1;
    }
    n
}

fn requote_line(line: &[char], seen: usize) -> (out: Text)
    ensures
        out@ == requoted_line(line@, seen as nat),
{
    let n = line_end_at(line);
    let content = slice_of(line, 0, n);
    let is_delim = content.len() == 3 && content[0] == '-' && content[1] == '-' && content[2] == '-';
    assert(is_delim == (content@ == delimiter())) by {
        if content@ == delimiter() {
            assert(content@[0] == '-' && content@[1] == '-' && content@[2] == '-');
        }
        if is_delim {
            assert(content@ =~= delimiter());
        }
    }
    if seen == 1 && !is_delim && content.len() > 0 && content[0] == '\'' {
        let rest = slice_of(&content, 1, content.len());
        assert(rest@ =~= content@.drop_first());
        match find_str(&rest, "': ") {
            Some(i) => {
                proof {
                    reveal_strlit("': ");
                    assert("': "@ =~= quote_then_colon());
                }
                let mut out: Text = Vec::new();
                out.push('"');
                push_all(&mut out, &slice_of(&rest, 0, i));
                push_str(&mut out, "\": ");
                push_all(&mut out, &slice_of(&rest, i + 3, rest.len()));
                push_all(&mut out, &slice_of(line, n, line.len()));
                proof {
                    reveal_strlit("\": ");
                    assert(out@ =~= requoted_line(line@, seen as nat));
                }
                out
            },
            None => {
                proof {
                    reveal_strlit("': ");
                    assert("': "@ =~= quote_then_colon());
                }
                crate::text::copy(line)
            },
        }
    } else {
        crate::text::copy(line)
    }
}

/// `body` with single-quoted frontmatter keys written double-quoted, the way
/// bump files are written, so a file that differs from the canonical form
/// only in quote style can keep its quotes.
pub fn double_quoted_scoped_keys(body: &str) -> (out: String)
    ensures
        out@ == requoted(pieces(body@)),
{
    let b = chars_of(body);
    let parts = split_on(&b, '\n');
    let ghost ps = pieces(b@);
    let ghost pv = parts.deep_view();
    proof {
        crate::text::lemma_split_len(b@, '\n');
    }
    let n = parts.len() - 1;
    let mut out: Text = Vec::new();
    let mut seen: usize = 0;
    let mut i: usize = 0;
    assert(ps.take(0) =~= Seq::<Seq<char>>::empty());
    while i < n
        invariant
            pv == parts.deep_view(),
            ps == pieces(b@),
            pv == split(b@, '\n'),
            n == pv.len() - 1,
            i <= n,
            seen <= i,
            seen == delimiters(ps.take(i as int)),
            out@ == requoted(ps.take(i as int)),
        decreases n - i,
    {
        let mut line = crate::text::copy(&parts[i]);
        line.push('\n');
        assert(ps[i as int] == line@);
        assert(ps.take(i + 1).drop_last() == ps.take(i as int));
        assert(ps.take(i + 1).last() == line@);
        let k = line_end_at(&line);
        let c = slice_of(&line, 0, k);
        if c.len() == 3 && c[0] == '-' && c[1] == '-' && c[2] == '-' {
            assert(c@ =~= delimiter());
            seen = seen + 1;
        } else {
            assert(c@ != delimiter()) by {
                if c@ == delimiter() {
                    assert(c@[0] == '-' && c@[1] == '-' && c@[2] == '-');
                }
            }
        }
        push_all(&mut out, &requote_line(&line, seen));
        i = i + 1;
    }
    if parts[n].len() > 0 {
        let line = crate::text::copy(&parts[n]);
        assert(ps.len() == n + 1 && ps[n as int] == line@);
        assert(ps.take(n + 1) == ps);
        assert(ps.take(n + 1).drop_last() == ps.take(n as int));
        let k = line_end_at(&line);
        let c = slice_of(&line, 0, k);
        if c.len() == 3 && c[0] == '-' && c[1] == '-' && c[2] == '-' {
            assert(c@ =~= delimiter());
            seen = seen + 1;
        } else {
            assert(c@ != delimiter()) by {
                if c@ == delimiter() {
                    assert(c@[0] == '-' && c@[1] == '-' && c@[2] == '-');
                }
            }
        }
        push_all(&mut out, &requote_line(&line, seen));
    } else {
        assert(ps.len() == n);
        assert(ps.take(n as int) == ps);
    }
    string_of(&out)
}

// ---------------------------------------------------------------------------
// What gets written
// ---------------------------------------------------------------------------

/// The `tag-format` a settled shape comes to: a derived shape that differs
/// from the default `release` applies anyway; nothing otherwise.
pub open spec fn written_format(shape: TagShape, workspace: Option<&Workspace>, private_packages: (bool, bool)) -> Option<ReadableTemplate> {
    match shape {
        TagShape::Derived(t) => if shape_text(t) != shape_text(
            if tag_managed_of(workspace, private_packages) <= 1 {
                ReadableTemplate::Bare
            } else {
                ReadableTemplate::SlashV
            },
        ) {
            Some(t)
        } else {
            None
        },
        _ => None,
    }
}

/// The settings `migrate` writes once the repository's tags have settled a
/// shape: what the source configs carry, and the settled shape when it is
/// not the default.
pub fn settings_with_tag_shape(
    shape: &TagShape,
    workspace: Option<&Workspace>,
    versioning: Versioning,
    sources: &Vec<SourceConfig>,
    private_packages: PrivatePackages,
) -> (s: ConfigSettings)
    ensures
        s.change_files && s.conventional_commits,
        s.versioning == versioning,
        s.private_packages@ == carried_axes(sources@),
        s.tag_format == written_format(*shape, workspace, private_packages@),
        match chosen_of(sources@) {
            Some((_, m)) => s.commit_message matches Some(x) && x@ == m,
            None => s.commit_message is None,
        },
{
    migrated_settings(versioning, sources, written_tag_format(shape, workspace, private_packages))
}

/// The `tag-format` to write: a derived shape that differs from the default
/// `release` applies anyway; nothing otherwise.
pub fn written_tag_format(shape: &TagShape, workspace: Option<&Workspace>, private_packages: PrivatePackages) -> (r: Option<ReadableTemplate>)
    ensures
        r == written_format(*shape, workspace, private_packages@),
{
    match shape {
        TagShape::Derived(template) => {
            let managed = tag_managed_count(workspace, private_packages);
            let default = chars_of(default_tag_template(managed));
            if same(&template.text(), &default) {
                None
            } else {
                Some(*template)
            }
        },
        _ => None,
    }
}

/// A bump file `migrate` writes: rewritten where it lies, or copied into
/// `.changeset/` from the old tool's directory, which leaves the original.
#[derive(Clone, Debug)]
pub struct BumpRewrite {
    source: String,
    dest: String,
    body: String,
}

impl View for BumpRewrite {
    type V = (Seq<char>, Seq<char>, Seq<char>);

    closed spec fn view(&self) -> (Seq<char>, Seq<char>, Seq<char>) {
        (self.source@, self.dest@, self.body@)
    }
}

impl BumpRewrite {
    /// A file rewritten where it lies, leaving nothing behind.
    pub fn in_place(rel: String, body: String) -> (r: BumpRewrite)
        ensures
            r@ == (rel@, rel@, body@),
    {
        BumpRewrite { source: rel.clone(), dest: rel, body }
    }

    /// A file written into `.changeset/` from the old tool's directory.
    pub fn copied_out(from: String, to: String, body: String) -> (r: BumpRewrite)
        ensures
            r@ == (from@, to@, body@),
    {
        BumpRewrite { source: from, dest: to, body }
    }

    pub fn dest(&self) -> (d: &str)
        ensures
            d@ == self@.1,
    {
        self.dest.as_str()
    }

    pub fn body(&self) -> (b: &str)
        ensures
            b@ == self@.2,
    {
        self.body.as_str()
    }

    /// The original still on disk after the write, if the write left one.
    pub fn leftover(&self) -> (l: Option<&str>)
        ensures
            self@.0 != self@.1 ==> (l matches Some(s) && s@ == self@.0),
            self@.0 == self@.1 ==> l is None,
    {
        if same(&chars_of(self.source.as_str()), &chars_of(self.dest.as_str())) {
            None
        } else {
            Some(self.source.as_str())
        }
    }
}

// ---------------------------------------------------------------------------
// Gates on the old bump-file directory
// ---------------------------------------------------------------------------

/// What the repository's own files say about the old bump-file directory.
#[derive(Clone, Debug, PartialEq, Eq)]
pub enum GateLook {
    /// Tracked files naming it; empty means the look ran and found none.
    Found(Vec<String>),
    /// The index lists no file and git reports no commit.
    NothingTracked,
    /// The look failed; never an empty find.
    Failed(String),
    /// The bump files already live in `.changeset/`: nothing to repoint.
    NothingToRepoint,
}

impl GateLook {
    /// The one outcome that sets the exit code, carrying why.
    pub fn failure(&self) -> (r: Option<&str>)
        ensures
            match self {
                GateLook::Failed(why) => r matches Some(s) && s@ == why@,
                _ => r is None,
            },
    {
        match self {
            GateLook::Failed(why) => Some(why.as_str()),
            GateLook::Found(_) | GateLook::NothingTracked | GateLook::NothingToRepoint => None,
        }
    }
}

/// The git reads a gate look makes, in the order it makes them.
#[derive(Clone, Copy, Debug, PartialEq, Eq, Structural)]
pub enum GateRead {
    /// Tracked files outside `.changeset/` that name the old directory.
    Mentions,
    /// Every tracked file.
    Listing,
    /// Whether `HEAD` names a commit.
    Head,
}

/// Where a gate look stands: the read to make next, or its answer. A read
/// that failed ends the look as `Err`.
#[derive(Debug)]
pub enum GateStep {
    Read(GateRead),
    Done(Result<GateLook, CliError>),
}

/// The refusal for an empty index over a repository with commits.
pub open spec fn broken_index() -> Seq<char> {
    "git's index lists no file while HEAD has commits, so the index is missing or unbuilt and a gate among the committed files was not searched"@
}

/// A gate look starts with the search for files naming the old directory;
/// when no source tool keeps bump files outside `.changeset/`, there is
/// nothing to look for.
pub fn start_gate_look(bumpy_detected: bool) -> (next: GateStep)
    ensures
        bumpy_detected ==> next == GateStep::Read(GateRead::Mentions),
        !bumpy_detected ==> next == GateStep::Done(Ok(GateLook::NothingToRepoint)),
{
    if bumpy_detected {
        GateStep::Read(GateRead::Mentions)
    } else {
        GateStep::Done(Ok(GateLook::NothingToRepoint))
    }
}

/// After the search: files named are the answer. No match and no search
/// answer alike, so the tracked files are asked next.
pub fn after_mentions(reply: Result<Option<Vec<String>>, CliError>) -> (next: GateStep)
    ensures
        match reply {
            Err(e) => next == GateStep::Done(Err(e)),
            Ok(Some(paths)) => next == GateStep::Done(Ok(GateLook::Found(paths))),
            Ok(None) => next == GateStep::Read(GateRead::Listing),
        },
{
    match reply {
        Err(e) => GateStep::Done(Err(e)),
        Ok(Some(paths)) => GateStep::Done(Ok(GateLook::Found(paths))),
        Ok(None) => GateStep::Read(GateRead::Listing),
    }
}

/// After listing the tracked files: any file makes the search an empty find;
/// an empty index asks whether `HEAD` has commits.
pub fn after_tracked(reply: Result<Vec<String>, CliError>) -> (next: GateStep)
    ensures
        match reply {
            Err(e) => next == GateStep::Done(Err(e)),
            Ok(files) => if files@.len() > 0 {
                next matches GateStep::Done(Ok(GateLook::Found(v))) && v@.len() == 0
            } else {
                next == GateStep::Read(GateRead::Head)
            },
        },
{
    match reply {
        Err(e) => GateStep::Done(Err(e)),
        Ok(files) => if files.len() > 0 {
            GateStep::Done(Ok(GateLook::Found(Vec::new())))
        } else {
            GateStep::Read(GateRead::Head)
        },
    }
}

/// After asking about `HEAD`: no commit means nothing was tracked; commits
/// over an empty index mean the index is broken and nothing was searched.
pub fn after_head(reply: Result<bool, CliError>) -> (next: GateStep)
    ensures
        match reply {
            Err(e) => next == GateStep::Done(Err(e)),
            Ok(false) => next == GateStep::Done(Ok(GateLook::NothingTracked)),
            Ok(true) => next matches GateStep::Done(Err(CliError::Other(m))) && m@ == broken_index(),
        },
{
    match reply {
        Err(e) => GateStep::Done(Err(e)),
        Ok(false) => GateStep::Done(Ok(GateLook::NothingTracked)),
        Ok(true) => GateStep::Done(Err(CliError::new(
            "git's index lists no file while HEAD has commits, so the index is missing or unbuilt and a gate among the committed files was not searched".to_owned(),
        ))),
    }
}

/// A finished gate look as the report holds it: a failed look keeps its detail.
pub fn settle_gate_look(answer: Result<GateLook, CliError>) -> (g: GateLook)
    ensures
        match answer {
            Ok(look) => g == look,
            Err(e) => g matches GateLook::Failed(d) && d@ == crate::outcome::detail_of(e),
        },
{
    match answer {
        Ok(look) => look,
        Err(e) => GateLook::Failed(e.detail()),
    }
}

/// A bump file named in an old tool's directory, as `migrate` prepares it:
/// its name; whether the name is a bump file's; and, when it was read, the
/// refusal its parse or rewrite gave, or its body and its rewritten form.
/// `None` is a file listed but no longer there.
pub type ListedBumpFile = (String, bool, Option<Result<(String, String), String>>);

/// A listed bump file as the contracts read it.
pub open spec fn listed_view(f: ListedBumpFile) -> (Seq<char>, bool, Option<Result<(Seq<char>, Seq<char>), Seq<char>>>) {
    (f.0@, f.1, match f.2 {
        None => None,
        Some(Err(m)) => Some(Err(m@)),
        Some(Ok((b, n))) => Some(Ok((b@, n@))),
    })
}

/// The refusal for a listed file that is gone.
pub open spec fn listed_missing(rel: Seq<char>) -> Seq<char> {
    "`"@ + rel + "` was listed but is missing"@
}

/// What the `.changeset/` files come to, one file after another: the names
/// kept, and the rewrites in place. A file whose rewrite differs only in
/// quote style is left as it is.
pub open spec fn changeset_pass(cs: Seq<(Seq<char>, bool, Option<Result<(Seq<char>, Seq<char>), Seq<char>>>)>, known: bool) -> Result<(Seq<Seq<char>>, Seq<(Seq<char>, Seq<char>, Seq<char>)>), Seq<char>>
    decreases cs.len(),
{
    if cs.len() == 0 {
        Ok((Seq::empty(), Seq::empty()))
    } else {
        match changeset_pass(cs.drop_last(), known) {
            Err(e) => Err(e),
            Ok((names, rewrites)) => {
                let (name, is_bump, read) = cs.last();
                let rel = ".changeset/"@ + name;
                if !is_bump {
                    Ok((names, rewrites))
                } else {
                    match read {
                        None => if known { Err(listed_missing(rel)) } else { Ok((names, rewrites)) },
                        Some(Err(m)) => Err(m),
                        Some(Ok((body, next))) => Ok((names.push(name), if next != body && requoted(pieces(body)) != next {
                            rewrites.push((rel, rel, next))
                        } else {
                            rewrites
                        })),
                    }
                }
            },
        }
    }
}

/// What the `.bumpy/` files then come to: each copied into `.changeset/`,
/// refused where `.changeset/` already holds its name.
pub open spec fn bumpy_pass(bs: Seq<(Seq<char>, bool, Option<Result<(Seq<char>, Seq<char>), Seq<char>>>)>, known: bool, start: (Seq<Seq<char>>, Seq<(Seq<char>, Seq<char>, Seq<char>)>)) -> Result<(Seq<Seq<char>>, Seq<(Seq<char>, Seq<char>, Seq<char>)>), Seq<char>>
    decreases bs.len(),
{
    if bs.len() == 0 {
        Ok(start)
    } else {
        match bumpy_pass(bs.drop_last(), known, start) {
            Err(e) => Err(e),
            Ok((names, rewrites)) => {
                let (name, is_bump, read) = bs.last();
                if !is_bump {
                    Ok((names, rewrites))
                } else if names.contains(name) {
                    Err("refusing to migrate `.bumpy/"@ + name + "`: `.changeset/"@ + name + "` already exists"@)
                } else {
                    match read {
                        None => if known { Err(listed_missing(".bumpy/"@ + name)) } else { Ok((names, rewrites)) },
                        Some(Err(m)) => Err(m),
                        Some(Ok((_body, next))) => Ok((names.push(name), rewrites.push((".bumpy/"@ + name, ".changeset/"@ + name, next)))),
                    }
                }
            },
        }
    }
}

/// The rewrites a migration makes of the old bump files, or the first
/// refusal. `known` says whether the workspace's packages were found: only
/// then is a listed file that is gone refused.
pub open spec fn migration_rewrites_of(
    cs: Seq<(Seq<char>, bool, Option<Result<(Seq<char>, Seq<char>), Seq<char>>>)>,
    bs: Seq<(Seq<char>, bool, Option<Result<(Seq<char>, Seq<char>), Seq<char>>>)>,
    known: bool,
) -> Result<Seq<(Seq<char>, Seq<char>, Seq<char>)>, Seq<char>> {
    match changeset_pass(cs, known) {
        Err(e) => Err(e),
        Ok(start) => match bumpy_pass(bs, known, start) {
            Err(e) => Err(e),
            Ok((_, rewrites)) => Ok(rewrites),
        },
    }
}

proof fn lemma_changeset_refusal_sticks(
    cs: Seq<(Seq<char>, bool, Option<Result<(Seq<char>, Seq<char>), Seq<char>>>)>,
    known: bool,
    k: int,
)
    requires
        0 <= k <= cs.len(),
        changeset_pass(cs.take(k), known) is Err,
    ensures
        changeset_pass(cs, known) == changeset_pass(cs.take(k), known),
    decreases cs.len() - k,
{
    if k < cs.len() {
        assert(cs.take(k + 1).drop_last() =~= cs.take(k));
        lemma_changeset_refusal_sticks(cs, known, k + 1);
    } else {
        assert(cs.take(k) =~= cs);
    }
}

proof fn lemma_bumpy_refusal_sticks(
    bs: Seq<(Seq<char>, bool, Option<Result<(Seq<char>, Seq<char>), Seq<char>>>)>,
    known: bool,
    start: (Seq<Seq<char>>, Seq<(Seq<char>, Seq<char>, Seq<char>)>),
    k: int,
)
    requires
        0 <= k <= bs.len(),
        bumpy_pass(bs.take(k), known, start) is Err,
    ensures
        bumpy_pass(bs, known, start) == bumpy_pass(bs.take(k), known, start),
    decreases bs.len() - k,
{
    if k < bs.len() {
        assert(bs.take(k + 1).drop_last() =~= bs.take(k));
        lemma_bumpy_refusal_sticks(bs, known, start, k + 1);
    } else {
        assert(bs.take(k) =~= bs);
    }
}

fn prefixed(prefix: &str, name: &str) -> (out: String)
    ensures
        out@ == prefix@ + name@,
{
    let mut t = chars_of(prefix);
    push_str(&mut t, name);
    string_of(&t)
}

fn missing_refusal(rel: &str) -> (e: CliError)
    ensures
        e matches CliError::Other(m) && m@ == listed_missing(rel@),
{
    let mut t = chars_of("`");
    push_str(&mut t, rel);
    push_str(&mut t, "` was listed but is missing");
    CliError::new(string_of(&t))
}

fn name_listed(names: &Vec<String>, name: &str) -> (b: bool)
    ensures
        b == names@.map_values(|n: String| n@).contains(name@),
{
    let ghost nv = names@.map_values(|n: String| n@);
    let mut i: usize = 0;
    while i < names.len()
        invariant
            nv == names@.map_values(|n: String| n@),
            i <= nv.len(),
            forall|j: int| 0 <= j < i ==> nv[j] != name@,
        decreases nv.len() - i,
    {
        if same(&chars_of(names[i].as_str()), &chars_of(name)) {
            assert(nv[i as int] == name@);
            return true;
        }
        i = i + 1;
    }
    false
}

/// The rewrites `migrate` plans for the old tools' bump files: the
/// `.changeset/` files first, rewritten in place where their canonical form
/// differs beyond quote style; then the `.bumpy/` files, copied into
/// `.changeset/`. The first refusal stops it: a parse or rewrite refusal, a
/// listed file that is gone while the workspace is known, or a `.bumpy/`
/// file whose name `.changeset/` already holds.
pub fn migration_rewrites(changesets: &Vec<ListedBumpFile>, bumpy: &Vec<ListedBumpFile>, known: bool) -> (r: Result<Vec<BumpRewrite>, CliError>)
    ensures
        match migration_rewrites_of(changesets@.map_values(|f: ListedBumpFile| listed_view(f)), bumpy@.map_values(|f: ListedBumpFile| listed_view(f)), known) {
            Ok(rw) => r matches Ok(v) && v@.map_values(|w: BumpRewrite| w@) == rw,
            Err(e) => r matches Err(CliError::Other(m)) && m@ == e,
        },
{
    let ghost cv = changesets@.map_values(|f: ListedBumpFile| listed_view(f));
    let ghost bv = bumpy@.map_values(|f: ListedBumpFile| listed_view(f));
    let mut names: Vec<String> = Vec::new();
    let mut rewrites: Vec<BumpRewrite> = Vec::new();
    let mut i: usize = 0;
    assert(cv.take(0) =~= Seq::<(Seq<char>, bool, Option<Result<(Seq<char>, Seq<char>), Seq<char>>>)>::empty());
    assert(names@.map_values(|n: String| n@) =~= Seq::<Seq<char>>::empty());
    assert(rewrites@.map_values(|w: BumpRewrite| w@) =~= Seq::<(Seq<char>, Seq<char>, Seq<char>)>::empty());
    while i < changesets.len()
        invariant
            cv == changesets@.map_values(|f: ListedBumpFile| listed_view(f)),
            i <= cv.len(),
            changeset_pass(cv.take(i as int), known) == Ok::<(Seq<Seq<char>>, Seq<(Seq<char>, Seq<char>, Seq<char>)>), Seq<char>>(
                (names@.map_values(|n: String| n@), rewrites@.map_values(|w: BumpRewrite| w@))),
        decreases cv.len() - i,
    {
        assert(cv.take(i + 1).drop_last() =~= cv.take(i as int));
        assert(cv.take(i + 1).last() == listed_view(changesets@[i as int]));
        let (name, is_bump, read) = &changesets[i];
        if *is_bump {
            match read {
                None => {
                    if known {
                        let rel = prefixed(".changeset/", name.as_str());
                        proof {
                            lemma_changeset_refusal_sticks(cv, known, i + 1);
                        }
                        return Err(missing_refusal(rel.as_str()));
                    }
                },
                Some(Err(m)) => {
                    proof {
                        lemma_changeset_refusal_sticks(cv, known, i + 1);
                    }
                    return Err(CliError::new(m.clone()));
                },
                Some(Ok((body, next))) => {
                    names.push(name.clone());
                    let differs = !same(&chars_of(next.as_str()), &chars_of(body.as_str()));
                    let requoted_differs = !same(&chars_of(double_quoted_scoped_keys(body.as_str()).as_str()), &chars_of(next.as_str()));
                    if differs && requoted_differs {
                        let rel = prefixed(".changeset/", name.as_str());
                        rewrites.push(BumpRewrite::in_place(rel, next.clone()));
                    }
                },
            }
        }
        proof {
            assert(names@.map_values(|n: String| n@) =~= changeset_pass(cv.take(i + 1), known)->Ok_0.0);
            assert(rewrites@.map_values(|w: BumpRewrite| w@) =~= changeset_pass(cv.take(i + 1), known)->Ok_0.1);
        }
        i = i + 1;
    }
    assert(cv.take(cv.len() as int) =~= cv);
    let ghost start = (names@.map_values(|n: String| n@), rewrites@.map_values(|w: BumpRewrite| w@));
    let mut j: usize = 0;
    assert(bv.take(0) =~= Seq::<(Seq<char>, bool, Option<Result<(Seq<char>, Seq<char>), Seq<char>>>)>::empty());
    while j < bumpy.len()
        invariant
            bv == bumpy@.map_values(|f: ListedBumpFile| listed_view(f)),
            cv == changesets@.map_values(|f: ListedBumpFile| listed_view(f)),
            j <= bv.len(),
            bumpy_pass(bv.take(j as int), known, start) == Ok::<(Seq<Seq<char>>, Seq<(Seq<char>, Seq<char>, Seq<char>)>), Seq<char>>(
                (names@.map_values(|n: String| n@), rewrites@.map_values(|w: BumpRewrite| w@))),
            changeset_pass(cv, known) == Ok::<(Seq<Seq<char>>, Seq<(Seq<char>, Seq<char>, Seq<char>)>), Seq<char>>(start),
        decreases bv.len() - j,
    {
        assert(bv.take(j + 1).drop_last() =~= bv.take(j as int));
        assert(bv.take(j + 1).last() == listed_view(bumpy@[j as int]));
        let (name, is_bump, read) = &bumpy[j];
        if *is_bump {
            if name_listed(&names, name.as_str()) {
                let mut t = chars_of("refusing to migrate `.bumpy/");
                push_str(&mut t, name.as_str());
                push_str(&mut t, "`: `.changeset/");
                push_str(&mut t, name.as_str());
                push_str(&mut t, "` already exists");
                proof {
                    lemma_bumpy_refusal_sticks(bv, known, start, j + 1);
                }
                return Err(CliError::new(string_of(&t)));
            }
            match read {
                None => {
                    if known {
                        let rel = prefixed(".bumpy/", name.as_str());
                        proof {
                            lemma_bumpy_refusal_sticks(bv, known, start, j + 1);
                        }
                        return Err(missing_refusal(rel.as_str()));
                    }
                },
                Some(Err(m)) => {
                    proof {
                        lemma_bumpy_refusal_sticks(bv, known, start, j + 1);
                    }
                    return Err(CliError::new(m.clone()));
                },
                Some(Ok((_body, next))) => {
                    let from = prefixed(".bumpy/", name.as_str());
                    let to = prefixed(".changeset/", name.as_str());
                    rewrites.push(BumpRewrite::copied_out(from, to, next.clone()));
                    names.push(name.clone());
                },
            }
        }
        proof {
            assert(names@.map_values(|n: String| n@) =~= bumpy_pass(bv.take(j + 1), known, start)->Ok_0.0);
            assert(rewrites@.map_values(|w: BumpRewrite| w@) =~= bumpy_pass(bv.take(j + 1), known, start)->Ok_0.1);
        }
        j = j + 1;
    }
    assert(bv.take(bv.len() as int) =~= bv);
    Ok(rewrites)
}

/// Where `migrate` stands between its reads and writes: each state but
/// the first and the last waits for one answer.
#[derive(Debug)]
pub enum MigrateState {
    /// About to look for an existing `.changeset/_config.toml`.
    Start { flag: Option<Versioning> },
    /// Waiting for that config's text.
    AwaitConfig { flag: Option<Versioning> },
    /// Waiting for the scan of the release tools in use.
    AwaitScan { flag: Option<Versioning> },
    /// Waiting for the bump-file rewrites and the plan before them.
    AwaitPrepared,
    /// Waiting for the answer to the confirmation.
    AwaitConfirm,
    /// Waiting for the writes.
    AwaitWrite,
    /// Waiting for the plan comparison and the closing steps.
    AwaitReport,
    /// Finished.
    Done,
}

/// What the caller saw after the last action.
#[derive(Debug)]
pub enum MigrateEvent {
    /// Nothing yet: the run begins.
    Begin,
    /// The text of an existing `.changeset/_config.toml`, if there is one.
    ConfigSource(Option<String>),
    /// The tools detected, with the errors the scan met.
    Scanned { tools: Vec<ReleaseTool>, errors: Vec<String> },
    /// The rewrites and the plan before them were prepared, or why not.
    Prepared(Result<(), CliError>),
    /// The confirmation was given, or why not.
    Confirmed(Result<(), CliError>),
    /// The files were written, or why not.
    Written(Result<(), CliError>),
    /// The plan comparison's verdict and the closing steps' verdict.
    Reported { comparison: Result<(), CliError>, steps: Result<(), CliError> },
}

/// What the caller does next.
#[derive(Debug)]
pub enum MigrateAction {
    /// Read `.changeset/_config.toml`, if present.
    ReadConfigSource,
    /// The repository already has an oakum config: settle it as migrated.
    SettleMigrated { text: String },
    /// Scan for the release tools in use (printing what it found).
    ScanTools,
    /// Read the source configs and bump files, and prepare the rewrites, for
    /// this versioning.
    Prepare { versioning: Versioning },
    /// Print what will change, and ask.
    Confirm,
    /// Write the migration.
    Write,
    /// Compare the plans and print the remaining steps.
    Report,
    /// Stop with this verdict.
    Finish(Result<(), CliError>),
}

/// Whether an event answers what the state waits for.
pub open spec fn event_fits(state: MigrateState, event: MigrateEvent) -> bool {
    match state {
        MigrateState::Start { .. } => event is Begin,
        MigrateState::AwaitConfig { .. } => event is ConfigSource,
        MigrateState::AwaitScan { .. } => event is Scanned,
        MigrateState::AwaitPrepared => event is Prepared,
        MigrateState::AwaitConfirm => event is Confirmed,
        MigrateState::AwaitWrite => event is Written,
        MigrateState::AwaitReport => event is Reported,
        MigrateState::Done => false,
    }
}

/// The refusal for a scan that met errors.
pub open spec fn scan_refusal(errors: Seq<Seq<char>>) -> Seq<char> {
    "unverified: "@ + crate::text::join(errors, "; "@)
}

/// The refusal for a repository with nothing to migrate.
pub open spec fn nothing_to_migrate() -> Seq<char> {
    "nothing to migrate; run `oakum init`"@
}

/// The versioning choice a scan and a flag make, as `versioning_choice`
/// states it.
pub open spec fn choice_of(tools: Seq<ReleaseTool>, flag: Option<Versioning>) -> Option<VersioningChoice> {
    match flag {
        Some(v) => Some(VersioningChoice::Requested(v)),
        None => match settling_tool(tools) {
            Some(t) => Some(VersioningChoice::Inferred(t)),
            None => None,
        },
    }
}

/// What a step after the first failure-prone answer comes to: the failure
/// ends the run, success moves on.
pub open spec fn after(answer: Result<(), CliError>, next: MigrateState, action: MigrateAction, r: (MigrateState, MigrateAction)) -> bool {
    match answer {
        Err(e) => r.0 is Done && r.1 == MigrateAction::Finish(Err(e)),
        Ok(()) => r.0 == next && r.1 == action,
    }
}

fn scan_refusal_text(errors: &Vec<String>) -> (e: CliError)
    ensures
        e matches CliError::Unverified { detail } && detail@ == scan_refusal(errors@.map_values(|x: String| x@)),
{
    let mut parts: Vec<Text> = Vec::new();
    let mut i: usize = 0;
    while i < errors.len()
        invariant
            i <= errors@.len(),
            parts@.len() == i,
            forall|k: int| 0 <= k < i ==> (#[trigger] parts@[k])@ == errors@[k]@,
        decreases errors@.len() - i,
    {
        let t = chars_of(errors[i].as_str());
        parts.push(t);
        i = i + 1;
    }
    assert forall|k: int| 0 <= k < parts@.len() implies #[trigger] parts.deep_view()[k] == errors@.map_values(|x: String| x@)[k] by {
        crate::views::lemma_text_deep_view(parts@[k]);
    }
    assert(parts.deep_view() =~= errors@.map_values(|x: String| x@));
    let mut m = chars_of("unverified: ");
    push_all(&mut m, &crate::text::joined(&parts, "; "));
    CliError::unverified(string_of(&m))
}

fn nothing_to_migrate_error() -> (e: CliError)
    ensures
        e matches CliError::Other(m) && m@ == nothing_to_migrate(),
{
    CliError::new(string_of(&chars_of("nothing to migrate; run `oakum init`")))
}

/// One step of `migrate`: from where it stands and what the caller saw, to
/// where it goes and what the caller does. An existing config is settled,
/// not migrated again; a scan that met errors is refused as unverified; a
/// scan that found nothing is refused; otherwise the versioning is chosen,
/// the flag first, and prepare, confirm, write and report follow, each
/// failure ending the run. At the end the plan comparison's verdict comes
/// before the closing steps': it is a finding, the other only a look.
pub fn migrate_step(state: MigrateState, event: MigrateEvent) -> (r: (MigrateState, MigrateAction))
    requires
        event_fits(state, event),
    ensures
        match (state, event) {
            (MigrateState::Start { flag }, _) => r.0 == MigrateState::AwaitConfig { flag } && r.1 is ReadConfigSource,
            (MigrateState::AwaitConfig { flag }, MigrateEvent::ConfigSource(found)) => match found {
                Some(text) => r.0 is Done && (r.1 matches MigrateAction::SettleMigrated { text: t } && t@ == text@),
                None => r.0 == MigrateState::AwaitScan { flag } && r.1 is ScanTools,
            },
            (MigrateState::AwaitScan { flag }, MigrateEvent::Scanned { tools, errors }) => if errors@.len() > 0 {
                r.0 is Done && (r.1 matches MigrateAction::Finish(Err(CliError::Unverified { detail }))
                    && detail@ == scan_refusal(errors@.map_values(|x: String| x@)))
            } else if tools@.len() == 0 || choice_of(tools@, flag) is None {
                r.0 is Done && (r.1 matches MigrateAction::Finish(Err(CliError::Other(m))) && m@ == nothing_to_migrate())
            } else {
                r.0 is AwaitPrepared
                    && r.1 == MigrateAction::Prepare { versioning: chosen_mode(choice_of(tools@, flag)->Some_0) }
            },
            (MigrateState::AwaitPrepared, MigrateEvent::Prepared(a)) => after(a, MigrateState::AwaitConfirm, MigrateAction::Confirm, r),
            (MigrateState::AwaitConfirm, MigrateEvent::Confirmed(a)) => after(a, MigrateState::AwaitWrite, MigrateAction::Write, r),
            (MigrateState::AwaitWrite, MigrateEvent::Written(a)) => after(a, MigrateState::AwaitReport, MigrateAction::Report, r),
            (MigrateState::AwaitReport, MigrateEvent::Reported { comparison, steps }) => r.0 is Done
                && r.1 == MigrateAction::Finish(match comparison {
                    Err(e) => Err(e),
                    Ok(()) => steps,
                }),
            _ => false,
        },
{
    match (state, event) {
        (MigrateState::Start { flag }, _) => (MigrateState::AwaitConfig { flag }, MigrateAction::ReadConfigSource),
        (MigrateState::AwaitConfig { flag }, MigrateEvent::ConfigSource(found)) => match found {
            Some(text) => (MigrateState::Done, MigrateAction::SettleMigrated { text }),
            None => (MigrateState::AwaitScan { flag }, MigrateAction::ScanTools),
        },
        (MigrateState::AwaitScan { flag }, MigrateEvent::Scanned { tools, errors }) => {
            if errors.len() > 0 {
                (MigrateState::Done, MigrateAction::Finish(Err(scan_refusal_text(&errors))))
            } else if tools.len() == 0 {
                (MigrateState::Done, MigrateAction::Finish(Err(nothing_to_migrate_error())))
            } else {
                match versioning_choice(tools.as_slice(), flag) {
                    None => (MigrateState::Done, MigrateAction::Finish(Err(nothing_to_migrate_error()))),
                    Some(c) => (MigrateState::AwaitPrepared, MigrateAction::Prepare { versioning: c.versioning() }),
                }
            }
        },
        (MigrateState::AwaitPrepared, MigrateEvent::Prepared(a)) => match a {
            Err(e) => (MigrateState::Done, MigrateAction::Finish(Err(e))),
            Ok(()) => (MigrateState::AwaitConfirm, MigrateAction::Confirm),
        },
        (MigrateState::AwaitConfirm, MigrateEvent::Confirmed(a)) => match a {
            Err(e) => (MigrateState::Done, MigrateAction::Finish(Err(e))),
            Ok(()) => (MigrateState::AwaitWrite, MigrateAction::Write),
        },
        (MigrateState::AwaitWrite, MigrateEvent::Written(a)) => match a {
            Err(e) => (MigrateState::Done, MigrateAction::Finish(Err(e))),
            Ok(()) => (MigrateState::AwaitReport, MigrateAction::Report),
        },
        (MigrateState::AwaitReport, MigrateEvent::Reported { comparison, steps }) => {
            let verdict = match comparison {
                Err(e) => Err(e),
                Ok(()) => steps,
            };
            (MigrateState::Done, MigrateAction::Finish(verdict))
        },
        (s, _) => (s, MigrateAction::ReadConfigSource),
    }
}

/// The first scoped (`@`-led) package among a bump file's entries.
pub open spec fn first_scoped(entries: Seq<(Seq<char>, BumpLevel)>) -> Option<Seq<char>>
    decreases entries.len(),
{
    if entries.len() == 0 {
        None
    } else if entries[0].0.len() > 0 && entries[0].0[0] == '@' {
        Some(entries[0].0)
    } else {
        first_scoped(entries.drop_first())
    }
}

/// Why a bump file cannot be migrated while `knope.toml` is present: knope
/// would read it otherwise than the old tool did.
pub open spec fn knope_unsafe(path: Seq<char>, entries: Seq<(Seq<char>, BumpLevel)>, knope: bool) -> Option<Seq<char>> {
    if !knope {
        None
    } else if entries.len() == 0 {
        Some("refusing to migrate `"@ + path + "`: empty frontmatter is unsafe while knope.toml is present"@)
    } else if first_scoped(entries) is Some {
        Some("refusing to migrate scoped package `"@ + first_scoped(entries)->Some_0
            + "` while knope.toml is present (quoted keys are invisible to knope; unquoting them breaks @changesets/cli)"@)
    } else if exists|k: int| 0 <= k < entries.len() && (#[trigger] entries[k]).1 == BumpLevel::Unchanged {
        Some("refusing to migrate `"@ + path + "`: a `none` entry is unsafe while knope.toml is present"@)
    } else {
        None
    }
}

/// Refuses a bump file knope would misread, while `knope.toml` is present:
/// one with no entries, one naming a scoped package (knope cannot see a
/// quoted key, and unquoting it breaks `@changesets/cli`), or one with a
/// `none` entry.
pub fn knope_refusal(path: &str, entries: &Vec<(String, BumpLevel)>, knope: bool) -> (r: Result<(), CliError>)
    ensures
        match knope_unsafe(path@, entries@.map_values(|e: (String, BumpLevel)| (e.0@, e.1)), knope) {
            None => r is Ok,
            Some(m) => r matches Err(CliError::Other(x)) && x@ == m,
        },
{
    let ghost ev = entries@.map_values(|e: (String, BumpLevel)| (e.0@, e.1));
    if !knope {
        return Ok(());
    }
    if entries.len() == 0 {
        let mut t = chars_of("refusing to migrate `");
        push_str(&mut t, path);
        push_str(&mut t, "`: empty frontmatter is unsafe while knope.toml is present");
        return Err(CliError::new(string_of(&t)));
    }
    let mut i: usize = 0;
    assert(ev.skip(0) =~= ev);
    while i < entries.len()
        invariant
            ev == entries@.map_values(|e: (String, BumpLevel)| (e.0@, e.1)),
            i <= ev.len(),
            knope,
            ev.len() > 0,
            first_scoped(ev) == first_scoped(ev.skip(i as int)),
        decreases ev.len() - i,
    {
        assert(ev.skip(i as int)[0] == ev[i as int]);
        assert(ev.skip(i as int).drop_first() =~= ev.skip(i + 1));
        let name = chars_of(entries[i].0.as_str());
        assert(name@ == ev[i as int].0);
        if name.len() > 0 && name[0] == '@' {
            assert(first_scoped(ev.skip(i as int)) == Some(ev[i as int].0));
            let mut t = chars_of("refusing to migrate scoped package `");
            push_str(&mut t, entries[i].0.as_str());
            push_str(&mut t, "` while knope.toml is present (quoted keys are invisible to knope; unquoting them breaks @changesets/cli)");
            return Err(CliError::new(string_of(&t)));
        }
        i = i + 1;
    }
    assert(ev.skip(ev.len() as int) =~= Seq::<(Seq<char>, BumpLevel)>::empty());
    let mut j: usize = 0;
    while j < entries.len()
        invariant
            ev == entries@.map_values(|e: (String, BumpLevel)| (e.0@, e.1)),
            j <= ev.len(),
            knope,
            ev.len() > 0,
            first_scoped(ev) is None,
            forall|k: int| 0 <= k < j ==> (#[trigger] ev[k]).1 != BumpLevel::Unchanged,
        decreases ev.len() - j,
    {
        if entries[j].1 == BumpLevel::Unchanged {
            assert(ev[j as int].1 == BumpLevel::Unchanged);
            let mut t = chars_of("refusing to migrate `");
            push_str(&mut t, path);
            push_str(&mut t, "`: a `none` entry is unsafe while knope.toml is present");
            return Err(CliError::new(string_of(&t)));
        }
        j = j + 1;
    }
    Ok(())
}

/// What the plan before the migration was read from: the old tool's own
/// plan (perhaps read under bumpy's exit-1 convention), or oakum's
/// simulation of it, when the tool could not run.
#[derive(Debug)]
pub enum BeforePlan {
    Source { under_convention: bool },
    Simulated { tool_label: String, reason: String },
}

/// The verdict of comparing the release plan before and after a migration,
/// whose files are kept whatever it says. A plan that could not be
/// recomputed fails the run. A changed plan is a finding, except against a
/// before-plan read under bumpy's exit-1 convention, which a crashed run is
/// indistinguishable from: that is a look that did not happen. A comparison
/// skipped for want of packages, or made against a simulated before-plan, is
/// a look that did not happen too. `changed` is whether the plans, once
/// compared, differ in a way no expected knope feature explains (`false`
/// when no comparison was made); `recomputed` is the after-plan's failure.
pub fn comparison_verdict(before: &Option<BeforePlan>, recomputed: Result<(), String>, changed: bool, no_packages: bool) -> (r: Result<(), CliError>)
    ensures
        match recomputed {
            Err(e) => r matches Err(CliError::Other(m)) && m@ == "migrated files were kept; failed to recompute the release plan: "@ + e@,
            Ok(()) => if changed {
                if *before matches Some(BeforePlan::Source { under_convention: true }) {
                    r matches Err(CliError::Unverified { detail }) && detail@ == "unverified: migrated files were kept; the release plan differs from a before-plan read under bumpy's exit-1 convention, which a crashed run is indistinguishable from"@
                } else {
                    r matches Err(CliError::Other(m)) && m@ == "migrated files were kept; the release plan changed"@
                }
            } else if no_packages {
                r matches Err(CliError::Unverified { detail }) && detail@ == "unverified: migrated files were kept; plan comparison skipped; no packages discovered"@
            } else {
                match *before {
                    Some(BeforePlan::Simulated { tool_label, reason }) => r matches Err(CliError::Unverified { detail })
                        && detail@ == "unverified: migrated files were kept; source-tool before-plan unavailable ("@ + tool_label@ + "): "@ + reason@,
                    _ => r is Ok,
                }
            },
        },
{
    if let Err(e) = recomputed {
        let mut t = chars_of("migrated files were kept; failed to recompute the release plan: ");
        push_str(&mut t, e.as_str());
        return Err(CliError::new(string_of(&t)));
    }
    if changed {
        if let Some(BeforePlan::Source { under_convention: true }) = before {
            return Err(CliError::unverified(string_of(&chars_of(
                "unverified: migrated files were kept; the release plan differs from a before-plan read under bumpy's exit-1 convention, which a crashed run is indistinguishable from",
            ))));
        }
        return Err(CliError::new(string_of(&chars_of("migrated files were kept; the release plan changed"))));
    }
    if no_packages {
        return Err(CliError::unverified(string_of(&chars_of(
            "unverified: migrated files were kept; plan comparison skipped; no packages discovered",
        ))));
    }
    if let Some(BeforePlan::Simulated { tool_label, reason }) = before {
        let mut t = chars_of("unverified: migrated files were kept; source-tool before-plan unavailable (");
        push_str(&mut t, tool_label.as_str());
        push_str(&mut t, "): ");
        push_str(&mut t, reason.as_str());
        return Err(CliError::unverified(string_of(&t)));
    }
    Ok(())
}

} // verus!
