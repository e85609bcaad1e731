//! The `.changeset/` files oakum owns: `_schema.json`, `README.md` and
//! `_config.toml`. One definition of "owned" here, so the probe, the writes
//! and the uninstall line cannot disagree about what oakum may touch, and one
//! writer of `_config.toml`'s text.
use vstd::prelude::*;

use crate::config::PrivatePackages;
use crate::migrate_config::ConfigSettings;
use crate::plan::{versioning_word, Versioning};
use crate::tag_shape::{shape_text, ReadableTemplate};
use crate::text::{push_all, push_str, string_of, Text};
use crate::versions::{semver_lt, version_text, SemVer, VersionView};
use crate::outcome::CliError;

verus! {

/// The config file, relative to the repository root.
pub const CONFIG_REL: &'static str = ".changeset/_config.toml";
/// The bundled schema's copy.
pub const SCHEMA_REL: &'static str = ".changeset/_schema.json";
/// The README oakum writes beside them.
pub const README_REL: &'static str = ".changeset/README.md";

/// How TOML spells a boolean.
pub open spec fn bool_word(b: bool) -> Seq<char> {
    if b {
        "true"@
    } else {
        "false"@
    }
}

fn bool_text(b: bool) -> (s: &'static str)
    ensures
        s@ == bool_word(b),
{
    if b {
        "true"
    } else {
        "false"
    }
}

/// The axes a `private-packages` value opts in, in the order the file
/// writes them.
pub open spec fn axes_named(p: (bool, bool)) -> Seq<Seq<char>> {
    (if p.0 {
        seq!["version"@]
    } else {
        Seq::empty()
    }) + (if p.1 {
        seq!["tag"@]
    } else {
        Seq::empty()
    })
}

/// The inline table `_config.toml` carries for a `private-packages` value.
pub open spec fn private_packages_line(p: (bool, bool)) -> Seq<char> {
    "private-packages = { version = "@ + bool_word(p.0) + ", tag = "@ + bool_word(p.1) + " }"@
}

impl PrivatePackages {
    /// The axes this value opts in, so a report can name what one source
    /// file contributed rather than what the whole migration writes.
    pub fn axis_names(&self) -> (names: Vec<&'static str>)
        ensures
            names@.map_values(|s: &'static str| s@) == axes_named(self@),
    {
        let mut names: Vec<&'static str> = Vec::new();
        if self.version() {
            names.push("version");
        }
        if self.tag() {
            names.push("tag");
        }
        assert(names@.map_values(|s: &'static str| s@) =~= axes_named(self@));
        names
    }

    /// The line `_config.toml` carries. One value produces it, so the report
    /// and the file cannot describe the opt-in differently.
    pub fn toml_line(&self) -> (line: String)
        ensures
            line@ == private_packages_line(self@),
    {
        let t = self.line_text();
        string_of(&t)
    }

    fn line_text(&self) -> (t: Text)
        ensures
            t@ == private_packages_line(self@),
    {
        let mut t: Text = Vec::new();
        push_str(&mut t, "private-packages = { version = ");
        push_str(&mut t, bool_text(self.version()));
        push_str(&mut t, ", tag = ");
        push_str(&mut t, bool_text(self.tag()));
        push_str(&mut t, " }");
        t
    }
}

/// One character as a TOML basic string holds it: the backslash and the
/// quote escaped, everything else as it is.
pub open spec fn escape_char(c: char) -> Seq<char> {
    if c == '\\' {
        seq!['\\', '\\']
    } else if c == '"' {
        seq!['\\', '"']
    } else {
        seq![c]
    }
}

/// `m` with the two characters TOML gives meaning escaped.
pub open spec fn escaped(m: Seq<char>) -> Seq<char>
    decreases m.len(),
{
    if m.len() == 0 {
        Seq::empty()
    } else {
        escape_char(m[0]) + escaped(m.drop_first())
    }
}

/// How a TOML reader decodes the body of a basic string whose only escapes
/// are `\\` and `\"`.
pub open spec fn unescaped(s: Seq<char>) -> Seq<char>
    decreases s.len(),
{
    if s.len() == 0 {
        Seq::empty()
    } else if s.len() >= 2 && s[0] == '\\' && (s[1] == '\\' || s[1] == '"') {
        seq![s[1]] + unescaped(s.subrange(2, s.len() as int))
    } else {
        seq![s[0]] + unescaped(s.drop_first())
    }
}

/// The `commit-message` line for `m`.
pub open spec fn commit_line(m: Seq<char>) -> Seq<char> {
    "commit-message = \""@ + escaped(m) + "\""@
}

proof fn lemma_escaped_push(m: Seq<char>, c: char)
    ensures
        escaped(m.push(c)) == escaped(m) + escape_char(c),
    decreases m.len(),
{
    if m.len() == 0 {
        assert(m.push(c).drop_first() =~= Seq::<char>::empty());
        assert(escaped(Seq::<char>::empty()) =~= Seq::<char>::empty());
        assert(escaped(m.push(c)) =~= escape_char(c) + escaped(Seq::<char>::empty()));
        assert(escaped(m.push(c)) =~= escaped(m) + escape_char(c));
    } else {
        assert(m.push(c).drop_first() =~= m.drop_first().push(c));
        lemma_escaped_push(m.drop_first(), c);
        assert(escaped(m.push(c)) =~= escape_char(m[0]) + escaped(m.drop_first().push(c)));
        assert(escaped(m.push(c)) =~= escaped(m) + escape_char(c));
    }
}

fn escaped_text(m: &str) -> (t: Text)
    ensures
        t@ == escaped(m@),
{
    let chars = crate::text::chars_of(m);
    let mut t: Text = Vec::new();
    let mut i: usize = 0;
    assert(chars@.take(0) =~= Seq::<char>::empty());
    while i < chars.len()
        invariant
            chars@ == m@,
            i <= chars@.len(),
            t@ == escaped(chars@.take(i as int)),
        decreases chars@.len() - i,
    {
        let c = chars[i];
        proof {
            assert(chars@.take(i + 1) =~= chars@.take(i as int).push(c));
            lemma_escaped_push(chars@.take(i as int), c);
        }
        if c == '\\' {
            t.push('\\');
            t.push('\\');
        } else if c == '"' {
            t.push('\\');
            t.push('"');
        } else {
            t.push(c);
        }
        assert(t@ =~= escaped(chars@.take((i + 1) as int)));
        i = i + 1;
    }
    assert(chars@.take(chars@.len() as int) =~= chars@);
    t
}

/// The `commit-message` line as the file receives it: a TOML basic string
/// with the two characters TOML gives meaning escaped. Shared with the
/// report, so the line `migrate` announces and the line it writes cannot
/// differ. A message reaching here has been refused for control characters
/// already, so no other escape applies.
pub fn commit_message_line(message: &str) -> (line: String)
    ensures
        line@ == commit_line(message@),
{
    let t = commit_line_text(message);
    string_of(&t)
}

fn commit_line_text(message: &str) -> (t: Text)
    ensures
        t@ == commit_line(message@),
{
    let mut t: Text = Vec::new();
    push_str(&mut t, "commit-message = \"");
    push_all(&mut t, &escaped_text(message));
    push_str(&mut t, "\"");
    t
}

/// A TOML reader decodes the written message back to the message itself:
/// escaping loses nothing and adds nothing.
pub proof fn lemma_a_written_commit_message_reads_back(m: Seq<char>)
    ensures
        unescaped(escaped(m)) == m,
    decreases m.len(),
{
    if m.len() == 0 {
        assert(escaped(m) =~= Seq::<char>::empty());
    } else {
        let c = m[0];
        let rest = escaped(m.drop_first());
        lemma_a_written_commit_message_reads_back(m.drop_first());
        let e = escape_char(c) + rest;
        assert(escaped(m) == e);
        if c == '\\' || c == '"' {
            assert(e.subrange(2, e.len() as int) =~= rest);
            assert(unescaped(e) == seq![c] + unescaped(rest));
        } else {
            assert(e.drop_first() =~= rest);
            assert(unescaped(e) == seq![c] + unescaped(rest));
        }
        assert(seq![c] + m.drop_first() =~= m);
    }
}

/// The `tag-format` line, when one is carried.
pub open spec fn tag_format_line(t: Option<ReadableTemplate>) -> Seq<char> {
    match t {
        Some(shape) => "tag-format = \""@ + shape_text(shape) + "\"\n"@,
        None => Seq::empty(),
    }
}

/// The `private-packages` line, written only when an axis is on.
pub open spec fn private_line(p: (bool, bool)) -> Seq<char> {
    if p.0 || p.1 {
        private_packages_line(p) + "\n"@
    } else {
        Seq::empty()
    }
}

/// The `commit-message` line, when one is carried.
pub open spec fn message_line(m: Option<Seq<char>>) -> Seq<char> {
    match m {
        Some(text) => commit_line(text) + "\n"@,
        None => Seq::empty(),
    }
}

/// The lines every `_config.toml` oakum writes begins with: the schema
/// pointer, the pin, and the three preferences every file states.
pub open spec fn config_head(binary: Seq<char>, change_files: bool, conventional_commits: bool, versioning: Versioning) -> Seq<char> {
    "#:schema ./_schema.json\n"@ + "tool-version = \""@ + binary + "\"\n"@ + "change-files = "@ + bool_word(change_files)
        + "\n"@ + "conventional-commits = "@ + bool_word(conventional_commits) + "\n"@ + "versioning = \""@
        + versioning_word(versioning) + "\"\n"@
}

/// `_config.toml` as oakum writes it: the head, then the optional lines.
pub open spec fn config_text(
    binary: Seq<char>,
    change_files: bool,
    conventional_commits: bool,
    versioning: Versioning,
    tag_format: Option<ReadableTemplate>,
    private_packages: (bool, bool),
    commit_message: Option<Seq<char>>,
) -> Seq<char> {
    config_head(binary, change_files, conventional_commits, versioning) + tag_format_line(tag_format)
        + private_line(private_packages) + message_line(commit_message)
}

fn head_text(binary: &SemVer, change_files: bool, conventional_commits: bool, versioning: Versioning) -> (t: Text)
    ensures
        t@ == config_head(version_text(binary@), change_files, conventional_commits, versioning),
{
    let mut t: Text = Vec::new();
    push_str(&mut t, "#:schema ./_schema.json\n");
    push_str(&mut t, "tool-version = \"");
    push_all(&mut t, &binary.chars());
    push_str(&mut t, "\"\n");
    push_str(&mut t, "change-files = ");
    push_str(&mut t, bool_text(change_files));
    push_str(&mut t, "\n");
    push_str(&mut t, "conventional-commits = ");
    push_str(&mut t, bool_text(conventional_commits));
    push_str(&mut t, "\n");
    push_str(&mut t, "versioning = \"");
    push_str(&mut t, versioning.word());
    push_str(&mut t, "\"\n");
    t
}

fn tag_line_text(tag_format: Option<ReadableTemplate>) -> (t: Text)
    ensures
        t@ == tag_format_line(tag_format),
{
    let mut t: Text = Vec::new();
    if let Some(shape) = tag_format {
        push_str(&mut t, "tag-format = \"");
        push_all(&mut t, &shape.text());
        push_str(&mut t, "\"\n");
    }
    t
}

fn private_text(p: PrivatePackages) -> (t: Text)
    ensures
        t@ == private_line(p@),
{
    let mut t: Text = Vec::new();
    if p.any() {
        push_all(&mut t, &p.line_text());
        push_str(&mut t, "\n");
    }
    t
}

fn message_text(m: &Option<String>) -> (t: Text)
    ensures
        t@ == message_line(match m {
            Some(x) => Some(x@),
            None => None,
        }),
{
    let mut t: Text = Vec::new();
    if let Some(message) = m {
        push_all(&mut t, &commit_line_text(message.as_str()));
        push_str(&mut t, "\n");
    }
    t
}

/// The message a settings value carries, as characters.
pub open spec fn carried_message(s: ConfigSettings) -> Option<Seq<char>> {
    match s.commit_message {
        Some(m) => Some(m@),
        None => None,
    }
}

/// The text of `_config.toml` for `settings`, pinned to `binary`.
/// `private-packages` is an inline table on one line: a table header would
/// have to follow every scalar or swallow the ones after it.
pub fn config_body(binary: &SemVer, settings: ConfigSettings) -> (body: String)
    ensures
        body@ == config_text(
            version_text(binary@),
            settings.change_files,
            settings.conventional_commits,
            settings.versioning,
            settings.tag_format,
            settings.private_packages@,
            carried_message(settings),
        ),
{
    let mut t = head_text(binary, settings.change_files, settings.conventional_commits, settings.versioning);
    push_all(&mut t, &tag_line_text(settings.tag_format));
    push_all(&mut t, &private_text(settings.private_packages));
    push_all(&mut t, &message_text(&settings.commit_message));
    string_of(&t)
}

/// A setting that opts an axis in is written as a `private-packages` inline
/// table on a line of its own, whatever else the file carries.
pub proof fn lemma_an_opted_in_axis_is_written_on_a_line_of_its_own(
    binary: Seq<char>,
    change_files: bool,
    conventional_commits: bool,
    versioning: Versioning,
    tag_format: Option<ReadableTemplate>,
    private_packages: (bool, bool),
    commit_message: Option<Seq<char>>,
)
    ensures
        (private_packages.0 || private_packages.1) ==> crate::text::contains(
            config_text(binary, change_files, conventional_commits, versioning, tag_format, private_packages, commit_message),
            "\n"@ + private_packages_line(private_packages) + "\n"@,
        ),
{
    if private_packages.0 || private_packages.1 {
        reveal_strlit("\"\n");
        reveal_strlit("\n");
        let nl = "\"\n"@;
        let head = "#:schema ./_schema.json\n"@ + "tool-version = \""@ + binary + "\"\n"@ + "change-files = "@
            + bool_word(change_files) + "\n"@ + "conventional-commits = "@ + bool_word(conventional_commits)
            + "\n"@ + "versioning = \""@ + versioning_word(versioning);
        assert(config_head(binary, change_files, conventional_commits, versioning) =~= head + nl);
        let before = head + nl + tag_format_line(tag_format);
        assert(before.len() >= 1 && before.last() == '\n') by {
            match tag_format {
                Some(shape) => {
                    assert(tag_format_line(tag_format) == "tag-format = \""@ + shape_text(shape) + nl);
                },
                None => {
                    assert(before =~= head + nl);
                },
            }
        }
        let ppl = private_packages_line(private_packages);
        let line = "\n"@ + ppl + "\n"@;
        let whole = config_text(binary, change_files, conventional_commits, versioning, tag_format, private_packages, commit_message);
        assert(whole =~= before + (ppl + "\n"@) + message_line(commit_message));
        let at = before.len() - 1;
        assert(whole.subrange(at, at + line.len()) =~= line);
        crate::text::lemma_occurrence_found(whole, line, 0, at);
    }
}

/// How `_schema.json` stands against the bundled schema, by bytes.
#[derive(Clone, Copy, Debug, PartialEq, Eq, Structural)]
pub enum SchemaState {
    Absent,
    Current,
    Stale,
}

/// What one `_schema.json` write did.
#[derive(Clone, Copy, Debug, PartialEq, Eq, Structural)]
pub enum SchemaOutcome {
    Created,
    Replaced,
    Unchanged,
}

impl SchemaState {
    /// Whether the bundled schema has to be written over what stands.
    pub fn needs_write(self) -> (b: bool)
        ensures
            b == (self != SchemaState::Current),
    {
        !matches!(self, SchemaState::Current)
    }

    /// What a write from this state reports once it lands.
    pub fn outcome(self) -> (o: SchemaOutcome)
        ensures
            o == match self {
                SchemaState::Current => SchemaOutcome::Unchanged,
                SchemaState::Stale => SchemaOutcome::Replaced,
                SchemaState::Absent => SchemaOutcome::Created,
            },
    {
        match self {
            SchemaState::Current => SchemaOutcome::Unchanged,
            SchemaState::Stale => SchemaOutcome::Replaced,
            SchemaState::Absent => SchemaOutcome::Created,
        }
    }
}

/// Whether the README in `.changeset/` is oakum's.
#[derive(Clone, Copy, Debug, PartialEq, Eq, Structural)]
pub enum ReadmeState {
    Absent,
    Ours,
    Theirs,
}

/// The owned files as they stand before a write.
#[derive(Clone, Copy, Debug, PartialEq, Eq, Structural)]
pub struct OwnedPlan {
    pub schema: SchemaState,
    pub readme: ReadmeState,
}

/// What oakum owns once its write lands: the schema, the README unless a
/// user's stands there, and the config.
pub open spec fn owned_after(readme: ReadmeState) -> Seq<Seq<char>> {
    if readme == ReadmeState::Theirs {
        seq![SCHEMA_REL@, CONFIG_REL@]
    } else {
        seq![SCHEMA_REL@, README_REL@, CONFIG_REL@]
    }
}

impl OwnedPlan {
    /// Every file oakum owns once the write lands: what the uninstall line
    /// names. A README that was already oakum's counts; a user's does not.
    pub fn owned_after_write(self) -> (written: Vec<&'static str>)
        ensures
            written@.map_values(|s: &'static str| s@) == owned_after(self.readme),
    {
        let mut written: Vec<&'static str> = Vec::new();
        written.push(SCHEMA_REL);
        if !matches!(self.readme, ReadmeState::Theirs) {
            written.push(README_REL);
        }
        written.push(CONFIG_REL);
        assert(written@.map_values(|s: &'static str| s@) =~= owned_after(self.readme));
        written
    }
}

/// An owned file `migrate` can put back after it went missing.
/// `_config.toml` carries user settings and is never replaced, so it is not
/// one.
#[derive(Clone, Copy, Debug, PartialEq, Eq, Structural)]
pub enum RestorableFile {
    Schema,
    Readme,
}

impl RestorableFile {
    /// Where the file lives.
    pub fn rel(self) -> (r: &'static str)
        ensures
            r@ == match self {
                RestorableFile::Schema => SCHEMA_REL@,
                RestorableFile::Readme => README_REL@,
            },
    {
        match self {
            RestorableFile::Schema => SCHEMA_REL,
            RestorableFile::Readme => README_REL,
        }
    }
}

/// A file `upgrade` writes.
#[derive(Clone, Copy, Debug, PartialEq, Eq, Structural)]
pub enum UpgradeWrite {
    /// `.changeset/_schema.json`, rewritten as this binary's schema.
    Schema,
    /// `.changeset/_config.toml`, with `tool-version` re-pinned.
    Config,
}

/// What `upgrade` writes, in order: the schema when it is not current, then
/// the config when its pin is not this binary. The schema goes first: if
/// the run stops between the two, the stale pin keeps the version gate
/// refusing until `upgrade` runs again, where the other order would let
/// commands run against a stale schema.
pub open spec fn upgrade_writes(pinned: VersionView, binary: VersionView, schema_current: bool) -> Seq<UpgradeWrite> {
    (if schema_current { Seq::empty() } else { seq![UpgradeWrite::Schema] })
        + (if pinned == binary { Seq::empty() } else { seq![UpgradeWrite::Config] })
}

/// How `upgrade` reports the pin: unchanged, a downgrade when this binary
/// precedes the pin, else the move.
pub open spec fn pin_report(pinned: VersionView, binary: VersionView) -> Seq<char> {
    if pinned == binary {
        "tool-version: "@ + version_text(binary) + " (unchanged)"@
    } else if semver_lt(binary, pinned) {
        "tool-version: "@ + version_text(pinned) + " -> "@ + version_text(binary)
            + " (downgrade: this binary is older than the config)"@
    } else {
        "tool-version: "@ + version_text(pinned) + " -> "@ + version_text(binary)
    }
}

/// What `upgrade` prints: one line when both files are current, else the
/// pin, the migrations (none exist) and the schema.
pub open spec fn upgrade_report(pinned: VersionView, binary: VersionView, schema_current: bool) -> Seq<Seq<char>> {
    if pinned == binary && schema_current {
        seq!["already at "@ + version_text(binary) + "; `.changeset/_config.toml` and `.changeset/_schema.json` are current"@]
    } else {
        seq![
            pin_report(pinned, binary),
            "migrations: none required"@,
            "schema: .changeset/_schema.json "@ + (if schema_current { "unchanged"@ } else { "regenerated"@ }),
        ]
    }
}

/// `upgrade`'s decision, given the config's pin, this binary's version and
/// whether `_schema.json` already holds this binary's schema: a config with
/// no pin is refused; otherwise the writes to make and the lines to print.
pub fn upgrade_step(pinned: Option<&SemVer>, binary: &SemVer, schema_current: bool) -> (r: Result<(Vec<UpgradeWrite>, Vec<String>), CliError>)
    ensures
        match pinned {
            None => r matches Err(CliError::Other(m)) && m@ == "`.changeset/_config.toml` carries no `tool-version`"@,
            Some(p) => r matches Ok((w, lines)) && w@ == upgrade_writes(p@, binary@, schema_current)
                && lines.deep_view() == upgrade_report(p@, binary@, schema_current),
        },
{
    let p = match pinned {
        None => {
            let m = crate::text::chars_of("`.changeset/_config.toml` carries no `tool-version`");
            return Err(CliError::new(string_of(&m)));
        },
        Some(p) => p,
    };
    let same = p.same_as(binary);
    let mut writes: Vec<UpgradeWrite> = Vec::new();
    if !schema_current {
        writes.push(UpgradeWrite::Schema);
    }
    if !same {
        writes.push(UpgradeWrite::Config);
    }
    assert(writes@ =~= upgrade_writes(p@, binary@, schema_current));
    let mut lines: Vec<String> = Vec::new();
    if same && schema_current {
        let mut t = crate::text::chars_of("already at ");
        push_all(&mut t, &binary.chars());
        push_str(&mut t, "; `.changeset/_config.toml` and `.changeset/_schema.json` are current");
        lines.push(string_of(&t));
    } else {
        let mut t = crate::text::chars_of("tool-version: ");
        if same {
            push_all(&mut t, &binary.chars());
            push_str(&mut t, " (unchanged)");
        } else {
            push_all(&mut t, &p.chars());
            push_str(&mut t, " -> ");
            push_all(&mut t, &binary.chars());
            if binary.precedes(p) {
                push_str(&mut t, " (downgrade: this binary is older than the config)");
            }
        }
        lines.push(string_of(&t));
        lines.push(string_of(&crate::text::chars_of("migrations: none required")));
        let mut u = crate::text::chars_of("schema: .changeset/_schema.json ");
        if schema_current {
            push_str(&mut u, "unchanged");
        } else {
            push_str(&mut u, "regenerated");
        }
        lines.push(string_of(&u));
    }
    assert(lines.deep_view() =~= upgrade_report(p@, binary@, schema_current));
    Ok((writes, lines))
}

} // verus!
