//! The plan the tool being migrated away from would have cut, read off its
//! own output, so `migrate` can compare it with oakum's. Running the tool is
//! outside; what its output says, and when it cannot be trusted, is here.
use vstd::prelude::*;

use crate::migrate::{tool_name, ReleaseTool};
use crate::plan::{id_view, resolution, Ecosystem, Package, PackageId, UnknownReason, Workspace};
use crate::text::{
    chars_of, ends_with, is_space, lines, lines_of, push_all, push_str, same, starts_with,
    string_of, strip_prefix, token_end, trim, trim_set, trim_start, trimmed, trimmed_set, trimmed_start, Text,
};
use crate::versions::{parse_version, semver_error, semver_parse, SemVer, VersionView};

verus! {

broadcast use crate::views::lemma_text_deep_view;

/// The tool whose own plan is the before-fingerprint: knope, then bumpy,
/// then changesets.
pub fn primary_plan_tool(knope: bool, bumpy: bool, changesets: bool) -> (r: Option<ReleaseTool>)
    ensures
        r == (if knope {
            Some(ReleaseTool::Knope)
        } else if bumpy {
            Some(ReleaseTool::Bumpy)
        } else if changesets {
            Some(ReleaseTool::Changesets)
        } else {
            None
        }),
{
    if knope {
        Some(ReleaseTool::Knope)
    } else if bumpy {
        Some(ReleaseTool::Bumpy)
    } else if changesets {
        Some(ReleaseTool::Changesets)
    } else {
        None
    }
}

// ---------------------------------------------------------------------------
// Fingerprints
// ---------------------------------------------------------------------------

/// Per package, the version a release moves it from and to.
#[derive(Debug)]
pub struct Fingerprint {
    entries: Vec<(PackageId, SemVer, SemVer)>,
}

/// A package identity as a fingerprint keys it.
pub type IdView = (Ecosystem, Seq<char>);

pub open spec fn entries_map(es: Seq<(PackageId, SemVer, SemVer)>) -> Map<IdView, (VersionView, VersionView)>
    decreases es.len(),
{
    if es.len() == 0 {
        Map::empty()
    } else {
        entries_map(es.drop_last()).insert(id_view(es.last().0), (es.last().1@, es.last().2@))
    }
}

impl View for Fingerprint {
    type V = Map<IdView, (VersionView, VersionView)>;

    closed spec fn view(&self) -> Map<IdView, (VersionView, VersionView)> {
        entries_map(self.entries@)
    }
}

pub open spec fn ids_distinct(es: Seq<(PackageId, SemVer, SemVer)>) -> bool {
    forall|i: int, j: int| 0 <= i < es.len() && 0 <= j < es.len() && i != j ==> id_view(#[trigger] es[i].0) != id_view(#[trigger] es[j].0)
}

proof fn lemma_entries_map(es: Seq<(PackageId, SemVer, SemVer)>)
    requires
        ids_distinct(es),
    ensures
        entries_map(es).dom().finite(),
        entries_map(es).dom().len() == es.len(),
        forall|k: IdView| #[trigger] entries_map(es).contains_key(k) <==> exists|i: int| 0 <= i < es.len() && id_view(es[i].0) == k,
        forall|i: int| 0 <= i < es.len() ==> entries_map(es)[id_view(#[trigger] es[i].0)] == (es[i].1@, es[i].2@),
    decreases es.len(),
{
    if es.len() > 0 {
        let rest = es.drop_last();
        assert(ids_distinct(rest)) by {
            assert forall|i: int, j: int| 0 <= i < rest.len() && 0 <= j < rest.len() && i != j implies id_view(#[trigger] rest[i].0) != id_view(#[trigger] rest[j].0) by {
                assert(rest[i] == es[i] && rest[j] == es[j]);
            }
        }
        lemma_entries_map(rest);
        let k = id_view(es.last().0);
        assert(!entries_map(rest).contains_key(k)) by {
            if entries_map(rest).contains_key(k) {
                let i = choose|i: int| 0 <= i < rest.len() && id_view(rest[i].0) == k;
                assert(es[i] == rest[i]);
                assert(es[es.len() - 1] == es.last());
            }
        }
        assert forall|x: IdView| #[trigger] entries_map(es).contains_key(x) <==> exists|i: int| 0 <= i < es.len() && id_view(es[i].0) == x by {
            if entries_map(rest).contains_key(x) {
                let i = choose|i: int| 0 <= i < rest.len() && id_view(rest[i].0) == x;
                assert(es[i] == rest[i]);
            }
            if exists|i: int| 0 <= i < es.len() && id_view(es[i].0) == x {
                let i = choose|i: int| 0 <= i < es.len() && id_view(es[i].0) == x;
                if i < rest.len() {
                    assert(es[i] == rest[i]);
                }
            }
        }
        assert forall|i: int| 0 <= i < es.len() implies entries_map(es)[id_view(#[trigger] es[i].0)] == (es[i].1@, es[i].2@) by {
            if i < rest.len() {
                assert(es[i] == rest[i]);
                assert(id_view(es[i].0) != k);
            }
        }
    }
}

impl Fingerprint {
    /// No package ids repeat.
    #[verifier::type_invariant]
    spec fn well_formed(&self) -> bool {
        ids_distinct(self.entries@)
    }

    pub fn new() -> (f: Fingerprint)
        ensures
            f@ == Map::<IdView, (VersionView, VersionView)>::empty(),
    {
        Fingerprint { entries: Vec::new() }
    }

    /// Sets the versions recorded for `id`, replacing any earlier ones.
    pub fn insert(&mut self, id: PackageId, from: SemVer, to: SemVer)
        ensures
            final(self)@ == old(self)@.insert(id_view(id), (from@, to@)),
    {
        proof {
            use_type_invariant(&*self);
        }
        let mut entries: Vec<(PackageId, SemVer, SemVer)> = Vec::new();
        std::mem::swap(&mut entries, &mut self.entries);
        let ghost es = entries@;
        proof {
            lemma_entries_map(es);
        }
        let key = chars_of(id.name.as_str());
        let mut i: usize = 0;
        while i < entries.len()
            invariant
                es == entries@,
                old(self)@ == entries_map(es),
                ids_distinct(es),
                key@ == id.name@,
                i <= es.len(),
                forall|j: int| 0 <= j < i ==> id_view(#[trigger] es[j].0) != id_view(id),
            decreases es.len() - i,
        {
            if entries[i].0.ecosystem == id.ecosystem && same(&chars_of(entries[i].0.name.as_str()), &key) {
                assert(id_view(es[i as int].0) == id_view(id));
                let ghost old_map = entries_map(es);
                entries.set(i, (id, from, to));
                proof {
                    let ns = entries@;
                    assert(ids_distinct(ns)) by {
                        assert forall|a: int, b: int| 0 <= a < ns.len() && 0 <= b < ns.len() && a != b implies id_view(#[trigger] ns[a].0) != id_view(#[trigger] ns[b].0) by {
                            assert(id_view(ns[a].0) == id_view(es[a].0));
                            assert(id_view(ns[b].0) == id_view(es[b].0));
                        }
                    }
                    lemma_entries_map(es);
                    lemma_entries_map(ns);
                    let nm = entries_map(ns);
                    assert(nm =~= old_map.insert(id_view(ns[i as int].0), (from@, to@))) by {
                        assert forall|k: IdView| #[trigger] nm.contains_key(k) == old_map.insert(id_view(ns[i as int].0), (from@, to@)).contains_key(k) by {
                            if nm.contains_key(k) {
                                let m = choose|m: int| 0 <= m < ns.len() && id_view(ns[m].0) == k;
                                if m != i {
                                    assert(ns[m] == es[m]);
                                }
                                assert(id_view(es[m].0) == k);
                            }
                            if old_map.contains_key(k) {
                                let m = choose|m: int| 0 <= m < es.len() && id_view(es[m].0) == k;
                                if m != i {
                                    assert(ns[m] == es[m]);
                                }
                                assert(id_view(ns[m].0) == k);
                            }
                        }
                        assert forall|k: IdView| nm.contains_key(k) implies #[trigger] nm[k] == old_map.insert(id_view(ns[i as int].0), (from@, to@))[k] by {
                            let m = choose|m: int| 0 <= m < ns.len() && id_view(ns[m].0) == k;
                            if m != i {
                                assert(ns[m] == es[m]);
                            }
                        }
                    }
                }
                self.entries = entries;
                return;
            }
            i = i + 1;
        }
        entries.push((id, from, to));
        proof {
            let ns = entries@;
            assert(ns.drop_last() == es);
            assert(ids_distinct(ns)) by {
                assert forall|a: int, b: int| 0 <= a < ns.len() && 0 <= b < ns.len() && a != b implies id_view(#[trigger] ns[a].0) != id_view(#[trigger] ns[b].0) by {
                    if a < es.len() && b < es.len() {
                        assert(ns[a] == es[a] && ns[b] == es[b]);
                    } else if a < es.len() {
                        assert(ns[a] == es[a]);
                    } else {
                        assert(ns[b] == es[b]);
                    }
                }
            }
        }
        self.entries = entries;
    }

    /// How many packages the fingerprint names.
    pub fn len(&self) -> (n: usize)
        ensures
            n == self@.dom().len(),
    {
        proof {
            use_type_invariant(self);
            lemma_entries_map(self.entries@);
        }
        self.entries.len()
    }

    /// The versions recorded for `id`, if any.
    pub fn get(&self, id: &PackageId) -> (r: Option<(SemVer, SemVer)>)
        ensures
            match self@.get(id_view(*id)) {
                Some(v) => r matches Some((a, b)) && a@ == v.0 && b@ == v.1,
                None => r is None,
            },
    {
        let ghost es = self.entries@;
        proof {
            use_type_invariant(self);
            lemma_entries_map(es);
        }
        let key = chars_of(id.name.as_str());
        let mut i: usize = 0;
        while i < self.entries.len()
            invariant
                es == self.entries@,
                ids_distinct(es),
                self@ == entries_map(es),
                key@ == id.name@,
                i <= es.len(),
                forall|j: int| 0 <= j < i ==> id_view(#[trigger] es[j].0) != id_view(*id),
            decreases es.len() - i,
        {
            if self.entries[i].0.ecosystem == id.ecosystem && same(&chars_of(self.entries[i].0.name.as_str()), &key) {
                proof {
                    lemma_entries_map(es);
                    assert(id_view(es[i as int].0) == id_view(*id));
                }
                return Some((self.entries[i].1.duplicate(), self.entries[i].2.duplicate()));
            }
            i = i + 1;
        }
        proof {
            lemma_entries_map(es);
        }
        None
    }
}

// ---------------------------------------------------------------------------
// Release lists
// ---------------------------------------------------------------------------

/// The message for a release name that does not resolve.
pub open spec fn unresolved_release(tool: Seq<char>, name: Seq<char>, why: UnknownReason) -> Seq<char> {
    match why {
        UnknownReason::Missing => tool + " release `"@ + name + "` matches no workspace package"@,
        UnknownReason::Ambiguous => tool + " release `"@ + name + "` matches more than one workspace package"@,
    }
}

/// Releases as `(name, old version, new version)`, each resolved to one
/// package and both versions parsed; the first that fails refuses.
pub open spec fn fingerprint_of(rs: Seq<(Seq<char>, Seq<char>, Seq<char>)>, ps: Seq<Package>, tool: Seq<char>) -> Result<Map<IdView, (VersionView, VersionView)>, Seq<char>>
    decreases rs.len(),
{
    if rs.len() == 0 {
        Ok(Map::empty())
    } else {
        match fingerprint_of(rs.drop_last(), ps, tool) {
            Err(e) => Err(e),
            Ok(m) => {
                let (name, old, new) = rs.last();
                match resolution(ps, name) {
                    Err(why) => Err(unresolved_release(tool, name, why)),
                    Ok(k) => match semver_parse(old) {
                        None => Err(tool + " oldVersion `"@ + old + "` for `"@ + name + "`: "@ + semver_error(old)),
                        Some(a) => match semver_parse(new) {
                            None => Err(tool + " newVersion `"@ + new + "` for `"@ + name + "`: "@ + semver_error(new)),
                            Some(b) => Ok(m.insert(id_view(ps[k].id), (a, b))),
                        },
                    },
                }
            },
        }
    }
}

pub open spec fn triples_view(rs: Seq<(String, String, String)>) -> Seq<(Seq<char>, Seq<char>, Seq<char>)> {
    rs.map_values(|r: (String, String, String)| (r.0@, r.1@, r.2@))
}

proof fn lemma_fingerprint_refusal_sticks(rs: Seq<(Seq<char>, Seq<char>, Seq<char>)>, ps: Seq<Package>, tool: Seq<char>, i: int)
    requires
        0 <= i <= rs.len(),
        fingerprint_of(rs.take(i), ps, tool) is Err,
    ensures
        fingerprint_of(rs, ps, tool) == fingerprint_of(rs.take(i), ps, tool),
    decreases rs.len() - i,
{
    if i < rs.len() {
        assert(rs.take(i + 1).drop_last() == rs.take(i));
        lemma_fingerprint_refusal_sticks(rs, ps, tool, i + 1);
    } else {
        assert(rs.take(i) == rs);
    }
}

/// The fingerprint a tool's release list comes to.
pub fn releases_to_fingerprint(releases: &Vec<(String, String, String)>, workspace: &Workspace, tool: &str) -> (r: Result<Fingerprint, String>)
    ensures
        match fingerprint_of(triples_view(releases@), workspace.packages@, tool@) {
            Ok(m) => r matches Ok(f) && f@ == m,
            Err(e) => r matches Err(x) && x@ == e,
        },
{
    let ghost rv = triples_view(releases@);
    let mut fingerprint = Fingerprint::new();
    let mut i: usize = 0;
    assert(rv.take(0) =~= Seq::<(Seq<char>, Seq<char>, Seq<char>)>::empty());
    while i < releases.len()
        invariant
            rv == triples_view(releases@),
            i <= rv.len(),
            fingerprint_of(rv.take(i as int), workspace.packages@, tool@) == Ok::<Map<IdView, (VersionView, VersionView)>, Seq<char>>(fingerprint@),
        decreases rv.len() - i,
    {
        assert(rv.take(i + 1).drop_last() == rv.take(i as int));
        assert(rv.take(i + 1).last() == (releases@[i as int].0@, releases@[i as int].1@, releases@[i as int].2@));
        let (name, old, new) = &releases[i];
        let id = match workspace.resolve(name.as_str()) {
            Ok(id) => id,
            Err(why) => {
                let mut m = chars_of(tool);
                push_str(&mut m, " release `");
                push_str(&mut m, name.as_str());
                match why {
                    UnknownReason::Missing => push_str(&mut m, "` matches no workspace package"),
                    UnknownReason::Ambiguous => push_str(&mut m, "` matches more than one workspace package"),
                }
                proof {
                    lemma_fingerprint_refusal_sticks(rv, workspace.packages@, tool@, (i + 1) as int);
                }
                return Err(string_of(&m));
            },
        };
        let from = match parse_version(old.as_str()) {
            Ok(v) => v,
            Err(err) => {
                let mut m = chars_of(tool);
                push_str(&mut m, " oldVersion `");
                push_str(&mut m, old.as_str());
                push_str(&mut m, "` for `");
                push_str(&mut m, name.as_str());
                push_str(&mut m, "`: ");
                push_str(&mut m, err.as_str());
                proof {
                    lemma_fingerprint_refusal_sticks(rv, workspace.packages@, tool@, (i + 1) as int);
                }
                return Err(string_of(&m));
            },
        };
        let to = match parse_version(new.as_str()) {
            Ok(v) => v,
            Err(err) => {
                let mut m = chars_of(tool);
                push_str(&mut m, " newVersion `");
                push_str(&mut m, new.as_str());
                push_str(&mut m, "` for `");
                push_str(&mut m, name.as_str());
                push_str(&mut m, "`: ");
                push_str(&mut m, err.as_str());
                proof {
                    lemma_fingerprint_refusal_sticks(rv, workspace.packages@, tool@, (i + 1) as int);
                }
                return Err(string_of(&m));
            },
        };
        fingerprint.insert(id, from, to);
        i = i + 1;
    }
    assert(rv.take(rv.len() as int) == rv);
    Ok(fingerprint)
}

/// One release in `changeset status --output`.
#[derive(Clone, Debug)]
pub struct ChangesetsRelease {
    pub name: String,
    pub release_type: String,
    pub old_version: Option<String>,
    pub new_version: Option<String>,
}

/// The releases changesets will cut: not of type `none`, and with both
/// versions given.
pub open spec fn changesets_triples(rs: Seq<ChangesetsRelease>) -> Seq<(Seq<char>, Seq<char>, Seq<char>)>
    decreases rs.len(),
{
    if rs.len() == 0 {
        Seq::empty()
    } else {
        let r = rs.last();
        let rest = changesets_triples(rs.drop_last());
        if r.release_type@ != "none"@ && r.old_version is Some && r.new_version is Some {
            rest.push((r.name@, r.old_version->0@, r.new_version->0@))
        } else {
            rest
        }
    }
}

/// The releases changesets will cut, as `(name, old, new)`.
pub fn changesets_releases(rs: &Vec<ChangesetsRelease>) -> (out: Vec<(String, String, String)>)
    ensures
        triples_view(out@) == changesets_triples(rs@),
{
    let mut out: Vec<(String, String, String)> = Vec::new();
    let mut i: usize = 0;
    while i < rs.len()
        invariant
            i <= rs@.len(),
            triples_view(out@) == changesets_triples(rs@.take(i as int)),
        decreases rs@.len() - i,
    {
        assert(rs@.take(i + 1).drop_last() == rs@.take(i as int));
        let r = &rs[i];
        if !crate::text::is(&chars_of(r.release_type.as_str()), "none") {
            match (&r.old_version, &r.new_version) {
                (Some(old), Some(new)) => {
                    let ghost before = out@;
                    out.push((r.name.clone(), old.clone(), new.clone()));
                    assert(triples_view(out@) =~= triples_view(before).push((r.name@, old@, new@)));
                },
                _ => {},
            }
        }
        i = i + 1;
    }
    assert(rs@.take(rs@.len() as int) == rs@);
    out
}

/// One release in `bumpy status --json`.
#[derive(Clone, Debug)]
pub struct BumpyRelease {
    pub name: String,
    pub old_version: String,
    pub new_version: String,
    pub release_type: Option<String>,
}

/// The releases bumpy will cut: every one whose type is not `none`.
pub open spec fn bumpy_triples(rs: Seq<BumpyRelease>) -> Seq<(Seq<char>, Seq<char>, Seq<char>)>
    decreases rs.len(),
{
    if rs.len() == 0 {
        Seq::empty()
    } else {
        let r = rs.last();
        let rest = bumpy_triples(rs.drop_last());
        if r.release_type matches Some(t) && t@ == "none"@ {
            rest
        } else {
            rest.push((r.name@, r.old_version@, r.new_version@))
        }
    }
}

/// The releases bumpy will cut, as `(name, old, new)`.
pub fn bumpy_releases(rs: &Vec<BumpyRelease>) -> (out: Vec<(String, String, String)>)
    ensures
        triples_view(out@) == bumpy_triples(rs@),
{
    let mut out: Vec<(String, String, String)> = Vec::new();
    let mut i: usize = 0;
    while i < rs.len()
        invariant
            i <= rs@.len(),
            triples_view(out@) == bumpy_triples(rs@.take(i as int)),
        decreases rs@.len() - i,
    {
        assert(rs@.take(i + 1).drop_last() == rs@.take(i as int));
        let r = &rs[i];
        let none = match &r.release_type {
            Some(t) => crate::text::is(&chars_of(t.as_str()), "none"),
            None => false,
        };
        if !none {
            let ghost before = out@;
            out.push((r.name.clone(), r.old_version.clone(), r.new_version.clone()));
            assert(triples_view(out@) =~= triples_view(before).push((r.name@, r.old_version@, r.new_version@)));
        }
        i = i + 1;
    }
    assert(rs@.take(rs@.len() as int) == rs@);
    out
}

// ---------------------------------------------------------------------------
// What a run of the tool comes to
// ---------------------------------------------------------------------------

/// What the tool's own plan could be read as.
#[derive(Debug)]
pub enum SourceBeforePlan {
    Available { tool: ReleaseTool, fingerprint: Fingerprint },
    /// A missing binary, a failed run, or output that cannot be used.
    Unavailable { tool: ReleaseTool, reason: String },
}

/// The reason a tool with no before-plan command gives.
pub fn no_before_plan(tool: ReleaseTool) -> (s: SourceBeforePlan)
    ensures
        s matches SourceBeforePlan::Unavailable { tool: t, reason } && t == tool
            && reason@ == tool_name(tool) + " has no migrate before-plan command"@,
{
    let mut m = chars_of(tool.name());
    push_str(&mut m, " has no migrate before-plan command");
    SourceBeforePlan::Unavailable { tool, reason: string_of(&m) }
}

/// `: stderr` when the tool said anything on stderr.
pub open spec fn stderr_clause(prefix: Seq<char>, stderr: Seq<char>) -> Seq<char> {
    if trim(stderr).len() == 0 {
        Seq::empty()
    } else {
        prefix + trim(stderr)
    }
}

fn push_stderr(m: &mut Text, prefix: &str, stderr: &str)
    ensures
        final(m)@ == old(m)@ + stderr_clause(prefix@, stderr@),
{
    let t = trimmed(&chars_of(stderr));
    if t.len() > 0 {
        push_str(m, prefix);
        push_all(m, &t);
    } else {
        assert(old(m)@ + Seq::<char>::empty() =~= old(m)@);
    }
}

/// What a `changeset status --output` run comes to: a run that did not
/// succeed is not a verified plan, even with a parseable file; then a file
/// that could not be read, then the parse of its releases.
pub fn changesets_outcome(succeeded: bool, exit_code: &str, stderr: &str, read: Result<Result<Fingerprint, String>, String>) -> (s: SourceBeforePlan)
    ensures
        !succeeded ==> (s matches SourceBeforePlan::Unavailable { tool: t, reason } && t == ReleaseTool::Changesets
            && reason@ == "`changeset status` exited "@ + exit_code@ + stderr_clause(": "@, stderr@)),
        succeeded ==> match read {
            Err(err) => s matches SourceBeforePlan::Unavailable { tool: t, reason } && t == ReleaseTool::Changesets
                && reason@ == "changeset did not write `--output` file ("@ + err@ + ")"@ + stderr_clause("; stderr: "@, stderr@),
            Ok(Err(reason_in)) => s matches SourceBeforePlan::Unavailable { tool: t, reason } && t == ReleaseTool::Changesets
                && reason@ == reason_in@,
            Ok(Ok(f)) => s matches SourceBeforePlan::Available { tool: t, fingerprint } && t == ReleaseTool::Changesets
                && fingerprint@ == f@,
        },
{
    if !succeeded {
        let mut m = chars_of("`changeset status` exited ");
        push_str(&mut m, exit_code);
        push_stderr(&mut m, ": ", stderr);
        return SourceBeforePlan::Unavailable { tool: ReleaseTool::Changesets, reason: string_of(&m) };
    }
    match read {
        Err(err) => {
            let mut m = chars_of("changeset did not write `--output` file (");
            push_str(&mut m, err.as_str());
            push_str(&mut m, ")");
            push_stderr(&mut m, "; stderr: ", stderr);
            SourceBeforePlan::Unavailable { tool: ReleaseTool::Changesets, reason: string_of(&m) }
        },
        Ok(Err(reason)) => SourceBeforePlan::Unavailable { tool: ReleaseTool::Changesets, reason },
        Ok(Ok(fingerprint)) => SourceBeforePlan::Available { tool: ReleaseTool::Changesets, fingerprint },
    }
}

/// What a `bumpy status --json` run comes to: exit 1 with nothing pending is
/// still a usable plan, but a failed run with pending releases is not
/// evidence; a parse failure carries bumpy's stderr.
pub fn bumpy_outcome(succeeded: bool, exit_code: &str, stderr: &str, parsed: Result<Fingerprint, String>) -> (s: SourceBeforePlan)
    ensures
        match parsed {
            Ok(f) => if !succeeded && f@.dom().len() > 0 {
                s matches SourceBeforePlan::Unavailable { tool: t, reason } && t == ReleaseTool::Bumpy
                    && reason@ == "`bumpy status --json` exited "@ + exit_code@ + " with pending releases"@ + stderr_clause(": "@, stderr@)
            } else {
                s matches SourceBeforePlan::Available { tool: t, fingerprint } && t == ReleaseTool::Bumpy && fingerprint@ == f@
            },
            Err(reason_in) => s matches SourceBeforePlan::Unavailable { tool: t, reason } && t == ReleaseTool::Bumpy
                && reason@ == reason_in@ + stderr_clause("; stderr: "@, stderr@),
        },
{
    match parsed {
        Ok(fingerprint) => {
            if !succeeded && fingerprint.len() > 0 {
                let mut m = chars_of("`bumpy status --json` exited ");
                push_str(&mut m, exit_code);
                push_str(&mut m, " with pending releases");
                push_stderr(&mut m, ": ", stderr);
                return SourceBeforePlan::Unavailable { tool: ReleaseTool::Bumpy, reason: string_of(&m) };
            }
            SourceBeforePlan::Available { tool: ReleaseTool::Bumpy, fingerprint }
        },
        Err(reason) => {
            let mut m = chars_of(reason.as_str());
            push_stderr(&mut m, "; stderr: ", stderr);
            SourceBeforePlan::Unavailable { tool: ReleaseTool::Bumpy, reason: string_of(&m) }
        },
    }
}

// ---------------------------------------------------------------------------
// knope's dry run
// ---------------------------------------------------------------------------

/// Exact, or `…/<expected>` when `expected` is not a bare file name: a bare
/// `Cargo.toml` or `package.json` matches only the root package.
pub open spec fn path_matches(got: Seq<char>, expected: Seq<char>) -> bool {
    got == expected || (expected.contains('/') && ends_with(got, seq!['/'] + expected))
}

/// Whether a path knope printed names the manifest at `expected`.
pub fn paths_equal_or_suffix(got: &[char], expected: &[char]) -> (b: bool)
    ensures
        b == path_matches(got@, expected@),
{
    if same(got, expected) {
        return true;
    }
    if !crate::text::has_char(expected, '/') {
        return false;
    }
    let mut suffix: Text = Vec::new();
    suffix.push('/');
    push_all(&mut suffix, expected);
    assert(suffix@ =~= seq!['/'] + expected@);
    crate::text::finishes(got, &suffix)
}

/// `s` with every `\` written `/`.
pub open spec fn forward_slashes(s: Seq<char>) -> Seq<char> {
    s.map_values(|c: char| if c == '\\' { '/' } else { c })
}

fn with_forward_slashes(s: &[char]) -> (out: Text)
    ensures
        out@ == forward_slashes(s@),
{
    let mut out: Text = Vec::new();
    let mut i: usize = 0;
    while i < s.len()
        invariant
            i <= s@.len(),
            out@ == forward_slashes(s@.take(i as int)),
        decreases s@.len() - i,
    {
        out.push(if s[i] == '\\' { '/' } else { s[i] });
        assert(out@ =~= forward_slashes(s@.take(i + 1)));
        i = i + 1;
    }
    assert(s@.take(s@.len() as int) == s@);
    out
}

/// The manifest path a package's own manifest sits at.
pub open spec fn manifest_path(p: Package) -> Seq<char> {
    let file = match p.id.ecosystem {
        Ecosystem::Cargo => "Cargo.toml"@,
        Ecosystem::Npm => "package.json"@,
    };
    if p.manifest_dir@.len() == 0 {
        file
    } else {
        forward_slashes(p.manifest_dir@) + seq!['/'] + file
    }
}

/// The packages whose manifest a printed path names.
pub open spec fn manifest_matches(ps: Seq<Package>, path: Seq<char>) -> Seq<int>
    decreases ps.len(),
{
    if ps.len() == 0 {
        Seq::empty()
    } else if path_matches(forward_slashes(path), manifest_path(ps.last())) {
        manifest_matches(ps.drop_last(), path).push(ps.len() - 1)
    } else {
        manifest_matches(ps.drop_last(), path)
    }
}

fn manifest_of(p: &Package) -> (m: Text)
    ensures
        m@ == manifest_path(*p),
{
    let file = match p.id.ecosystem {
        Ecosystem::Cargo => "Cargo.toml",
        Ecosystem::Npm => "package.json",
    };
    if p.manifest_dir.as_str().is_empty() {
        chars_of(file)
    } else {
        let mut m = with_forward_slashes(&chars_of(p.manifest_dir.as_str()));
        m.push('/');
        push_str(&mut m, file);
        m
    }
}

/// The one package whose manifest a printed path names, by its index.
fn manifest_index(path: &[char], workspace: &Workspace) -> (r: Option<usize>)
    ensures
        manifest_matches(workspace.packages@, path@).len() == 1 ==> (r matches Some(i) && i == manifest_matches(workspace.packages@, path@)[0]),
        manifest_matches(workspace.packages@, path@).len() != 1 ==> r is None,
        r matches Some(i) ==> i < workspace.packages@.len(),
{
    let ghost ps = workspace.packages@;
    let normalized = with_forward_slashes(path);
    let mut found: Vec<usize> = Vec::new();
    let mut i: usize = 0;
    while i < workspace.packages.len()
        invariant
            ps == workspace.packages@,
            normalized@ == forward_slashes(path@),
            i <= ps.len(),
            found@.len() <= i,
            found@.map_values(|x: usize| x as int) == manifest_matches(ps.take(i as int), path@),
            forall|j: int| 0 <= j < found@.len() ==> found@[j] < i,
        decreases ps.len() - i,
    {
        assert(ps.take(i + 1).drop_last() == ps.take(i as int));
        assert(ps.take(i + 1).last() == ps[i as int]);
        let expected = manifest_of(&workspace.packages[i]);
        if paths_equal_or_suffix(&normalized, &expected) {
            let ghost before = found@;
            found.push(i);
            assert(found@.map_values(|x: usize| x as int) =~= before.map_values(|x: usize| x as int).push(i as int));
        }
        i = i + 1;
    }
    assert(ps.take(ps.len() as int) == ps);
    if found.len() == 1 {
        assert(found@.map_values(|x: usize| x as int)[0] == found@[0] as int);
        Some(found[0])
    } else {
        None
    }
}

/// The one package a printed manifest path names, or none when it names
/// none or several.
pub fn package_id_for_manifest_path(path: &str, workspace: &Workspace) -> (r: Option<PackageId>)
    ensures
        manifest_matches(workspace.packages@, path@).len() == 1 ==> (r matches Some(id)
            && id_view(id) == id_view(workspace.packages@[manifest_matches(workspace.packages@, path@)[0]].id)),
        manifest_matches(workspace.packages@, path@).len() != 1 ==> r is None,
{
    match manifest_index(&chars_of(path), workspace) {
        Some(i) => Some(workspace.packages[i].id.duplicate()),
        None => None,
    }
}

/// The first whitespace-separated token of `s`, if it has one.
pub open spec fn first_token(s: Seq<char>) -> Option<Seq<char>> {
    let t = trim_start(s);
    if t.len() == 0 {
        None
    } else {
        Some(t.take(token_end(t, 0)))
    }
}

/// The version text a knope dry-run payload carries: a bare version, or
/// `version = ...` with optional quotes, and only its first token, without
/// trailing `,` or `;`.
pub open spec fn payload_version(payload: Seq<char>) -> Seq<char> {
    let trimmed = trim(payload);
    let after = match strip_prefix(trimmed, "version"@) {
        Some(rest) => {
            let rest = trim_start(rest);
            let value = if rest.len() > 0 && rest[0] == '=' {
                trim(rest.drop_first())
            } else {
                rest
            };
            trim_set(value, seq!['"', '\''])
        },
        None => trimmed,
    };
    let first = match first_token(after) {
        Some(t) => t,
        None => after,
    };
    trim_set(first, seq![',', ';'])
}

/// The version a knope dry-run payload names, or why it does not name one.
pub fn parse_knope_version_payload(payload: &str) -> (r: Result<SemVer, String>)
    ensures
        match semver_parse(payload_version(payload@)) {
            Some(v) => r matches Ok(x) && x@ == v,
            None => r matches Err(e) && e@ == semver_error(payload_version(payload@)),
        },
{
    let whole = trimmed(&chars_of(payload));
    let after = match crate::text::strip_prefix_str(&whole, "version") {
        Some(rest) => {
            let rest = trimmed_start(&rest);
            let value = if rest.len() > 0 && rest[0] == '=' {
                let v = crate::text::slice_of(&rest, 1, rest.len());
                assert(v@ =~= rest@.drop_first());
                trimmed(&v)
            } else {
                rest
            };
            let mut quotes: Text = Vec::new();
            quotes.push('"');
            quotes.push('\'');
            assert(quotes@ =~= seq!['"', '\'']);
            trimmed_set(&value, &quotes)
        },
        None => whole,
    };
    let t = trimmed_start(&after);
    let first = if t.len() == 0 {
        after
    } else {
        let mut e: usize = 0;
        assert(token_end(t@, 0) == token_end(t@, e as int));
        while e < t.len() && !crate::text::space(t[e])
            invariant
                e <= t@.len(),
                token_end(t@, 0) == token_end(t@, e as int),
            decreases t@.len() - e,
        {
            e = e + 1;
        }
        crate::text::slice_of(&t, 0, e)
    };
    proof {
        if t@.len() > 0 {
            assert(first@ =~= t@.take(token_end(t@, 0)));
        }
    }
    let mut separators: Text = Vec::new();
    separators.push(',');
    separators.push(';');
    assert(separators@ =~= seq![',', ';']);
    let v = trimmed_set(&first, &separators);
    parse_version(string_of(&v).as_str())
}

/// One dry-run line as `(manifest path, payload)`: a line that starts with
/// knope's `Would add the following to ` and splits at its last `:`.
pub open spec fn dry_run_line(line: Seq<char>) -> Option<(Seq<char>, Seq<char>)> {
    match strip_prefix(line, "Would add the following to "@) {
        None => None,
        Some(rest) => match last_colon(rest) {
            None => None,
            Some(i) => Some((trim(rest.take(i)), trim(rest.skip(i + 1)))),
        },
    }
}

/// Where the last `:` of `s` is.
pub open spec fn last_colon(s: Seq<char>) -> Option<int>
    decreases s.len(),
{
    if s.len() == 0 {
        None
    } else if s.last() == ':' {
        Some(s.len() - 1)
    } else {
        last_colon(s.drop_last())
    }
}

/// Whether a path names a manifest knope writes versions into.
pub open spec fn names_manifest(path: Seq<char>) -> bool {
    ends_with(path, "package.json"@) || ends_with(path, "Cargo.toml"@)
}

/// The fingerprint knope's dry-run output comes to: each version line over a
/// manifest of exactly one package records that package's current version
/// and the one knope would write; a line whose version does not parse, or
/// whose path names no single package, refuses.
pub open spec fn knope_fingerprint(ls: Seq<Seq<char>>, ps: Seq<Package>) -> Result<Map<IdView, (VersionView, VersionView)>, Seq<char>>
    decreases ls.len(),
{
    if ls.len() == 0 {
        Ok(Map::empty())
    } else {
        match knope_fingerprint(ls.drop_last(), ps) {
            Err(e) => Err(e),
            Ok(m) => match dry_run_line(ls.last()) {
                None => Ok(m),
                Some((path, payload)) => if !names_manifest(path) {
                    Ok(m)
                } else {
                    let v = payload_version(payload);
                    match semver_parse(v) {
                        None => Err("knope dry-run version `"@ + payload + "`: "@ + semver_error(v)),
                        Some(to) => {
                            let hits = manifest_matches(ps, path);
                            if hits.len() != 1 {
                                Err("knope dry-run named `"@ + path + "` which matches no workspace package"@)
                            } else {
                                Ok(m.insert(id_view(ps[hits[0]].id), (ps[hits[0]].version@, to)))
                            }
                        },
                    }
                },
            },
        }
    }
}

proof fn lemma_knope_refusal_sticks(ls: Seq<Seq<char>>, ps: Seq<Package>, i: int)
    requires
        0 <= i <= ls.len(),
        knope_fingerprint(ls.take(i), ps) is Err,
    ensures
        knope_fingerprint(ls, ps) == knope_fingerprint(ls.take(i), ps),
    decreases ls.len() - i,
{
    if i < ls.len() {
        assert(ls.take(i + 1).drop_last() == ls.take(i));
        lemma_knope_refusal_sticks(ls, ps, i + 1);
    } else {
        assert(ls.take(i) == ls);
    }
}

#[verifier::rlimit(40)]
fn split_dry_run_line(line: &[char]) -> (r: Option<(Text, Text)>)
    ensures
        match dry_run_line(line@) {
            Some((p, v)) => r matches Some((a, b)) && a@ == p && b@ == v,
            None => r is None,
        },
{
    let rest = match crate::text::strip_prefix_str(line, "Would add the following to ") {
        Some(rest) => rest,
        None => return None,
    };
    let mut i = rest.len();
    assert(last_colon(rest@) == last_colon(rest@.take(i as int))) by {
        assert(rest@.take(i as int) =~= rest@);
    }
    while i > 0 && rest[i - 1] != ':'
        invariant
            i <= rest@.len(),
            last_colon(rest@) == last_colon(rest@.take(i as int)),
        decreases i,
    {
        assert(rest@.take(i as int).drop_last() =~= rest@.take(i - 1));
        i = i - 1;
    }
    if i == 0 {
        assert(rest@.take(0) =~= Seq::<char>::empty());
        return None;
    }
    assert(last_colon(rest@.take(i as int)) == Some(i - 1)) by {
        assert(rest@.take(i as int).last() == rest@[i - 1]);
    }
    let path = trimmed(&crate::text::slice_of(&rest, 0, i - 1));
    let payload = trimmed(&crate::text::slice_of(&rest, i, rest.len()));
    Some((path, payload))
}

/// The fingerprint knope's `--dry-run` output comes to.
pub fn parse_knope_dry_run(text: &str, workspace: &Workspace) -> (r: Result<Fingerprint, String>)
    ensures
        match knope_fingerprint(lines(text@), workspace.packages@) {
            Ok(m) => r matches Ok(f) && f@ == m,
            Err(e) => r matches Err(x) && x@ == e,
        },
{
    let t = chars_of(text);
    let ls = lines_of(&t);
    let ghost lv = ls.deep_view();
    let ghost ps = workspace.packages@;
    let mut fingerprint = Fingerprint::new();
    let mut i: usize = 0;
    assert(lv.take(0) =~= Seq::<Seq<char>>::empty());
    while i < ls.len()
        invariant
            lv == ls.deep_view(),
            lv == lines(text@),
            ps == workspace.packages@,
            i <= lv.len(),
            knope_fingerprint(lv.take(i as int), ps) == Ok::<Map<IdView, (VersionView, VersionView)>, Seq<char>>(fingerprint@),
        decreases lv.len() - i,
    {
        assert(lv.take(i + 1).drop_last() == lv.take(i as int));
        assert(lv.take(i + 1).last() == ls[i as int]@);
        if let Some((path, payload)) = split_dry_run_line(&ls[i]) {
            if crate::text::finishes_str(&path, "package.json") || crate::text::finishes_str(&path, "Cargo.toml") {
                let to = match parse_knope_version_payload(string_of(&payload).as_str()) {
                    Ok(v) => v,
                    Err(err) => {
                        let mut m = chars_of("knope dry-run version `");
                        push_all(&mut m, &payload);
                        push_str(&mut m, "`: ");
                        push_str(&mut m, err.as_str());
                        proof {
                            lemma_knope_refusal_sticks(lv, ps, (i + 1) as int);
                        }
                        return Err(string_of(&m));
                    },
                };
                match manifest_index(&path, workspace) {
                    Some(k) => {
                        let p = &workspace.packages[k];
                        fingerprint.insert(p.id.duplicate(), p.version.duplicate(), to);
                    },
                    None => {
                        let mut m = chars_of("knope dry-run named `");
                        push_all(&mut m, &path);
                        push_str(&mut m, "` which matches no workspace package");
                        proof {
                            lemma_knope_refusal_sticks(lv, ps, (i + 1) as int);
                        }
                        return Err(string_of(&m));
                    },
                }
            }
        }
        i = i + 1;
    }
    assert(lv.take(lv.len() as int) == lv);
    Ok(fingerprint)
}

} // verus!
