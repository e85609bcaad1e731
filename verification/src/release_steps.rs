//! The decisions along `release`'s way: which rendered tags it may plan,
//! what GitHub and the remote already hold, what each tag still needs, and
//! what a stop leaves behind. The git and GitHub calls stay with the caller,
//! which hands each answer to these functions and acts on theirs.
use vstd::prelude::*;

use crate::outcome::{said, CliError};
use crate::plan::{id_view, PackageId};
use crate::text::{chars_of, debug_str, push_all, push_str, string_of, Text};
use crate::versions::{version_text, SemVer, VersionView};

verus! {

broadcast use crate::views::lemma_text_deep_view;

/// A tag `release` means to push and release.
#[derive(Debug)]
pub struct PlannedTag {
    pub package: String,
    pub version: SemVer,
    pub name: String,
    pub commit: String,
    /// An existing tag whose release was not finished, taken up again.
    pub resumed: bool,
}

/// How far one tag got before a stop.
#[derive(Clone, Copy, Debug, PartialEq, Eq, Structural)]
pub enum Progress {
    Tagged,
    Pushed,
    /// Tagged, and whether the push landed could not be read back.
    PushUnverified,
    Released,
}

/// How a stage is named in the stop report.
pub open spec fn stage_words(p: Progress) -> Seq<char> {
    match p {
        Progress::Tagged => "tagged"@,
        Progress::Pushed => "pushed"@,
        Progress::PushUnverified => "tagged; whether the push landed is unverified"@,
        Progress::Released => "released"@,
    }
}

fn stage_of(p: Progress) -> (s: &'static str)
    ensures
        s@ == stage_words(p),
{
    match p {
        Progress::Tagged => "tagged",
        Progress::Pushed => "pushed",
        Progress::PushUnverified => "tagged; whether the push landed is unverified",
        Progress::Released => "released",
    }
}

// ---------------------------------------------------------------------------
// Planning the tags
// ---------------------------------------------------------------------------

/// Whether the name at `j` was already rendered earlier.
pub open spec fn seen_before(names: Seq<Seq<char>>, j: int) -> bool {
    exists|i: int| 0 <= i < j && #[trigger] names[i] == names[j]
}

/// The first position, from `j` on, whose name was already rendered.
pub open spec fn first_repeat_from(names: Seq<Seq<char>>, j: int) -> Option<int>
    decreases names.len() - j,
{
    if j < 0 || j >= names.len() {
        None
    } else if seen_before(names, j) {
        Some(j)
    } else {
        first_repeat_from(names, j + 1)
    }
}

/// Refuses a tag-format that renders one name for two packages, naming the
/// first name rendered twice.
pub fn refuse_repeated_names(names: &Vec<String>) -> (r: Result<(), CliError>)
    ensures
        match first_repeat_from(names.deep_view(), 0) {
            None => r is Ok,
            Some(j) => r matches Err(e) && said(e) == "tag-format rendered `"@ + names.deep_view()[j]
                + "` for more than one package"@,
        },
{
    let ghost nv = names.deep_view();
    let mut j: usize = 0;
    while j < names.len()
        invariant
            nv == names.deep_view(),
            j <= nv.len(),
            first_repeat_from(nv, 0) == first_repeat_from(nv, j as int),
        decreases nv.len() - j,
    {
        let cj = chars_of(names[j].as_str());
        let mut i: usize = 0;
        while i < j
            invariant
                nv == names.deep_view(),
                j < nv.len(),
                i <= j,
                cj@ == nv[j as int],
                first_repeat_from(nv, 0) == first_repeat_from(nv, j as int),
                forall|k: int| 0 <= k < i ==> nv[k] != nv[j as int],
            decreases j - i,
        {
            if crate::text::same(&chars_of(names[i].as_str()), &cj) {
                assert(nv[i as int] == nv[j as int]);
                assert(seen_before(nv, j as int));
                let mut m = chars_of("tag-format rendered `");
                push_str(&mut m, names[j].as_str());
                push_str(&mut m, "` for more than one package");
                return Err(CliError::new(string_of(&m)));
            }
            i = i + 1;
        }
        assert(!seen_before(nv, j as int));
        j = j + 1;
    }
    Ok(())
}

/// What the tag reader made of a rendered name: the version it attributes
/// to the package, none, or a refusal to attribute it at all.
pub open spec fn readable_refusal(name: Seq<char>, package: Seq<char>, version: VersionView, resolved: Result<Option<VersionView>, ()>) -> Option<Seq<char>> {
    match resolved {
        Ok(Some(v)) => if v == version {
            None
        } else {
            Some("tag-format rendered `"@ + name + "` as "@ + package + " "@ + version_text(v) + ", not "@ + package + " "@
                + version_text(version))
        },
        Ok(None) => Some("tag-format rendered `"@ + name + "`, which is not a readable tag for "@ + package),
        Err(()) => Some("tag-format rendered `"@ + name + "`, which later check would treat as leftover"@),
    }
}

/// The view of what the tag reader attributed.
pub open spec fn resolved_view(r: Result<Option<SemVer>, ()>) -> Result<Option<VersionView>, ()> {
    match r {
        Ok(Some(v)) => Ok(Some(v@)),
        Ok(None) => Ok(None),
        Err(()) => Err(()),
    }
}

/// Whether a rendered name reads back as this package at this version, so
/// that a later `check` finds the release it cuts.
pub fn readable_for_package(name: &str, package: &str, version: &SemVer, resolved: Result<Option<SemVer>, ()>) -> (r: Result<(), CliError>)
    ensures
        match readable_refusal(name@, package@, version@, resolved_view(resolved)) {
            None => r is Ok,
            Some(m) => r matches Err(e) && e == CliError::Other(e->Other_0) && said(e) == m,
        },
{
    match resolved {
        Ok(Some(v)) => {
            if v.same_as(version) {
                Ok(())
            } else {
                let mut m = chars_of("tag-format rendered `");
                push_str(&mut m, name);
                push_str(&mut m, "` as ");
                push_str(&mut m, package);
                push_str(&mut m, " ");
                push_all(&mut m, &v.chars());
                push_str(&mut m, ", not ");
                push_str(&mut m, package);
                push_str(&mut m, " ");
                push_all(&mut m, &version.chars());
                Err(CliError::new(string_of(&m)))
            }
        },
        Ok(None) => {
            let mut m = chars_of("tag-format rendered `");
            push_str(&mut m, name);
            push_str(&mut m, "`, which is not a readable tag for ");
            push_str(&mut m, package);
            Err(CliError::new(string_of(&m)))
        },
        Err(()) => {
            let mut m = chars_of("tag-format rendered `");
            push_str(&mut m, name);
            push_str(&mut m, "`, which later check would treat as leftover");
            Err(CliError::new(string_of(&m)))
        },
    }
}

// ---------------------------------------------------------------------------
// Preflight: what GitHub, the remote and the local repository already hold
// ---------------------------------------------------------------------------

/// What GitHub's release for a tag means for it: none leaves the tag owed; a
/// found one finishes a resumed tag and collides with a new one.
pub open spec fn lookup_verdict(name: Seq<char>, resumed: bool, found: Option<Seq<char>>) -> Result<bool, Seq<char>> {
    match found {
        None => Ok(true),
        Some(url) => if resumed {
            Ok(false)
        } else {
            Err("GitHub already has a release for `"@ + name + "` ("@ + url + ")"@)
        },
    }
}

/// Whether a tag is still owed a release, from the address of GitHub's
/// release for it, if it has one.
pub fn release_lookup_verdict(tag: &PlannedTag, found: Option<String>) -> (r: Result<bool, CliError>)
    ensures
        match lookup_verdict(tag.name@, tag.resumed, match found {
            Some(u) => Some(u@),
            None => None,
        }) {
            Ok(b) => r matches Ok(x) && x == b,
            Err(m) => r matches Err(e) && said(e) == m,
        },
{
    match found {
        None => Ok(true),
        Some(url) => if tag.resumed {
            Ok(false)
        } else {
            let mut m = chars_of("GitHub already has a release for `");
            push_str(&mut m, tag.name.as_str());
            push_str(&mut m, "` (");
            push_str(&mut m, url.as_str());
            push_str(&mut m, ")");
            Err(CliError::new(string_of(&m)))
        },
    }
}

/// A remote that already has the tag at another commit refuses.
pub open spec fn remote_verdict(remote: Seq<char>, name: Seq<char>, commit: Seq<char>, advertised: Option<Seq<char>>) -> Option<Seq<char>> {
    match advertised {
        Some(existing) => if existing == commit {
            None
        } else {
            Some("remote "@ + debug_str(remote) + " already has tag `"@ + name + "` at `"@ + existing + "`, not `"@ + commit
                + "`"@)
        },
        None => None,
    }
}

/// Whether the remote's copy of the tag, if it has one, is at the planned
/// commit.
pub fn remote_tag_verdict(remote: &str, tag: &PlannedTag, advertised: Option<String>) -> (r: Result<(), CliError>)
    ensures
        match remote_verdict(remote@, tag.name@, tag.commit@, match advertised {
            Some(c) => Some(c@),
            None => None,
        }) {
            None => r is Ok,
            Some(m) => r matches Err(e) && said(e) == m,
        },
{
    match advertised {
        None => Ok(()),
        Some(existing) => {
            if crate::text::same(&chars_of(existing.as_str()), &chars_of(tag.commit.as_str())) {
                Ok(())
            } else {
                let mut m = chars_of("remote ");
                push_all(&mut m, &crate::text::debug_text(&chars_of(remote)));
                push_str(&mut m, " already has tag `");
                push_str(&mut m, tag.name.as_str());
                push_str(&mut m, "` at `");
                push_str(&mut m, existing.as_str());
                push_str(&mut m, "`, not `");
                push_str(&mut m, tag.commit.as_str());
                push_str(&mut m, "`");
                Err(CliError::new(string_of(&m)))
            }
        },
    }
}

/// A local tag at another commit refuses.
pub open spec fn local_verdict(name: Seq<char>, commit: Seq<char>, local: Option<Seq<char>>) -> Option<Seq<char>> {
    match local {
        Some(existing) => if existing == commit {
            None
        } else {
            Some("local tag `"@ + name + "` points at `"@ + existing + "`, not `"@ + commit + "`"@)
        },
        None => None,
    }
}

/// Whether the local tag, if there is one, is at the planned commit.
pub fn local_tag_verdict(tag: &PlannedTag, local: Option<String>) -> (r: Result<(), CliError>)
    ensures
        match local_verdict(tag.name@, tag.commit@, match local {
            Some(c) => Some(c@),
            None => None,
        }) {
            None => r is Ok,
            Some(m) => r matches Err(e) && said(e) == m,
        },
{
    match local {
        None => Ok(()),
        Some(existing) => {
            if crate::text::same(&chars_of(existing.as_str()), &chars_of(tag.commit.as_str())) {
                Ok(())
            } else {
                let mut m = chars_of("local tag `");
                push_str(&mut m, tag.name.as_str());
                push_str(&mut m, "` points at `");
                push_str(&mut m, existing.as_str());
                push_str(&mut m, "`, not `");
                push_str(&mut m, tag.commit.as_str());
                push_str(&mut m, "`");
                Err(CliError::new(string_of(&m)))
            }
        },
    }
}

// ---------------------------------------------------------------------------
// One tag
// ---------------------------------------------------------------------------

/// What releasing one tag still takes: creating the tag (only when neither
/// this repository nor the remote has it) and pushing it (unless the remote
/// already has it at the planned commit).
pub fn release_actions(local_exists: bool, remote_has_it: bool) -> (r: (bool, bool))
    ensures
        r == (!local_exists && !remote_has_it, !remote_has_it),
{
    (!local_exists && !remote_has_it, !remote_has_it)
}

/// The title and body of the GitHub release for a tag.
pub fn release_text(tag: &PlannedTag) -> (r: (String, String))
    ensures
        r.0@ == tag.package@ + " "@ + version_text(tag.version@),
        r.1@ == r.0@ + "\n"@,
{
    let mut title = chars_of(tag.package.as_str());
    push_str(&mut title, " ");
    push_all(&mut title, &tag.version.chars());
    let mut body = crate::text::copy(&title);
    push_str(&mut body, "\n");
    (string_of(&title), string_of(&body))
}

/// What re-reading the remote said after a push failed.
#[derive(Debug)]
pub enum Reread {
    /// The tag is there, at the planned commit: the push landed.
    Landed,
    /// The tag is not there.
    Missing,
    /// The re-read itself failed, with this detail.
    Failed(String),
}

/// The stage a failed push leaves a tag at, and the error to report: a
/// push that landed anyway counts as pushed; one whose re-read failed is
/// unverified.
pub fn push_outcome(progress: Option<Progress>, err: CliError, reread: Reread) -> (r: (Option<Progress>, CliError))
    ensures
        match reread {
            Reread::Landed => r.0 == Some(Progress::Pushed) && r.1 == err,
            Reread::Missing => r.0 == progress && r.1 == err,
            Reread::Failed(d) => r.0 == Some(Progress::PushUnverified) && r.1 is Unverified && r.1->detail@ == "unverified: "@ + said(err)
                + "; the re-read that would settle whether the tag landed failed too ("@ + d@ + ")"@,
        },
{
    match reread {
        Reread::Landed => (Some(Progress::Pushed), err),
        Reread::Missing => (progress, err),
        Reread::Failed(d) => {
            let mut m = chars_of("unverified: ");
            push_all(&mut m, &err.message_text());
            push_str(&mut m, "; the re-read that would settle whether the tag landed failed too (");
            push_str(&mut m, d.as_str());
            push_str(&mut m, ")");
            (Some(Progress::PushUnverified), CliError::unverified(string_of(&m)))
        },
    }
}

/// Whether a later tag is pushed at the same commit as tag `index`.
pub fn commit_recurs(planned: &Vec<PlannedTag>, index: usize) -> (b: bool)
    requires
        index < planned@.len(),
    ensures
        b == exists|k: int| index < k < planned@.len() && (#[trigger] planned@[k]).commit@ == planned@[index as int].commit@,
{
    let c = chars_of(planned[index].commit.as_str());
    let len = planned.len();
    assert(index < len);
    let mut k: usize = index + 1;
    while k < planned.len()
        invariant
            index < k <= planned@.len(),
            c@ == planned@[index as int].commit@,
            forall|j: int| index < j < k ==> (#[trigger] planned@[j]).commit@ != c@,
        decreases planned@.len() - k,
    {
        if crate::text::same(&chars_of(planned[k].commit.as_str()), &c) {
            return true;
        }
        k = k + 1;
    }
    false
}

// ---------------------------------------------------------------------------
// The stop report
// ---------------------------------------------------------------------------

/// `  line\n` for each line.
pub open spec fn indented(lines: Seq<Seq<char>>) -> Seq<char>
    decreases lines.len(),
{
    if lines.len() == 0 {
        Seq::empty()
    } else {
        indented(lines.drop_last()) + "  "@ + lines.last() + "\n"@
    }
}

/// What a stopped release reports: what completed (with the stage the
/// current tag reached), what remains, and why it stopped. Tags are never
/// deleted.
pub open spec fn stop_report(completed: Seq<Seq<char>>, progress: Option<Progress>, current: Seq<char>, remaining: Seq<Seq<char>>, why: Seq<char>) -> Seq<char> {
    "release stopped; tags are not deleted.\n"@ + (if completed.len() == 0 && progress is None {
        "completed: none\n"@
    } else {
        "completed:\n"@ + indented(completed) + match progress {
            Some(p) => "  "@ + current + " ("@ + stage_words(p) + ")\n"@,
            None => Seq::empty(),
        }
    }) + (if remaining.len() == 0 {
        "remaining: none\n"@
    } else {
        "remaining:\n"@ + indented(remaining)
    }) + why
}

fn push_indented(out: &mut Text, lines: &Vec<String>)
    ensures
        final(out)@ == old(out)@ + indented(lines.deep_view()),
{
    let ghost start = out@;
    let ghost lv = lines.deep_view();
    let mut i: usize = 0;
    assert(lv.take(0) =~= Seq::<Seq<char>>::empty());
    while i < lines.len()
        invariant
            lv == lines.deep_view(),
            i <= lv.len(),
            out@ == start + indented(lv.take(i as int)),
        decreases lv.len() - i,
    {
        assert(lv.take(i + 1).drop_last() == lv.take(i as int));
        assert(lv.take(i + 1).last() == lines[i as int]@);
        push_str(out, "  ");
        push_str(out, lines[i].as_str());
        push_str(out, "\n");
        i = i + 1;
    }
    assert(lv.take(lv.len() as int) == lv);
}

/// The error a stopped release reports.
#[verifier::spinoff_prover]
#[verifier::rlimit(40)]
pub fn partial_failure(completed: &Vec<String>, progress: Option<Progress>, current: &str, remaining: &Vec<String>, err: &CliError) -> (e: CliError)
    ensures
        e == CliError::Other(e->Other_0),
        said(e) == stop_report(completed.deep_view(), progress, current@, remaining.deep_view(), said(*err)),
{
    let mut d = chars_of("release stopped; tags are not deleted.\n");
    let ghost a = d@;
    if completed.len() == 0 && progress.is_none() {
        push_str(&mut d, "completed: none\n");
    } else {
        push_str(&mut d, "completed:\n");
        push_indented(&mut d, completed);
        if let Some(p) = progress {
            push_str(&mut d, "  ");
            push_str(&mut d, current);
            push_str(&mut d, " (");
            push_str(&mut d, stage_of(p));
            push_str(&mut d, ")\n");
        }
    }
    let ghost b = d@;
    if remaining.len() == 0 {
        push_str(&mut d, "remaining: none\n");
    } else {
        push_str(&mut d, "remaining:\n");
        push_indented(&mut d, remaining);
    }
    let ghost c = d@;
    push_all(&mut d, &err.message_text());
    assert(d@ =~= stop_report(completed.deep_view(), progress, current@, remaining.deep_view(), said(*err)));
    CliError::new(string_of(&d))
}

// ---------------------------------------------------------------------------
// Tags the release scan never read
// ---------------------------------------------------------------------------

/// What the tag reader made of a tag name: the versions it attributes per
/// package, or a refusal to attribute it.
pub type Resolution = Result<Vec<(PackageId, SemVer)>, ()>;

/// The version the pairs from `i` on attribute to a package: the first
/// pair naming it. A resolution names each package once, as a map does.
pub open spec fn attributed_from(pairs: Seq<(PackageId, SemVer)>, id: (crate::plan::Ecosystem, Seq<char>), i: int) -> Option<VersionView>
    decreases pairs.len() - i,
{
    if i < 0 || i >= pairs.len() {
        None
    } else if id_view(pairs[i].0) == id {
        Some(pairs[i].1@)
    } else {
        attributed_from(pairs, id, i + 1)
    }
}

/// The version a resolution attributes to a package, if any.
pub open spec fn attributed(pairs: Seq<(PackageId, SemVer)>, id: (crate::plan::Ecosystem, Seq<char>)) -> Option<VersionView> {
    attributed_from(pairs, id, 0)
}

/// The first tag in `tags` that blocks the scan: one attributed to this
/// package at this version (`true`), or one no package can be attributed
/// to and `excused` does not name (`false`).
pub open spec fn first_blocking(tags: Seq<(Seq<char>, Result<Seq<(PackageId, SemVer)>, ()>)>, id: (crate::plan::Ecosystem, Seq<char>), version: VersionView, excused: Seq<Seq<char>>) -> Option<(Seq<char>, bool)>
    decreases tags.len(),
{
    if tags.len() == 0 {
        None
    } else {
        match first_blocking(tags.drop_last(), id, version, excused) {
            Some(b) => Some(b),
            None => {
                let (name, r) = tags.last();
                match r {
                    Ok(pairs) => if attributed(pairs, id) == Some(version) {
                        Some((name, true))
                    } else {
                        None
                    },
                    Err(()) => if excused.contains(name) {
                        None
                    } else {
                        Some((name, false))
                    },
                }
            },
        }
    }
}

/// The resolved tags as the contracts read them.
pub open spec fn resolutions_view(tags: Seq<(String, Resolution)>) -> Seq<(Seq<char>, Result<Seq<(PackageId, SemVer)>, ()>)> {
    tags.map_values(
        |t: (String, Resolution)|
            (
                t.0@,
                match t.1 {
                    Ok(v) => Ok(v@),
                    Err(()) => Err(()),
                },
            ),
    )
}

fn attributed_of<'a>(pairs: &'a Vec<(PackageId, SemVer)>, id: &PackageId) -> (r: Option<&'a SemVer>)
    ensures
        match r {
            Some(v) => attributed(pairs@, id_view(*id)) == Some(v@),
            None => attributed(pairs@, id_view(*id)) is None,
        },
{
    let name = chars_of(id.name.as_str());
    let mut k: usize = 0;
    while k < pairs.len()
        invariant
            name@ == id.name@,
            k <= pairs@.len(),
            attributed(pairs@, id_view(*id)) == attributed_from(pairs@, id_view(*id), k as int),
        decreases pairs@.len() - k,
    {
        if pairs[k].0.ecosystem == id.ecosystem && crate::text::same(&chars_of(pairs[k].0.name.as_str()), &name) {
            return Some(&pairs[k].1);
        }
        k = k + 1;
    }
    None
}

fn names_contain(v: &Vec<String>, s: &str) -> (b: bool)
    ensures
        b == v.deep_view().contains(s@),
{
    let c = chars_of(s);
    let ghost dv = v.deep_view();
    let mut i: usize = 0;
    while i < v.len()
        invariant
            c@ == s@,
            dv == v.deep_view(),
            i <= dv.len(),
            forall|k: int| 0 <= k < i ==> dv[k] != s@,
        decreases dv.len() - i,
    {
        assert(dv[i as int] == v@[i as int]@);
        if crate::text::same(&chars_of(v[i].as_str()), &c) {
            assert(dv[i as int] == s@);
            return true;
        }
        i = i + 1;
    }
    false
}

proof fn lemma_blocking_sticks(tags: Seq<(Seq<char>, Result<Seq<(PackageId, SemVer)>, ()>)>, id: (crate::plan::Ecosystem, Seq<char>), version: VersionView, excused: Seq<Seq<char>>, k: int)
    requires
        0 <= k <= tags.len(),
        first_blocking(tags.take(k), id, version, excused) is Some,
    ensures
        first_blocking(tags, id, version, excused) == first_blocking(tags.take(k), id, version, excused),
    decreases tags.len() - k,
{
    if k < tags.len() {
        assert(tags.take(k + 1).drop_last() == tags.take(k));
        lemma_blocking_sticks(tags, id, version, excused, k + 1);
    } else {
        assert(tags.take(k) == tags);
    }
}

/// Shared unread-tag ladder: a tag attributed to this package at this
/// version blocks (`true`), other attributions pass, and an unattributable
/// name blocks (`false`) unless `excused` names it.
pub fn scan_resolved_tags(tags: &Vec<(String, Resolution)>, id: &PackageId, version: &SemVer, excused: &Vec<String>) -> (r: Option<(String, bool)>)
    ensures
        match first_blocking(resolutions_view(tags@), id_view(*id), version@, excused.deep_view()) {
            Some((n, m)) => r matches Some((x, y)) && x@ == n && y == m,
            None => r is None,
        },
{
    let ghost tv = resolutions_view(tags@);
    let mut i: usize = 0;
    assert(tv.take(0) =~= Seq::<(Seq<char>, Result<Seq<(PackageId, SemVer)>, ()>)>::empty());
    while i < tags.len()
        invariant
            tv == resolutions_view(tags@),
            i <= tags@.len(),
            first_blocking(tv.take(i as int), id_view(*id), version@, excused.deep_view()) is None,
        decreases tags@.len() - i,
    {
        assert(tv.take(i + 1).drop_last() == tv.take(i as int));
        assert(tv.take(i + 1).last() == tv[i as int]);
        let name = &tags[i].0;
        assert(tv[i as int].0 == name@);
        match &tags[i].1 {
            Ok(pairs) => {
                let ghost pv = pairs@;
                match attributed_of(pairs, id) {
                    Some(v) => {
                        if v.same_as(version) {
                            proof {
                                assert(tv[i as int].1 == Ok::<Seq<(PackageId, SemVer)>, ()>(pv));
                                lemma_blocking_sticks(tv, id_view(*id), version@, excused.deep_view(), i + 1);
                            }
                            return Some((name.clone(), true));
                        }
                        assert(tv[i as int].1 == Ok::<Seq<(PackageId, SemVer)>, ()>(pv));
                    },
                    None => {
                        assert(attributed(pv, id_view(*id)) is None);
                        assert(tv[i as int].1 == Ok::<Seq<(PackageId, SemVer)>, ()>(pv));
                    },
                }
            },
            Err(()) => {
                assert(tv[i as int].1 == Err::<Seq<(PackageId, SemVer)>, ()>(()));
                if !names_contain(excused, name.as_str()) {
                    proof {
                        lemma_blocking_sticks(tv, id_view(*id), version@, excused.deep_view(), i + 1);
                    }
                    return Some((name.clone(), false));
                }
            },
        }
        i = i + 1;
    }
    assert(tv.take(tv.len() as int) == tv);
    None
}

/// What the local tags say of the tag a package's current version renders
/// to.
#[derive(Debug)]
pub enum LocalTag {
    /// No local tag has that name.
    Missing,
    /// It exists on reachable history: the release scan read it.
    Reachable,
    /// It exists, naming this object, off reachable history.
    Unreachable { object: String },
}

/// The object of the first listed tag named `name`.
pub open spec fn listed_object(listed: Seq<(Seq<char>, Seq<char>)>, name: Seq<char>) -> Option<Seq<char>>
    decreases listed.len(),
{
    if listed.len() == 0 {
        None
    } else if listed[0].0 == name {
        Some(listed[0].1)
    } else {
        listed_object(listed.drop_first(), name)
    }
}

/// The listed tags as the contracts read them.
pub open spec fn pairs_view(listed: Seq<(String, String)>) -> Seq<(Seq<char>, Seq<char>)> {
    listed.map_values(|p: (String, String)| (p.0@, p.1@))
}

/// What the local tags say of `rendered`, given every local tag with its
/// object and the names reachable from HEAD.
pub fn local_tag_look(listed: &Vec<(String, String)>, reachable: &Vec<String>, rendered: &str) -> (r: LocalTag)
    ensures
        match listed_object(pairs_view(listed@), rendered@) {
            None => r is Missing,
            Some(o) => if reachable.deep_view().contains(rendered@) {
                r is Reachable
            } else {
                r matches LocalTag::Unreachable { object } && object@ == o
            },
        },
{
    let want = chars_of(rendered);
    let ghost lv = pairs_view(listed@);
    let mut i: usize = 0;
    assert(lv.skip(0) =~= lv);
    while i < listed.len()
        invariant
            want@ == rendered@,
            lv == pairs_view(listed@),
            i <= lv.len(),
            listed_object(lv, rendered@) == listed_object(lv.skip(i as int), rendered@),
        decreases lv.len() - i,
    {
        assert(lv.skip(i as int)[0] == lv[i as int]);
        assert(lv.skip(i as int).drop_first() =~= lv.skip(i + 1));
        if crate::text::same(&chars_of(listed[i].0.as_str()), &want) {
            if names_contain(reachable, rendered) {
                return LocalTag::Reachable;
            }
            return LocalTag::Unreachable { object: listed[i].1.clone() };
        }
        i = i + 1;
    }
    assert(lv.skip(lv.len() as int) =~= Seq::<(Seq<char>, Seq<char>)>::empty());
    LocalTag::Missing
}

/// `package version`, as the unread-tag refusals name a release.
pub open spec fn release_words(package: Seq<char>, version: VersionView) -> Seq<char> {
    package + " "@ + version_text(version)
}

/// The refusal for a rendered tag that exists off reachable history: at a
/// commit the caller could read, or naming an object nobody can.
pub open spec fn unreachable_refusal(rendered: Seq<char>, package: Seq<char>, version: VersionView, commit: Option<Seq<char>>, object: Seq<char>) -> Seq<char> {
    match commit {
        Some(c) => "unverified: tag `"@ + rendered + "` for "@ + release_words(package, version) + " points at `"@ + c
            + "` on history unreachable from HEAD, so the release scan never read it; merge that history or move the tag"@,
        None => "unverified: tag `"@ + rendered + "` for "@ + release_words(package, version) + " names object `"@ + object
            + "`, which cannot be read; the repository is corrupt where the release state would be"@,
    }
}

fn release_words_of(package: &str, version: &SemVer) -> (out: Text)
    ensures
        out@ == release_words(package@, version@),
{
    let mut m = chars_of(package);
    push_str(&mut m, " ");
    push_all(&mut m, &version.chars());
    m
}

/// The refusal for a rendered tag that exists off reachable history, given
/// the commit it points at when that could be read.
pub fn unreachable_tag_refusal(rendered: &str, package: &str, version: &SemVer, commit: Option<String>, object: &str) -> (e: CliError)
    ensures
        e is Unverified,
        e->detail@ == unreachable_refusal(rendered@, package@, version@, match commit {
            Some(c) => Some(c@),
            None => None,
        }, object@),
{
    let mut m = chars_of("unverified: tag `");
    push_str(&mut m, rendered);
    push_str(&mut m, "` for ");
    push_all(&mut m, &release_words_of(package, version));
    match commit {
        Some(c) => {
            push_str(&mut m, " points at `");
            push_str(&mut m, c.as_str());
            push_str(
                &mut m,
                "` on history unreachable from HEAD, so the release scan never read it; merge that history or move the tag",
            );
        },
        None => {
            push_str(&mut m, " names object `");
            push_str(&mut m, object);
            push_str(&mut m, "`, which cannot be read; the repository is corrupt where the release state would be");
        },
    }
    CliError::unverified(string_of(&m))
}

/// The refusal for a local tag the scan blocked on: one for this version
/// under another name (`true`), or one no package can be attributed to.
pub open spec fn local_scan_refusal_of(rendered: Seq<char>, package: Seq<char>, version: VersionView, name: Seq<char>, mismatch: bool) -> Seq<char> {
    if mismatch {
        "unverified: tag-format renders `"@ + rendered + "` for "@ + release_words(package, version)
            + ", but the tag that exists for that version is `"@ + name + "`; the resume asks only about `"@ + rendered
            + "`, so reconcile the tag-format with the existing tags"@
    } else {
        "unverified: tag `"@ + name
            + "` looks like a version but could not be attributed to a package, and it sits outside reachable history, so its release state was never read; reconcile or delete the tag"@
    }
}

/// The refusal for a local tag the scan blocked on.
pub fn local_scan_refusal(rendered: &str, package: &str, version: &SemVer, name: &str, mismatch: bool) -> (e: CliError)
    ensures
        e is Unverified,
        e->detail@ == local_scan_refusal_of(rendered@, package@, version@, name@, mismatch),
{
    let mut m: Text;
    if mismatch {
        m = chars_of("unverified: tag-format renders `");
        push_str(&mut m, rendered);
        push_str(&mut m, "` for ");
        push_all(&mut m, &release_words_of(package, version));
        push_str(&mut m, ", but the tag that exists for that version is `");
        push_str(&mut m, name);
        push_str(&mut m, "`; the resume asks only about `");
        push_str(&mut m, rendered);
        push_str(&mut m, "`, so reconcile the tag-format with the existing tags");
    } else {
        m = chars_of("unverified: tag `");
        push_str(&mut m, name);
        push_str(
            &mut m,
            "` looks like a version but could not be attributed to a package, and it sits outside reachable history, so its release state was never read; reconcile or delete the tag",
        );
    }
    CliError::unverified(string_of(&m))
}

/// The refusal for a rendered tag only the remote holds.
pub open spec fn remote_present_refusal_of(rendered: Seq<char>, package: Seq<char>, version: VersionView, remote: Seq<char>) -> Seq<char> {
    "unverified: tag `"@ + rendered + "` for "@ + release_words(package, version) + " exists on remote "@ + debug_str(remote)
        + " but not locally, so the release scan never read it; run `git fetch "@ + remote + " tag "@ + rendered
        + "` and rerun"@
}

/// The refusal for a rendered tag only the remote holds.
pub fn remote_present_refusal(rendered: &str, package: &str, version: &SemVer, remote: &str) -> (e: CliError)
    ensures
        e is Unverified,
        e->detail@ == remote_present_refusal_of(rendered@, package@, version@, remote@),
{
    let mut m = chars_of("unverified: tag `");
    push_str(&mut m, rendered);
    push_str(&mut m, "` for ");
    push_all(&mut m, &release_words_of(package, version));
    push_str(&mut m, " exists on remote ");
    push_all(&mut m, &crate::text::debug_text(&chars_of(remote)));
    push_str(&mut m, " but not locally, so the release scan never read it; run `git fetch ");
    push_str(&mut m, remote);
    push_str(&mut m, " tag ");
    push_str(&mut m, rendered);
    push_str(&mut m, "` and rerun");
    CliError::unverified(string_of(&m))
}

/// The refusal for a remote tag the scan blocked on: one for this version
/// under another name (`true`), or one no package can be attributed to.
pub open spec fn remote_scan_refusal_of(rendered: Seq<char>, package: Seq<char>, version: VersionView, remote: Seq<char>, name: Seq<char>, mismatch: bool) -> Seq<char> {
    if mismatch {
        "unverified: remote "@ + debug_str(remote) + " has tag `"@ + name + "`, which names "@ + release_words(package, version)
            + ", but the tag-format renders `"@ + rendered + "`; the release scan never read it — fetch it (`git fetch "@
            + remote + " tag "@ + name + "`) or reconcile the tag-format"@
    } else {
        "unverified: remote "@ + debug_str(remote) + " has tag `"@ + name
            + "`, which looks like a version but could not be attributed to a package; the release scan never read it — fetch it (`git fetch "@
            + remote + " tag "@ + name + "`) or reconcile the tag names"@
    }
}

/// The refusal for a remote tag the scan blocked on.
pub fn remote_scan_refusal(rendered: &str, package: &str, version: &SemVer, remote: &str, name: &str, mismatch: bool) -> (e: CliError)
    ensures
        e is Unverified,
        e->detail@ == remote_scan_refusal_of(rendered@, package@, version@, remote@, name@, mismatch),
{
    let mut m = chars_of("unverified: remote ");
    push_all(&mut m, &crate::text::debug_text(&chars_of(remote)));
    push_str(&mut m, " has tag `");
    push_str(&mut m, name);
    if mismatch {
        push_str(&mut m, "`, which names ");
        push_all(&mut m, &release_words_of(package, version));
        push_str(&mut m, ", but the tag-format renders `");
        push_str(&mut m, rendered);
        push_str(&mut m, "`; the release scan never read it — fetch it (`git fetch ");
    } else {
        push_str(
            &mut m,
            "`, which looks like a version but could not be attributed to a package; the release scan never read it — fetch it (`git fetch ",
        );
    }
    push_str(&mut m, remote);
    push_str(&mut m, " tag ");
    push_str(&mut m, name);
    if mismatch {
        push_str(&mut m, "`) or reconcile the tag-format");
    } else {
        push_str(&mut m, "`) or reconcile the tag names");
    }
    CliError::unverified(string_of(&m))
}

/// What settling one package's unread tags needs next: nothing more, a
/// refusal, the commit behind an unreachable tag, or the remote's tags.
#[derive(Debug)]
pub enum UnreadStep {
    /// Every tag that could hold this release's state was read.
    Clear,
    /// A tag that could hold it was never read.
    Refuse(CliError),
    /// Read the commit this object points at, and decide again with it.
    ReadCommit { object: String },
    /// List and resolve the remote's tags once, and decide again with them.
    ReadRemote { remote: String },
}

/// One step of settling whether a package's release state was read: the
/// local look at the rendered tag first, then the local scan for the same
/// version under another name, then, where a remote is set, its listing,
/// which is asked for only while `advertised` is `None`. `commit` is the
/// answer to a `ReadCommit` (itself `None` where the object could not be
/// read); `advertised` holds whether the remote has the rendered tag and
/// what its scan blocked on.
pub fn unread_step(
    look: LocalTag,
    commit: Option<Option<String>>,
    local_blocking: Option<(String, bool)>,
    remote: Option<String>,
    advertised: Option<(bool, Option<(String, bool)>)>,
    rendered: &str,
    package: &str,
    version: &SemVer,
) -> (r: UnreadStep)
    ensures
        advertised is Some ==> !(r is ReadRemote),
        commit is Some ==> !(r is ReadCommit),
        match look {
            LocalTag::Reachable => r is Clear,
            LocalTag::Unreachable { object } => match commit {
                None => r matches UnreadStep::ReadCommit { object: o } && o@ == object@,
                Some(c) => r matches UnreadStep::Refuse(e) && e is Unverified
                    && e->detail@ == unreachable_refusal(rendered@, package@, version@, match c {
                        Some(x) => Some(x@),
                        None => None,
                    }, object@),
            },
            LocalTag::Missing => match local_blocking {
                Some((name, mismatch)) => r matches UnreadStep::Refuse(e) && e is Unverified
                    && e->detail@ == local_scan_refusal_of(rendered@, package@, version@, name@, mismatch),
                None => match remote {
                    None => r is Clear,
                    Some(rm) => match advertised {
                        None => r matches UnreadStep::ReadRemote { remote: x } && x@ == rm@,
                        Some((present, blocking)) => if present {
                            r matches UnreadStep::Refuse(e) && e is Unverified
                                && e->detail@ == remote_present_refusal_of(rendered@, package@, version@, rm@)
                        } else {
                            match blocking {
                                Some((name, mismatch)) => r matches UnreadStep::Refuse(e) && e is Unverified
                                    && e->detail@ == remote_scan_refusal_of(rendered@, package@, version@, rm@, name@, mismatch),
                                None => r is Clear,
                            }
                        },
                    },
                },
            },
        },
{
    match look {
        LocalTag::Reachable => UnreadStep::Clear,
        LocalTag::Unreachable { object } => match commit {
            None => UnreadStep::ReadCommit { object },
            Some(c) => UnreadStep::Refuse(unreachable_tag_refusal(rendered, package, version, c, object.as_str())),
        },
        LocalTag::Missing => match local_blocking {
            Some((name, mismatch)) => UnreadStep::Refuse(local_scan_refusal(rendered, package, version, name.as_str(), mismatch)),
            None => match remote {
                None => UnreadStep::Clear,
                Some(rm) => match advertised {
                    None => UnreadStep::ReadRemote { remote: rm },
                    Some((present, blocking)) => {
                        if present {
                            UnreadStep::Refuse(remote_present_refusal(rendered, package, version, rm.as_str()))
                        } else {
                            match blocking {
                                Some((name, mismatch)) => UnreadStep::Refuse(
                                    remote_scan_refusal(rendered, package, version, rm.as_str(), name.as_str(), mismatch),
                                ),
                                None => UnreadStep::Clear,
                            }
                        }
                    },
                },
            },
        },
    }
}

} // verus!
