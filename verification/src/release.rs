//! `release`'s policy: what decides whether tags are written, what refuses,
//! and why. Every look happens before these run; none of them reads anything.
use vstd::prelude::*;

use crate::outcome::{said, CliError};
use crate::text::{
    chars_of, contains, has_str, is_space, lines, lines_of, lower, push_all, push_str, string_of,
    to_lower, trim, trimmed, Text,
};

verus! {

broadcast use crate::views::lemma_text_deep_view;

/// Whether the repository has a remote to ask.
#[derive(Clone, Copy, Debug, PartialEq, Eq, Structural)]
pub struct HaveRemote(pub bool);

/// Whether a GitHub token is set.
#[derive(Clone, Copy, Debug, PartialEq, Eq, Structural)]
pub struct HaveToken(pub bool);

/// The refusal for a look that cannot be made, naming each missing
/// prerequisite; `None` when both are present.
pub open spec fn missing_look(remote: bool, token: bool) -> Option<Seq<char>> {
    if remote && token {
        None
    } else {
        let absent = if !remote && !token {
            "this repository has no remote, and GITHUB_TOKEN and GH_TOKEN are both unset"@
        } else if !remote {
            "this repository has no remote"@
        } else {
            "GITHUB_TOKEN and GH_TOKEN are both unset"@
        };
        Some("unverified: a tagged version has no local plan, and "@ + absent
            + ", so oakum could not ask GitHub whether it is missing its release"@)
    }
}

/// Naming which prerequisite is absent is the difference between a user who
/// sets a token and one who reads `nothing to release` and believes it.
pub fn refuse_without_a_look(remote: HaveRemote, token: HaveToken) -> (r: Result<(), CliError>)
    ensures
        match missing_look(remote.0, token.0) {
            None => r is Ok,
            Some(d) => r matches Err(CliError::Unverified { detail }) && detail@ == d,
        },
{
    if remote.0 && token.0 {
        return Ok(());
    }
    let mut d = chars_of("unverified: a tagged version has no local plan, and ");
    if !remote.0 && !token.0 {
        push_str(&mut d, "this repository has no remote, and GITHUB_TOKEN and GH_TOKEN are both unset");
    } else if !remote.0 {
        push_str(&mut d, "this repository has no remote");
    } else {
        push_str(&mut d, "GITHUB_TOKEN and GH_TOKEN are both unset");
    }
    push_str(&mut d, ", so oakum could not ask GitHub whether it is missing its release");
    Err(CliError::unverified(string_of(&d)))
}

/// A failure on the release path that kept GitHub from being asked: a look
/// that could not be made, whatever class the failure had.
pub fn unverified_look(err: &CliError) -> (e: CliError)
    ensures
        e matches CliError::Unverified { detail } && detail@ == "unverified: "@ + said(*err)
            + ", so oakum could not ask GitHub whether these tags are released"@,
{
    let mut d = chars_of("unverified: ");
    push_all(&mut d, &err.message_text());
    push_str(&mut d, ", so oakum could not ask GitHub whether these tags are released");
    CliError::unverified(string_of(&d))
}

/// Whether `git status --porcelain` reported anything.
pub fn worktree_is_dirty(status: &str) -> (b: bool)
    ensures
        b == (status@.len() > 0),
{
    !status.is_empty()
}

/// The annotations GitHub honours in a commit message to skip workflows.
pub open spec fn skip_annotation(lowered: Seq<char>) -> bool {
    contains(lowered, "[skip ci]"@) || contains(lowered, "[ci skip]"@) || contains(lowered, "[no ci]"@)
        || contains(lowered, "[skip actions]"@) || contains(lowered, "[actions skip]"@)
}

/// Whether any `skip-checks` trailer value is `true`, in any case.
pub open spec fn skip_trailer(trailers: Seq<char>) -> bool {
    exists|i: int| 0 <= i < lines(trailers).len() && lower(trim(#[trigger] lines(trailers)[i])) == "true"@
}

/// Whether a commit asks GitHub to skip its workflows: a bracketed annotation
/// in the message, or a `skip-checks: true` trailer (as git parsed them, one
/// value per line).
pub fn skip_ci(message: &str, trailers: &str) -> (b: bool)
    ensures
        b == (skip_annotation(lower(message@)) || skip_trailer(trailers@)),
{
    let low = to_lower(&chars_of(message));
    if has_str(&low, "[skip ci]") || has_str(&low, "[ci skip]") || has_str(&low, "[no ci]")
        || has_str(&low, "[skip actions]") || has_str(&low, "[actions skip]") {
        return true;
    }
    let t = chars_of(trailers);
    let ls = lines_of(&t);
    let ghost lv = ls.deep_view();
    let mut i: usize = 0;
    while i < ls.len()
        invariant
            lv == ls.deep_view(),
            lv == lines(trailers@),
            i <= lv.len(),
            forall|k: int| 0 <= k < i ==> lower(trim(#[trigger] lv[k])) != "true"@,
        decreases lv.len() - i,
    {
        let v = to_lower(&trimmed(&ls[i]));
        if crate::text::is(&v, "true") {
            assert(lower(trim(lv[i as int])) == "true"@);
            return true;
        }
        i = i + 1;
    }
    false
}

/// The refusal for a tag that would be pushed at a commit marked to skip CI.
pub open spec fn skip_ci_refusal(tag: Seq<char>) -> Seq<char> {
    "tag `"@ + tag
        + "` would be pushed at a commit whose message carries a skip-ci annotation, which GitHub honours for tag pushes: the release workflow would never start. Land a new commit without the annotation (an empty one works), re-cut the tag at a clean commit, or start the downstream workflow by hand"@
}

/// The first tag in the push set whose commit skips CI, or `None`.
pub open spec fn first_skipping(reads: Seq<(Seq<char>, Seq<char>, Seq<char>)>) -> Option<Seq<char>>
    decreases reads.len(),
{
    if reads.len() == 0 {
        None
    } else if skip_annotation(lower(reads[0].1)) || skip_trailer(reads[0].2) {
        Some(reads[0].0)
    } else {
        first_skipping(reads.drop_first())
    }
}

/// Whether a commit read `(tag, message, trailers)` asks to skip CI.
pub open spec fn read_skips(read: (Seq<char>, Seq<char>, Seq<char>)) -> bool {
    skip_annotation(lower(read.1)) || skip_trailer(read.2)
}

/// Every tag in the push set counts: a refusal comes exactly when some
/// commit in the set asks to skip CI, and it names the earliest such tag in
/// push order.
pub proof fn lemma_any_skipping_commit_refuses(reads: Seq<(Seq<char>, Seq<char>, Seq<char>)>)
    ensures
        (first_skipping(reads) is Some) <==> (exists|i: int| 0 <= i < reads.len() && #[trigger] read_skips(reads[i])),
        first_skipping(reads) matches Some(t) ==> exists|i: int|
            0 <= i < reads.len() && #[trigger] read_skips(reads[i]) && reads[i].0 == t
                && forall|k: int| 0 <= k < i ==> !read_skips(#[trigger] reads[k]),
    decreases reads.len(),
{
    if reads.len() > 0 {
        let rest = reads.drop_first();
        lemma_any_skipping_commit_refuses(rest);
        if read_skips(reads[0]) {
            assert(read_skips(reads[0]));
        } else {
            assert forall|i: int| 0 <= i < rest.len() implies #[trigger] read_skips(rest[i]) == read_skips(reads[i + 1]) by {
                assert(rest[i] == reads[i + 1]);
            }
            if exists|i: int| 0 <= i < reads.len() && #[trigger] read_skips(reads[i]) {
                let i = choose|i: int| 0 <= i < reads.len() && #[trigger] read_skips(reads[i]);
                assert(i > 0);
                assert(rest[i - 1] == reads[i]);
                assert(read_skips(rest[i - 1]));
            }
            if first_skipping(reads) is Some {
                let t = first_skipping(reads)->0;
                let i = choose|i: int|
                    0 <= i < rest.len() && #[trigger] read_skips(rest[i]) && rest[i].0 == t
                        && forall|k: int| 0 <= k < i ==> !read_skips(#[trigger] rest[k]);
                assert(rest[i] == reads[i + 1]);
                assert forall|k: int| 0 <= k < i + 1 implies !read_skips(#[trigger] reads[k]) by {
                    if k > 0 {
                        assert(rest[k - 1] == reads[k]);
                    }
                }
                assert(read_skips(reads[i + 1]));
            }
        }
    }
}

pub open spec fn reads_view(reads: Seq<(String, String, String)>) -> Seq<(Seq<char>, Seq<char>, Seq<char>)> {
    reads.map_values(|r: (String, String, String)| (r.0@, r.1@, r.2@))
}

/// One gate over the tags about to be pushed, each read at its own commit:
/// `(tag, message, skip-checks trailers)` in push order. The first tag whose
/// commit skips CI refuses.
pub fn refuse_skip_ci(reads: &Vec<(String, String, String)>) -> (r: Result<(), CliError>)
    ensures
        match first_skipping(reads_view(reads@)) {
            None => r is Ok,
            Some(tag) => r matches Err(CliError::Other(m)) && m@ == skip_ci_refusal(tag),
        },
{
    let ghost rv = reads_view(reads@);
    let mut i: usize = 0;
    assert(rv.skip(0) =~= rv);
    while i < reads.len()
        invariant
            rv == reads_view(reads@),
            i <= rv.len(),
            first_skipping(rv) == first_skipping(rv.skip(i as int)),
        decreases rv.len() - i,
    {
        assert(rv.skip(i as int)[0] == rv[i as int]);
        assert(rv.skip(i as int).drop_first() == rv.skip(i + 1));
        let (tag, message, trailers) = &reads[i];
        if skip_ci(message.as_str(), trailers.as_str()) {
            let mut m = chars_of("tag `");
            push_str(&mut m, tag.as_str());
            push_str(&mut m, "` would be pushed at a commit whose message carries a skip-ci annotation, which GitHub honours for tag pushes: the release workflow would never start. Land a new commit without the annotation (an empty one works), re-cut the tag at a clean commit, or start the downstream workflow by hand");
            return Err(CliError::new(string_of(&m)));
        }
        i = i + 1;
    }
    assert(rv.skip(i as int).len() == 0);
    Ok(())
}

/// A rendered tag name: trimmed, and refused when empty or when it still
/// holds whitespace.
pub open spec fn rendered_tag(rendered: Seq<char>) -> Result<Seq<char>, Seq<char>> {
    let t = trim(rendered);
    if t.len() == 0 {
        Err("tag-format rendered an empty string"@)
    } else if exists|i: int| 0 <= i < t.len() && is_space(#[trigger] t[i]) {
        Err("tag-format rendered whitespace: "@ + crate::text::debug_str(t))
    } else {
        Ok(t)
    }
}

/// The tag a `tag-format` rendered, checked: trimmed, not empty, and free of
/// whitespace.
pub fn check_rendered_tag(rendered: &str) -> (r: Result<String, CliError>)
    ensures
        match rendered_tag(rendered@) {
            Ok(t) => r matches Ok(s) && s@ == t,
            Err(m) => r matches Err(CliError::Other(x)) && x@ == m,
        },
{
    let t = trimmed(&chars_of(rendered));
    if t.len() == 0 {
        return Err(CliError::new("tag-format rendered an empty string".to_owned()));
    }
    let mut i: usize = 0;
    while i < t.len()
        invariant
            t@ == trim(rendered@),
            t@.len() > 0,
            i <= t@.len(),
            forall|k: int| 0 <= k < i ==> !is_space(#[trigger] t@[k]),
        decreases t@.len() - i,
    {
        if crate::text::space(t[i]) {
            assert(is_space(t@[i as int]));
            let mut m = chars_of("tag-format rendered whitespace: ");
            push_all(&mut m, &crate::text::debug_text(&t));
            return Err(CliError::new(string_of(&m)));
        }
        i = i + 1;
    }
    Ok(string_of(&t))
}

// ---------------------------------------------------------------------------
// The decision
// ---------------------------------------------------------------------------

/// Everything gathered before policy runs: the resumable tags (already
/// released at a local tag), the planned tags and the advertised snapshot are
/// carried through untouched.
pub struct ReleaseReadiness<R, T, A> {
    pub had_planned_before_resume: bool,
    pub resumable: Vec<R>,
    pub have_remote: HaveRemote,
    pub have_token: HaveToken,
    pub remote: Option<String>,
    pub token: Option<String>,
    pub planned: Vec<T>,
    pub advertised: A,
    pub preflight_error: Option<CliError>,
    pub skip_ci_error: Option<CliError>,
    pub worktree_dirty: bool,
    pub owner: Option<String>,
    pub repo_name: Option<String>,
}

/// What `release` goes on to do.
pub struct ReleasePlan<T, A> {
    pub planned: Vec<T>,
    pub advertised: A,
    pub owner: String,
    pub repo_name: String,
    pub remote: String,
}

/// The outcome of release policy.
pub enum ReleaseDecision<T, A> {
    NothingToRelease,
    Refused(CliError),
    Proceed(ReleasePlan<T, A>),
}

/// Release policy over gathered readiness. Without a local plan, resumable
/// tags need a look GitHub can answer, and without a remote and a token there
/// is nothing to release. Then a preflight failure refuses, an empty plan
/// releases nothing, a skip-ci commit and a dirty worktree refuse, and a plan
/// missing its GitHub coordinates is refused as an internal error.
pub fn decide_release<R, T, A>(readiness: ReleaseReadiness<R, T, A>) -> (d: ReleaseDecision<T, A>)
    ensures
        ({
            let r = readiness;
            let early_refusal = !r.had_planned_before_resume && r.resumable@.len() > 0 && missing_look(r.have_remote.0, r.have_token.0) is Some;
            let early_nothing = !r.had_planned_before_resume && !early_refusal && (r.remote is None || r.token is None);
            if early_refusal {
                d matches ReleaseDecision::Refused(CliError::Unverified { detail })
                    && missing_look(r.have_remote.0, r.have_token.0) == Some(detail@)
            } else if early_nothing {
                d is NothingToRelease
            } else if r.preflight_error is Some {
                d == ReleaseDecision::<T, A>::Refused(r.preflight_error->0)
            } else if r.planned@.len() == 0 {
                d is NothingToRelease
            } else if r.skip_ci_error is Some {
                d == ReleaseDecision::<T, A>::Refused(r.skip_ci_error->0)
            } else if r.worktree_dirty {
                d matches ReleaseDecision::Refused(CliError::Other(m))
                    && m@ == "working tree is dirty; commit or stash before releasing"@
            } else if r.owner is None || r.repo_name is None || r.remote is None {
                d matches ReleaseDecision::Refused(CliError::Other(m))
                    && m@ == "internal error: release plan missing GitHub coordinates"@
            } else {
                d == ReleaseDecision::Proceed(ReleasePlan {
                    planned: r.planned,
                    advertised: r.advertised,
                    owner: r.owner->0,
                    repo_name: r.repo_name->0,
                    remote: r.remote->0,
                })
            }
        }),
{
    if !readiness.had_planned_before_resume {
        if readiness.resumable.len() > 0 {
            if let Err(err) = refuse_without_a_look(readiness.have_remote, readiness.have_token) {
                return ReleaseDecision::Refused(err);
            }
        }
        if readiness.remote.is_none() || readiness.token.is_none() {
            return ReleaseDecision::NothingToRelease;
        }
    }
    if let Some(err) = readiness.preflight_error {
        return ReleaseDecision::Refused(err);
    }
    if readiness.planned.len() == 0 {
        return ReleaseDecision::NothingToRelease;
    }
    if let Some(err) = readiness.skip_ci_error {
        return ReleaseDecision::Refused(err);
    }
    if readiness.worktree_dirty {
        return ReleaseDecision::Refused(CliError::new("working tree is dirty; commit or stash before releasing".to_owned()));
    }
    match (readiness.owner, readiness.repo_name, readiness.remote) {
        (Some(owner), Some(repo_name), Some(remote)) => ReleaseDecision::Proceed(ReleasePlan {
            planned: readiness.planned,
            advertised: readiness.advertised,
            owner,
            repo_name,
            remote,
        }),
        _ => ReleaseDecision::Refused(CliError::new("internal error: release plan missing GitHub coordinates".to_owned())),
    }
}

/// The first refusal of a release run, before any tag is looked up: a plan
/// made before resuming over a dirty working tree.
pub fn dirty_refusal(planned_before_resume: bool, worktree_dirty: bool) -> (r: Option<CliError>)
    ensures
        if planned_before_resume && worktree_dirty {
            r matches Some(CliError::Other(m)) && m@ == "working tree is dirty; commit or stash before releasing"@
        } else {
            r is None
        },
{
    if planned_before_resume && worktree_dirty {
        Some(CliError::new(string_of(&chars_of("working tree is dirty; commit or stash before releasing"))))
    } else {
        None
    }
}

/// Why a release plan cannot be taken to GitHub, before GitHub is asked
/// anything: nothing is wrong when nothing is planned; else a repository
/// with no remote is a look that cannot happen, a missing token is refused,
/// and a repository slug that could not be read is a look that cannot
/// happen. `slug` is `None` where it was not read (no remote or no token).
/// What this returns is the preflight refusal the release decision weighs.
pub fn preflight_refusal(planned: bool, have_remote: bool, have_token: bool, slug: Option<Result<(), CliError>>) -> (r: Option<CliError>)
    ensures
        if !planned {
            r is None
        } else if !have_remote {
            r matches Some(CliError::Unverified { detail }) && detail@ == "unverified: this repository has no remotes to push tags to"@
        } else if !have_token {
            r matches Some(CliError::Other(m)) && m@ == "`oakum release` needs GITHUB_TOKEN or GH_TOKEN"@
        } else {
            match slug {
                Some(Err(e)) => r matches Some(CliError::Unverified { detail })
                    && detail@ == "unverified: "@ + said(e) + ", so oakum could not ask GitHub whether these tags are released"@,
                _ => r is None,
            }
        },
{
    if !planned {
        None
    } else if !have_remote {
        Some(CliError::unverified(string_of(&chars_of("unverified: this repository has no remotes to push tags to"))))
    } else if !have_token {
        Some(CliError::new(string_of(&chars_of("`oakum release` needs GITHUB_TOKEN or GH_TOKEN"))))
    } else {
        match slug {
            Some(Err(e)) => Some(unverified_look(&e)),
            _ => None,
        }
    }
}

} // verus!
