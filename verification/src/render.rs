//! The renders of a release state: the `status` summary and the pull
//! request comment `ci pr-status` posts, with the marker that finds it again.
use vstd::prelude::*;

use crate::plan::Ecosystem;
use crate::text::{chars_of, is_space, join, push_all, push_str, string_of, trim_end, Text};
use crate::versions::{version_text, SemVer};

verus! {

broadcast use crate::views::lemma_text_deep_view;

/// How far a release moves a package.
#[derive(Clone, Copy, Debug, PartialEq, Eq, Structural)]
pub enum BumpName {
    Patch,
    Minor,
    Major,
}

/// A package named in a render.
#[derive(Clone, Debug)]
pub struct PackageRef {
    pub name: String,
    pub ecosystem: Ecosystem,
}

/// Why a package releases.
#[derive(Clone, Debug)]
pub enum ReleaseSource {
    /// Its own intent asks for it.
    Intent,
    /// A package it depends on releases.
    Cascade { trigger: PackageRef },
}

/// One planned release.
#[derive(Clone, Debug)]
pub struct PlannedRelease {
    pub name: String,
    pub ecosystem: Ecosystem,
    pub from_version: SemVer,
    pub to_version: SemVer,
    pub bump: BumpName,
    pub source: ReleaseSource,
}

/// What became of the coverage look.
#[derive(Clone, Copy, Debug, PartialEq, Eq, Structural)]
pub enum CoverageLook {
    Ran,
    /// git could not diff the tree, so an empty uncovered list means nothing.
    Failed,
    /// Nobody asked for one.
    NotAsked,
}

/// What a render reads of a release state.
#[derive(Clone, Debug)]
pub struct ReleaseState {
    pub packages: Vec<PlannedRelease>,
    pub uncovered: Vec<PackageRef>,
    pub unmanaged: Vec<PackageRef>,
    pub coverage: CoverageLook,
    /// The config manages no package on either axis.
    pub manages_nothing: bool,
    /// `include`/`exclude` leave no package selected.
    pub selection_empty: bool,
}

/// The marker that finds the plan comment again.
pub const PR_PLAN_MARKER: &'static str = "<!-- oakum:pr-plan -->";

/// How an ecosystem is named in a render.
pub open spec fn ecosystem_label(e: Ecosystem) -> Seq<char> {
    match e {
        Ecosystem::Cargo => "cargo"@,
        Ecosystem::Npm => "npm"@,
    }
}

/// How a bump is named in a render.
pub open spec fn bump_label(b: BumpName) -> Seq<char> {
    match b {
        BumpName::Patch => "patch"@,
        BumpName::Minor => "minor"@,
        BumpName::Major => "major"@,
    }
}

fn ecosystem_word(e: Ecosystem) -> (s: &'static str)
    ensures
        s@ == ecosystem_label(e),
{
    match e {
        Ecosystem::Cargo => "cargo",
        Ecosystem::Npm => "npm",
    }
}

fn bump_word(b: BumpName) -> (s: &'static str)
    ensures
        s@ == bump_label(b),
{
    match b {
        BumpName::Patch => "patch",
        BumpName::Minor => "minor",
        BumpName::Major => "major",
    }
}

/// `name (`ecosystem`)`.
pub open spec fn package_entry(p: PackageRef) -> Seq<char> {
    p.name@ + " (`"@ + ecosystem_label(p.ecosystem) + "`)"@
}

/// The packages as `name (`ecosystem`)`, comma-separated.
pub open spec fn package_list(ps: Seq<PackageRef>) -> Seq<char> {
    join(ps.map_values(|p: PackageRef| package_entry(p)), ", "@)
}

fn package_list_of(ps: &Vec<PackageRef>) -> (out: Text)
    ensures
        out@ == package_list(ps@),
{
    let mut items: Vec<Text> = Vec::new();
    let mut i: usize = 0;
    while i < ps.len()
        invariant
            i <= ps@.len(),
            items.deep_view() == ps@.take(i as int).map_values(|p: PackageRef| package_entry(p)),
        decreases ps@.len() - i,
    {
        let mut e = chars_of(ps[i].name.as_str());
        push_str(&mut e, " (`");
        push_str(&mut e, ecosystem_word(ps[i].ecosystem));
        push_str(&mut e, "`)");
        let ghost before = items.deep_view();
        let ghost ev = e@;
        items.push(e);
        assert(items.deep_view() =~= before.push(ev));
        assert(ps@.take(i + 1).map_values(|p: PackageRef| package_entry(p)) =~= before.push(ev));
        i = i + 1;
    }
    assert(ps@.take(ps@.len() as int) == ps@);
    crate::text::joined(&items, ", ")
}

/// One row of the summary table.
pub open spec fn summary_row(p: PlannedRelease) -> Seq<char> {
    "| "@ + p.name@ + " (`"@ + ecosystem_label(p.ecosystem) + "`) | "@ + version_text(p.from_version@) + " | "@
        + version_text(p.to_version@) + " | "@ + bump_label(p.bump) + " | "@ + match p.source {
        ReleaseSource::Intent => "intent"@,
        ReleaseSource::Cascade { trigger } => "cascade from "@ + trigger.name@ + " ("@ + ecosystem_label(
            trigger.ecosystem,
        ) + ")"@,
    } + " |\n"@
}

/// One line of the comment's release list.
pub open spec fn comment_row(p: PlannedRelease) -> Seq<char> {
    "- `"@ + p.name@ + "` "@ + version_text(p.from_version@) + " → "@ + version_text(p.to_version@) + " ("@
        + bump_label(p.bump) + ")\n"@
}

/// The rows of `ps`, each rendered by `row`, one after another.
pub open spec fn rows(ps: Seq<PlannedRelease>, row: spec_fn(PlannedRelease) -> Seq<char>) -> Seq<char>
    decreases ps.len(),
{
    if ps.len() == 0 {
        Seq::empty()
    } else {
        rows(ps.drop_last(), row) + row(ps.last())
    }
}

/// The lines of `ps`, each rendered by `line`, one after another.
pub open spec fn ref_lines(ps: Seq<PackageRef>, line: spec_fn(PackageRef) -> Seq<char>) -> Seq<char>
    decreases ps.len(),
{
    if ps.len() == 0 {
        Seq::empty()
    } else {
        ref_lines(ps.drop_last(), line) + line(ps.last())
    }
}

/// Said when the coverage look failed.
pub open spec fn coverage_failed_note() -> Seq<char> {
    "\nCoverage was not checked: git could not diff this tree, so an empty uncovered list is not a clean result.\n"@
}

/// The plan part of the summary: the table, or why there is none.
pub open spec fn summary_plan(s: ReleaseState) -> Seq<char> {
    if s.packages@.len() == 0 {
        "No packages planned.\n"@ + (if s.manages_nothing {
            "\nThis config manages no package on either axis, so no plan can ever be non-empty; set `private-packages.version` / `private-packages.tag`, or adjust `include`/`exclude`.\n"@
        } else {
            Seq::empty()
        }) + (if s.selection_empty {
            "\n`include`/`exclude` leave no package selected, so no plan can ever name one. `check` does not refuse this, because it is a decision this config states.\n"@
        } else {
            Seq::empty()
        })
    } else {
        "| Package | From | To | Bump | Source |\n| --- | --- | --- | --- | --- |\n"@ + rows(
            s.packages@,
            |p: PlannedRelease| summary_row(p),
        )
    }
}

/// The summary's line for uncovered packages, if any.
pub open spec fn summary_uncovered(s: ReleaseState) -> Seq<char> {
    if s.uncovered@.len() > 0 {
        "\nUncovered: "@ + package_list(s.uncovered@) + "\n"@
    } else {
        Seq::empty()
    }
}

/// The summary's lines for changed packages that are not version-managed.
pub open spec fn summary_unmanaged(s: ReleaseState, fix: Seq<char>) -> Seq<char> {
    if s.unmanaged@.len() > 0 {
        "\nChanged but not version-managed: "@ + package_list(s.unmanaged@) + "\n"@ + fix + "\n"@
    } else {
        Seq::empty()
    }
}

/// The note for a failed coverage look, if it failed.
pub open spec fn coverage_part(s: ReleaseState) -> Seq<char> {
    if s.coverage == CoverageLook::Failed {
        coverage_failed_note()
    } else {
        Seq::empty()
    }
}

/// The `status` summary of a state, given the sentence that says how to
/// bring a changed package under version management.
pub open spec fn summary_of(s: ReleaseState, fix: Seq<char>) -> Seq<char> {
    "## Release plan\n\n"@ + summary_plan(s) + summary_uncovered(s) + summary_unmanaged(s, fix) + coverage_part(s)
}

fn summary_row_of(p: &PlannedRelease) -> (out: Text)
    ensures
        out@ == summary_row(*p),
{
    let mut r = chars_of("| ");
    push_str(&mut r, p.name.as_str());
    push_str(&mut r, " (`");
    push_str(&mut r, ecosystem_word(p.ecosystem));
    push_str(&mut r, "`) | ");
    push_all(&mut r, &p.from_version.chars());
    push_str(&mut r, " | ");
    push_all(&mut r, &p.to_version.chars());
    push_str(&mut r, " | ");
    push_str(&mut r, bump_word(p.bump));
    push_str(&mut r, " | ");
    match &p.source {
        ReleaseSource::Intent => push_str(&mut r, "intent"),
        ReleaseSource::Cascade { trigger } => {
            push_str(&mut r, "cascade from ");
            push_str(&mut r, trigger.name.as_str());
            push_str(&mut r, " (");
            push_str(&mut r, ecosystem_word(trigger.ecosystem));
            push_str(&mut r, ")");
        },
    }
    push_str(&mut r, " |\n");
    r
}

fn push_summary_plan(state: &ReleaseState, out: &mut Text)
    ensures
        final(out)@ == old(out)@ + summary_plan(*state),
{
    let ghost start = out@;
    if state.packages.len() == 0 {
        push_str(out, "No packages planned.\n");
        if state.manages_nothing {
            push_str(
                out,
                "\nThis config manages no package on either axis, so no plan can ever be non-empty; set `private-packages.version` / `private-packages.tag`, or adjust `include`/`exclude`.\n",
            );
        }
        if state.selection_empty {
            push_str(
                out,
                "\n`include`/`exclude` leave no package selected, so no plan can ever name one. `check` does not refuse this, because it is a decision this config states.\n",
            );
        }
        assert(out@ =~= start + summary_plan(*state));
    } else {
        push_str(out, "| Package | From | To | Bump | Source |\n| --- | --- | --- | --- | --- |\n");
        let ghost top = out@;
        let mut i: usize = 0;
        while i < state.packages.len()
            invariant
                i <= state.packages@.len(),
                out@ == top + rows(state.packages@.take(i as int), |p: PlannedRelease| summary_row(p)),
            decreases state.packages@.len() - i,
        {
            assert(state.packages@.take(i + 1).drop_last() == state.packages@.take(i as int));
            assert(state.packages@.take(i + 1).last() == state.packages@[i as int]);
            let row = summary_row_of(&state.packages[i]);
            push_all(out, &row);
            i = i + 1;
        }
        assert(state.packages@.take(state.packages@.len() as int) == state.packages@);
        assert(out@ =~= start + summary_plan(*state));
    }
}

fn push_coverage_part(state: &ReleaseState, out: &mut Text)
    ensures
        final(out)@ == old(out)@ + coverage_part(*state),
{
    if state.coverage == CoverageLook::Failed {
        push_str(
            out,
            "\nCoverage was not checked: git could not diff this tree, so an empty uncovered list is not a clean result.\n",
        );
    } else {
        assert(old(out)@ + Seq::<char>::empty() =~= old(out)@);
    }
}

/// The `status` summary of a state, given the sentence that says how to
/// bring a changed package under version management.
pub fn render_summary(state: &ReleaseState, unmanaged_fix: &str) -> (out: String)
    ensures
        out@ == summary_of(*state, unmanaged_fix@),
{
    let mut out = chars_of("## Release plan\n\n");
    push_summary_plan(state, &mut out);
    let ghost a = out@;
    if state.uncovered.len() > 0 {
        push_str(&mut out, "\nUncovered: ");
        push_all(&mut out, &package_list_of(&state.uncovered));
        push_str(&mut out, "\n");
    }
    assert(out@ =~= a + summary_uncovered(*state));
    let ghost b = out@;
    if state.unmanaged.len() > 0 {
        push_str(&mut out, "\nChanged but not version-managed: ");
        push_all(&mut out, &package_list_of(&state.unmanaged));
        push_str(&mut out, "\n");
        push_str(&mut out, unmanaged_fix);
        push_str(&mut out, "\n");
    }
    assert(out@ =~= b + summary_unmanaged(*state, unmanaged_fix@));
    push_coverage_part(state, &mut out);
    string_of(&out)
}

/// The comment's list of releases, if any.
pub open spec fn comment_releases(s: ReleaseState) -> Seq<char> {
    if s.packages@.len() > 0 {
        "\nThese packages will release:\n\n"@ + rows(s.packages@, |p: PlannedRelease| comment_row(p))
    } else {
        Seq::empty()
    }
}

/// The comment's list of uncovered packages, if any.
pub open spec fn comment_uncovered(s: ReleaseState) -> Seq<char> {
    if s.uncovered@.len() > 0 {
        "\nUncovered:\n\n"@ + ref_lines(
            s.uncovered@,
            |p: PackageRef| "- `"@ + p.name@ + "` ("@ + ecosystem_label(p.ecosystem) + ") changed with no bump file\n"@,
        )
    } else {
        Seq::empty()
    }
}

/// The comment's list of changed packages that are not version-managed.
pub open spec fn comment_unmanaged(s: ReleaseState, fix: Seq<char>) -> Seq<char> {
    if s.unmanaged@.len() > 0 {
        "\nChanged but not version-managed:\n\n"@ + ref_lines(
            s.unmanaged@,
            |p: PackageRef| "- `"@ + p.name@ + "` ("@ + ecosystem_label(p.ecosystem) + ") — "@ + fix + "\n"@,
        )
    } else {
        Seq::empty()
    }
}

/// The comment's notes on the configuration that cannot plan anything.
pub open spec fn comment_notes(s: ReleaseState) -> Seq<char> {
    (if s.manages_nothing {
        "\nThis config manages no package on either axis, so no plan can ever be non-empty.\n"@
    } else {
        Seq::empty()
    }) + (if s.selection_empty {
        "\n`include`/`exclude` leave no package selected, so no plan can ever name one.\n"@
    } else {
        Seq::empty()
    })
}

/// The body of the plan comment before the decision whether to post it.
pub open spec fn comment_body(s: ReleaseState, fix: Seq<char>) -> Seq<char> {
    PR_PLAN_MARKER@ + "\n"@ + comment_releases(s) + comment_uncovered(s) + comment_unmanaged(s, fix) + comment_notes(s)
        + coverage_part(s)
}

/// The plan comment, or none when it would be nothing but the marker.
pub open spec fn comment_of(s: ReleaseState, fix: Seq<char>) -> Option<Seq<char>> {
    if trim_end(comment_body(s, fix)) != PR_PLAN_MARKER@ {
        Some(comment_body(s, fix))
    } else {
        None
    }
}

fn ref_lines_of(ps: &Vec<PackageRef>, before: &str, after: &str, out: &mut Text)
    ensures
        final(out)@ == old(out)@ + ref_lines(
            ps@,
            |p: PackageRef| before@ + p.name@ + "` ("@ + ecosystem_label(p.ecosystem) + after@,
        ),
{
    let ghost start = out@;
    let mut i: usize = 0;
    while i < ps.len()
        invariant
            i <= ps@.len(),
            out@ == start + ref_lines(
                ps@.take(i as int),
                |p: PackageRef| before@ + p.name@ + "` ("@ + ecosystem_label(p.ecosystem) + after@,
            ),
        decreases ps@.len() - i,
    {
        assert(ps@.take(i + 1).drop_last() == ps@.take(i as int));
        assert(ps@.take(i + 1).last() == ps@[i as int]);
        push_str(out, before);
        push_str(out, ps[i].name.as_str());
        push_str(out, "` (");
        push_str(out, ecosystem_word(ps[i].ecosystem));
        push_str(out, after);
        i = i + 1;
    }
    assert(ps@.take(ps@.len() as int) == ps@);
}

fn push_comment_releases(state: &ReleaseState, out: &mut Text)
    ensures
        final(out)@ == old(out)@ + comment_releases(*state),
{
    let ghost start = out@;
    if state.packages.len() > 0 {
        push_str(out, "\nThese packages will release:\n\n");
        let ghost top = out@;
        let mut i: usize = 0;
        while i < state.packages.len()
            invariant
                i <= state.packages@.len(),
                out@ == top + rows(state.packages@.take(i as int), |p: PlannedRelease| comment_row(p)),
            decreases state.packages@.len() - i,
        {
            assert(state.packages@.take(i + 1).drop_last() == state.packages@.take(i as int));
            assert(state.packages@.take(i + 1).last() == state.packages@[i as int]);
            let p = &state.packages[i];
            let ghost before = out@;
            push_str(out, "- `");
            push_str(out, p.name.as_str());
            push_str(out, "` ");
            push_all(out, &p.from_version.chars());
            push_str(out, " → ");
            push_all(out, &p.to_version.chars());
            push_str(out, " (");
            push_str(out, bump_word(p.bump));
            push_str(out, ")\n");
            assert(out@ =~= before + comment_row(*p));
            i = i + 1;
        }
        assert(state.packages@.take(state.packages@.len() as int) == state.packages@);
    }
    assert(out@ =~= start + comment_releases(*state));
}

/// The plan comment `ci pr-status` posts, or none when it would be nothing
/// but the invisible marker.
pub fn render_comment(state: &ReleaseState, unmanaged_fix: &str) -> (r: Option<String>)
    ensures
        match comment_of(*state, unmanaged_fix@) {
            Some(b) => r matches Some(x) && x@ == b,
            None => r is None,
        },
{
    let mut out = chars_of(PR_PLAN_MARKER);
    push_str(&mut out, "\n");
    push_comment_releases(state, &mut out);
    let ghost a = out@;
    if state.uncovered.len() > 0 {
        push_str(&mut out, "\nUncovered:\n\n");
        ref_lines_of(&state.uncovered, "- `", ") changed with no bump file\n", &mut out);
        assert((|p: PackageRef| "- `"@ + p.name@ + "` ("@ + ecosystem_label(p.ecosystem) + ") changed with no bump file\n"@) =~= (|p: PackageRef| "- `"@ + p.name@ + "` ("@ + ecosystem_label(p.ecosystem) + ") changed with no bump file\n"@));
    }
    assert(out@ =~= a + comment_uncovered(*state));
    let ghost b = out@;
    if state.unmanaged.len() > 0 {
        push_str(&mut out, "\nChanged but not version-managed:\n\n");
        let mut after = chars_of(") — ");
        push_str(&mut after, unmanaged_fix);
        push_str(&mut after, "\n");
        let after_text = string_of(&after);
        ref_lines_of(&state.unmanaged, "- `", after_text.as_str(), &mut out);
        assert((|p: PackageRef| "- `"@ + p.name@ + "` ("@ + ecosystem_label(p.ecosystem) + after_text@) =~= (|p: PackageRef| "- `"@ + p.name@ + "` ("@ + ecosystem_label(p.ecosystem) + ") — "@ + unmanaged_fix@ + "\n"@));
    }
    assert(out@ =~= b + comment_unmanaged(*state, unmanaged_fix@));
    let ghost c = out@;
    if state.manages_nothing {
        push_str(&mut out, "\nThis config manages no package on either axis, so no plan can ever be non-empty.\n");
    }
    if state.selection_empty {
        push_str(&mut out, "\n`include`/`exclude` leave no package selected, so no plan can ever name one.\n");
    }
    assert(out@ =~= c + comment_notes(*state));
    push_coverage_part(state, &mut out);
    let t = crate::text::trimmed_end(&out);
    if crate::text::is(&t, PR_PLAN_MARKER) {
        None
    } else {
        Some(string_of(&out))
    }
}

// ---------------------------------------------------------------------------
// Laws
// ---------------------------------------------------------------------------

/// A state with nothing for a reader to act on: no release, no uncovered or
/// unmanaged package, a config that can plan something, and a coverage look
/// that did not fail.
pub open spec fn nothing_to_say(s: ReleaseState) -> bool {
    s.packages@.len() == 0 && s.uncovered@.len() == 0 && s.unmanaged@.len() == 0 && !s.manages_nothing
        && !s.selection_empty && s.coverage != CoverageLook::Failed
}

proof fn lemma_trim_end_keeps(s: Seq<char>, i: int)
    requires
        0 <= i < s.len(),
        !is_space(s[i]),
    ensures
        trim_end(s).len() > i,
    decreases s.len(),
{
    if is_space(s.last()) {
        assert(s.drop_last()[i] == s[i]);
        lemma_trim_end_keeps(s.drop_last(), i);
    }
}

/// Each part of a comment after the marker, when it says anything, opens
/// with a newline and then a visible character.
proof fn lemma_parts_open_visibly(s: ReleaseState, fix: Seq<char>)
    ensures
        comment_releases(s).len() > 0 ==> comment_releases(s).len() >= 2 && !is_space(comment_releases(s)[1]),
        comment_uncovered(s).len() > 0 ==> comment_uncovered(s).len() >= 2 && !is_space(comment_uncovered(s)[1]),
        comment_unmanaged(s, fix).len() > 0 ==> comment_unmanaged(s, fix).len() >= 2 && !is_space(
            comment_unmanaged(s, fix)[1],
        ),
        comment_notes(s).len() > 0 ==> comment_notes(s).len() >= 2 && !is_space(comment_notes(s)[1]),
        coverage_part(s).len() > 0 ==> coverage_part(s).len() >= 2 && !is_space(coverage_part(s)[1]),
        comment_releases(s).len() > 0 <==> s.packages@.len() > 0,
        comment_uncovered(s).len() > 0 <==> s.uncovered@.len() > 0,
        comment_unmanaged(s, fix).len() > 0 <==> s.unmanaged@.len() > 0,
        comment_notes(s).len() > 0 <==> (s.manages_nothing || s.selection_empty),
        coverage_part(s).len() > 0 <==> s.coverage == CoverageLook::Failed,
{
    reveal_strlit("\nThese packages will release:\n\n");
    reveal_strlit("\nUncovered:\n\n");
    reveal_strlit("\nChanged but not version-managed:\n\n");
    reveal_strlit("\nThis config manages no package on either axis, so no plan can ever be non-empty.\n");
    reveal_strlit("\n`include`/`exclude` leave no package selected, so no plan can ever name one.\n");
    reveal_strlit(
        "\nCoverage was not checked: git could not diff this tree, so an empty uncovered list is not a clean result.\n",
    );
    if s.packages@.len() > 0 {
        let h = "\nThese packages will release:\n\n"@;
        assert((h + rows(s.packages@, |p: PlannedRelease| comment_row(p)))[1] == h[1]);
    }
    if s.uncovered@.len() > 0 {
        let h = "\nUncovered:\n\n"@;
        let t = ref_lines(
            s.uncovered@,
            |p: PackageRef| "- `"@ + p.name@ + "` ("@ + ecosystem_label(p.ecosystem) + ") changed with no bump file\n"@,
        );
        assert((h + t)[1] == h[1]);
    }
    if s.unmanaged@.len() > 0 {
        let h = "\nChanged but not version-managed:\n\n"@;
        let t = ref_lines(
            s.unmanaged@,
            |p: PackageRef| "- `"@ + p.name@ + "` ("@ + ecosystem_label(p.ecosystem) + ") — "@ + fix + "\n"@,
        );
        assert((h + t)[1] == h[1]);
    }
    let a = if s.manages_nothing {
        "\nThis config manages no package on either axis, so no plan can ever be non-empty.\n"@
    } else {
        Seq::<char>::empty()
    };
    let b = if s.selection_empty {
        "\n`include`/`exclude` leave no package selected, so no plan can ever name one.\n"@
    } else {
        Seq::<char>::empty()
    };
    assert(comment_notes(s) == a + b);
    if s.manages_nothing {
        assert((a + b)[1] == a[1]);
    } else if s.selection_empty {
        assert(a + b =~= b);
    }
}

proof fn lemma_visible_at_one(x: Seq<char>, y: Seq<char>)
    requires
        (x.len() > 0 ==> x.len() >= 2 && !is_space(x[1])),
        (y.len() > 0 ==> y.len() >= 2 && !is_space(y[1])),
    ensures
        ((x + y).len() > 0 ==> (x + y).len() >= 2 && !is_space((x + y)[1])),
        (x + y).len() > 0 <==> (x.len() > 0 || y.len() > 0),
{
    if x.len() > 0 {
        assert((x + y)[1] == x[1]);
    } else {
        assert(x + y =~= y);
    }
}

proof fn lemma_marker_alone()
    ensures
        trim_end(PR_PLAN_MARKER@ + "\n"@) == PR_PLAN_MARKER@,
        (PR_PLAN_MARKER@ + "\n"@).len() == PR_PLAN_MARKER@.len() + 1,
{
    let m = PR_PLAN_MARKER@;
    reveal_strlit("<!-- oakum:pr-plan -->");
    reveal_strlit("\n");
    assert(m == "<!-- oakum:pr-plan -->"@);
    let head = m + "\n"@;
    assert(head.last() == '\n');
    assert(head.drop_last() =~= m);
    assert(!is_space(m.last()));
    assert(trim_end(m) == m);
    assert(trim_end(head) == trim_end(head.drop_last()));
}

proof fn lemma_more_than_marker(head: Seq<char>, x: Seq<char>)
    requires
        x.len() >= 2,
        !is_space(x[1]),
    ensures
        trim_end(head + x).len() > head.len(),
{
    let i: int = head.len() as int + 1;
    assert((head + x)[i] == x[1]);
    lemma_trim_end_keeps(head + x, i);
}

/// The plan comment is posted exactly when there is something to say:
/// emptiness is decided by what the renderer writes, never by a separate
/// predicate that could drift from it.
#[verifier::spinoff_prover]
#[verifier::rlimit(50)]
pub proof fn lemma_a_comment_is_posted_exactly_when_there_is_something_to_say(s: ReleaseState, fix: Seq<char>)
    ensures
        (comment_of(s, fix) is None) == nothing_to_say(s),
{
    lemma_parts_open_visibly(s, fix);
    lemma_marker_alone();
    let r = comment_releases(s);
    let u = comment_uncovered(s);
    let n = comment_unmanaged(s, fix);
    let q = comment_notes(s);
    let c = coverage_part(s);
    lemma_visible_at_one(r, u);
    lemma_visible_at_one(r + u, n);
    lemma_visible_at_one(r + u + n, q);
    lemma_visible_at_one(r + u + n + q, c);
    let x = r + u + n + q + c;
    let head = PR_PLAN_MARKER@ + "\n"@;
    assert(comment_body(s, fix) =~= head + x);
    if nothing_to_say(s) {
        assert(head + x =~= head);
    } else {
        lemma_more_than_marker(head, x);
    }
}

proof fn lemma_rows_hold_each_row(ps: Seq<PlannedRelease>, row: spec_fn(PlannedRelease) -> Seq<char>, i: int) -> (k: int)
    requires
        0 <= i < ps.len(),
    ensures
        0 <= k,
        k + row(ps[i]).len() <= rows(ps, row).len(),
        rows(ps, row).subrange(k, k + row(ps[i]).len()) == row(ps[i]),
    decreases ps.len(),
{
    let pre = rows(ps.drop_last(), row);
    let last = row(ps.last());
    assert(rows(ps, row) == pre + last);
    if i == ps.len() - 1 {
        assert((pre + last).subrange(pre.len() as int, (pre.len() + last.len()) as int) =~= last);
        pre.len() as int
    } else {
        let k = lemma_rows_hold_each_row(ps.drop_last(), row, i);
        assert(ps.drop_last()[i] == ps[i]);
        assert((pre + last).subrange(k, k + row(ps[i]).len()) =~= pre.subrange(k, k + row(ps[i]).len()));
        k
    }
}

proof fn lemma_found_in_middle(a: Seq<char>, b: Seq<char>, c: Seq<char>, k: int, e: Seq<char>)
    requires
        0 <= k,
        k + e.len() <= b.len(),
        b.subrange(k, k + e.len()) == e,
    ensures
        a.len() + k + e.len() <= (a + b + c).len(),
        (a + b + c).subrange(a.len() + k, a.len() + k + e.len()) == e,
{
    assert forall|x: int| 0 <= x < e.len() implies #[trigger] (a + b + c).subrange(a.len() + k, a.len() + k + e.len())[x] == e[x] by {
        assert((a + b + c)[a.len() + k + x] == b[k + x]);
        assert(b.subrange(k, k + e.len())[x] == b[k + x]);
    }
    assert((a + b + c).subrange(a.len() + k, a.len() + k + e.len()) =~= e);
}

proof fn lemma_found_prefix(x: Seq<char>, k: int, e: Seq<char>, rest: Seq<char>)
    requires
        0 <= k,
        k + (e + rest).len() <= x.len(),
        x.subrange(k, k + (e + rest).len()) == e + rest,
    ensures
        k + e.len() <= x.len(),
        x.subrange(k, k + e.len()) == e,
{
    assert forall|j: int| 0 <= j < e.len() implies #[trigger] x.subrange(k, k + e.len())[j] == e[j] by {
        assert(x.subrange(k, k + (e + rest).len())[j] == x[k + j]);
        assert((e + rest)[j] == e[j]);
    }
    assert(x.subrange(k, k + e.len()) =~= e);
}

/// Every planned package has its row in the summary, and the row names the
/// package's own ecosystem: `| name (`npm`) | ` for an npm package and
/// `| name (`cargo`) | ` for a Cargo one.
#[verifier::spinoff_prover]
pub proof fn lemma_each_summary_row_names_its_own_ecosystem(s: ReleaseState, fix: Seq<char>, i: int)
    requires
        0 <= i < s.packages@.len(),
    ensures
        s.packages@[i].ecosystem is Npm ==> exists|k: int|
            0 <= k && k + ("| "@ + s.packages@[i].name@ + " (`"@ + "npm"@ + "`) | "@).len() <= summary_of(s, fix).len()
                && #[trigger] summary_of(s, fix).subrange(k, k + ("| "@ + s.packages@[i].name@ + " (`"@ + "npm"@ + "`) | "@).len()) == ("| "@ + s.packages@[i].name@ + " (`"@ + "npm"@ + "`) | "@),
        s.packages@[i].ecosystem is Cargo ==> exists|k: int|
            0 <= k && k + ("| "@ + s.packages@[i].name@ + " (`"@ + "cargo"@ + "`) | "@).len() <= summary_of(s, fix).len()
                && #[trigger] summary_of(s, fix).subrange(k, k + ("| "@ + s.packages@[i].name@ + " (`"@ + "cargo"@ + "`) | "@).len()) == ("| "@ + s.packages@[i].name@ + " (`"@ + "cargo"@ + "`) | "@),
{
    let p = s.packages@[i];
    let e = "| "@ + p.name@ + " (`"@ + ecosystem_label(p.ecosystem) + "`) | "@;
    let row = |q: PlannedRelease| summary_row(q);
    let k = lemma_rows_hold_each_row(s.packages@, row, i);
    let r = summary_row(p);
    let rest = r.subrange(e.len() as int, r.len() as int);
    assert(r =~= e + rest);
    let body = rows(s.packages@, row);
    assert(body.subrange(k, k + r.len()) == r);
    lemma_found_prefix(body, k, e, rest);
    let h = "| Package | From | To | Bump | Source |\n| --- | --- | --- | --- | --- |\n"@;
    assert(summary_plan(s) == h + body);
    let a = "## Release plan\n\n"@ + h;
    let c = summary_uncovered(s) + summary_unmanaged(s, fix) + coverage_part(s);
    assert(summary_of(s, fix) =~= a + body + c);
    lemma_found_in_middle(a, body, c, k, e);
    let at = a.len() + k;
    assert(summary_of(s, fix).subrange(at, at + e.len()) == e);
}

} // verus!
