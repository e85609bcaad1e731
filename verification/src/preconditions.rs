//! The shared readiness path: which looks a run performs, in which order,
//! what the run announces before they begin, and how a verdict and a tag
//! evaluation become one result. The looks themselves read the repository.
use vstd::prelude::*;

use crate::config::{is_selected, ConfigView, OakumConfig};
use crate::outcome::CliError;
use crate::plan::{Package, Workspace};
use crate::order::text_lt;
use crate::text::{chars_of, debug_quoted, debug_str, decimal, decimal_of, join, push_all, push_str, string_of, Text};
use crate::versions::{semver_lt, SemVer, VersionView};
use crate::verdict::{english_list, first_line, first_line_of, named, LookReport, Refusal};

verus! {

broadcast use crate::views::lemma_text_deep_view;

/// A look beside the tag look. Exactly one tag look runs in every plan, so
/// it is not one of these: a plan cannot hold none or two.
#[derive(Clone, Copy, Debug, PartialEq, Eq, Structural)]
pub enum Look {
    Management,
    InstallPin,
    Changelogs,
    Staging,
    Coverage,
    Remote,
}

/// How a look is named in the announcement.
pub open spec fn look_name(l: Look) -> Seq<char> {
    match l {
        Look::Management => "management"@,
        Look::InstallPin => "install pin"@,
        Look::Changelogs => "changelogs"@,
        Look::Staging => "staging"@,
        Look::Coverage => "coverage"@,
        Look::Remote => "remote"@,
    }
}

/// The tag look's name.
pub open spec fn tags_name() -> Seq<char> {
    "tags"@
}

impl Look {
    /// The name the announcement gives this look.
    pub fn name(self) -> (n: &'static str)
        ensures
            n@ == look_name(self),
    {
        match self {
            Look::Management => "management",
            Look::InstallPin => "install pin",
            Look::Changelogs => "changelogs",
            Look::Staging => "staging",
            Look::Coverage => "coverage",
            Look::Remote => "remote",
        }
    }
}

/// The looks one run performs, in order: some before the tag look, the tag
/// look, some after. The announcement names these and the run runs these,
/// so it cannot name a look that does not run.
pub struct LookPlan {
    before: Vec<Look>,
    after: Vec<Look>,
}

impl View for LookPlan {
    type V = (Seq<Look>, Seq<Look>);

    closed spec fn view(&self) -> (Seq<Look>, Seq<Look>) {
        (self.before@, self.after@)
    }
}

/// `check`'s looks: management first, the tags, then the pin, the
/// changelogs, the staging files and coverage, and the remote when asked.
pub open spec fn check_plan(remote: bool) -> (Seq<Look>, Seq<Look>) {
    (
        seq![Look::Management],
        seq![Look::InstallPin, Look::Changelogs, Look::Staging, Look::Coverage] + (if remote {
            seq![Look::Remote]
        } else {
            Seq::empty()
        }),
    )
}

/// `tag-drift`'s looks: `check`'s tag look and the pin, in `check`'s order.
pub open spec fn tag_drift_plan() -> (Seq<Look>, Seq<Look>) {
    (Seq::empty(), seq![Look::InstallPin])
}

/// The looks `release` gates on: the tags, the pin and coverage.
pub open spec fn release_plan() -> (Seq<Look>, Seq<Look>) {
    (Seq::empty(), seq![Look::InstallPin, Look::Coverage])
}

/// Every look of a plan by name, in the order they run.
pub open spec fn plan_names(p: (Seq<Look>, Seq<Look>)) -> Seq<Seq<char>> {
    p.0.map_values(|l: Look| look_name(l)) + seq![tags_name()] + p.1.map_values(|l: Look| look_name(l))
}

/// `names` without any `x`.
pub open spec fn without(names: Seq<Seq<char>>, x: Seq<char>) -> Seq<Seq<char>>
    decreases names.len(),
{
    if names.len() == 0 {
        names
    } else if names.last() == x {
        without(names.drop_last(), x)
    } else {
        without(names.drop_last(), x).push(names.last())
    }
}

/// How often `x` occurs in `names`.
pub open spec fn count_of(names: Seq<Seq<char>>, x: Seq<char>) -> nat
    decreases names.len(),
{
    if names.len() == 0 {
        0
    } else {
        count_of(names.drop_last(), x) + if names.last() == x {
            1nat
        } else {
            0nat
        }
    }
}

/// The names the announcement lists: all but the remote look, which its
/// own clause names.
pub open spec fn listed(p: (Seq<Look>, Seq<Look>)) -> Seq<Seq<char>> {
    without(plan_names(p), look_name(Look::Remote))
}

fn names_into(out: &mut Vec<&'static str>, looks: &Vec<Look>)
    ensures
        final(out)@.map_values(|s: &'static str| s@) == old(out)@.map_values(|s: &'static str| s@)
            + looks@.map_values(|l: Look| look_name(l)),
{
    let ghost start = out@.map_values(|s: &'static str| s@);
    let mut i: usize = 0;
    while i < looks.len()
        invariant
            i <= looks@.len(),
            out@.map_values(|s: &'static str| s@) == start + looks@.take(i as int).map_values(
                |l: Look| look_name(l),
            ),
        decreases looks@.len() - i,
    {
        let ghost before = out@.map_values(|s: &'static str| s@);
        let n = looks[i].name();
        out.push(n);
        assert(out@.map_values(|s: &'static str| s@) =~= before.push(n@));
        assert(looks@.take(i + 1).map_values(|l: Look| look_name(l)) =~= looks@.take(i as int).map_values(
            |l: Look| look_name(l),
        ).push(look_name(looks@[i as int])));
        i = i + 1;
        assert(out@.map_values(|s: &'static str| s@) =~= start + looks@.take(i as int).map_values(
            |l: Look| look_name(l),
        ));
    }
    assert(looks@.take(looks@.len() as int) == looks@);
}

impl LookPlan {
    /// `check`'s own order. Tags run before the install pin so that a git
    /// which cannot run at all is the first line a reader meets.
    pub fn check(remote: bool) -> (p: LookPlan)
        ensures
            p@ == check_plan(remote),
    {
        let mut after = vec![Look::InstallPin, Look::Changelogs, Look::Staging, Look::Coverage];
        if remote {
            after.push(Look::Remote);
        }
        let p = LookPlan { before: vec![Look::Management], after };
        assert(p@.0 =~= check_plan(remote).0);
        assert(p@.1 =~= check_plan(remote).1);
        p
    }

    /// `tag-drift` is `check`'s tag look and the pin.
    pub fn tag_drift() -> (p: LookPlan)
        ensures
            p@ == tag_drift_plan(),
    {
        let p = LookPlan { before: Vec::new(), after: vec![Look::InstallPin] };
        assert(p@.0 =~= tag_drift_plan().0);
        assert(p@.1 =~= tag_drift_plan().1);
        p
    }

    /// The tag state `release` gates on: the evaluation, the pin and coverage.
    pub fn release() -> (p: LookPlan)
        ensures
            p@ == release_plan(),
    {
        let p = LookPlan { before: Vec::new(), after: vec![Look::InstallPin, Look::Coverage] };
        assert(p@.0 =~= release_plan().0);
        assert(p@.1 =~= release_plan().1);
        p
    }

    /// Every look this plan runs, by name, in the order they run.
    pub fn names(&self) -> (names: Vec<&'static str>)
        ensures
            names@.map_values(|s: &'static str| s@) == plan_names(self@),
    {
        let mut names: Vec<&'static str> = Vec::new();
        names_into(&mut names, &self.before);
        let ghost mid = names@.map_values(|s: &'static str| s@);
        names.push("tags");
        assert(names@.map_values(|s: &'static str| s@) =~= mid.push(tags_name()));
        names_into(&mut names, &self.after);
        assert(names@.map_values(|s: &'static str| s@) =~= plan_names(self@));
        names
    }

    /// Whether this plan runs the look `--remote` asks for. Read off the
    /// plan rather than the flag, so the sentence describes what runs.
    pub fn runs_remote(&self) -> (b: bool)
        ensures
            b == plan_names(self@).contains(look_name(Look::Remote)),
    {
        let names = self.names();
        let ghost nv = names@.map_values(|s: &'static str| s@);
        let mut i: usize = 0;
        while i < names.len()
            invariant
                nv == names@.map_values(|s: &'static str| s@),
                nv == plan_names(self@),
                i <= names@.len(),
                forall|k: int| 0 <= k < i ==> nv[k] != look_name(Look::Remote),
            decreases names@.len() - i,
        {
            if crate::text::same(&chars_of(names[i]), &chars_of("remote")) {
                assert(nv[i as int] == look_name(Look::Remote));
                return true;
            }
            i = i + 1;
        }
        assert(!nv.contains(look_name(Look::Remote)));
        false
    }

    /// The looks the announcement lists. The remote look is left out because
    /// its own clause names it either way.
    pub fn listed_names(&self) -> (names: Vec<&'static str>)
        ensures
            names@.map_values(|s: &'static str| s@) == listed(self@),
    {
        let all = self.names();
        let ghost av = all@.map_values(|s: &'static str| s@);
        let mut out: Vec<&'static str> = Vec::new();
        let mut i: usize = 0;
        assert(av.take(0) =~= Seq::<Seq<char>>::empty());
        while i < all.len()
            invariant
                av == all@.map_values(|s: &'static str| s@),
                av == plan_names(self@),
                i <= all@.len(),
                out@.map_values(|s: &'static str| s@) == without(av.take(i as int), look_name(Look::Remote)),
            decreases all@.len() - i,
        {
            let ghost before = out@.map_values(|s: &'static str| s@);
            assert(av.take(i + 1).drop_last() =~= av.take(i as int));
            assert(av.take(i + 1).last() == av[i as int]);
            if !crate::text::same(&chars_of(all[i]), &chars_of("remote")) {
                out.push(all[i]);
                assert(out@.map_values(|s: &'static str| s@) =~= before.push(av[i as int]));
            }
            i = i + 1;
            assert(out@.map_values(|s: &'static str| s@) =~= without(av.take(i as int), look_name(Look::Remote)));
        }
        assert(av.take(all@.len() as int) == av);
        out
    }

    /// The one place a verdict and a tag evaluation become a result. The
    /// tag look answers or refuses, so nothing refused and no evaluation is
    /// a look that did not happen, said as one rather than passed as clean.
    pub fn settle<T>(&self, error: Option<CliError>, evaluation: Option<T>) -> (r: Result<T, CliError>)
        ensures
            match (error, evaluation) {
                (Some(e), _) => r == Err::<T, CliError>(e),
                (None, Some(t)) => r == Ok::<T, CliError>(t),
                (None, None) => r matches Err(e) && e is Unverified && e->detail@ == unanswered_detail(),
            },
    {
        match (error, evaluation) {
            (Some(refusal), _) => Err(refusal),
            (None, Some(tags)) => Ok(tags),
            (None, None) => {
                let mut d: Text = Vec::new();
                push_str(&mut d, "unverified: the `");
                push_str(&mut d, "tags");
                push_str(&mut d, "` look neither answered nor refused");
                Err(CliError::unverified(string_of(&d)))
            },
        }
    }
}

/// What a settle says of a tag look that neither answered nor refused.
pub open spec fn unanswered_detail() -> Seq<char> {
    "unverified: the `"@ + tags_name() + "` look neither answered nor refused"@
}

/// Every plan runs the tag look exactly once; `check` runs the remote look
/// exactly when it was asked for; and the looks the announcement lists are
/// the same either way, since the remote look has its own clause.
pub proof fn lemma_the_announcement_names_what_runs(remote: bool)
    ensures
        count_of(plan_names(check_plan(remote)), tags_name()) == 1,
        count_of(plan_names(tag_drift_plan()), tags_name()) == 1,
        count_of(plan_names(release_plan()), tags_name()) == 1,
        plan_names(check_plan(remote)).contains(look_name(Look::Remote)) == remote,
        listed(check_plan(remote)) == listed(check_plan(false)),
        !listed(check_plan(remote)).contains(look_name(Look::Remote)),
{
    reveal_strlit("tags");
    reveal_strlit("management");
    reveal_strlit("install pin");
    reveal_strlit("changelogs");
    reveal_strlit("staging");
    reveal_strlit("coverage");
    reveal_strlit("remote");
    let base: Seq<Seq<char>> = seq!["management"@, "tags"@, "install pin"@, "changelogs"@, "staging"@, "coverage"@];
    let c = plan_names(check_plan(remote));
    let t = plan_names(tag_drift_plan());
    let r = plan_names(release_plan());
    assert(t =~= seq!["tags"@, "install pin"@]);
    assert(r =~= seq!["tags"@, "install pin"@, "coverage"@]);
    let one: Seq<Seq<char>> = seq!["tags"@];
    let two: Seq<Seq<char>> = seq!["tags"@, "install pin"@];
    let three: Seq<Seq<char>> = seq!["tags"@, "install pin"@, "coverage"@];
    assert(count_of(Seq::<Seq<char>>::empty(), tags_name()) == 0);
    assert(count_of(one, tags_name()) == 1) by {
        assert(one.drop_last() =~= Seq::<Seq<char>>::empty());
    }
    assert("install pin"@ != tags_name()) by {
        assert("install pin"@.len() != tags_name().len());
    }
    assert("coverage"@ != tags_name()) by {
        assert("coverage"@.len() != tags_name().len());
    }
    assert(count_of(two, tags_name()) == 1) by {
        assert(two.drop_last() =~= one);
    }
    assert(count_of(three, tags_name()) == 1) by {
        assert(three.drop_last() =~= two);
    }
    assert(count_of(base, tags_name()) == 1 && without(base, "remote"@) == base) by {
        reveal_with_fuel(count_of, 7);
        reveal_with_fuel(without, 7);
        let b5 = base.drop_last();
        let b4 = b5.drop_last();
        let b3 = b4.drop_last();
        let b2 = b3.drop_last();
        let b1 = b2.drop_last();
        assert(b5 =~= seq!["management"@, "tags"@, "install pin"@, "changelogs"@, "staging"@]);
        assert(b4 =~= seq!["management"@, "tags"@, "install pin"@, "changelogs"@]);
        assert(b3 =~= seq!["management"@, "tags"@, "install pin"@]);
        assert(b2 =~= seq!["management"@, "tags"@]);
        assert(b1 =~= seq!["management"@]);
        assert(b1.drop_last() =~= Seq::<Seq<char>>::empty());
        assert(without(Seq::<Seq<char>>::empty(), "remote"@) =~= Seq::<Seq<char>>::empty());
        assert forall|k: int| 0 <= k < base.len() implies base[k] != "remote"@ by {
            assert(base[k].len() != "remote"@.len());
        }
        assert(without(b1, "remote"@) =~= b1);
        assert(without(b2, "remote"@) =~= b2);
        assert(without(b3, "remote"@) =~= b3);
        assert(without(b4, "remote"@) =~= b4);
        assert(without(b5, "remote"@) =~= b5);
        assert(without(base, "remote"@) =~= base);
        assert forall|k: int| 0 <= k < base.len() && k != 1 implies base[k] != tags_name() by {
            assert(base[k].len() != tags_name().len());
        }
        assert(count_of(Seq::<Seq<char>>::empty(), tags_name()) == 0);
        assert(count_of(b1, tags_name()) == 0);
        assert(count_of(b2, tags_name()) == 1);
        assert(count_of(b3, tags_name()) == 1);
        assert(count_of(b4, tags_name()) == 1);
        assert(count_of(b5, tags_name()) == 1);
        assert(count_of(base, tags_name()) == 1);
    }
    assert(!base.contains("remote"@)) by {
        assert forall|k: int| 0 <= k < base.len() implies base[k] != "remote"@ by {
            assert(base[k].len() != 6 || base[k][0] != 'r');
        }
    }
    if remote {
        assert(c =~= base.push("remote"@));
        assert(c.drop_last() =~= base);
        assert(c[6] == "remote"@);
        assert(count_of(c, tags_name()) == count_of(base, tags_name()));
        assert(without(c, "remote"@) == without(base, "remote"@));
    } else {
        assert(c =~= base);
    }
    assert(plan_names(check_plan(false)) =~= base);
}

/// What a run of `check` covers, said before the looks begin: the selection,
/// the base it diffs from (or why there is none), the looks asked for and
/// whether the remote is one of them. Never the verdict.
pub struct Scope {
    pub selected: usize,
    pub packages: usize,
    /// `Err` carries why the base could not be named.
    pub base: Result<String, String>,
    pub gating_coverage: bool,
    pub remote: bool,
    /// Taken from the plan that runs.
    pub look_names: Vec<String>,
}

/// The announcement for a scope.
pub open spec fn scope_text(
    selected: nat,
    packages: nat,
    base: Result<Seq<char>, Seq<char>>,
    gating_coverage: bool,
    remote: bool,
    look_names: Seq<Seq<char>>,
) -> Seq<char> {
    "check: "@ + decimal(selected) + " of "@ + decimal(packages) + " package(s) selected"@ + match base {
        Ok(b) => ", diffing `"@ + b + "...HEAD`"@,
        Err(why) => "; no base ref to diff from ("@ + first_line_of(why) + ")"@,
    } + "\ncheck: looking at "@ + english_list(look_names) + (if base is Err {
        "; coverage cannot run without a base ref"@
    } else if !gating_coverage {
        "; coverage reports without gating (`--strict` gates)"@
    } else {
        Seq::empty()
    }) + (if remote {
        "; looking at the remote"@
    } else {
        "; not looking at the remote (`--remote` asks for it)"@
    })
}

/// A scope's base as the contracts read it.
pub open spec fn base_view(base: Result<String, String>) -> Result<Seq<char>, Seq<char>> {
    match base {
        Ok(b) => Ok(b@),
        Err(why) => Err(why@),
    }
}

impl Scope {
    /// The two lines the run prints first.
    pub fn text(&self) -> (t: String)
        ensures
            t@ == scope_text(
                self.selected as nat,
                self.packages as nat,
                base_view(self.base),
                self.gating_coverage,
                self.remote,
                self.look_names.deep_view(),
            ),
    {
        let mut t: Text = Vec::new();
        push_str(&mut t, "check: ");
        push_all(&mut t, &decimal_of(self.selected));
        push_str(&mut t, " of ");
        push_all(&mut t, &decimal_of(self.packages));
        push_str(&mut t, " package(s) selected");
        match &self.base {
            Ok(b) => {
                push_str(&mut t, ", diffing `");
                push_str(&mut t, b.as_str());
                push_str(&mut t, "...HEAD`");
            },
            Err(why) => {
                push_str(&mut t, "; no base ref to diff from (");
                push_str(&mut t, first_line(why.as_str()).as_str());
                push_str(&mut t, ")");
            },
        }
        push_str(&mut t, "\ncheck: looking at ");
        push_str(&mut t, named(&self.look_names).as_str());
        if self.base.is_err() {
            push_str(&mut t, "; coverage cannot run without a base ref");
        } else if !self.gating_coverage {
            push_str(&mut t, "; coverage reports without gating (`--strict` gates)");
        }
        if self.remote {
            push_str(&mut t, "; looking at the remote");
        } else {
            push_str(&mut t, "; not looking at the remote (`--remote` asks for it)");
        }
        string_of(&t)
    }
}

/// Whether `release`'s coverage look gates: it runs the look and reports
/// rather than gates on it, a decision and not a placeholder.
pub fn release_strictness() -> (s: Option<bool>)
    ensures
        s == Some(false),
{
    Some(false)
}


/// Whether the config selects the member at `i`.
pub open spec fn selects(c: ConfigView, ps: Seq<Package>, i: int) -> bool {
    is_selected(c, ps[i].id.name@)
}

/// Whether the member at `i` is selected and managed on either axis.
pub open spec fn manages(c: ConfigView, ps: Seq<Package>, i: int) -> bool {
    selects(c, ps, i) && (ps[i].publishable || c.private_packages.0 || c.private_packages.1)
}

/// How many members the config selects.
pub open spec fn selected_count(c: ConfigView, ps: Seq<Package>) -> nat
    decreases ps.len(),
{
    if ps.len() == 0 {
        0
    } else {
        selected_count(c, ps.drop_last()) + if is_selected(c, ps.last().id.name@) {
            1nat
        } else {
            0nat
        }
    }
}

/// How many of the workspace's members the config selects, for the scope
/// line; never more than there are members.
pub fn selected_members(config: &OakumConfig, workspace: &Workspace) -> (n: usize)
    ensures
        n == selected_count(config@, workspace.packages@),
        n <= workspace.packages@.len(),
{
    let ps = &workspace.packages;
    let mut n: usize = 0;
    let mut i: usize = 0;
    assert(ps@.take(0) =~= Seq::<Package>::empty());
    while i < ps.len()
        invariant
            i <= ps@.len(),
            n == selected_count(config@, ps@.take(i as int)),
            n <= i,
        decreases ps@.len() - i,
    {
        assert(ps@.take(i + 1).drop_last() =~= ps@.take(i as int));
        assert(ps@.take(i + 1).last() == ps@[i as int]);
        if config.selected(ps[i].id.name.as_str()) {
            n = n + 1;
        }
        i = i + 1;
    }
    assert(ps@.take(ps@.len() as int) =~= ps@);
    n
}

/// `include`/`exclude` left nothing selected, so no plan can name a package.
/// Kept apart from [`manages_nothing`], which is `false` here: emptying a
/// selection is a decision someone wrote down.
pub fn selection_is_empty(config: &OakumConfig, workspace: &Workspace) -> (b: bool)
    ensures
        b == !exists|i: int| 0 <= i < workspace.packages@.len() && selects(config@, workspace.packages@, i),
{
    let mut i: usize = 0;
    while i < workspace.packages.len()
        invariant
            i <= workspace.packages@.len(),
            forall|k: int| 0 <= k < i ==> !selects(config@, workspace.packages@, k),
        decreases workspace.packages@.len() - i,
    {
        if config.selected(workspace.packages[i].id.name.as_str()) {
            assert(selects(config@, workspace.packages@, i as int));
            assert(exists|k: int| 0 <= k < workspace.packages@.len() && selects(config@, workspace.packages@, k));
            return false;
        }
        i = i + 1;
    }
    true
}

/// A selection no member of which can produce work on either axis: every
/// plan is empty and every release a no-op reporting success. An empty
/// selection is not this state; both axes count, since they are independent.
pub fn manages_nothing(config: &OakumConfig, workspace: &Workspace) -> (b: bool)
    ensures
        b == ((exists|i: int| 0 <= i < workspace.packages@.len() && selects(config@, workspace.packages@, i))
            && !exists|i: int| 0 <= i < workspace.packages@.len() && manages(config@, workspace.packages@, i)),
{
    let mut any_selected = false;
    let mut i: usize = 0;
    while i < workspace.packages.len()
        invariant
            i <= workspace.packages@.len(),
            any_selected == exists|k: int| 0 <= k < i && selects(config@, workspace.packages@, k),
            forall|k: int| 0 <= k < i ==> !manages(config@, workspace.packages@, k),
        decreases workspace.packages@.len() - i,
    {
        let package = &workspace.packages[i];
        if config.selected(package.id.name.as_str()) {
            assert(selects(config@, workspace.packages@, i as int));
            any_selected = true;
            if config.version_managed(package) || config.tag_managed(package) {
                assert(manages(config@, workspace.packages@, i as int));
                assert(exists|k: int| 0 <= k < workspace.packages@.len() && manages(config@, workspace.packages@, k));
                return false;
            }
        }
        i = i + 1;
    }
    any_selected
}


/// Which intent mechanism the plan reads.
#[derive(Clone, Copy, Debug, PartialEq, Eq, Structural)]
pub enum IntentSource {
    ChangeFiles,
    CommitsOnly,
}

/// What a changed package with no covering intent is told to add.
pub open spec fn coverage_hint(source: IntentSource) -> Seq<char> {
    match source {
        IntentSource::ChangeFiles => "add a bump file (or `none` / empty frontmatter under --strict)"@,
        IntentSource::CommitsOnly => "name the package in a conventional commit (or a path that maps to it)"@,
    }
}

/// The line for each changed package no intent covers.
pub open spec fn uncovered_lines(uncovered: Seq<Seq<char>>, hint: Seq<char>) -> Seq<Seq<char>> {
    uncovered.map_values(|id: Seq<char>| id + ": changed with no covering intent; "@ + hint)
}

/// What the look could not read: the changes outside `HEAD` it found, or
/// one line saying the working tree could not be read.
pub open spec fn unseen_lines(outside_head: Result<Seq<Seq<char>>, Seq<char>>) -> Seq<Seq<char>> {
    match outside_head {
        Ok(lines) => lines,
        Err(why) => seq!["the working tree could not be read, so this run looked only at commits: "@ + why],
    }
}

/// Whether the coverage look gates: under `--strict`, on an uncovered package.
pub open spec fn coverage_gates(strict: bool, uncovered: Seq<Seq<char>>) -> bool {
    strict && uncovered.len() > 0
}

/// The lines the coverage look reports without refusing: the uncovered
/// packages unless they gate, then what it could not read, which it reports
/// whether or not it gates.
pub open spec fn coverage_lines(
    strict: bool,
    source: IntentSource,
    uncovered: Seq<Seq<char>>,
    outside_head: Result<Seq<Seq<char>>, Seq<char>>,
) -> Seq<Seq<char>> {
    (if coverage_gates(strict, uncovered) {
        Seq::empty()
    } else {
        uncovered_lines(uncovered, coverage_hint(source))
    }) + unseen_lines(outside_head)
}

fn texts_to_strings(out: &mut Vec<String>, v: &Vec<String>, from: usize)
    requires
        from <= v@.len(),
    ensures
        final(out).deep_view() == old(out).deep_view() + v.deep_view().skip(from as int),
{
    let ghost start = out.deep_view();
    let mut i: usize = from;
    assert(v.deep_view().subrange(from as int, from as int) =~= Seq::<Seq<char>>::empty());
    while i < v.len()
        invariant
            from <= i <= v@.len(),
            out.deep_view() == start + v.deep_view().subrange(from as int, i as int),
        decreases v@.len() - i,
    {
        let ghost before = out.deep_view();
        out.push(v[i].clone());
        assert(out.deep_view() =~= before.push(v.deep_view()[i as int]));
        i = i + 1;
        assert(out.deep_view() =~= start + v.deep_view().subrange(from as int, i as int));
    }
    assert(v.deep_view().subrange(from as int, v@.len() as int) =~= v.deep_view().skip(from as int));
}

/// The coverage look once its reads are done. A base that could not be
/// named is a look that did not happen, so it is unverified, never a
/// finding. Otherwise: a package a bump file names that the config cannot
/// version refuses (the first named, the rest as its evidence); an
/// uncovered package refuses only under `--strict`, and is reported
/// otherwise; and what the look could not read is always reported.
/// `unmanaged` holds the refusal sentence for each such package, in order.
pub fn coverage_report(
    base: Result<String, String>,
    strict: bool,
    source: IntentSource,
    uncovered: &Vec<String>,
    outside_head: Result<Vec<String>, String>,
    unmanaged: &Vec<String>,
) -> (r: Result<LookReport, CliError>)
    ensures
        match base {
            Err(why) => r matches Err(e) && e is Unverified && e->detail@ == "unverified: "@ + why@,
            Ok(_) => r matches Ok(rep) && {
                let gated = coverage_gates(strict, uncovered.deep_view());
                &&& rep.lines.deep_view() == coverage_lines(strict, source, uncovered.deep_view(), match outside_head {
                    Ok(v) => Ok(v.deep_view()),
                    Err(why) => Err(why@),
                })
                &&& rep.refusals@.len() == (if unmanaged@.len() > 0 { 1int } else { 0int }) + (if gated { 1int } else { 0int })
                &&& unmanaged@.len() > 0 ==> rep.refusals@[0].error == CliError::Other(unmanaged@[0])
                    && rep.refusals@[0].lines.deep_view() == unmanaged.deep_view().drop_first()
                &&& gated ==> rep.refusals@.last().error == (CliError::Uncovered { count: uncovered@.len() as usize })
                    && rep.refusals@.last().lines.deep_view() == uncovered_lines(uncovered.deep_view(), coverage_hint(source))
            },
        },
{
    let why = match base {
        Ok(_) => None,
        Err(why) => Some(why),
    };
    if let Some(why) = why {
        let mut d = chars_of("unverified: ");
        push_str(&mut d, why.as_str());
        return Err(CliError::unverified(string_of(&d)));
    }
    let hint = match source {
        IntentSource::ChangeFiles => "add a bump file (or `none` / empty frontmatter under --strict)",
        IntentSource::CommitsOnly => "name the package in a conventional commit (or a path that maps to it)",
    };
    let ghost uv = uncovered.deep_view();
    let mut listed: Vec<String> = Vec::new();
    let mut i: usize = 0;
    while i < uncovered.len()
        invariant
            i <= uncovered@.len(),
            uv == uncovered.deep_view(),
            hint@ == coverage_hint(source),
            listed.deep_view() == uncovered_lines(uv.take(i as int), hint@),
        decreases uncovered@.len() - i,
    {
        let mut t = chars_of(uncovered[i].as_str());
        push_str(&mut t, ": changed with no covering intent; ");
        push_str(&mut t, hint);
        let ghost before = listed.deep_view();
        listed.push(string_of(&t));
        assert(uv.take(i + 1) =~= uv.take(i as int).push(uv[i as int]));
        assert(listed.deep_view() =~= before.push(t@));
        assert(listed.deep_view() =~= uncovered_lines(uv.take((i + 1) as int), hint@));
        i = i + 1;
    }
    assert(uv.take(uv.len() as int) =~= uv);
    let mut unseen: Vec<String> = Vec::new();
    match outside_head {
        Ok(lines) => {
            texts_to_strings(&mut unseen, &lines, 0);
            assert(lines.deep_view().skip(0) =~= lines.deep_view());
        },
        Err(err) => {
            let mut t = chars_of("the working tree could not be read, so this run looked only at commits: ");
            push_str(&mut t, err.as_str());
            unseen.push(string_of(&t));
            assert(unseen.deep_view() =~= seq![t@]);
        },
    }
    let mut refusals: Vec<Refusal> = Vec::new();
    if unmanaged.len() > 0 {
        let mut rest: Vec<String> = Vec::new();
        texts_to_strings(&mut rest, unmanaged, 1);
        assert(unmanaged.deep_view().skip(1) =~= unmanaged.deep_view().drop_first());
        refusals.push(Refusal { error: CliError::new(unmanaged[0].clone()), lines: rest });
    }
    let gated = strict && uncovered.len() > 0;
    let mut lines: Vec<String> = Vec::new();
    if gated {
        refusals.push(Refusal { error: CliError::uncovered(uncovered.len()), lines: listed });
    } else {
        lines = listed;
    }
    let ghost before = lines.deep_view();
    texts_to_strings(&mut lines, &unseen, 0);
    assert(unseen.deep_view().skip(0) =~= unseen.deep_view());
    Ok(LookReport { lines, refusals })
}

// ---------------------------------------------------------------------------
// The remote-tags look
// ---------------------------------------------------------------------------

/// A tag reachable from `HEAD`, with the version its name carries as the tag
/// reader found it (`None` where the name carries none).
#[derive(Clone, Debug)]
pub struct ReachableTag {
    name: String,
    version: Option<SemVer>,
}

/// A reachable tag as the contracts see it: its name and its version.
pub type ReachableView = (Seq<char>, Option<VersionView>);

pub open spec fn version_of(v: Option<SemVer>) -> Option<VersionView> {
    match v {
        Some(x) => Some(x@),
        None => None,
    }
}

impl View for ReachableTag {
    type V = ReachableView;

    closed spec fn view(&self) -> ReachableView {
        (self.name@, version_of(self.version))
    }
}

impl ReachableTag {
    /// A tag named `name` whose name carries `version`.
    pub fn new(name: String, version: Option<SemVer>) -> (t: ReachableTag)
        ensures
            t@ == (name@, version_of(version)),
    {
        ReachableTag { name, version }
    }

    /// The tag's name.
    pub fn name(&self) -> (n: &str)
        ensures
            n@ == self@.0,
    {
        self.name.as_str()
    }
}

pub open spec fn reachable_view(ts: Seq<ReachableTag>) -> Seq<ReachableView> {
    ts.map_values(|t: ReachableTag| t@)
}

/// `a` is older than `b`: a tag whose name carries a version is newer than
/// every tag whose name carries none; two versioned tags go by SemVer
/// precedence, two unversioned ones by name.
pub open spec fn older(a: ReachableView, b: ReachableView) -> bool {
    match (a.1, b.1) {
        (Some(x), Some(y)) => semver_lt(x, y),
        (Some(_), None) => false,
        (None, Some(_)) => true,
        (None, None) => text_lt(a.0, b.0),
    }
}

/// Where `t` goes among the first `k` of `s` when it is placed after the
/// last of them that is not newer than it.
pub open spec fn slot(s: Seq<ReachableView>, t: ReachableView, k: int) -> int
    decreases k,
{
    if k <= 0 {
        0
    } else if !older(t, s[k - 1]) {
        k
    } else {
        slot(s, t, k - 1)
    }
}

/// `ts` from oldest to newest, tags that compare equal kept in the order
/// they came in.
pub open spec fn oldest_first(ts: Seq<ReachableView>) -> Seq<ReachableView>
    decreases ts.len(),
{
    if ts.len() == 0 {
        Seq::empty()
    } else {
        let s = oldest_first(ts.drop_last());
        s.insert(slot(s, ts.last(), s.len() as int), ts.last())
    }
}

/// The names of the newest `n` tags of `ts`, oldest first.
pub open spec fn newest_names(ts: Seq<ReachableView>, n: nat) -> Seq<Seq<char>> {
    let s = oldest_first(ts);
    let skip: int = if s.len() > n { s.len() - n } else { 0 };
    s.skip(skip).map_values(|t: ReachableView| t.0)
}

proof fn lemma_slot_range(s: Seq<ReachableView>, t: ReachableView, k: int)
    requires
        0 <= k,
    ensures
        0 <= slot(s, t, k) <= k,
    decreases k,
{
    if k > 0 {
        lemma_slot_range(s, t, k - 1);
    }
}

proof fn lemma_oldest_first_len(ts: Seq<ReachableView>)
    ensures
        oldest_first(ts).len() == ts.len(),
    decreases ts.len(),
{
    if ts.len() > 0 {
        lemma_oldest_first_len(ts.drop_last());
        let s = oldest_first(ts.drop_last());
        lemma_slot_range(s, ts.last(), s.len() as int);
    }
}

/// Whether tag `a` is older than tag `b`.
fn older_than(a: &ReachableTag, b: &ReachableTag) -> (r: bool)
    ensures
        r == older(a@, b@),
{
    match (&a.version, &b.version) {
        (Some(x), Some(y)) => x.precedes(y),
        (Some(_), None) => false,
        (None, Some(_)) => true,
        (None, None) => crate::order::precedes(&chars_of(a.name.as_str()), &chars_of(b.name.as_str())),
    }
}

/// The names of the newest `n` reachable tags, oldest first: tags are
/// ordered as [`older`] says, equal ones in the order they came in (a set of
/// names gives them sorted), and the last `n` are kept.
pub fn newest_local_tags(local: &Vec<ReachableTag>, n: usize) -> (r: Vec<String>)
    ensures
        r.deep_view() == newest_names(reachable_view(local@), n as nat),
{
    let ghost lv = reachable_view(local@);
    let mut order: Vec<usize> = Vec::new();
    let mut i: usize = 0;
    while i < local.len()
        invariant
            lv == reachable_view(local@),
            i <= local@.len(),
            forall|k: int| 0 <= k < order@.len() ==> (#[trigger] order@[k]) < local@.len(),
            order@.map_values(|x: usize| lv[x as int]) == oldest_first(lv.take(i as int)),
        decreases local@.len() - i,
    {
        let ghost s = order@.map_values(|x: usize| lv[x as int]);
        let ghost t = lv[i as int];
        assert(local@[i as int]@ == t);
        let mut k: usize = order.len();
        loop
            invariant
                lv == reachable_view(local@),
                i < local@.len(),
                t == lv[i as int],
                k <= order@.len(),
                s == order@.map_values(|x: usize| lv[x as int]),
                forall|q: int| 0 <= q < order@.len() ==> (#[trigger] order@[q]) < local@.len(),
                slot(s, t, s.len() as int) == slot(s, t, k as int),
            ensures
                k <= order@.len(),
                slot(s, t, s.len() as int) == k,
            decreases k,
        {
            if k == 0 {
                break;
            }
            let before = order[k - 1];
            assert(local@[before as int]@ == s[k - 1]);
            if !older_than(&local[i], &local[before]) {
                break;
            }
            k = k - 1;
        }
        proof {
            lemma_oldest_first_len(lv.take(i as int));
            assert(lv.take(i + 1).drop_last() =~= lv.take(i as int));
            assert(lv.take(i + 1).last() == t);
        }
        order.insert(k, i);
        assert(order@.map_values(|x: usize| lv[x as int]) =~= s.insert(k as int, t));
        i = i + 1;
    }
    assert(lv.take(local@.len() as int) =~= lv);
    proof {
        lemma_oldest_first_len(lv);
    }
    let ghost sorted = order@.map_values(|x: usize| lv[x as int]);
    let len = order.len();
    let skip: usize = if len > n { len - n } else { 0 };
    let mut r: Vec<String> = Vec::new();
    let mut j: usize = skip;
    while j < len
        invariant
            lv == reachable_view(local@),
            len == order@.len(),
            skip <= j <= len,
            sorted == order@.map_values(|x: usize| lv[x as int]),
            forall|k: int| 0 <= k < order@.len() ==> (#[trigger] order@[k]) < local@.len(),
            r.deep_view() == sorted.subrange(skip as int, j as int).map_values(|t: ReachableView| t.0),
        decreases len - j,
    {
        let at = order[j];
        assert(local@[at as int]@ == sorted[j as int]);
        let name = local[at].name.clone();
        let ghost prev = r.deep_view();
        r.push(name);
        assert(r.deep_view() =~= prev.push(sorted[j as int].0));
        assert(sorted.subrange(skip as int, j + 1).map_values(|t: ReachableView| t.0)
            =~= sorted.subrange(skip as int, j as int).map_values(|t: ReachableView| t.0).push(sorted[j as int].0));
        j = j + 1;
    }
    assert(sorted.subrange(skip as int, len as int) =~= sorted.skip(skip as int));
    r
}

/// The names of `names` that `advertised` does not list, in order.
pub open spec fn unadvertised(names: Seq<Seq<char>>, advertised: Seq<Seq<char>>) -> Seq<Seq<char>>
    decreases names.len(),
{
    if names.len() == 0 {
        Seq::empty()
    } else {
        let rest = unadvertised(names.drop_last(), advertised);
        if advertised.contains(names.last()) {
            rest
        } else {
            rest.push(names.last())
        }
    }
}

/// What the remote-tags look finds, as the detail of a look that did not
/// happen, or `Ok` where the remote holds what it should: no remote at all;
/// no local tags while the remote advertises some (a fetch that skipped
/// them); or the newest `lookback` local tags that the remote does not
/// advertise.
pub open spec fn remote_look(remote: Option<Seq<char>>, advertised: Seq<Seq<char>>, local: Seq<ReachableView>, lookback: nat) -> Result<(), Seq<char>> {
    match remote {
        None => Err("unverified: --remote set but this repository has no remotes"@),
        Some(rm) => if local.len() == 0 {
            if advertised.len() == 0 {
                Ok(())
            } else {
                Err("unverified: remote "@ + debug_str(rm) + " advertises tags but none are reachable locally; run `git fetch --tags -- "@ + rm
                    + "` (a prior fetch --no-tags leaves no local tagOpt to detect)"@)
            }
        } else {
            let missing = unadvertised(newest_names(local, lookback), advertised);
            if missing.len() == 0 {
                Ok(())
            } else {
                Err("unverified: newest local tags missing from remote "@ + debug_str(rm) + ": "@ + join(missing, ", "@)
                    + "; push the tags (`git push --tags -- "@ + rm + "`) or confirm the remote did not drop them"@)
            }
        },
    }
}

fn advertises(advertised: &Vec<String>, name: &str) -> (b: bool)
    ensures
        b == advertised.deep_view().contains(name@),
{
    let d = chars_of(name);
    let mut i: usize = 0;
    while i < advertised.len()
        invariant
            d@ == name@,
            i <= advertised@.len(),
            forall|k: int| 0 <= k < i ==> (#[trigger] advertised@[k])@ != name@,
        decreases advertised@.len() - i,
    {
        if crate::text::same(&chars_of(advertised[i].as_str()), &d) {
            assert(advertised.deep_view()[i as int] == name@);
            return true;
        }
        i = i + 1;
    }
    assert forall|k: int| 0 <= k < advertised.deep_view().len() implies advertised.deep_view()[k] != name@ by {
        assert(advertised.deep_view()[k] == advertised@[k]@);
    }
    false
}

/// The remote-tags look over what git reported: the first remote (`None`
/// where the repository has none), the tag names it advertises, and the
/// tags reachable from `HEAD` (a set of names, each with its version).
/// `Ok` where the remote holds the newest `lookback` local tags; else a look
/// that did not happen, saying what the remote lacks.
pub fn remote_verdict(remote: Option<&str>, advertised: &Vec<String>, local: &Vec<ReachableTag>, lookback: u32) -> (r: Result<(), CliError>)
    ensures
        match remote_look(
            match remote { Some(x) => Some(x@), None => None },
            advertised.deep_view(),
            reachable_view(local@),
            lookback as nat,
        ) {
            Ok(()) => r is Ok,
            Err(d) => r matches Err(CliError::Unverified { detail }) && detail@ == d,
        },
{
    let rm = match remote {
        None => {
            return Err(CliError::unverified(string_of(&chars_of("unverified: --remote set but this repository has no remotes"))));
        },
        Some(x) => x,
    };
    if local.len() == 0 {
        if advertised.len() == 0 {
            return Ok(());
        }
        let mut t = chars_of("unverified: remote ");
        push_str(&mut t, debug_quoted(rm).as_str());
        push_str(&mut t, " advertises tags but none are reachable locally; run `git fetch --tags -- ");
        push_str(&mut t, rm);
        push_str(&mut t, "` (a prior fetch --no-tags leaves no local tagOpt to detect)");
        return Err(CliError::unverified(string_of(&t)));
    }
    let newest = newest_local_tags(local, lookback as usize);
    let ghost nv = newest.deep_view();
    let mut missing: Vec<Text> = Vec::new();
    let mut i: usize = 0;
    while i < newest.len()
        invariant
            nv == newest.deep_view(),
            i <= nv.len(),
            missing.deep_view() == unadvertised(nv.take(i as int), advertised.deep_view()),
        decreases nv.len() - i,
    {
        assert(nv.take(i + 1).drop_last() =~= nv.take(i as int));
        assert(nv.take(i + 1).last() == newest@[i as int]@);
        if !advertises(advertised, newest[i].as_str()) {
            let c = chars_of(newest[i].as_str());
            let ghost prev = missing.deep_view();
            missing.push(c);
            assert(missing.deep_view() =~= prev.push(c@));
        }
        i = i + 1;
    }
    assert(nv.take(nv.len() as int) =~= nv);
    if missing.len() == 0 {
        return Ok(());
    }
    let mut t = chars_of("unverified: newest local tags missing from remote ");
    push_str(&mut t, debug_quoted(rm).as_str());
    push_str(&mut t, ": ");
    let listed = crate::text::joined(&missing, ", ");
    push_all(&mut t, &listed);
    push_str(&mut t, "; push the tags (`git push --tags -- ");
    push_str(&mut t, rm);
    push_str(&mut t, "`) or confirm the remote did not drop them");
    Err(CliError::unverified(string_of(&t)))
}

} // verus!
