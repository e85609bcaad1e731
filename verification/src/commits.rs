//! Map conventional (and plain) commit messages to package bump intent, and
//! aggregate it highest-wins per package. Pure: the caller gathers the text.
use vstd::prelude::*;

use crate::order::{insert_sorted, strictly_sorted};
use crate::plan::{
    higher, id_view, level_rank, resolution, BumpFile, BumpLevel, Package, PackageId, UnknownReason,
    Workspace,
};
use crate::text::{
    begins_str, chars_of, copy, join, lines, lines_of, push_all, push_str, slice_of, starts_with,
    string_of, trim, trimmed, Text,
};

verus! {

broadcast use crate::views::lemma_text_deep_view;

/// One package's share of a commit: the level it moves by and the summary.
#[derive(Debug)]
pub struct CommitContribution {
    package: String,
    level: BumpLevel,
    summary: String,
}

impl Clone for CommitContribution {
    /// A copy, field for field.
    fn clone(&self) -> (c: CommitContribution)
        ensures
            c@ == self@,
    {
        proof {
            use_type_invariant(self);
        }
        CommitContribution { package: self.package.clone(), level: self.level, summary: self.summary.clone() }
    }
}

/// A contribution as the contracts see it: package, level, summary.
pub type ContributionView = (Seq<char>, BumpLevel, Seq<char>);

impl View for CommitContribution {
    type V = ContributionView;

    closed spec fn view(&self) -> ContributionView {
        (self.package@, self.level, self.summary@)
    }
}

pub open spec fn contributions_view(cs: Seq<CommitContribution>) -> Seq<ContributionView> {
    cs.map_values(|c: CommitContribution| c@)
}

impl CommitContribution {
    /// Every contribution names a package and releases it.
    #[verifier::type_invariant]
    spec fn names_a_release(self) -> bool {
        self.package@.len() > 0 && self.level != BumpLevel::Unchanged
    }

    /// `None` when `package` is empty or `level` is not a release level.
    pub fn new(package: String, level: BumpLevel, summary: String) -> (r: Option<CommitContribution>)
        ensures
            r is Some <==> package@.len() > 0 && level != BumpLevel::Unchanged,
            r matches Some(c) ==> c@ == (package@, level, summary@),
    {
        if package.as_str().is_empty() || !level.is_release() {
            return None;
        }
        Some(CommitContribution { package, level, summary })
    }

    /// The package, which is never empty.
    pub fn package(&self) -> (p: &str)
        ensures
            p@ == self@.0,
            p@.len() > 0,
    {
        proof {
            use_type_invariant(self);
        }
        self.package.as_str()
    }

    /// The level, which always releases.
    pub fn level(&self) -> (l: BumpLevel)
        ensures
            l == self@.1,
            l != BumpLevel::Unchanged,
    {
        proof {
            use_type_invariant(self);
        }
        self.level
    }

    pub fn summary(&self) -> (s: &str)
        ensures
            s@ == self@.2,
    {
        self.summary.as_str()
    }
}

/// Highest-wins aggregation across many contributions, plus a changelog note.
#[derive(Clone, Debug)]
pub struct AggregatedIntent {
    entries: Vec<(String, BumpLevel)>,
    note: String,
}

impl View for AggregatedIntent {
    type V = (Seq<(Seq<char>, BumpLevel)>, Seq<char>);

    closed spec fn view(&self) -> (Seq<(Seq<char>, BumpLevel)>, Seq<char>) {
        (self.entries@.map_values(|e: (String, BumpLevel)| (e.0@, e.1)), self.note@)
    }
}

impl AggregatedIntent {
    pub fn entries(&self) -> (e: &[(String, BumpLevel)])
        ensures
            e@.map_values(|x: (String, BumpLevel)| (x.0@, x.1)) == self@.0,
    {
        self.entries.as_slice()
    }

    pub fn note(&self) -> (n: &str)
        ensures
            n@ == self@.1,
    {
        self.note.as_str()
    }
}

/// The contributions that release something, in order.
pub open spec fn released(cs: Seq<ContributionView>) -> Seq<ContributionView>
    decreases cs.len(),
{
    if cs.len() == 0 {
        Seq::empty()
    } else if cs.last().1 != BumpLevel::Unchanged {
        released(cs.drop_last()).push(cs.last())
    } else {
        released(cs.drop_last())
    }
}

/// The changelog line a contribution adds.
pub open spec fn note_line(c: ContributionView) -> Seq<char> {
    "- "@ + c.0 + ": "@ + c.2
}

/// The changelog note of a set of contributions: one line per release.
pub open spec fn aggregate_note(cs: Seq<ContributionView>) -> Seq<char> {
    join(released(cs).map_values(|c: ContributionView| note_line(c)), "\n"@)
}

/// The packages some release names.
pub open spec fn released_names(cs: Seq<ContributionView>) -> Set<Seq<char>> {
    Set::new(|n: Seq<char>| exists|i: int| 0 <= i < cs.len() && cs[i].0 == n && cs[i].1 != BumpLevel::Unchanged)
}

/// The highest level any release names `n` with.
pub open spec fn top_level(cs: Seq<ContributionView>, n: Seq<char>) -> BumpLevel
    decreases cs.len(),
{
    if cs.len() == 0 {
        BumpLevel::Unchanged
    } else if cs.last().0 == n {
        higher(top_level(cs.drop_last(), n), cs.last().1)
    } else {
        top_level(cs.drop_last(), n)
    }
}

/// What `aggregate` returns: each released package once, sorted, at the
/// highest level it was given, and every release's line in the note.
pub open spec fn aggregates(a: (Seq<(Seq<char>, BumpLevel)>, Seq<char>), cs: Seq<ContributionView>) -> bool {
    let names = a.0.map_values(|e: (Seq<char>, BumpLevel)| e.0);
    &&& strictly_sorted(names)
    &&& names.to_set() == released_names(cs)
    &&& forall|i: int| 0 <= i < a.0.len() ==> #[trigger] a.0[i].1 == top_level(cs, a.0[i].0)
    &&& a.1 == aggregate_note(cs)
}

proof fn lemma_top_level_absent(cs: Seq<ContributionView>, n: Seq<char>)
    requires
        !released_names(cs).contains(n),
    ensures
        top_level(cs, n) == BumpLevel::Unchanged,
    decreases cs.len(),
{
    if cs.len() > 0 {
        let rest = cs.drop_last();
        assert(!released_names(rest).contains(n)) by {
            if released_names(rest).contains(n) {
                let i = choose|i: int| 0 <= i < rest.len() && rest[i].0 == n && rest[i].1 != BumpLevel::Unchanged;
                assert(cs[i] == rest[i]);
            }
        }
        lemma_top_level_absent(rest, n);
        if cs.last().0 == n {
            assert(cs.last().1 == BumpLevel::Unchanged) by {
                if cs.last().1 != BumpLevel::Unchanged {
                    assert(released_names(cs).contains(n));
                }
            }
        }
    }
}

/// Whether some contribution names `n` at level `l` or above.
pub open spec fn reaches(cs: Seq<ContributionView>, n: Seq<char>, l: BumpLevel) -> bool {
    exists|i: int| 0 <= i < cs.len() && cs[i].0 == n && level_rank(cs[i].1) >= level_rank(l)
}

proof fn lemma_top_level_reaches(cs: Seq<ContributionView>, n: Seq<char>, l: BumpLevel)
    ensures
        level_rank(l) > 0 ==> (level_rank(top_level(cs, n)) >= level_rank(l) <==> reaches(cs, n, l)),
    decreases cs.len(),
{
    if cs.len() > 0 && level_rank(l) > 0 {
        let rest = cs.drop_last();
        lemma_top_level_reaches(rest, n, l);
        if reaches(rest, n, l) {
            let i = choose|i: int| 0 <= i < rest.len() && rest[i].0 == n && level_rank(rest[i].1) >= level_rank(l);
            assert(cs[i] == rest[i]);
        }
        if reaches(cs, n, l) {
            let i = choose|i: int| 0 <= i < cs.len() && cs[i].0 == n && level_rank(cs[i].1) >= level_rank(l);
            if i < cs.len() - 1 {
                assert(rest[i] == cs[i]);
            }
        }
    }
}

proof fn lemma_reaches_permuted(a: Seq<ContributionView>, b: Seq<ContributionView>, n: Seq<char>, l: BumpLevel)
    requires
        a.to_multiset() == b.to_multiset(),
    ensures
        reaches(a, n, l) == reaches(b, n, l),
{
    a.to_multiset_ensures();
    b.to_multiset_ensures();
    if reaches(a, n, l) {
        let i = choose|i: int| 0 <= i < a.len() && a[i].0 == n && level_rank(a[i].1) >= level_rank(l);
        assert(a.contains(a[i]));
        assert(a.to_multiset().count(a[i]) > 0);
        assert(b.to_multiset().count(a[i]) > 0);
        assert(b.contains(a[i]));
        let j = choose|j: int| 0 <= j < b.len() && b[j] == a[i];
        assert(b[j].0 == n);
    }
    if reaches(b, n, l) {
        let i = choose|i: int| 0 <= i < b.len() && b[i].0 == n && level_rank(b[i].1) >= level_rank(l);
        assert(b.contains(b[i]));
        assert(b.to_multiset().count(b[i]) > 0);
        assert(a.to_multiset().count(b[i]) > 0);
        assert(a.contains(b[i]));
        let j = choose|j: int| 0 <= j < a.len() && a[j] == b[i];
        assert(a[j].0 == n);
    }
}

proof fn lemma_top_level_permuted(a: Seq<ContributionView>, b: Seq<ContributionView>, n: Seq<char>)
    requires
        a.to_multiset() == b.to_multiset(),
    ensures
        top_level(a, n) == top_level(b, n),
{
    let ta = top_level(a, n);
    let tb = top_level(b, n);
    if level_rank(ta) > 0 {
        lemma_top_level_reaches(a, n, ta);
        lemma_top_level_reaches(b, n, ta);
        lemma_reaches_permuted(a, b, n, ta);
    }
    if level_rank(tb) > 0 {
        lemma_top_level_reaches(a, n, tb);
        lemma_top_level_reaches(b, n, tb);
        lemma_reaches_permuted(a, b, n, tb);
    }
}

proof fn lemma_released_names_permuted(a: Seq<ContributionView>, b: Seq<ContributionView>)
    requires
        a.to_multiset() == b.to_multiset(),
    ensures
        released_names(a) == released_names(b),
{
    a.to_multiset_ensures();
    b.to_multiset_ensures();
    assert forall|n: Seq<char>| released_names(a).contains(n) implies released_names(b).contains(n) by {
        let i = choose|i: int| 0 <= i < a.len() && a[i].0 == n && a[i].1 != BumpLevel::Unchanged;
        assert(a.contains(a[i]));
        assert(a.to_multiset().count(a[i]) > 0);
        assert(b.to_multiset().count(a[i]) > 0);
        assert(b.contains(a[i]));
        let j = choose|j: int| 0 <= j < b.len() && b[j] == a[i];
        assert(b[j].0 == n && b[j].1 != BumpLevel::Unchanged);
    }
    assert forall|n: Seq<char>| released_names(b).contains(n) implies released_names(a).contains(n) by {
        let i = choose|i: int| 0 <= i < b.len() && b[i].0 == n && b[i].1 != BumpLevel::Unchanged;
        assert(b.contains(b[i]));
        assert(b.to_multiset().count(b[i]) > 0);
        assert(a.to_multiset().count(b[i]) > 0);
        assert(a.contains(b[i]));
        let j = choose|j: int| 0 <= j < a.len() && a[j] == b[i];
        assert(a[j].0 == n && a[j].1 != BumpLevel::Unchanged);
    }
    assert(released_names(a) =~= released_names(b));
}

/// The order of the contributions does not change what aggregation
/// decides: the same packages, each at the same level. Only the note's
/// lines follow the order given.
pub proof fn lemma_aggregation_ignores_order(
    first: (Seq<(Seq<char>, BumpLevel)>, Seq<char>),
    second: (Seq<(Seq<char>, BumpLevel)>, Seq<char>),
    a: Seq<ContributionView>,
    b: Seq<ContributionView>,
)
    requires
        a.to_multiset() == b.to_multiset(),
        aggregates(first, a),
        aggregates(second, b),
    ensures
        first.0 == second.0,
{
    lemma_released_names_permuted(a, b);
    let n1 = first.0.map_values(|e: (Seq<char>, BumpLevel)| e.0);
    let n2 = second.0.map_values(|e: (Seq<char>, BumpLevel)| e.0);
    crate::order::lemma_sorted_unique(n1, n2);
    assert forall|i: int| 0 <= i < first.0.len() implies first.0[i] == second.0[i] by {
        assert(n1[i] == n2[i]);
        lemma_top_level_permuted(a, b, first.0[i].0);
    }
    assert(first.0 =~= second.0);
}

/// Highest-wins aggregation: each package once, at the highest release level
/// any contribution gave it, and a note with one line per release.
pub fn aggregate(contributions: &[CommitContribution]) -> (a: AggregatedIntent)
    ensures
        aggregates(a@, contributions_view(contributions@)),
{
    let ghost cs = contributions_view(contributions@);
    let mut names: Vec<Text> = Vec::new();
    let mut levels: Vec<BumpLevel> = Vec::new();
    let mut notes: Vec<Text> = Vec::new();
    let mut k: usize = 0;
    while k < contributions.len()
        invariant
            cs == contributions_view(contributions@),
            k <= cs.len(),
            strictly_sorted(names.deep_view()),
            names.deep_view().to_set() == released_names(cs.take(k as int)),
            levels@.len() == names@.len(),
            forall|i: int| 0 <= i < levels@.len() ==> #[trigger] levels@[i] == top_level(cs.take(k as int), names.deep_view()[i]),
            notes.deep_view() == released(cs.take(k as int)).map_values(|c: ContributionView| note_line(c)),
        decreases cs.len() - k,
    {
        let ghost before = cs.take(k as int);
        let ghost now = cs.take(k + 1);
        assert(now.drop_last() == before);
        let c = &contributions[k];
        assert(now.last() == c@);
        let pkg = chars_of(c.package.as_str());
        let ghost old_names = names.deep_view();
        let ghost old_levels = levels@;
        if c.level.is_release() {
            let (p, added) = insert_sorted(&mut names, &pkg);
            assert(names@.len() == names.deep_view().len());
            assert(old_names.len() == old_levels.len());
            if added {
                proof {
                    assert(!released_names(before).contains(pkg@)) by {
                        if released_names(before).contains(pkg@) {
                            assert(old_names.to_set().contains(pkg@));
                        }
                    }
                    lemma_top_level_absent(before, pkg@);
                }
                assert(p <= levels@.len());
                levels.insert(p, c.level);
                assert forall|i: int| 0 <= i < levels@.len() implies #[trigger] levels@[i] == top_level(now, names.deep_view()[i]) by {
                    if i < p {
                        assert(names.deep_view()[i] == old_names[i]);
                        assert(levels@[i] == old_levels[i]);
                        assert(old_names[i] != pkg@);
                    } else if i > p {
                        assert(names.deep_view()[i] == old_names[i - 1]);
                        assert(levels@[i] == old_levels[i - 1]);
                        assert(old_names[i - 1] != pkg@);
                    } else {
                        assert(names.deep_view()[i] == pkg@);
                    }
                }
            } else {
                let current = levels[p];
                levels.set(p, current.max(c.level));
                assert forall|i: int| 0 <= i < levels@.len() implies #[trigger] levels@[i] == top_level(now, names.deep_view()[i]) by {
                    assert(names.deep_view()[i] == old_names[i]);
                    if i != p {
                        assert(levels@[i] == old_levels[i]);
                        assert(old_names[i] != old_names[p as int]) by {
                            if i < p {
                                crate::order::lemma_lt_irreflexive(old_names[i]);
                            } else {
                                crate::order::lemma_lt_irreflexive(old_names[i]);
                            }
                        }
                    }
                }
            }
            assert(names.deep_view().to_set() =~= released_names(now)) by {
                assert forall|n: Seq<char>| released_names(now).contains(n) <==> names.deep_view().to_set().contains(n) by {
                    if released_names(now).contains(n) && n != pkg@ {
                        let i = choose|i: int| 0 <= i < now.len() && now[i].0 == n && now[i].1 != BumpLevel::Unchanged;
                        assert(before[i] == now[i]);
                        assert(released_names(before).contains(n));
                    }
                    if names.deep_view().to_set().contains(n) && n != pkg@ {
                        assert(old_names.to_set().contains(n));
                        let i = choose|i: int| 0 <= i < before.len() && before[i].0 == n && before[i].1 != BumpLevel::Unchanged;
                        assert(now[i] == before[i]);
                    }
                    if n == pkg@ {
                        assert(now[k as int].0 == n);
                    }
                }
            }
            let mut line = chars_of("- ");
            push_all(&mut line, &pkg);
            push_str(&mut line, ": ");
            let summary = chars_of(c.summary.as_str());
            push_all(&mut line, &summary);
            let ghost old_notes = notes.deep_view();
            notes.push(line);
            assert(notes.deep_view() =~= old_notes.push(note_line(c@)));
        } else {
            assert forall|i: int| 0 <= i < levels@.len() implies #[trigger] levels@[i] == top_level(now, names.deep_view()[i]) by {
                if names.deep_view()[i] == pkg@ {
                    assert(higher(top_level(before, pkg@), BumpLevel::Unchanged) == top_level(before, pkg@));
                }
            }
            assert(names.deep_view().to_set() =~= released_names(now)) by {
                assert forall|n: Seq<char>| released_names(now).contains(n) <==> released_names(before).contains(n) by {
                    if released_names(now).contains(n) {
                        let i = choose|i: int| 0 <= i < now.len() && now[i].0 == n && now[i].1 != BumpLevel::Unchanged;
                        assert(i < k);
                        assert(before[i] == now[i]);
                    }
                    if released_names(before).contains(n) {
                        let i = choose|i: int| 0 <= i < before.len() && before[i].0 == n && before[i].1 != BumpLevel::Unchanged;
                        assert(now[i] == before[i]);
                    }
                }
            }
        }
        k = k + 1;
    }
    assert(cs.take(cs.len() as int) == cs);
    let note = crate::text::joined(&notes, "\n");
    let mut entries: Vec<(String, BumpLevel)> = Vec::new();
    let mut i: usize = 0;
    while i < names.len()
        invariant
            i <= names@.len(),
            levels@.len() == names@.len(),
            entries@.len() == i,
            forall|j: int| 0 <= j < i ==> (#[trigger] entries@[j]).0@ == names.deep_view()[j] && entries@[j].1 == levels@[j],
        decreases names@.len() - i,
    {
        entries.push((string_of(&names[i]), levels[i]));
        i = i + 1;
    }
    let a = AggregatedIntent { entries, note: string_of(&note) };
    assert(a@.0.map_values(|e: (Seq<char>, BumpLevel)| e.0) =~= names.deep_view());
    a
}

/// `file` without any number of leading `./`.
pub open spec fn without_dot_slash(file: Seq<char>) -> Seq<char>
    decreases file.len(),
{
    if file.len() >= 2 && file[0] == '.' && file[1] == '/' {
        without_dot_slash(file.skip(2))
    } else {
        file
    }
}

/// A package directory owns a path under it; the root package (empty
/// directory) owns every path.
pub open spec fn owns(dir: Seq<char>, file: Seq<char>) -> bool {
    dir.len() == 0 || file == dir || starts_with(file, dir.push('/'))
}

/// The length of the longest package directory that owns `file`, or `-1`.
pub open spec fn best_len(dirs: Seq<(Seq<char>, Seq<char>)>, file: Seq<char>) -> int
    decreases dirs.len(),
{
    if dirs.len() == 0 {
        -1
    } else {
        let rest = best_len(dirs.drop_last(), file);
        if owns(dirs.last().1, file) && dirs.last().1.len() > rest {
            dirs.last().1.len() as int
        } else {
            rest
        }
    }
}

/// A package a changed path is attributed to: its directory owns the path and
/// no owning directory is longer.
pub open spec fn attributed(dirs: Seq<(Seq<char>, Seq<char>)>, file: Seq<char>, name: Seq<char>) -> bool {
    exists|j: int|
        0 <= j < dirs.len() && #[trigger] dirs[j].0 == name && owns(dirs[j].1, file)
            && dirs[j].1.len() == best_len(dirs, file)
}

/// Every non-empty package name some changed path is attributed to.
pub open spec fn path_names(files: Seq<Seq<char>>, dirs: Seq<(Seq<char>, Seq<char>)>) -> Set<Seq<char>> {
    Set::new(|n: Seq<char>| n.len() > 0 && exists|i: int| 0 <= i < files.len() && attributed(dirs, without_dot_slash(#[trigger] files[i]), n))
}

/// A package directory is credited only with paths under it: a package a
/// changed path is attributed to has a directory that is empty (the root
/// package), equal to the path, or a prefix of the path followed by `/`.
/// So `crates/core` is never credited with `crates/core-utils/src/lib.rs`.
pub proof fn lemma_attribution_stays_under_the_directory(files: Seq<Seq<char>>, dirs: Seq<(Seq<char>, Seq<char>)>, name: Seq<char>)
    requires
        path_names(files, dirs).contains(name),
    ensures
        exists|i: int, j: int|
            0 <= i < files.len() && 0 <= j < dirs.len() && #[trigger] dirs[j].0 == name && ({
                let d = dirs[j].1;
                let f = without_dot_slash(#[trigger] files[i]);
                ||| d.len() == 0
                ||| f == d
                ||| (f.len() > d.len() && f.subrange(0, d.len() as int) == d && f[d.len() as int] == '/')
            }),
{
    let i = choose|i: int| 0 <= i < files.len() && attributed(dirs, without_dot_slash(#[trigger] files[i]), name);
    let f = without_dot_slash(files[i]);
    let j = choose|j: int|
        0 <= j < dirs.len() && #[trigger] dirs[j].0 == name && owns(dirs[j].1, f) && dirs[j].1.len() == best_len(dirs, f);
    let d = dirs[j].1;
    if d.len() > 0 && f != d {
        let q = d.push('/');
        assert(f.take(q.len() as int) == q);
        assert(f.subrange(0, d.len() as int) =~= d) by {
            assert forall|k: int| 0 <= k < d.len() implies f.subrange(0, d.len() as int)[k] == d[k] by {
                assert(f.take(q.len() as int)[k] == q[k]);
            }
        }
        assert(f.take(q.len() as int)[d.len() as int] == q[d.len() as int]);
    }
}

proof fn lemma_owns_is_under(d: Seq<char>, f: Seq<char>)
    ensures
        owns(d, f) == (d.len() == 0 || f == d || (f.len() > d.len() && f.subrange(0, d.len() as int) == d && f[d.len() as int] == '/')),
{
    let q = d.push('/');
    if d.len() > 0 && f != d {
        if starts_with(f, q) {
            assert(f.subrange(0, d.len() as int) =~= d) by {
                assert forall|k: int| 0 <= k < d.len() implies f.subrange(0, d.len() as int)[k] == d[k] by {
                    assert(f.take(q.len() as int)[k] == q[k]);
                }
            }
            assert(f.take(q.len() as int)[d.len() as int] == q[d.len() as int]);
        }
        if f.len() > d.len() && f.subrange(0, d.len() as int) == d && f[d.len() as int] == '/' {
            assert forall|k: int| 0 <= k < q.len() implies f.take(q.len() as int)[k] == q[k] by {
                if k < d.len() {
                    assert(f.subrange(0, d.len() as int)[k] == f[k]);
                }
            }
            assert(f.take(q.len() as int) =~= q);
        }
    }
}

proof fn lemma_best_len_is_the_longest_owner(dirs: Seq<(Seq<char>, Seq<char>)>, f: Seq<char>)
    ensures
        forall|j: int| 0 <= j < dirs.len() && owns(#[trigger] dirs[j].1, f) ==> dirs[j].1.len() <= best_len(dirs, f),
        best_len(dirs, f) >= 0 ==> exists|j: int| 0 <= j < dirs.len() && owns(#[trigger] dirs[j].1, f) && dirs[j].1.len() == best_len(dirs, f),
        best_len(dirs, f) >= -1,
    decreases dirs.len(),
{
    if dirs.len() > 0 {
        let rest = dirs.drop_last();
        lemma_best_len_is_the_longest_owner(rest, f);
        assert forall|j: int| 0 <= j < dirs.len() && owns(#[trigger] dirs[j].1, f) implies dirs[j].1.len() <= best_len(dirs, f) by {
            if j < rest.len() {
                assert(rest[j] == dirs[j]);
            }
        }
        if best_len(dirs, f) >= 0 {
            if best_len(dirs, f) != best_len(rest, f) {
                assert(dirs[dirs.len() - 1] == dirs.last());
            } else {
                let j = choose|j: int| 0 <= j < rest.len() && owns(#[trigger] rest[j].1, f) && rest[j].1.len() == best_len(rest, f);
                assert(rest[j] == dirs[j]);
            }
        }
    }
}

/// A changed path is credited to the package whose directory is the deepest
/// one holding it: where directory `d` of a named package is empty, equals
/// the path, or is the path's prefix followed by `/`, and no directory that
/// holds the path is longer, that package is among the attributed names.
pub proof fn lemma_the_deepest_holding_directory_is_credited(files: Seq<Seq<char>>, dirs: Seq<(Seq<char>, Seq<char>)>, i: int, j: int)
    requires
        0 <= i < files.len(),
        0 <= j < dirs.len(),
        dirs[j].0.len() > 0,
        ({
            let d = dirs[j].1;
            let f = without_dot_slash(files[i]);
            ||| d.len() == 0
            ||| f == d
            ||| (f.len() > d.len() && f.subrange(0, d.len() as int) == d && f[d.len() as int] == '/')
        }),
        forall|m: int| 0 <= m < dirs.len() && ({
            let e = #[trigger] dirs[m].1;
            let f = without_dot_slash(files[i]);
            ||| e.len() == 0
            ||| f == e
            ||| (f.len() > e.len() && f.subrange(0, e.len() as int) == e && f[e.len() as int] == '/')
        }) ==> dirs[m].1.len() <= dirs[j].1.len(),
    ensures
        path_names(files, dirs).contains(dirs[j].0),
{
    let f = without_dot_slash(files[i]);
    lemma_owns_is_under(dirs[j].1, f);
    lemma_best_len_is_the_longest_owner(dirs, f);
    if best_len(dirs, f) >= 0 {
        let m = choose|m: int| 0 <= m < dirs.len() && owns(#[trigger] dirs[m].1, f) && dirs[m].1.len() == best_len(dirs, f);
        lemma_owns_is_under(dirs[m].1, f);
    }
    assert(attributed(dirs, f, dirs[j].0));
}

fn dot_slash_free(file: &[char]) -> (out: Text)
    ensures
        out@ == without_dot_slash(file@),
{
    let mut i: usize = 0;
    assert(file@.skip(0) == file@);
    while file.len() - i >= 2 && file[i] == '.' && file[i + 1] == '/'
        invariant
            i <= file@.len(),
            without_dot_slash(file@) == without_dot_slash(file@.skip(i as int)),
        decreases file@.len() - i,
    {
        assert(file@.skip(i as int).skip(2) == file@.skip(i + 2));
        i = i + 2;
    }
    slice_of(file, i, file.len())
}

fn package_contains(dir: &[char], file: &[char]) -> (b: bool)
    ensures
        b == owns(dir@, file@),
{
    if dir.len() == 0 {
        return true;
    }
    if crate::text::same(file, dir) {
        return true;
    }
    let mut prefix = copy(dir);
    prefix.push('/');
    crate::text::begins(file, &prefix)
}

fn best_owner_len(dirs: &Vec<(Text, Text)>, file: &[char]) -> (b: Option<usize>)
    ensures
        match b {
            Some(n) => n as int == best_len(dirs@.map_values(|d: (Text, Text)| (d.0@, d.1@)), file@),
            None => best_len(dirs@.map_values(|d: (Text, Text)| (d.0@, d.1@)), file@) == -1,
        },
{
    let ghost ds = dirs@.map_values(|d: (Text, Text)| (d.0@, d.1@));
    let mut best: Option<usize> = None;
    let mut j: usize = 0;
    while j < dirs.len()
        invariant
            ds == dirs@.map_values(|d: (Text, Text)| (d.0@, d.1@)),
            j <= ds.len(),
            match best {
                Some(n) => n as int == best_len(ds.take(j as int), file@),
                None => best_len(ds.take(j as int), file@) == -1,
            },
        decreases ds.len() - j,
    {
        assert(ds.take(j + 1).drop_last() == ds.take(j as int));
        assert(ds.take(j + 1).last() == ds[j as int]);
        if package_contains(&dirs[j].1, file) {
            let n = dirs[j].1.len();
            best = match best {
                Some(m) => if n > m { Some(n) } else { Some(m) },
                None => Some(n),
            };
        }
        j = j + 1;
    }
    assert(ds.take(ds.len() as int) == ds);
    best
}

/// When a commit has no usable scope, map `level` onto every package whose
/// directory is the longest prefix of a changed path. Co-located packages
/// tied at that prefix are all attributed. `package_dirs` pairs each name with
/// its repository-relative directory, empty for the root package.
pub fn contributions_from_paths(
    changed_files: &[String],
    package_dirs: &[(String, String)],
    level: BumpLevel,
    summary: &str,
) -> (out: Vec<CommitContribution>)
    ensures
        level == BumpLevel::Unchanged ==> out@.len() == 0,
        level != BumpLevel::Unchanged ==> ({
            let names = contributions_view(out@).map_values(|c: ContributionView| c.0);
            &&& strictly_sorted(names)
            &&& names.to_set() == path_names(
                changed_files@.map_values(|f: String| f@),
                package_dirs@.map_values(|d: (String, String)| (d.0@, d.1@)),
            )
            &&& forall|i: int| 0 <= i < out@.len() ==> (#[trigger] out@[i])@.1 == level && out@[i]@.2 == summary@
        }),
{
    if !level.is_release() {
        return Vec::new();
    }
    let ghost fs = changed_files@.map_values(|f: String| f@);
    let ghost ds_in = package_dirs@.map_values(|d: (String, String)| (d.0@, d.1@));
    let mut dirs: Vec<(Text, Text)> = Vec::new();
    let mut j: usize = 0;
    while j < package_dirs.len()
        invariant
            ds_in == package_dirs@.map_values(|d: (String, String)| (d.0@, d.1@)),
            j <= ds_in.len(),
            dirs@.len() == j,
            forall|i: int| 0 <= i < j ==> (#[trigger] dirs@[i]).0@ == ds_in[i].0 && dirs@[i].1@ == ds_in[i].1,
        decreases ds_in.len() - j,
    {
        let pair = (chars_of(package_dirs[j].0.as_str()), chars_of(package_dirs[j].1.as_str()));
        dirs.push(pair);
        j = j + 1;
    }
    assert(dirs@.map_values(|d: (Text, Text)| (d.0@, d.1@)) =~= ds_in);
    let ghost ds = ds_in;
    let mut names: Vec<Text> = Vec::new();
    let mut k: usize = 0;
    while k < changed_files.len()
        invariant
            fs == changed_files@.map_values(|f: String| f@),
            ds == dirs@.map_values(|d: (Text, Text)| (d.0@, d.1@)),
            k <= fs.len(),
            strictly_sorted(names.deep_view()),
            names.deep_view().to_set() == path_names(fs.take(k as int), ds),
        decreases fs.len() - k,
    {
        let raw = chars_of(changed_files[k].as_str());
        let file = dot_slash_free(&raw);
        let ghost prev = names.deep_view().to_set();
        let best = best_owner_len(&dirs, &file);
        let mut m: usize = 0;
        while m < dirs.len()
            invariant
                ds == dirs@.map_values(|d: (Text, Text)| (d.0@, d.1@)),
                file@ == without_dot_slash(fs[k as int]),
                k < fs.len(),
                m <= ds.len(),
                match best {
                    Some(n) => n as int == best_len(ds, file@),
                    None => best_len(ds, file@) == -1,
                },
                strictly_sorted(names.deep_view()),
                names.deep_view().to_set() == prev.union(Set::new(|n: Seq<char>| n.len() > 0 && exists|jj: int|
                    0 <= jj < m && #[trigger] ds[jj].0 == n && owns(ds[jj].1, file@) && ds[jj].1.len() == best_len(ds, file@))),
            decreases ds.len() - m,
        {
            let ghost before = names.deep_view().to_set();
            let ghost dm = ds[m as int];
            assert(dirs@[m as int].0@ == dm.0 && dirs@[m as int].1@ == dm.1);
            let hit = match best {
                Some(n) => dirs[m].1.len() == n && package_contains(&dirs[m].1, &file),
                None => false,
            };
            if hit && dirs[m].0.len() > 0 {
                insert_sorted(&mut names, &dirs[m].0);
            }
            proof {
                let s_old = Set::new(|n: Seq<char>| n.len() > 0 && exists|jj: int|
                    0 <= jj < m && #[trigger] ds[jj].0 == n && owns(ds[jj].1, file@) && ds[jj].1.len() == best_len(ds, file@));
                let s_new = Set::new(|n: Seq<char>| n.len() > 0 && exists|jj: int|
                    0 <= jj < m + 1 && #[trigger] ds[jj].0 == n && owns(ds[jj].1, file@) && ds[jj].1.len() == best_len(ds, file@));
                let qualifies = dm.0.len() > 0 && owns(dm.1, file@) && dm.1.len() == best_len(ds, file@);
                assert(qualifies == (hit && dm.0.len() > 0));
                assert forall|n: Seq<char>| s_new.contains(n) <==> (s_old.contains(n) || (qualifies && n == dm.0)) by {
                    if s_new.contains(n) {
                        let jj = choose|jj: int| 0 <= jj < m + 1 && #[trigger] ds[jj].0 == n && owns(ds[jj].1, file@) && ds[jj].1.len() == best_len(ds, file@);
                        if jj < m {
                            assert(s_old.contains(n));
                        }
                    }
                    if s_old.contains(n) {
                        let jj = choose|jj: int| 0 <= jj < m && #[trigger] ds[jj].0 == n && owns(ds[jj].1, file@) && ds[jj].1.len() == best_len(ds, file@);
                        assert(0 <= jj < m + 1);
                    }
                    if qualifies && n == dm.0 {
                        assert(ds[m as int].0 == n);
                    }
                }
                if qualifies {
                    assert(names.deep_view().to_set() =~= prev.union(s_new));
                } else {
                    assert(names.deep_view().to_set() =~= prev.union(s_new));
                }
            }
            m = m + 1;
        }
        proof {
            let here = Set::new(|n: Seq<char>| n.len() > 0 && exists|jj: int|
                0 <= jj < ds.len() && #[trigger] ds[jj].0 == n && owns(ds[jj].1, file@) && ds[jj].1.len() == best_len(ds, file@));
            let now = fs.take(k + 1);
            assert(now.drop_last() == fs.take(k as int));
            assert forall|n: Seq<char>| path_names(now, ds).contains(n) <==> (prev.contains(n) || here.contains(n)) by {
                if path_names(now, ds).contains(n) {
                    let i = choose|i: int| 0 <= i < now.len() && attributed(ds, without_dot_slash(#[trigger] now[i]), n);
                    if i < k {
                        assert(fs.take(k as int)[i] == now[i]);
                        assert(path_names(fs.take(k as int), ds).contains(n));
                    } else {
                        assert(now[i] == fs[k as int]);
                        let jj = choose|jj: int| 0 <= jj < ds.len() && #[trigger] ds[jj].0 == n && owns(ds[jj].1, without_dot_slash(now[i])) && ds[jj].1.len() == best_len(ds, without_dot_slash(now[i]));
                        assert(here.contains(n));
                    }
                }
                if prev.contains(n) {
                    let i = choose|i: int| 0 <= i < fs.take(k as int).len() && attributed(ds, without_dot_slash(#[trigger] fs.take(k as int)[i]), n);
                    assert(now[i] == fs.take(k as int)[i]);
                }
                if here.contains(n) {
                    let jj = choose|jj: int| 0 <= jj < ds.len() && #[trigger] ds[jj].0 == n && owns(ds[jj].1, file@) && ds[jj].1.len() == best_len(ds, file@);
                    assert(now[k as int] == fs[k as int]);
                    assert(attributed(ds, without_dot_slash(now[k as int]), n));
                }
            }
            assert(names.deep_view().to_set() =~= path_names(now, ds));
        }
        k = k + 1;
    }
    assert(fs.take(fs.len() as int) == fs);
    assert forall|j: int| 0 <= j < names@.len() implies (#[trigger] names.deep_view()[j]).len() > 0 by {
        assert(names.deep_view().to_set().contains(names.deep_view()[j]));
    }
    let mut out: Vec<CommitContribution> = Vec::new();
    let mut i: usize = 0;
    while i < names.len()
        invariant
            level != BumpLevel::Unchanged,
            i <= names@.len(),
            out@.len() == i,
            forall|j: int| 0 <= j < names@.len() ==> (#[trigger] names.deep_view()[j]).len() > 0,
            forall|j: int| 0 <= j < i ==> (#[trigger] out@[j])@ == (names.deep_view()[j], level, summary@),
        decreases names@.len() - i,
    {
        assert(names.deep_view()[i as int] == names@[i as int]@);
        let c = CommitContribution::new(string_of(&names[i]), level, summary.to_owned());
        out.push(c.unwrap());
        i = i + 1;
    }
    assert(contributions_view(out@).map_values(|c: ContributionView| c.0) =~= names.deep_view());
    out
}

/// A conventional commit, as far as this library reads one: its type, whether
/// it breaks, its scope, and its description.
pub struct ConventionalCommit {
    pub kind: String,
    pub breaking: bool,
    pub scope: Option<String>,
    pub description: String,
}

/// What `git_conventional::Commit::parse` makes of a message: `None` when the
/// message is not a conventional commit, else its type, breaking flag (`!` or
/// a `BREAKING CHANGE` footer), scope and description.
pub uninterp spec fn conventional_parse(message: Seq<char>) -> Option<(Seq<char>, bool, Option<Seq<char>>, Seq<char>)>;

/// Whether `git_conventional` compares a commit type equal to `feat`, which it
/// does case-insensitively.
pub uninterp spec fn feat_type(kind: Seq<char>) -> bool;

/// An optional string as an optional character run.
pub open spec fn opt_text(o: Option<String>) -> Option<Seq<char>> {
    match o {
        Some(s) => Some(s@),
        None => None,
    }
}

/// Parses `message` with `git_conventional::Commit::parse`. The contract
/// names the parse result and states nothing of the Conventional Commits
/// grammar itself.
#[verifier::external_body]
fn parse_conventional(message: &str) -> (r: Option<ConventionalCommit>)
    ensures
        match conventional_parse(message@) {
            None => r is None,
            Some((k, b, sc, d)) => r matches Some(c) && c.kind@ == k && c.breaking == b && opt_text(c.scope) == sc
                && c.description@ == d,
        },
{
    git_conventional::Commit::parse(message).ok().map(|c| ConventionalCommit {
        kind: c.type_().as_str().to_owned(),
        breaking: c.breaking(),
        scope: c.scope().map(|scope| scope.as_str().to_owned()),
        description: c.description().to_owned(),
    })
}

/// Whether `git_conventional::Type` equality puts `kind` equal to
/// `Type::FEAT`; the contract names the answer.
#[verifier::external_body]
fn is_feat(kind: &str) -> (b: bool)
    ensures
        b == feat_type(kind@),
{
    git_conventional::Type::new_unchecked(kind) == git_conventional::Type::FEAT
}

/// The level a commit asks for: breaking is major, `feat` minor, else patch.
pub open spec fn level_for(kind: Seq<char>, breaking: bool) -> BumpLevel {
    if breaking {
        BumpLevel::Major
    } else if feat_type(kind) {
        BumpLevel::Minor
    } else {
        BumpLevel::Patch
    }
}

/// The level a commit asks for: breaking is major, `feat` minor, else patch.
pub fn bump_level_for(commit: &ConventionalCommit) -> (l: BumpLevel)
    ensures
        l == level_for(commit.kind@, commit.breaking),
{
    if commit.breaking {
        return BumpLevel::Major;
    }
    if is_feat(commit.kind.as_str()) {
        BumpLevel::Minor
    } else {
        BumpLevel::Patch
    }
}

/// The first line of a message, trimmed.
pub open spec fn first_line_trimmed(message: Seq<char>) -> Seq<char> {
    if lines(message).len() > 0 {
        trim(lines(message)[0])
    } else {
        Seq::empty()
    }
}

fn first_line(message: &str) -> (out: String)
    ensures
        out@ == first_line_trimmed(message@),
{
    let m = chars_of(message);
    let ls = lines_of(&m);
    if ls.len() > 0 {
        string_of(&trimmed(&ls[0]))
    } else {
        String::new()
    }
}

/// Result of mapping one commit message before optional path fallback.
#[derive(Debug)]
pub enum MessageIntent {
    Contributions(Vec<CommitContribution>),
    /// No usable scope (or non-conventional): the caller maps paths at this level.
    PathFallback { level: BumpLevel, summary: String },
}

impl MessageIntent {
    fn path_fallback(level: BumpLevel, summary: String) -> (m: MessageIntent)
        ensures
            m matches MessageIntent::PathFallback { level: l, summary: s } && s == summary && l == (
            if level != BumpLevel::Unchanged {
                level
            } else {
                BumpLevel::Patch
            }),
    {
        MessageIntent::PathFallback {
            level: if level.is_release() {
                level
            } else {
                BumpLevel::Patch
            },
            summary,
        }
    }
}

/// A parsed commit as the contracts read it: type, breaking, scope,
/// description.
pub open spec fn commit_view(c: ConventionalCommit) -> (Seq<char>, bool, Option<Seq<char>>, Seq<char>) {
    (c.kind@, c.breaking, opt_text(c.scope), c.description@)
}

/// An optional parsed commit as the contracts read it.
pub open spec fn parsed_view(c: Option<ConventionalCommit>) -> Option<(Seq<char>, bool, Option<Seq<char>>, Seq<char>)> {
    match c {
        Some(x) => Some(commit_view(x)),
        None => None,
    }
}

/// What a message comes to once read, as `(attributed, level, summary,
/// package)`: a message that is not a conventional commit falls back to
/// paths at patch with its first line; a scope naming one package is
/// attributed to it; a missing or unknown scope falls back to paths at the
/// commit's level; a scope naming more than one package is refused.
pub open spec fn parsed_intent(
    message: Seq<char>,
    parsed: Option<(Seq<char>, bool, Option<Seq<char>>, Seq<char>)>,
    ps: Seq<Package>,
) -> Result<(bool, BumpLevel, Seq<char>, Seq<char>), Seq<char>> {
    match parsed {
        None => Ok((false, BumpLevel::Patch, first_line_trimmed(message), Seq::empty())),
        Some((k, b, sc, d)) => {
            let l = level_for(k, b);
            match sc {
                None => Ok((false, l, d, Seq::empty())),
                Some(scope) => match resolution(ps, scope) {
                    Ok(i) => if ps[i].id.name@.len() > 0 {
                        Ok((true, l, d, ps[i].id.name@))
                    } else {
                        Ok((false, BumpLevel::Patch, d, Seq::empty()))
                    },
                    Err(UnknownReason::Missing) => Ok((false, l, d, Seq::empty())),
                    Err(UnknownReason::Ambiguous) => Err(
                        "commit scope `"@ + scope + "` matches more than one workspace package"@,
                    ),
                },
            }
        },
    }
}

/// What a message comes to: [`parsed_intent`] of the message as
/// `git_conventional` reads it, trimmed.
pub open spec fn expected_intent(message: Seq<char>, ps: Seq<Package>) -> Result<(bool, BumpLevel, Seq<char>, Seq<char>), Seq<char>> {
    parsed_intent(message, conventional_parse(trim(message)), ps)
}

/// What `message`, read as `parsed` (`None` when it is not a conventional
/// commit), asks of `workspace`.
pub fn intent_of_commit(message: &str, parsed: Option<ConventionalCommit>, workspace: &Workspace) -> (r: Result<MessageIntent, String>)
    ensures
        match r {
            Ok(MessageIntent::Contributions(cs)) => cs@.len() == 1 && parsed_intent(message@, parsed_view(parsed), workspace.packages@)
                == Ok::<(bool, BumpLevel, Seq<char>, Seq<char>), Seq<char>>((true, cs@[0]@.1, cs@[0]@.2, cs@[0]@.0)),
            Ok(MessageIntent::PathFallback { level, summary }) => parsed_intent(message@, parsed_view(parsed), workspace.packages@)
                == Ok::<(bool, BumpLevel, Seq<char>, Seq<char>), Seq<char>>((false, level, summary@, Seq::empty())),
            Err(m) => parsed_intent(message@, parsed_view(parsed), workspace.packages@) == Err::<(bool, BumpLevel, Seq<char>, Seq<char>), Seq<char>>(m@),
        },
{
    let commit = match parsed {
        Some(c) => c,
        None => return Ok(MessageIntent::path_fallback(BumpLevel::Patch, first_line(message))),
    };
    let level = bump_level_for(&commit);
    let summary = commit.description.clone();
    let scope = match &commit.scope {
        Some(scope) => scope,
        None => return Ok(MessageIntent::path_fallback(level, summary)),
    };
    match workspace.resolve(scope.as_str()) {
        Ok(id) => {
            match CommitContribution::new(id.name, level, summary) {
                Some(one) => {
                    let mut cs: Vec<CommitContribution> = Vec::new();
                    cs.push(one);
                    Ok(MessageIntent::Contributions(cs))
                },
                None => Ok(MessageIntent::path_fallback(BumpLevel::Patch, commit.description.clone())),
            }
        },
        Err(UnknownReason::Missing) => Ok(MessageIntent::path_fallback(level, summary)),
        Err(UnknownReason::Ambiguous) => {
            let mut out = chars_of("commit scope `");
            push_str(&mut out, scope.as_str());
            push_str(&mut out, "` matches more than one workspace package");
            Err(string_of(&out))
        },
    }
}

/// Ambiguous scopes refuse. Missing or unknown scopes and non-conventional
/// messages become a path fallback so the caller can attribute by path.
pub fn message_intent(message: &str, workspace: &Workspace) -> (r: Result<MessageIntent, String>)
    ensures
        match r {
            Ok(MessageIntent::Contributions(cs)) => cs@.len() == 1 && expected_intent(message@, workspace.packages@)
                == Ok::<(bool, BumpLevel, Seq<char>, Seq<char>), Seq<char>>((true, cs@[0]@.1, cs@[0]@.2, cs@[0]@.0)),
            Ok(MessageIntent::PathFallback { level, summary }) => expected_intent(message@, workspace.packages@)
                == Ok::<(bool, BumpLevel, Seq<char>, Seq<char>), Seq<char>>((false, level, summary@, Seq::empty())),
            Err(m) => expected_intent(message@, workspace.packages@) == Err::<(bool, BumpLevel, Seq<char>, Seq<char>), Seq<char>>(m@),
        },
{
    let m = chars_of(message);
    let t = string_of(&trimmed(&m));
    intent_of_commit(message, parse_conventional(t.as_str()), workspace)
}

/// The contributions a message names directly; a path fallback yields none.
pub fn contributions_from_message(message: &str, workspace: &Workspace) -> (r: Result<Vec<CommitContribution>, String>)
    ensures
        match r {
            Ok(cs) => match expected_intent(message@, workspace.packages@) {
                Ok((true, l, s, n)) => cs@.len() == 1 && cs@[0]@ == (n, l, s),
                Ok((false, _, _, _)) => cs@.len() == 0,
                Err(_) => false,
            },
            Err(m) => expected_intent(message@, workspace.packages@) == Err::<(bool, BumpLevel, Seq<char>, Seq<char>), Seq<char>>(m@),
        },
{
    match message_intent(message, workspace)? {
        MessageIntent::Contributions(c) => Ok(c),
        MessageIntent::PathFallback { .. } => Ok(Vec::new()),
    }
}

/// The refusal for an aggregated package name that does not resolve.
pub open spec fn unresolved_message(name: Seq<char>, why: UnknownReason) -> Seq<char> {
    match why {
        UnknownReason::Missing => "commit-derived package `"@ + name + "` is not in the workspace"@,
        UnknownReason::Ambiguous => "commit-derived package `"@ + name
            + "` matches more than one workspace package"@,
    }
}

/// Planner input from aggregated commit intent: each entry's package
/// resolved in `workspace`, or the first that does not resolve refused.
pub fn to_bump_file(intent: &AggregatedIntent, workspace: &Workspace, id: String) -> (r: Result<BumpFile, String>)
    ensures
        match r {
            Ok(file) => file.id == id && file.note@ == intent@.1 && file.entries@.len() == intent@.0.len()
                && forall|i: int| 0 <= i < intent@.0.len() ==> {
                    &&& resolution(workspace.packages@, intent@.0[i].0) matches Ok(k)
                    &&& id_view(#[trigger] file.entries@[i].0) == id_view(workspace.packages@[k].id)
                    &&& file.entries@[i].1 == intent@.0[i].1
                },
            Err(m) => exists|i: int| {
                &&& 0 <= i < intent@.0.len()
                &&& forall|j: int| 0 <= j < i ==> #[trigger] resolution(workspace.packages@, intent@.0[j].0) is Ok
                &&& #[trigger] resolution(workspace.packages@, intent@.0[i].0) matches Err(why)
                &&& m@ == unresolved_message(intent@.0[i].0, why)
            },
        },
{
    let entries_in = intent.entries();
    let ghost es = intent@.0;
    assert(entries_in@.len() == es.len());
    let mut entries: Vec<(PackageId, BumpLevel)> = Vec::new();
    let mut i: usize = 0;
    while i < entries_in.len()
        invariant
            es == intent@.0,
            es == entries_in@.map_values(|x: (String, BumpLevel)| (x.0@, x.1)),
            i <= es.len(),
            entries@.len() == i,
            forall|j: int| 0 <= j < i ==> {
                &&& #[trigger] resolution(workspace.packages@, es[j].0) matches Ok(k)
                &&& id_view(entries@[j].0) == id_view(workspace.packages@[k].id)
                &&& entries@[j].1 == es[j].1
            },
        decreases es.len() - i,
    {
        let (name, level) = &entries_in[i];
        assert(es[i as int] == (name@, *level));
        match workspace.resolve(name.as_str()) {
            Ok(package_id) => {
                entries.push((package_id, *level));
            },
            Err(why) => {
                let mut out = chars_of("commit-derived package `");
                push_str(&mut out, name.as_str());
                match why {
                    UnknownReason::Missing => push_str(&mut out, "` is not in the workspace"),
                    UnknownReason::Ambiguous => push_str(&mut out, "` matches more than one workspace package"),
                }
                proof {
                    assert(intent@.0[i as int].0 == name@);
                    assert(forall|j: int| 0 <= j < i ==> #[trigger] resolution(workspace.packages@, intent@.0[j].0) is Ok);
                    assert(resolution(workspace.packages@, intent@.0[i as int].0) matches Err(w) && out@ == unresolved_message(intent@.0[i as int].0, w));
                }
                return Err(string_of(&out));
            },
        }
        i = i + 1;
    }
    Ok(BumpFile { id, entries, note: intent.note().to_owned() })
}

/// The names of the entries `.changeset/` lists that count as change files:
/// bump-file names that are regular files, in listing order.
pub open spec fn counted_change_files(entries: Seq<(Seq<char>, bool, bool)>) -> Seq<Seq<char>>
    decreases entries.len(),
{
    if entries.len() == 0 {
        Seq::empty()
    } else {
        let rest = counted_change_files(entries.drop_last());
        let e = entries.last();
        if e.1 && e.2 {
            rest.push(e.0)
        } else {
            rest
        }
    }
}

/// The change files of a `.changeset/` listing, each entry given as its
/// name, whether the name is a bump file's, and whether it is a regular
/// file: those that count, in name order.
pub fn change_file_names(entries: &Vec<(String, bool, bool)>) -> (names: Vec<String>)
    ensures
        crate::write_set::sorted_le(names.deep_view()),
        names.deep_view().to_multiset()
            == counted_change_files(entries@.map_values(|e: (String, bool, bool)| (e.0@, e.1, e.2))).to_multiset(),
{
    let ghost ev = entries@.map_values(|e: (String, bool, bool)| (e.0@, e.1, e.2));
    let mut names: Vec<String> = Vec::new();
    let mut i: usize = 0;
    while i < entries.len()
        invariant
            ev == entries@.map_values(|e: (String, bool, bool)| (e.0@, e.1, e.2)),
            i <= ev.len(),
            names.deep_view() == counted_change_files(ev.take(i as int)),
        decreases ev.len() - i,
    {
        assert(ev.take(i + 1).drop_last() =~= ev.take(i as int));
        let (name, is_bump, is_file) = &entries[i];
        if *is_bump && *is_file {
            names.push(name.clone());
        }
        proof {
            assert(names.deep_view() =~= counted_change_files(ev.take(i + 1)));
        }
        i = i + 1;
    }
    assert(ev.take(ev.len() as int) =~= ev);
    crate::write_set::sort_strings(&mut names);
    names
}

} // verus!
