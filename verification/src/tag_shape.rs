//! What a repository's existing tags say about the tag format to write.
//!
//! Each tag is split into a workspace package name, a separator, an optional
//! `v`, and a version; every template such a split implies is a candidate,
//! and a shape is derived only when one candidate explains every tag and it
//! is a shape the tag reader parses back. Nothing here guesses: a history
//! that derives nothing says why, and offers the shapes it could adopt.
use vstd::prelude::*;

use crate::config::PrivatePackages;
use crate::order::{insert_sorted, lemma_sorted_unique, member, strictly_sorted};
use crate::plan::{Package, Workspace};
use crate::text::{
    chars_of, decimal, decimal_of, push_all, push_str, starts_with, string_of, tick_list,
    ticked_list, Text,
};
use crate::versions::{is_version, parse_version};

verus! {

broadcast use crate::views::lemma_text_deep_view;

/// The placeholder a template renders the package name into.
pub open spec fn package_slot() -> Seq<char> {
    seq!['{', '{', ' ', 'p', 'a', 'c', 'k', 'a', 'g', 'e', ' ', '}', '}']
}

/// The placeholder a template renders the version into.
pub open spec fn version_slot() -> Seq<char> {
    seq!['{', '{', ' ', 'v', 'e', 'r', 's', 'i', 'o', 'n', ' ', '}', '}']
}

/// Whether `char::is_alphanumeric` holds of `c` (Unicode letters and numbers).
pub uninterp spec fn unicode_alphanumeric(c: char) -> bool;

/// `char::is_alphanumeric`; the contract names its answer.
#[verifier::external_body]
fn alphanumeric(c: char) -> (b: bool)
    ensures
        b == unicode_alphanumeric(c),
{
    c.is_alphanumeric()
}

/// Whether `s` parses as an exact version.
fn version_ok(s: &[char]) -> (b: bool)
    ensures
        b == is_version(s@),
{
    match parse_version(string_of(s).as_str()) {
        Ok(_) => true,
        Err(_) => false,
    }
}

// ---------------------------------------------------------------------------
// The shapes the tag reader parses back
// ---------------------------------------------------------------------------

/// One of the shapes the tag reader parses back: `@`, `/v` or `-v` after the
/// package name, or a bare `v` before the version.
#[derive(Clone, Copy, Debug, PartialEq, Eq, Structural)]
pub enum ReadableTemplate {
    At,
    SlashV,
    DashV,
    Bare,
}

/// The template text of a readable shape.
pub open spec fn shape_text(t: ReadableTemplate) -> Seq<char> {
    match t {
        ReadableTemplate::At => package_slot() + seq!['@'] + version_slot(),
        ReadableTemplate::SlashV => package_slot() + seq!['/', 'v'] + version_slot(),
        ReadableTemplate::DashV => package_slot() + seq!['-', 'v'] + version_slot(),
        ReadableTemplate::Bare => seq!['v'] + version_slot(),
    }
}

/// The readable shapes, in the order they are offered.
pub open spec fn readable() -> Seq<ReadableTemplate> {
    seq![ReadableTemplate::At, ReadableTemplate::SlashV, ReadableTemplate::DashV, ReadableTemplate::Bare]
}

/// The readable shape whose text is `template`, if any.
pub open spec fn readable_named(template: Seq<char>) -> Option<ReadableTemplate> {
    if template == shape_text(ReadableTemplate::At) {
        Some(ReadableTemplate::At)
    } else if template == shape_text(ReadableTemplate::SlashV) {
        Some(ReadableTemplate::SlashV)
    } else if template == shape_text(ReadableTemplate::DashV) {
        Some(ReadableTemplate::DashV)
    } else if template == shape_text(ReadableTemplate::Bare) {
        Some(ReadableTemplate::Bare)
    } else {
        None
    }
}

impl ReadableTemplate {
    /// The readable shape spelled `template`, if there is one.
    pub fn lookup(template: &[char]) -> (r: Option<ReadableTemplate>)
        ensures
            r == readable_named(template@),
    {
        let shapes = [ReadableTemplate::At, ReadableTemplate::SlashV, ReadableTemplate::DashV, ReadableTemplate::Bare];
        let mut i: usize = 0;
        while i < 4
            invariant
                i <= 4,
                shapes@ == readable(),
                forall|k: int| 0 <= k < i ==> shape_text(#[trigger] readable()[k]) != template@,
            decreases 4 - i,
        {
            let t = shapes[i].text();
            if crate::text::same(&t, template) {
                proof {
                    if i > 0 {
                        assert(shape_text(readable()[0]) != template@);
                    }
                    if i > 1 {
                        assert(shape_text(readable()[1]) != template@);
                    }
                    if i > 2 {
                        assert(shape_text(readable()[2]) != template@);
                    }
                }
                return Some(shapes[i]);
            }
            i = i + 1;
        }
        assert(shape_text(readable()[0]) != template@);
        assert(shape_text(readable()[1]) != template@);
        assert(shape_text(readable()[2]) != template@);
        assert(shape_text(readable()[3]) != template@);
        None
    }

    /// The template text.
    pub fn as_str(self) -> (s: &'static str)
        ensures
            s@ == shape_text(self),
    {
        proof {
            reveal_strlit("{{ package }}@{{ version }}");
            reveal_strlit("{{ package }}/v{{ version }}");
            reveal_strlit("{{ package }}-v{{ version }}");
            reveal_strlit("v{{ version }}");
        }
        match self {
            ReadableTemplate::At => {
                assert("{{ package }}@{{ version }}"@ =~= shape_text(self));
                "{{ package }}@{{ version }}"
            },
            ReadableTemplate::SlashV => {
                assert("{{ package }}/v{{ version }}"@ =~= shape_text(self));
                "{{ package }}/v{{ version }}"
            },
            ReadableTemplate::DashV => {
                assert("{{ package }}-v{{ version }}"@ =~= shape_text(self));
                "{{ package }}-v{{ version }}"
            },
            ReadableTemplate::Bare => {
                assert("v{{ version }}"@ =~= shape_text(self));
                "v{{ version }}"
            },
        }
    }

    /// The template text, as characters.
    pub fn text(self) -> (t: Text)
        ensures
            t@ == shape_text(self),
    {
        chars_of(self.as_str())
    }

    /// Whether this is the shape that names no package.
    pub fn is_bare(self) -> (b: bool)
        ensures
            b == (self == ReadableTemplate::Bare),
    {
        self == ReadableTemplate::Bare
    }
}

/// The shapes a repository with `tag_managed` tag-managed packages could
/// adopt: the bare shape only while at most one package could own a tag.
pub open spec fn offerable_shapes(tag_managed: nat) -> Seq<ReadableTemplate> {
    if tag_managed <= 1 {
        readable()
    } else {
        readable().take(3)
    }
}

/// The readable shapes this repository could adopt.
pub fn offerable(tag_managed: usize) -> (v: Vec<ReadableTemplate>)
    ensures
        v@ == offerable_shapes(tag_managed as nat),
{
    let mut v: Vec<ReadableTemplate> = Vec::new();
    v.push(ReadableTemplate::At);
    v.push(ReadableTemplate::SlashV);
    v.push(ReadableTemplate::DashV);
    if tag_managed <= 1 {
        v.push(ReadableTemplate::Bare);
    }
    assert(v@ =~= offerable_shapes(tag_managed as nat));
    v
}

/// The tag template `release` writes by default: bare for a workspace of at
/// most one package, package-prefixed otherwise.
pub fn default_tag_template(packages: usize) -> (t: &'static str)
    ensures
        t@ == shape_text(if packages <= 1 {
            ReadableTemplate::Bare
        } else {
            ReadableTemplate::SlashV
        }),
{
    if packages <= 1 {
        ReadableTemplate::Bare.as_str()
    } else {
        ReadableTemplate::SlashV.as_str()
    }
}

// ---------------------------------------------------------------------------
// Tag-managed packages
// ---------------------------------------------------------------------------

/// How many of `ps` are tag-managed: publishable, or opted in by `tag`.
pub open spec fn managed_count(ps: Seq<Package>, tag: bool) -> nat
    decreases ps.len(),
{
    if ps.len() == 0 {
        0
    } else {
        managed_count(ps.drop_last(), tag) + (if ps.last().publishable || tag {
            1nat
        } else {
            0nat
        })
    }
}

/// How many workspace members could own a tag; none without a workspace.
pub open spec fn tag_managed_of(workspace: Option<&Workspace>, private_packages: (bool, bool)) -> nat {
    match workspace {
        Some(w) => managed_count(w.packages@, private_packages.1),
        None => 0,
    }
}

/// How many workspace members are tag-managed when every member is selected.
pub fn tag_managed_count(workspace: Option<&Workspace>, private_packages: PrivatePackages) -> (n: usize)
    ensures
        n as nat == tag_managed_of(workspace, private_packages@),
{
    match workspace {
        None => 0,
        Some(w) => {
            let ghost ps = w.packages@;
            let tag = private_packages.tag();
            let mut n: usize = 0;
            let mut i: usize = 0;
            assert(ps.take(0) =~= Seq::<Package>::empty());
            while i < w.packages.len()
                invariant
                    ps == w.packages@,
                    tag == private_packages@.1,
                    i <= ps.len(),
                    n <= i,
                    n as nat == managed_count(ps.take(i as int), tag),
                decreases ps.len() - i,
            {
                assert(ps.take(i + 1).drop_last() == ps.take(i as int));
                if w.packages[i].publishable || tag {
                    n = n + 1;
                }
                i = i + 1;
            }
            assert(ps.take(ps.len() as int) == ps);
            n
        },
    }
}

// ---------------------------------------------------------------------------
// Candidates
// ---------------------------------------------------------------------------

/// The package-less template a tag implies: `v` and a version, or a version
/// alone.
pub open spec fn package_less(tag: Seq<char>) -> Option<Seq<char>> {
    if tag.len() > 0 && tag[0] == 'v' && is_version(tag.drop_first()) {
        Some(seq!['v'] + version_slot())
    } else if is_version(tag) {
        Some(version_slot())
    } else {
        None
    }
}

/// A separator holds no alphanumerics.
pub open spec fn clean_separator(sep: Seq<char>) -> bool {
    forall|k: int| 0 <= k < sep.len() ==> !unicode_alphanumeric(#[trigger] sep[k])
}

/// Whether splitting `rest` (what follows a package name) after `j`
/// characters yields `template`: a clean, non-empty separator, then `v` and
/// a version or a version alone.
pub open spec fn splits_as(rest: Seq<char>, j: int, template: Seq<char>) -> bool {
    &&& 1 <= j < rest.len()
    &&& clean_separator(rest.take(j))
    &&& {
        ||| (rest[j] == 'v' && is_version(rest.skip(j + 1)) && template == package_slot() + rest.take(j) + seq!['v'] + version_slot())
        ||| (is_version(rest.skip(j)) && template == package_slot() + rest.take(j) + version_slot())
    }
}

/// Every template a split of `rest` at fewer than `bound` characters yields.
pub open spec fn prefixed_below(rest: Seq<char>, bound: int) -> Set<Seq<char>> {
    Set::new(|t: Seq<char>| exists|j: int| j < bound && #[trigger] splits_as(rest, j, t))
}

/// Every template that renders `tag`, given the workspace's package `names`.
pub open spec fn candidates_of(tag: Seq<char>, names: Seq<Seq<char>>) -> Set<Seq<char>> {
    Set::new(|t: Seq<char>|
        package_less(tag) == Some(t) || exists|i: int|
            0 <= i < names.len() && starts_with(tag, #[trigger] names[i])
                && prefixed_below(tag.skip(names[i].len() as int), tag.len() as int).contains(t))
}

/// Every template the splits of `rest` yield, added to the sorted `found`.
fn add_prefixed(rest: &[char], found: &mut Vec<Text>)
    requires
        strictly_sorted(old(found).deep_view()),
    ensures
        strictly_sorted(final(found).deep_view()),
        final(found).deep_view().to_set() == old(found).deep_view().to_set().union(prefixed_below(rest@, rest@.len() as int)),
{
    let ghost start = found.deep_view().to_set();
    let n = rest.len();
    let mut j: usize = 1;
    let mut clean = n > 0 && !alphanumeric(rest[0]);
    assert(prefixed_below(rest@, 1) =~= Set::empty());
    assert(start.union(Set::empty()) =~= start);
    proof {
        if n > 0 {
            assert(clean == clean_separator(rest@.take(1))) by {
                assert(rest@.take(1)[0] == rest@[0]);
            }
        }
    }
    while j < n
        invariant
            start == old(found).deep_view().to_set(),
            n == rest@.len(),
            1 <= j <= n || n == 0,
            n > 0 ==> clean == clean_separator(rest@.take(j as int)),
            strictly_sorted(found.deep_view()),
            found.deep_view().to_set() == start.union(prefixed_below(rest@, j as int)),
        decreases n - j,
    {
        if !clean {
            proof {
                assert forall|t: Seq<char>| prefixed_below(rest@, n as int).contains(t) implies prefixed_below(rest@, j as int).contains(t) by {
                    let jj = choose|jj: int| jj < n && #[trigger] splits_as(rest@, jj, t);
                    if jj >= j {
                        let k = choose|k: int| 0 <= k < j && unicode_alphanumeric(#[trigger] rest@.take(j as int)[k]);
                        assert(rest@.take(jj)[k] == rest@.take(j as int)[k]);
                    }
                }
                assert(prefixed_below(rest@, n as int) =~= prefixed_below(rest@, j as int));
            }
            return;
        }
        let ghost before = found.deep_view().to_set();
        let sep = crate::text::slice_of(rest, 0, j);
        let tail = crate::text::slice_of(rest, j, n);
        assert(sep@ =~= rest@.take(j as int));
        assert(tail@ =~= rest@.skip(j as int));
        let ghost mut added: Set<Seq<char>> = Set::empty();
        if rest[j] == 'v' {
            let after_v = crate::text::slice_of(rest, j + 1, n);
            assert(after_v@ =~= rest@.skip(j + 1));
            if version_ok(&after_v) {
                let mut t = chars_of("{{ package }}");
                push_all(&mut t, &sep);
                push_str(&mut t, "v{{ version }}");
                proof {
                    reveal_strlit("{{ package }}");
                    reveal_strlit("v{{ version }}");
                    assert(t@ =~= package_slot() + rest@.take(j as int) + seq!['v'] + version_slot());
                    added = added.insert(t@);
                }
                insert_sorted(found, &t);
            }
        }
        if version_ok(&tail) {
            let mut t = chars_of("{{ package }}");
            push_all(&mut t, &sep);
            push_str(&mut t, "{{ version }}");
            proof {
                reveal_strlit("{{ package }}");
                reveal_strlit("{{ version }}");
                assert(t@ =~= package_slot() + rest@.take(j as int) + version_slot());
                added = added.insert(t@);
            }
            insert_sorted(found, &t);
        }
        proof {
            assert(found.deep_view().to_set() =~= before.union(added));
            assert forall|t: Seq<char>| added.contains(t) <==> splits_as(rest@, j as int, t) by {}
            assert(prefixed_below(rest@, j + 1) =~= prefixed_below(rest@, j as int).union(added)) by {
                assert forall|t: Seq<char>| prefixed_below(rest@, j + 1).contains(t) implies prefixed_below(rest@, j as int).union(added).contains(t) by {
                    let jj = choose|jj: int| jj < j + 1 && #[trigger] splits_as(rest@, jj, t);
                    if jj < j {
                        assert(prefixed_below(rest@, j as int).contains(t));
                    } else {
                        assert(added.contains(t));
                    }
                }
                assert forall|t: Seq<char>| prefixed_below(rest@, j as int).union(added).contains(t) implies prefixed_below(rest@, j + 1).contains(t) by {
                    if added.contains(t) {
                        assert(splits_as(rest@, j as int, t));
                    } else {
                        let jj = choose|jj: int| jj < j && #[trigger] splits_as(rest@, jj, t);
                        assert(splits_as(rest@, jj, t));
                    }
                }
            }
        }
        {
            let a = alphanumeric(rest[j]);
            proof {
                assert(clean_separator(rest@.take(j + 1)) == (clean && !a)) by {
                    assert forall|k: int| 0 <= k < j implies rest@.take(j + 1)[k] == #[trigger] rest@.take(j as int)[k] by {}
                    assert(rest@.take(j + 1)[j as int] == rest@[j as int]);
                    if clean && !a {
                        assert forall|k: int| 0 <= k < j + 1 implies !unicode_alphanumeric(#[trigger] rest@.take(j + 1)[k]) by {
                            if k < j {
                                assert(rest@.take(j + 1)[k] == rest@.take(j as int)[k]);
                            }
                        }
                    }
                    if !clean {
                        let k = choose|k: int| 0 <= k < j && unicode_alphanumeric(#[trigger] rest@.take(j as int)[k]);
                        assert(rest@.take(j + 1)[k] == rest@.take(j as int)[k]);
                    }
                }
            }
            clean = clean && !a;
        }
        j = j + 1;
    }
    proof {
        if n <= 1 {
            assert(prefixed_below(rest@, n as int) =~= prefixed_below(rest@, j as int)) by {
                assert forall|t: Seq<char>| prefixed_below(rest@, n as int).contains(t) implies false by {
                    let jj = choose|jj: int| jj < n && #[trigger] splits_as(rest@, jj, t);
                }
                assert forall|t: Seq<char>| prefixed_below(rest@, j as int).contains(t) implies false by {
                    let jj = choose|jj: int| jj < j && #[trigger] splits_as(rest@, jj, t);
                }
            }
        }
    }
}

/// Every template that renders `tag`, sorted.
fn candidates(tag: &[char], names: &Vec<Text>) -> (out: Vec<Text>)
    ensures
        strictly_sorted(out.deep_view()),
        out.deep_view().to_set() == candidates_of(tag@, names.deep_view()),
{
    let ghost ns = names.deep_view();
    let mut found: Vec<Text> = Vec::new();
    let ghost mut bare: Set<Seq<char>> = Set::empty();
    if tag.len() > 0 && tag[0] == 'v' {
        let rest = crate::text::slice_of(tag, 1, tag.len());
        assert(rest@ =~= tag@.drop_first());
        if version_ok(&rest) {
            let t = chars_of("v{{ version }}");
            proof {
                reveal_strlit("v{{ version }}");
                assert(t@ =~= seq!['v'] + version_slot());
                bare = bare.insert(t@);
            }
            found.push(t);
        }
    }
    if found.len() == 0 && version_ok(tag) {
        let t = chars_of("{{ version }}");
        proof {
            reveal_strlit("{{ version }}");
            assert(t@ =~= version_slot());
            bare = bare.insert(t@);
        }
        found.push(t);
    }
    proof {
        assert(strictly_sorted(found.deep_view()));
        assert forall|t: Seq<char>| bare.contains(t) <==> package_less(tag@) == Some(t) by {}
        assert(found.deep_view().to_set() =~= bare) by {
            if found@.len() > 0 {
                assert(found.deep_view()[0] == found@[0]@);
            }
        }
    }
    let mut i: usize = 0;
    while i < names.len()
        invariant
            ns == names.deep_view(),
            i <= ns.len(),
            strictly_sorted(found.deep_view()),
            forall|t: Seq<char>| bare.contains(t) <==> package_less(tag@) == Some(t),
            found.deep_view().to_set() == bare.union(Set::new(|t: Seq<char>| exists|k: int|
                0 <= k < i && starts_with(tag@, #[trigger] ns[k])
                    && prefixed_below(tag@.skip(ns[k].len() as int), tag@.len() as int).contains(t))),
        decreases ns.len() - i,
    {
        let ghost before = found.deep_view().to_set();
        let ghost mut here: Set<Seq<char>> = Set::empty();
        if crate::text::begins(tag, &names[i]) {
            let rest = crate::text::slice_of(tag, names[i].len(), tag.len());
            assert(rest@ =~= tag@.skip(ns[i as int].len() as int));
            add_prefixed(&rest, &mut found);
            proof {
                here = prefixed_below(tag@.skip(ns[i as int].len() as int), (tag@.len() - ns[i as int].len()) as int);
                assert(prefixed_below(tag@.skip(ns[i as int].len() as int), (tag@.len() - ns[i as int].len()) as int)
                    =~= prefixed_below(tag@.skip(ns[i as int].len() as int), tag@.len() as int)) by {
                    let r = tag@.skip(ns[i as int].len() as int);
                    assert forall|t: Seq<char>| prefixed_below(r, tag@.len() as int).contains(t) implies prefixed_below(r, r.len() as int).contains(t) by {
                        let jj = choose|jj: int| jj < tag@.len() && #[trigger] splits_as(r, jj, t);
                        assert(splits_as(r, jj, t));
                    }
                    assert forall|t: Seq<char>| prefixed_below(r, r.len() as int).contains(t) implies prefixed_below(r, tag@.len() as int).contains(t) by {
                        let jj = choose|jj: int| jj < r.len() && #[trigger] splits_as(r, jj, t);
                        assert(splits_as(r, jj, t));
                    }
                }
            }
        }
        proof {
            let prev = Set::new(|t: Seq<char>| exists|k: int|
                0 <= k < i && starts_with(tag@, #[trigger] ns[k])
                    && prefixed_below(tag@.skip(ns[k].len() as int), tag@.len() as int).contains(t));
            let next = Set::new(|t: Seq<char>| exists|k: int|
                0 <= k < i + 1 && starts_with(tag@, #[trigger] ns[k])
                    && prefixed_below(tag@.skip(ns[k].len() as int), tag@.len() as int).contains(t));
            assert(found.deep_view().to_set() =~= before.union(here));
            assert(next =~= prev.union(here)) by {
                assert forall|t: Seq<char>| next.contains(t) implies prev.union(here).contains(t) by {
                    let k = choose|k: int| 0 <= k < i + 1 && starts_with(tag@, #[trigger] ns[k])
                        && prefixed_below(tag@.skip(ns[k].len() as int), tag@.len() as int).contains(t);
                    if k < i {
                        assert(prev.contains(t));
                    }
                }
                assert forall|t: Seq<char>| prev.union(here).contains(t) implies next.contains(t) by {
                    if prev.contains(t) {
                        let k = choose|k: int| 0 <= k < i && starts_with(tag@, #[trigger] ns[k])
                            && prefixed_below(tag@.skip(ns[k].len() as int), tag@.len() as int).contains(t);
                        assert(0 <= k < i + 1 && starts_with(tag@, ns[k]));
                    } else {
                        assert(starts_with(tag@, ns[i as int]));
                    }
                }
            }
        }
        i = i + 1;
    }
    proof {
        assert(found.deep_view().to_set() =~= candidates_of(tag@, ns));
    }
    found
}

/// What sorted `a` and `b` share, sorted.
fn common(a: &Vec<Text>, b: &Vec<Text>) -> (out: Vec<Text>)
    ensures
        strictly_sorted(out.deep_view()),
        out.deep_view().to_set() == a.deep_view().to_set().intersect(b.deep_view().to_set()),
{
    let ghost av = a.deep_view();
    let mut out: Vec<Text> = Vec::new();
    let mut i: usize = 0;
    assert(out.deep_view().to_set() =~= av.take(0).to_set().intersect(b.deep_view().to_set()));
    while i < a.len()
        invariant
            av == a.deep_view(),
            i <= av.len(),
            strictly_sorted(out.deep_view()),
            out.deep_view().to_set() == av.take(i as int).to_set().intersect(b.deep_view().to_set()),
        decreases av.len() - i,
    {
        let ghost before = out.deep_view().to_set();
        assert(av.take(i + 1).to_set() =~= av.take(i as int).to_set().insert(av[i as int])) by {
            assert(av.take(i + 1) == av.take(i as int).push(av[i as int]));
            assert forall|y: Seq<char>| av.take(i + 1).to_set().contains(y) <==> av.take(i as int).to_set().insert(av[i as int]).contains(y) by {
                if av.take(i + 1).to_set().contains(y) {
                    let k = choose|k: int| 0 <= k < i + 1 && #[trigger] av.take(i + 1)[k] == y;
                    if k < i {
                        assert(av.take(i as int)[k] == y);
                    }
                }
                if av.take(i as int).to_set().contains(y) {
                    let k = choose|k: int| 0 <= k < i && #[trigger] av.take(i as int)[k] == y;
                    assert(av.take(i + 1)[k] == y);
                }
                if y == av[i as int] {
                    assert(av.take(i + 1)[i as int] == y);
                }
            }
        }
        if member(b, &a[i]) {
            insert_sorted(&mut out, &a[i]);
        }
        assert(out.deep_view().to_set() =~= av.take(i + 1).to_set().intersect(b.deep_view().to_set()));
        i = i + 1;
    }
    assert(av.take(av.len() as int) == av);
    out
}

// ---------------------------------------------------------------------------
// Derivation
// ---------------------------------------------------------------------------

/// What the existing tags settled, or why they settled nothing.
#[derive(Clone, Debug, PartialEq, Eq)]
pub enum TagShape {
    /// No tags: nothing to derive from.
    NoTags,
    /// The tags could not be read; never the same as no tags.
    Unread(String),
    /// Every tag renders from this readable template.
    Derived(ReadableTemplate),
    /// Tags exist and derive nothing: why, and what could be adopted.
    Undecided { why: String, offerable: Vec<ReadableTemplate> },
}

/// A derivation as the contracts see it.
pub enum ShapeView {
    NoTags,
    Unread(Seq<char>),
    Derived(ReadableTemplate),
    Undecided(Seq<char>, Seq<ReadableTemplate>),
}

impl View for TagShape {
    type V = ShapeView;

    open spec fn view(&self) -> ShapeView {
        match self {
            TagShape::NoTags => ShapeView::NoTags,
            TagShape::Unread(s) => ShapeView::Unread(s@),
            TagShape::Derived(t) => ShapeView::Derived(*t),
            TagShape::Undecided { why, offerable } => ShapeView::Undecided(why@, offerable@),
        }
    }
}

/// Why a tag derives nothing on its own.
pub open spec fn unexplained(tag: Seq<char>) -> Seq<char> {
    "no package name and version explain `"@ + tag + "`"@
}

/// Why two tags derive nothing together.
pub open spec fn disagreeing(first: Seq<char>, tag: Seq<char>) -> Seq<char> {
    "`"@ + first + "` and `"@ + tag + "` are not the same shape"@
}

/// The candidates every tag up to `k` agrees on, or why they agree on none.
pub open spec fn agreed_after(tags: Seq<Seq<char>>, names: Seq<Seq<char>>, k: nat) -> Result<Set<Seq<char>>, Seq<char>>
    decreases k,
{
    if k <= 1 {
        let c = candidates_of(tags[0], names);
        if c == Set::<Seq<char>>::empty() {
            Err(unexplained(tags[0]))
        } else {
            Ok(c)
        }
    } else {
        match agreed_after(tags, names, (k - 1) as nat) {
            Err(w) => Err(w),
            Ok(a) => {
                let f = candidates_of(tags[k - 1], names);
                if f == Set::<Seq<char>>::empty() {
                    Err(unexplained(tags[k - 1]))
                } else if a.intersect(f) == Set::<Seq<char>>::empty() {
                    Err(disagreeing(tags[0], tags[k - 1]))
                } else {
                    Ok(a.intersect(f))
                }
            },
        }
    }
}

/// The sorted listing of a set of templates.
pub open spec fn listing(a: Set<Seq<char>>) -> Seq<Seq<char>> {
    choose|s: Seq<Seq<char>>| strictly_sorted(s) && s.to_set() == a
}

/// The refusal for a bare shape in a workspace with `n` tag-managed packages.
pub open spec fn bare_refusal(n: nat) -> Seq<char> {
    "the existing tags are shaped `v{{ version }}`, which names no package; "@ + decimal(n)
        + " packages are tag-managed here, so a release cannot tell which one such a tag belongs to"@
}

/// What `tags` derive, given the workspace's package `names` and how many
/// packages are tag-managed.
pub open spec fn derivation(tags: Seq<Seq<char>>, names: Seq<Seq<char>>, managed: nat) -> ShapeView {
    if tags.len() == 0 {
        ShapeView::NoTags
    } else {
        match agreed_after(tags, names, tags.len()) {
            Err(why) => ShapeView::Undecided(why, offerable_shapes(managed)),
            Ok(a) => {
                let list = listing(a);
                if list.len() != 1 {
                    ShapeView::Undecided(
                        "the existing tags fit more than one shape ("@ + ticked_list(list) + ")"@,
                        offerable_shapes(managed),
                    )
                } else {
                    match readable_named(list[0]) {
                        Some(r) => if r == ReadableTemplate::Bare && managed > 1 {
                            ShapeView::Undecided(bare_refusal(managed), offerable_shapes(managed))
                        } else {
                            ShapeView::Derived(r)
                        },
                        None => ShapeView::Undecided(
                            "the existing tags are shaped `"@ + list[0] + "`, which oakum does not read"@,
                            offerable_shapes(managed),
                        ),
                    }
                }
            },
        }
    }
}

/// The templates every one of the first `k` tags can be read by.
pub open spec fn common_candidates(tags: Seq<Seq<char>>, names: Seq<Seq<char>>, k: int) -> Set<Seq<char>> {
    Set::new(|x: Seq<char>| forall|i: int| 0 <= i < k ==> #[trigger] candidates_of(tags[i], names).contains(x))
}

proof fn lemma_agreed_is_common(tags: Seq<Seq<char>>, names: Seq<Seq<char>>, k: nat)
    requires
        1 <= k <= tags.len(),
    ensures
        agreed_after(tags, names, k) is Ok <==> common_candidates(tags, names, k as int) != Set::<Seq<char>>::empty(),
        agreed_after(tags, names, k) matches Ok(a) ==> a == common_candidates(tags, names, k as int),
    decreases k,
{
    let c = common_candidates(tags, names, k as int);
    if k <= 1 {
        assert(c =~= candidates_of(tags[0], names));
    } else {
        lemma_agreed_is_common(tags, names, (k - 1) as nat);
        let prev = common_candidates(tags, names, k - 1);
        let f = candidates_of(tags[k - 1], names);
        assert(c =~= prev.intersect(f)) by {
            assert forall|x: Seq<char>| c.contains(x) <==> prev.intersect(f).contains(x) by {
                if prev.contains(x) && f.contains(x) {
                    assert forall|i: int| 0 <= i < k implies #[trigger] candidates_of(tags[i], names).contains(x) by {
                        if i < k - 1 {
                            assert(prev.contains(x));
                        }
                    }
                }
                if c.contains(x) {
                    assert(candidates_of(tags[k - 1], names).contains(x));
                    assert forall|i: int| 0 <= i < k - 1 implies #[trigger] candidates_of(tags[i], names).contains(x) by {
                        assert(candidates_of(tags[i], names).contains(x));
                    }
                }
            }
        }
        if f == Set::<Seq<char>>::empty() {
            assert(c =~= Set::<Seq<char>>::empty());
        }
        if agreed_after(tags, names, (k - 1) as nat) is Err {
            assert(c =~= Set::<Seq<char>>::empty());
        }
    }
}

proof fn lemma_common_permuted(a: Seq<Seq<char>>, b: Seq<Seq<char>>, names: Seq<Seq<char>>)
    requires
        a.to_multiset() == b.to_multiset(),
    ensures
        common_candidates(a, names, a.len() as int) == common_candidates(b, names, b.len() as int),
{
    a.to_multiset_ensures();
    b.to_multiset_ensures();
    let ca = common_candidates(a, names, a.len() as int);
    let cb = common_candidates(b, names, b.len() as int);
    assert forall|x: Seq<char>| ca.contains(x) implies cb.contains(x) by {
        assert forall|j: int| 0 <= j < b.len() implies #[trigger] candidates_of(b[j], names).contains(x) by {
            assert(b.contains(b[j]));
            assert(b.to_multiset().count(b[j]) > 0);
            assert(a.to_multiset().count(b[j]) > 0);
            assert(a.contains(b[j]));
            let i = choose|i: int| 0 <= i < a.len() && a[i] == b[j];
            assert(candidates_of(a[i], names).contains(x));
        }
    }
    assert forall|x: Seq<char>| cb.contains(x) implies ca.contains(x) by {
        assert forall|j: int| 0 <= j < a.len() implies #[trigger] candidates_of(a[j], names).contains(x) by {
            assert(a.contains(a[j]));
            assert(a.to_multiset().count(a[j]) > 0);
            assert(b.to_multiset().count(a[j]) > 0);
            assert(b.contains(a[j]));
            let i = choose|i: int| 0 <= i < b.len() && b[i] == a[j];
            assert(candidates_of(b[i], names).contains(x));
        }
    }
    assert(ca =~= cb);
}

/// The order of the tags does not change the shape they derive: whether a
/// shape is derived, and which, depends only on which tags there are.
pub proof fn lemma_derivation_ignores_order(a: Seq<Seq<char>>, b: Seq<Seq<char>>, names: Seq<Seq<char>>, managed: nat)
    requires
        a.to_multiset() == b.to_multiset(),
    ensures
        derivation(a, names, managed) matches ShapeView::Derived(r) ==> derivation(b, names, managed) == ShapeView::Derived(r),
        derivation(b, names, managed) matches ShapeView::Derived(r) ==> derivation(a, names, managed) == ShapeView::Derived(r),
        (derivation(a, names, managed) is NoTags) == (derivation(b, names, managed) is NoTags),
{
    a.to_multiset_ensures();
    b.to_multiset_ensures();
    assert(a.len() == b.len());
    if a.len() > 0 {
        lemma_agreed_is_common(a, names, a.len());
        lemma_agreed_is_common(b, names, b.len());
        lemma_common_permuted(a, b, names);
    }
}

/// The package names a workspace holds; none without one.
pub open spec fn names_of(workspace: Option<&Workspace>) -> Seq<Seq<char>> {
    match workspace {
        Some(w) => w.packages@.map_values(|p: Package| p.id.name@),
        None => Seq::empty(),
    }
}

fn undecided(why: Text, tag_managed: usize) -> (s: TagShape)
    ensures
        s@ == ShapeView::Undecided(why@, offerable_shapes(tag_managed as nat)),
{
    TagShape::Undecided { why: string_of(&why), offerable: offerable(tag_managed) }
}

fn unexplained_text(tag: &[char]) -> (t: Text)
    ensures
        t@ == unexplained(tag@),
{
    let mut t = chars_of("no package name and version explain `");
    push_all(&mut t, tag);
    push_str(&mut t, "`");
    t
}

/// The template every tag agrees on, if there is one. `workspace` is `None`
/// when discovery found no packages; only package-less shapes derive then.
/// A bare shape is refused once more than one package is tag-managed.
pub fn derive(tags: &Vec<String>, workspace: Option<&Workspace>, private_packages: PrivatePackages) -> (s: TagShape)
    ensures
        s@ == derivation(tags.deep_view(), names_of(workspace), tag_managed_of(workspace, private_packages@)),
{
    let tag_managed = tag_managed_count(workspace, private_packages);
    let ghost managed = tag_managed as nat;
    let ghost tv = tags.deep_view();
    if tags.len() == 0 {
        return TagShape::NoTags;
    }
    let mut names: Vec<Text> = Vec::new();
    match workspace {
        Some(w) => {
            let mut k: usize = 0;
            while k < w.packages.len()
                invariant
                    k <= w.packages@.len(),
                    names.deep_view() == w.packages@.take(k as int).map_values(|p: Package| p.id.name@),
                decreases w.packages@.len() - k,
            {
                let ghost before = names.deep_view();
                assert(w.packages@.take(k + 1) == w.packages@.take(k as int).push(w.packages@[k as int]));
                names.push(chars_of(w.packages[k].id.name.as_str()));
                assert(names.deep_view() =~= before.push(w.packages@[k as int].id.name@));
                assert(names.deep_view() =~= w.packages@.take(k + 1).map_values(|p: Package| p.id.name@));
                k = k + 1;
            }
            assert(w.packages@.take(w.packages@.len() as int) == w.packages@);
        },
        None => {
            assert(names.deep_view() =~= Seq::<Seq<char>>::empty());
        },
    }
    let ghost ns = names.deep_view();
    assert(ns == names_of(workspace));
    let first = chars_of(tags[0].as_str());
    let mut agreed = candidates(&first, &names);
    assert(first@ == tv[0]);
    if agreed.len() == 0 {
        proof {
            assert(agreed.deep_view().to_set() =~= Set::<Seq<char>>::empty());
            lemma_agreement_refusal_sticks(tv, ns, 1);
        }
        return undecided(unexplained_text(&first), tag_managed);
    }
    proof {
        assert(agreed.deep_view().to_set().contains(agreed.deep_view()[0]));
    }
    let mut i: usize = 1;
    while i < tags.len()
        invariant
            tv == tags.deep_view(),
            ns == names.deep_view(),
            first@ == tv[0],
            ns == names_of(workspace),
            managed == tag_managed_of(workspace, private_packages@),
            1 <= i <= tv.len(),
            strictly_sorted(agreed.deep_view()),
            agreed_after(tv, ns, i as nat) == Ok::<Set<Seq<char>>, Seq<char>>(agreed.deep_view().to_set()),
            managed == tag_managed as nat,
        decreases tv.len() - i,
    {
        let tag = chars_of(tags[i].as_str());
        assert(tag@ == tv[i as int]);
        let found = candidates(&tag, &names);
        if found.len() == 0 {
            proof {
                assert(found.deep_view().to_set() =~= Set::<Seq<char>>::empty());
                assert(agreed_after(tv, ns, (i + 1) as nat) is Err);
                lemma_agreement_refusal_sticks(tv, ns, (i + 1) as nat);
            }
            return undecided(unexplained_text(&tag), tag_managed);
        }
        proof {
            assert(found.deep_view().to_set().contains(found.deep_view()[0]));
        }
        let both = common(&agreed, &found);
        if both.len() == 0 {
            let mut why = chars_of("`");
            push_all(&mut why, &first);
            push_str(&mut why, "` and `");
            push_all(&mut why, &tag);
            push_str(&mut why, "` are not the same shape");
            proof {
                assert(both.deep_view().to_set() =~= Set::<Seq<char>>::empty());
                assert(agreed_after(tv, ns, (i + 1) as nat) is Err);
                lemma_agreement_refusal_sticks(tv, ns, (i + 1) as nat);
            }
            return undecided(why, tag_managed);
        }
        proof {
            assert(both.deep_view().to_set().contains(both.deep_view()[0]));
        }
        agreed = both;
        i = i + 1;
    }
    proof {
        let a = agreed.deep_view().to_set();
        assert(strictly_sorted(listing(a)) && listing(a).to_set() == a);
        lemma_sorted_unique(agreed.deep_view(), listing(a));
    }
    if agreed.len() != 1 {
        let mut why = chars_of("the existing tags fit more than one shape (");
        push_all(&mut why, &tick_list(&agreed));
        push_str(&mut why, ")");
        return undecided(why, tag_managed);
    }
    match ReadableTemplate::lookup(&agreed[0]) {
        Some(readable) => {
            if readable.is_bare() && tag_managed > 1 {
                let mut why = chars_of("the existing tags are shaped `v{{ version }}`, which names no package; ");
                push_all(&mut why, &decimal_of(tag_managed));
                push_str(&mut why, " packages are tag-managed here, so a release cannot tell which one such a tag belongs to");
                return undecided(why, tag_managed);
            }
            TagShape::Derived(readable)
        },
        None => {
            let mut why = chars_of("the existing tags are shaped `");
            push_all(&mut why, &agreed[0]);
            push_str(&mut why, "`, which oakum does not read");
            undecided(why, tag_managed)
        },
    }
}

/// Once the tags up to `k` agree on nothing, every longer run does too.
proof fn lemma_agreement_refusal_sticks(tags: Seq<Seq<char>>, names: Seq<Seq<char>>, k: nat)
    requires
        1 <= k <= tags.len(),
        agreed_after(tags, names, k) is Err,
    ensures
        agreed_after(tags, names, tags.len()) == agreed_after(tags, names, k),
    decreases tags.len() - k,
{
    if k < tags.len() {
        lemma_agreement_refusal_sticks(tags, names, k + 1);
    }
}

} // verus!
