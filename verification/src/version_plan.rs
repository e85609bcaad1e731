//! The decisions `oakum version` makes while it plans its writes: where the
//! workspace-level files live, whether an inherited version may move, and
//! whether the plan needs GitHub at all. Reading and rewriting the files
//! stays with the caller.
use vstd::prelude::*;

use crate::install_pin::join_path;
use crate::plan::{id_view, Ecosystem, PackageId};
use crate::text::{chars_of, push_all, push_str, string_of};
use crate::versions::{version_text, SemVer, VersionView};
use crate::write_set::{applies, writes_view, PlannedWrite};

verus! {

broadcast use crate::views::lemma_text_deep_view;

/// Whether a planned version write needs GitHub: it deletes a file, or one
/// of its writes touches one.
pub fn needs_github(writes: &Vec<PlannedWrite>, deletes: usize) -> (b: bool)
    ensures
        b == (deletes > 0 || exists|k: int| 0 <= k < writes@.len() && applies(#[trigger] writes_view(writes@)[k])),
{
    if deletes > 0 {
        return true;
    }
    let ghost wv = writes_view(writes@);
    let mut i: usize = 0;
    while i < writes.len()
        invariant
            wv == writes_view(writes@),
            i <= wv.len(),
            forall|k: int| 0 <= k < i ==> !applies(#[trigger] wv[k]),
        decreases wv.len() - i,
    {
        assert(wv[i as int] == writes@[i as int]@);
        if writes[i].applies() {
            return true;
        }
        i = i + 1;
    }
    false
}

/// What another package that inherits `[workspace.package].version` says
/// of writing `to` there: it must be planned to move to the same version.
pub open spec fn inheritor_refusal(name: Seq<char>, planned: Option<VersionView>, to: VersionView) -> Option<Seq<char>> {
    match planned {
        Some(t) => if t == to {
            None
        } else {
            Some(name + " inherits [workspace.package].version but the plan needs "@ + version_text(t)
                + "; another inheritor needs "@ + version_text(to))
        },
        None => Some(name + " inherits [workspace.package].version and is not in the plan; writing "@ + version_text(to)
            + " would change it without a changeset"@),
    }
}

/// Whether an inheriting package lets the shared version move to `to`,
/// given the version the plan moves it to, if any.
pub fn inheritor_verdict(name: &str, planned: Option<SemVer>, to: &SemVer) -> (r: Result<(), String>)
    ensures
        match inheritor_refusal(name@, match planned {
            Some(v) => Some(v@),
            None => None,
        }, to@) {
            None => r is Ok,
            Some(m) => r matches Err(x) && x@ == m,
        },
{
    match planned {
        Some(t) => {
            if t.same_as(to) {
                Ok(())
            } else {
                let mut m = chars_of(name);
                push_str(&mut m, " inherits [workspace.package].version but the plan needs ");
                push_all(&mut m, &t.chars());
                push_str(&mut m, "; another inheritor needs ");
                push_all(&mut m, &to.chars());
                Err(string_of(&m))
            }
        },
        None => {
            let mut m = chars_of(name);
            push_str(&mut m, " inherits [workspace.package].version and is not in the plan; writing ");
            push_all(&mut m, &to.chars());
            push_str(&mut m, " would change it without a changeset");
            Err(string_of(&m))
        },
    }
}

/// Whether `[workspace.package].version` must be written to move a release
/// from `from` to `to`, given its current text: already `to` needs nothing;
/// anything but `from` refuses.
pub open spec fn shared_version_step(current: Option<Seq<char>>, from: VersionView, to: VersionView) -> Result<bool, Seq<char>> {
    match current {
        None => Ok(true),
        Some(c) => if c == version_text(to) {
            Ok(false)
        } else if c != version_text(from) {
            Err("[workspace.package].version is already "@ + c + "; cannot also set "@ + version_text(to))
        } else {
            Ok(true)
        },
    }
}

/// Whether `[workspace.package].version` must be written, or why it may not.
pub fn workspace_version_step(current: Option<String>, from: &SemVer, to: &SemVer) -> (r: Result<bool, String>)
    ensures
        match shared_version_step(match current {
            Some(c) => Some(c@),
            None => None,
        }, from@, to@) {
            Ok(b) => r matches Ok(x) && x == b,
            Err(m) => r matches Err(x) && x@ == m,
        },
{
    let c = match current {
        None => return Ok(true),
        Some(c) => chars_of(c.as_str()),
    };
    let next = to.chars();
    if crate::text::same(&c, &next) {
        return Ok(false);
    }
    if !crate::text::same(&c, &from.chars()) {
        let mut m = chars_of("[workspace.package].version is already ");
        push_all(&mut m, &c);
        push_str(&mut m, "; cannot also set ");
        push_all(&mut m, &next);
        return Err(string_of(&m));
    }
    Ok(true)
}

/// `Cargo.lock` beside the cargo workspace root, when one is set.
pub fn cargo_lock_path(root: Option<String>) -> (r: Option<String>)
    ensures
        match root {
            Some(d) => r matches Some(p) && p@ == join_path(d@, "Cargo.lock"@),
            None => r is None,
        },
{
    match root {
        None => None,
        Some(d) => Some(crate::install_pin::path_in(d.as_str(), "Cargo.lock")),
    }
}

/// `Cargo.toml` at the cargo workspace root, which an inherited version is
/// written into; refused when no root is set.
pub fn cargo_workspace_toml_path(root: Option<String>) -> (r: Result<String, String>)
    ensures
        match root {
            Some(d) => r matches Ok(p) && p@ == join_path(d@, "Cargo.toml"@),
            None => r matches Err(m)
                && m@ == "a cargo package inherits [package].version from the workspace but no cargo workspace root is set"@,
        },
{
    match root {
        None => Err(
            "a cargo package inherits [package].version from the workspace but no cargo workspace root is set".to_owned(),
        ),
        Some(d) => Ok(crate::install_pin::path_in(d.as_str(), "Cargo.toml")),
    }
}

/// Where `Cargo.lock` is to be retargeted, when cargo packages were bumped:
/// none without cargo bumps; refused when there is no workspace root.
pub fn lock_path_for(cargo_bumps: bool, root: Option<String>) -> (r: Result<Option<String>, String>)
    ensures
        !cargo_bumps ==> r matches Ok(None),
        cargo_bumps ==> match root {
            Some(d) => r matches Ok(Some(p)) && p@ == join_path(d@, "Cargo.lock"@),
            None => r matches Err(m)
                && m@ == "cargo packages were bumped but no cargo workspace root is set, so Cargo.lock cannot be retargeted"@,
        },
{
    if !cargo_bumps {
        return Ok(None);
    }
    match cargo_lock_path(root) {
        Some(p) => Ok(Some(p)),
        None => Err(
            "cargo packages were bumped but no cargo workspace root is set, so Cargo.lock cannot be retargeted".to_owned(),
        ),
    }
}

/// `body` without leading byte-order marks.
pub open spec fn without_bom(body: Seq<char>) -> Seq<char>
    decreases body.len(),
{
    if body.len() > 0 && body[0] == '\u{FEFF}' {
        without_bom(body.drop_first())
    } else {
        body
    }
}

/// Supplied notes without leading byte-order marks.
pub fn strip_bom(body: &str) -> (out: String)
    ensures
        out@ == without_bom(body@),
{
    let b = chars_of(body);
    let mut i: usize = 0;
    assert(b@.skip(0) =~= b@);
    while i < b.len() && b[i] == '\u{FEFF}'
        invariant
            i <= b@.len(),
            without_bom(b@) == without_bom(b@.skip(i as int)),
        decreases b@.len() - i,
    {
        assert(b@.skip(i as int).drop_first() =~= b@.skip(i + 1));
        i = i + 1;
    }
    proof {
        if i < b@.len() {
            assert(b@.skip(i as int)[0] == b@[i as int]);
        }
    }
    string_of(&crate::text::slice_of(&b, i, b.len()))
}

/// A workspace member as `version` plans its writes: its identity, its
/// manifest's path, the members it depends on, and its declared
/// `extra-files`.
#[derive(Debug)]
pub struct MemberManifest {
    pub id: PackageId,
    pub path: String,
    pub depends_on: Vec<PackageId>,
    pub extra_files: Vec<String>,
}

/// The files `version` writes and deletes, and nothing else: the
/// manifests it edits (each with whether the member is bumped and whether
/// it retargets a bumped dependency), whether the lockfile is rewritten,
/// the declared `extra-files` of bumped members, whether `tool-version` in
/// the config is re-pinned, and the consumed change files.
#[derive(Debug)]
pub struct VersionWrites {
    pub manifests: Vec<(String, bool, bool)>,
    pub lockfile: bool,
    pub extra_files: Vec<String>,
    pub config_pin: bool,
    pub deletes: Vec<String>,
}

/// Whether `id` is among the bumped packages.
pub open spec fn is_bumped(bumped: Seq<PackageId>, id: (Ecosystem, Seq<char>)) -> bool {
    exists|k: int| 0 <= k < bumped.len() && id_view(#[trigger] bumped[k]) == id
}

/// Whether a member depends on a bumped package.
pub open spec fn retargets(bumped: Seq<PackageId>, m: MemberManifest) -> bool {
    exists|j: int| 0 <= j < m.depends_on@.len() && is_bumped(bumped, id_view(#[trigger] m.depends_on@[j]))
}

/// The manifests `version` edits, in workspace order: those of members it
/// bumps or that retarget a bumped dependency; none when nothing is bumped.
pub open spec fn manifest_writes_of(ms: Seq<MemberManifest>, bumped: Seq<PackageId>) -> Seq<(Seq<char>, bool, bool)>
    decreases ms.len(),
{
    if bumped.len() == 0 || ms.len() == 0 {
        Seq::empty()
    } else {
        let rest = manifest_writes_of(ms.drop_last(), bumped);
        let m = ms.last();
        let b = is_bumped(bumped, id_view(m.id));
        let r = retargets(bumped, m);
        if b || r {
            rest.push((m.path@, b, r))
        } else {
            rest
        }
    }
}

/// The declared `extra-files` of bumped members, in workspace order.
pub open spec fn extra_writes_of(ms: Seq<MemberManifest>, bumped: Seq<PackageId>) -> Seq<Seq<char>>
    decreases ms.len(),
{
    if ms.len() == 0 {
        Seq::empty()
    } else {
        let rest = extra_writes_of(ms.drop_last(), bumped);
        if is_bumped(bumped, id_view(ms.last().id)) {
            rest + ms.last().extra_files@.map_values(|f: String| f@)
        } else {
            rest
        }
    }
}

/// The change files consumed: each under `.changeset/`, the synthetic
/// commits file excepted.
pub open spec fn consumed_deletes_of(ids: Seq<Seq<char>>) -> Seq<Seq<char>>
    decreases ids.len(),
{
    if ids.len() == 0 {
        Seq::empty()
    } else {
        let rest = consumed_deletes_of(ids.drop_last());
        if ids.last() == "commits"@ {
            rest
        } else {
            rest.push(".changeset/"@ + ids.last())
        }
    }
}

/// Whether the Cargo member named `oakum` is bumped.
pub open spec fn repins_config(bumped: Seq<PackageId>) -> bool {
    is_bumped(bumped, (Ecosystem::Cargo, "oakum"@))
}

/// Whether a Cargo package is bumped, so the lockfile's rows move.
pub open spec fn moves_lockfile(bumped: Seq<PackageId>) -> bool {
    exists|k: int| 0 <= k < bumped.len() && (#[trigger] bumped[k]).ecosystem == Ecosystem::Cargo
}

fn same_id(a: &PackageId, b: &PackageId) -> (r: bool)
    ensures
        r == (id_view(*a) == id_view(*b)),
{
    a.ecosystem == b.ecosystem && crate::text::same(&chars_of(a.name.as_str()), &chars_of(b.name.as_str()))
}

fn bumped_exec(bumped: &Vec<PackageId>, id: &PackageId) -> (r: bool)
    ensures
        r == is_bumped(bumped@, id_view(*id)),
{
    let mut k: usize = 0;
    while k < bumped.len()
        invariant
            k <= bumped@.len(),
            forall|j: int| 0 <= j < k ==> id_view(#[trigger] bumped@[j]) != id_view(*id),
        decreases bumped@.len() - k,
    {
        if same_id(&bumped[k], id) {
            return true;
        }
        k = k + 1;
    }
    false
}

fn retargets_exec(bumped: &Vec<PackageId>, m: &MemberManifest) -> (r: bool)
    ensures
        r == retargets(bumped@, *m),
{
    let mut j: usize = 0;
    while j < m.depends_on.len()
        invariant
            j <= m.depends_on@.len(),
            forall|i: int| 0 <= i < j ==> !is_bumped(bumped@, id_view(#[trigger] m.depends_on@[i])),
        decreases m.depends_on@.len() - j,
    {
        if bumped_exec(bumped, &m.depends_on[j]) {
            return true;
        }
        j = j + 1;
    }
    false
}

/// The files `version` owns for a plan: see `VersionWrites`. `members` are
/// the workspace's members in order, `bumped` the packages the plan bumps,
/// `consumed` the ids of the change files it read.
pub fn version_writes(members: &Vec<MemberManifest>, bumped: &Vec<PackageId>, consumed: &Vec<String>) -> (w: VersionWrites)
    ensures
        w.manifests@.map_values(|t: (String, bool, bool)| (t.0@, t.1, t.2)) == manifest_writes_of(members@, bumped@),
        w.lockfile == moves_lockfile(bumped@),
        w.extra_files@.map_values(|f: String| f@) == extra_writes_of(members@, bumped@),
        w.config_pin == repins_config(bumped@),
        w.deletes@.map_values(|f: String| f@) == consumed_deletes_of(consumed@.map_values(|f: String| f@)),
{
    let mut manifests: Vec<(String, bool, bool)> = Vec::new();
    let mut extra_files: Vec<String> = Vec::new();
    let mut i: usize = 0;
    let ghost ms = members@;
    while i < members.len()
        invariant
            ms == members@,
            i <= ms.len(),
            manifests@.map_values(|t: (String, bool, bool)| (t.0@, t.1, t.2)) == manifest_writes_of(ms.take(i as int), bumped@),
            extra_files@.map_values(|f: String| f@) == extra_writes_of(ms.take(i as int), bumped@),
        decreases ms.len() - i,
    {
        let m = &members[i];
        assert(ms.take(i + 1).drop_last() =~= ms.take(i as int));
        assert(ms.take(i + 1).last() == ms[i as int]);
        let b = bumped_exec(bumped, &m.id);
        let r = retargets_exec(bumped, m);
        if bumped.len() > 0 && (b || r) {
            manifests.push((m.path.clone(), b, r));
        }
        proof {
            assert(manifests@.map_values(|t: (String, bool, bool)| (t.0@, t.1, t.2)) =~= manifest_writes_of(ms.take(i + 1), bumped@));
        }
        if b {
            let ghost before = extra_files@;
            let mut k: usize = 0;
            while k < m.extra_files.len()
                invariant
                    k <= m.extra_files@.len(),
                    extra_files@ == before + m.extra_files@.take(k as int),
                decreases m.extra_files@.len() - k,
            {
                extra_files.push(m.extra_files[k].clone());
                assert(m.extra_files@.take(k + 1) =~= m.extra_files@.take(k as int).push(m.extra_files@[k as int]));
                k = k + 1;
            }
            assert(m.extra_files@.take(m.extra_files@.len() as int) =~= m.extra_files@);
        }
        proof {
            assert(extra_files@.map_values(|f: String| f@) =~= extra_writes_of(ms.take(i + 1), bumped@));
        }
        i = i + 1;
    }
    assert(ms.take(ms.len() as int) =~= ms);
    let mut lockfile = false;
    let mut k: usize = 0;
    while k < bumped.len()
        invariant
            k <= bumped@.len(),
            lockfile == exists|j: int| 0 <= j < k && (#[trigger] bumped@[j]).ecosystem == Ecosystem::Cargo,
        decreases bumped@.len() - k,
    {
        if bumped[k].ecosystem == Ecosystem::Cargo {
            lockfile = true;
        }
        k = k + 1;
    }
    let oakum = PackageId::new(Ecosystem::Cargo, "oakum");
    let config_pin = bumped_exec(bumped, &oakum);
    let mut deletes: Vec<String> = Vec::new();
    let ghost cv = consumed@.map_values(|f: String| f@);
    let mut c: usize = 0;
    while c < consumed.len()
        invariant
            cv == consumed@.map_values(|f: String| f@),
            c <= cv.len(),
            deletes@.map_values(|f: String| f@) == consumed_deletes_of(cv.take(c as int)),
        decreases cv.len() - c,
    {
        assert(cv.take(c + 1).drop_last() =~= cv.take(c as int));
        if !crate::text::is(&chars_of(consumed[c].as_str()), "commits") {
            let mut t = chars_of(".changeset/");
            push_str(&mut t, consumed[c].as_str());
            deletes.push(string_of(&t));
        }
        proof {
            assert(deletes@.map_values(|f: String| f@) =~= consumed_deletes_of(cv.take(c + 1)));
        }
        c = c + 1;
    }
    assert(cv.take(cv.len() as int) =~= cv);
    VersionWrites { manifests, lockfile, extra_files, config_pin, deletes }
}

/// Whether the `k`th manifest write is the manifest of a member that is
/// bumped or retargets a bumped dependency.
pub open spec fn write_is_owned(ms: Seq<MemberManifest>, bumped: Seq<PackageId>, k: int) -> bool {
    exists|j: int| 0 <= j < ms.len() && (#[trigger] ms[j]).path@ == manifest_writes_of(ms, bumped)[k].0
        && (is_bumped(bumped, id_view(ms[j].id)) || retargets(bumped, ms[j]))
}

/// `version` edits only member manifests: every manifest it writes is the
/// manifest of a workspace member, and one it bumps or that retargets a
/// bumped dependency.
pub proof fn lemma_written_manifests_are_owned(ms: Seq<MemberManifest>, bumped: Seq<PackageId>)
    ensures
        forall|k: int| 0 <= k < manifest_writes_of(ms, bumped).len() ==> #[trigger] write_is_owned(ms, bumped, k),
    decreases ms.len(),
{
    if bumped.len() > 0 && ms.len() > 0 {
        let rest = ms.drop_last();
        lemma_written_manifests_are_owned(rest, bumped);
        let rw = manifest_writes_of(rest, bumped);
        assert forall|k: int| 0 <= k < manifest_writes_of(ms, bumped).len() implies #[trigger] write_is_owned(ms, bumped, k) by {
            if k < rw.len() {
                assert(write_is_owned(rest, bumped, k));
                assert(manifest_writes_of(ms, bumped)[k] == rw[k]);
                let j = choose|j: int| 0 <= j < rest.len() && (#[trigger] rest[j]).path@ == rw[k].0
                    && (is_bumped(bumped, id_view(rest[j].id)) || retargets(bumped, rest[j]));
                assert(ms[j] == rest[j]);
                assert(ms[j].path@ == manifest_writes_of(ms, bumped)[k].0);
            } else {
                let j = ms.len() - 1;
                assert(ms[j] == ms.last());
                assert(ms[j].path@ == manifest_writes_of(ms, bumped)[k].0);
            }
        }
    }
}

/// `version` deletes only consumed change files: every delete is a path
/// under `.changeset/` named by a consumed id other than the commits file.
pub proof fn lemma_deletes_are_consumed_files(ids: Seq<Seq<char>>)
    ensures
        forall|k: int| 0 <= k < consumed_deletes_of(ids).len() ==> exists|j: int|
            0 <= j < ids.len() && ids[j] != "commits"@ && (#[trigger] consumed_deletes_of(ids)[k]) == ".changeset/"@ + #[trigger] ids[j],
    decreases ids.len(),
{
    if ids.len() > 0 {
        let rest = ids.drop_last();
        lemma_deletes_are_consumed_files(rest);
        let d = consumed_deletes_of(ids);
        let rd = consumed_deletes_of(rest);
        assert forall|k: int| 0 <= k < d.len() implies exists|j: int|
            0 <= j < ids.len() && ids[j] != "commits"@ && (#[trigger] d[k]) == ".changeset/"@ + #[trigger] ids[j] by {
            if k < rd.len() {
                assert(d[k] == rd[k]);
                let j = choose|j: int| 0 <= j < rest.len() && rest[j] != "commits"@ && (#[trigger] rd[k]) == ".changeset/"@ + #[trigger] rest[j];
                assert(ids[j] == rest[j]);
            } else {
                assert(ids[ids.len() - 1] == ids.last());
            }
        }
    }
}

/// Whether a bumped package has the ecosystem and name of member `m`.
pub open spec fn bumps_member(bumped: Seq<PackageId>, m: MemberManifest) -> bool {
    exists|b: int| 0 <= b < bumped.len() && bumped[b].ecosystem == m.id.ecosystem && #[trigger] bumped[b].name@ == m.id.name@
}

proof fn lemma_bumps_member(bumped: Seq<PackageId>, m: MemberManifest)
    ensures
        bumps_member(bumped, m) == is_bumped(bumped, id_view(m.id)),
{
    if is_bumped(bumped, id_view(m.id)) {
        let b = choose|b: int| 0 <= b < bumped.len() && id_view(#[trigger] bumped[b]) == id_view(m.id);
        assert(bumped[b].name@ == m.id.name@);
    }
    if bumps_member(bumped, m) {
        let b = choose|b: int| 0 <= b < bumped.len() && bumped[b].ecosystem == m.id.ecosystem && #[trigger] bumped[b].name@ == m.id.name@;
        assert(id_view(bumped[b]) == id_view(m.id));
    }
}

/// Which member declares planned extra-file write `k`.
proof fn lemma_extra_write_declared(ms: Seq<MemberManifest>, bumped: Seq<PackageId>, k: int) -> (jf: (int, int))
    requires
        0 <= k < extra_writes_of(ms, bumped).len(),
    ensures
        0 <= jf.0 < ms.len(),
        0 <= jf.1 < ms[jf.0].extra_files@.len(),
        ms[jf.0].extra_files@[jf.1]@ == extra_writes_of(ms, bumped)[k],
        bumps_member(bumped, ms[jf.0]),
    decreases ms.len(),
{
    let rest = ms.drop_last();
    let rw = extra_writes_of(rest, bumped);
    let m = ms.last();
    lemma_bumps_member(bumped, m);
    if is_bumped(bumped, id_view(m.id)) {
        let w = rw + m.extra_files@.map_values(|x: String| x@);
        assert(extra_writes_of(ms, bumped) == w);
        if k < rw.len() {
            let jf = lemma_extra_write_declared(rest, bumped, k);
            assert(ms[jf.0] == rest[jf.0]);
            assert(w[k] == rw[k]);
            jf
        } else {
            assert(ms[ms.len() - 1] == m);
            assert(w[k] == m.extra_files@[k - rw.len()]@);
            (ms.len() - 1, k - rw.len())
        }
    } else {
        let jf = lemma_extra_write_declared(rest, bumped, k);
        assert(ms[jf.0] == rest[jf.0]);
        jf
    }
}

/// Extra-file `f` of bumped member `j` is planned.
proof fn lemma_bumped_extra_written(ms: Seq<MemberManifest>, bumped: Seq<PackageId>, j: int, f: int)
    requires
        0 <= j < ms.len(),
        0 <= f < ms[j].extra_files@.len(),
        bumps_member(bumped, ms[j]),
    ensures
        extra_writes_of(ms, bumped).contains(ms[j].extra_files@[f]@),
    decreases ms.len(),
{
    let rest = ms.drop_last();
    let rw = extra_writes_of(rest, bumped);
    let m = ms.last();
    lemma_bumps_member(bumped, m);
    if j < rest.len() {
        assert(ms[j] == rest[j]);
        lemma_bumped_extra_written(rest, bumped, j, f);
        let k = choose|k: int| 0 <= k < rw.len() && rw[k] == rest[j].extra_files@[f]@;
        if is_bumped(bumped, id_view(m.id)) {
            let w = rw + m.extra_files@.map_values(|x: String| x@);
            assert(w[k] == rw[k]);
        }
    } else {
        assert(ms[j] == m);
        let w = rw + m.extra_files@.map_values(|x: String| x@);
        assert(w[rw.len() + f] == m.extra_files@[f]@);
    }
}

/// `version` writes every declared extra-file of every member it bumps,
/// whatever the member's ecosystem, and no other extra-file: a path is among
/// the planned extra-file writes exactly when a member declares it and some
/// bumped package has that member's ecosystem and name.
pub proof fn lemma_extra_files_of_bumped_members_are_written(ms: Seq<MemberManifest>, bumped: Seq<PackageId>)
    ensures
        forall|j: int, f: int|
            0 <= j < ms.len() && 0 <= f < ms[j].extra_files@.len() && bumps_member(bumped, ms[j])
                ==> extra_writes_of(ms, bumped).contains(#[trigger] ms[j].extra_files@[f]@),
        forall|x: Seq<char>| #[trigger] extra_writes_of(ms, bumped).contains(x) ==> exists|j: int, f: int|
            0 <= j < ms.len() && 0 <= f < ms[j].extra_files@.len()
                && #[trigger] ms[j].extra_files@[f]@ == x
                && bumps_member(bumped, ms[j]),
{
    assert forall|j: int, f: int|
        0 <= j < ms.len() && 0 <= f < ms[j].extra_files@.len() && bumps_member(bumped, ms[j])
        implies extra_writes_of(ms, bumped).contains(#[trigger] ms[j].extra_files@[f]@) by {
        lemma_bumped_extra_written(ms, bumped, j, f);
    }
    assert forall|x: Seq<char>| #[trigger] extra_writes_of(ms, bumped).contains(x) implies exists|j: int, f: int|
        0 <= j < ms.len() && 0 <= f < ms[j].extra_files@.len()
            && #[trigger] ms[j].extra_files@[f]@ == x
            && bumps_member(bumped, ms[j]) by {
        let k = choose|k: int| 0 <= k < extra_writes_of(ms, bumped).len() && extra_writes_of(ms, bumped)[k] == x;
        let jf = lemma_extra_write_declared(ms, bumped, k);
        assert(ms[jf.0].extra_files@[jf.1]@ == extra_writes_of(ms, bumped)[k]);
    }
}

} // verus!
