//! The writes one command plans, staged by path, and the report of a write
//! set that failed partway. Staging a path twice keeps the first original
//! read from disk, and the order writes are staged in does not change the
//! set a command ends up with.
use vstd::prelude::*;

use crate::order::{lemma_lt_asymmetric, lemma_lt_irreflexive, lemma_lt_total, lemma_lt_transitive, precedes, strictly_sorted, text_lt};
use crate::text::{chars_of, decimal, decimal_of, join, push_all, push_str, same, split, split_on, string_of, Text};

verus! {

broadcast use crate::views::lemma_text_deep_view;

// ---------------------------------------------------------------------------
// Path keys
// ---------------------------------------------------------------------------

/// The plain components of a relative path: its `/`-separated parts,
/// without the empty and `.` parts a path spelling may carry.
pub open spec fn plain_components(parts: Seq<Seq<char>>) -> Seq<Seq<char>>
    decreases parts.len(),
{
    if parts.len() == 0 {
        Seq::empty()
    } else {
        let p = parts.last();
        if p.len() == 0 || p == seq!['.'] {
            plain_components(parts.drop_last())
        } else {
            plain_components(parts.drop_last()).push(p)
        }
    }
}

/// The components of a relative path as `Path` reads them: a leading `.`
/// stays, written as NUL so it sorts before every plain component, and
/// every other empty or `.` part goes.
pub open spec fn components(parts: Seq<Seq<char>>) -> Seq<Seq<char>> {
    if parts.len() > 0 && parts[0] == seq!['.'] {
        seq![seq!['\0']] + plain_components(parts.drop_first())
    } else {
        plain_components(parts)
    }
}

/// What a path is staged under: its components joined by NUL, which sorts
/// before every other character, so keys order as paths order component by
/// component.
pub open spec fn write_key(path: Seq<char>) -> Seq<char> {
    join(components(split(path, '/')), seq!['\0'])
}

/// The key a path is staged under.
pub fn key_of(path: &str) -> (k: Text)
    ensures
        k@ == write_key(path@),
{
    let p = chars_of(path);
    let parts = split_on(&p, '/');
    let ghost pv = parts.deep_view();
    let mut kept: Vec<Text> = Vec::new();
    let mut start: usize = 0;
    if parts.len() > 0 && parts[0].len() == 1 && parts[0][0] == '.' {
        let mut dot: Text = Vec::new();
        dot.push('\0');
        kept.push(dot);
        start = 1;
        assert(pv[0] =~= seq!['.']);
    } else {
        assert(!(pv.len() > 0 && pv[0] == seq!['.'])) by {
            if pv.len() > 0 && pv[0] == seq!['.'] {
                assert(parts@[0]@[0] == '.');
            }
        }
    }
    let ghost head = kept.deep_view();
    let ghost tail = pv.skip(start as int);
    assert(head == (if start == 1 { seq![seq!['\0']] } else { Seq::<Seq<char>>::empty() }));
    let mut i: usize = start;
    assert(tail.take(0) =~= Seq::<Seq<char>>::empty());
    assert(kept.deep_view() =~= head + plain_components(tail.take(0)));
    while i < parts.len()
        invariant
            pv == parts.deep_view(),
            start <= i <= pv.len(),
            tail == pv.skip(start as int),
            kept.deep_view() == head + plain_components(tail.take(i - start)),
        decreases pv.len() - i,
    {
        assert(tail.take(i - start + 1).drop_last() == tail.take(i - start));
        assert(tail.take(i - start + 1).last() == parts[i as int]@);
        let part = &parts[i];
        let dot = part.len() == 1 && part[0] == '.';
        assert(dot == (part@ == seq!['.'])) by {
            if part@ == seq!['.'] {
                assert(part@[0] == '.');
            }
            if dot {
                assert(part@ =~= seq!['.']);
            }
        }
        if part.len() > 0 && !dot {
            let ghost before = kept.deep_view();
            kept.push(crate::text::copy(part));
            assert(kept.deep_view() =~= before.push(part@));
        }
        i = i + 1;
    }
    assert(tail.take(pv.len() - start) == tail);
    assert(kept.deep_view() == components(pv)) by {
        if start == 1 {
            assert(pv.drop_first() == tail);
        } else {
            assert(tail == pv);
            assert(kept.deep_view() =~= plain_components(pv));
        }
    }
    let nul = "\0";
    proof {
        reveal_strlit("\0");
        assert(nul@ =~= seq!['\0']);
    }
    crate::text::joined(&kept, nul)
}

// ---------------------------------------------------------------------------
// Planned writes
// ---------------------------------------------------------------------------

/// One file a command will write: the text it read, the text it will leave,
/// and whether the file is new (so a rollback removes it rather than writing
/// back an empty original).
#[derive(Clone, Debug, PartialEq, Eq)]
pub struct PlannedWrite {
    path: String,
    original: String,
    next: String,
    created: bool,
}

/// A planned write as the contracts see it: path, original, next, created.
pub type WriteView = (Seq<char>, Seq<char>, Seq<char>, bool);

impl View for PlannedWrite {
    type V = WriteView;

    closed spec fn view(&self) -> WriteView {
        (self.path@, self.original@, self.next@, self.created)
    }
}

impl PlannedWrite {
    /// A write over a file that exists with `original`.
    pub fn new(path: String, original: String, next: String) -> (w: PlannedWrite)
        ensures
            w@ == (path@, original@, next@, false),
    {
        PlannedWrite { path, original, next, created: false }
    }

    /// A write that creates the file.
    pub fn create(path: String, next: String) -> (w: PlannedWrite)
        ensures
            w@ == (path@, Seq::<char>::empty(), next@, true),
    {
        PlannedWrite { path, original: String::new(), next, created: true }
    }

    pub fn path(&self) -> (p: &str)
        ensures
            p@ == self@.0,
    {
        self.path.as_str()
    }

    pub fn original(&self) -> (o: &str)
        ensures
            o@ == self@.1,
    {
        self.original.as_str()
    }

    pub fn next(&self) -> (n: &str)
        ensures
            n@ == self@.2,
    {
        self.next.as_str()
    }

    pub fn created(&self) -> (c: bool)
        ensures
            c == self@.3,
    {
        self.created
    }

    /// Replaces the text the write will leave.
    pub fn set_next(&mut self, next: String)
        ensures
            final(self)@ == (old(self)@.0, old(self)@.1, next@, old(self)@.3),
    {
        self.next = next;
    }

    fn duplicate(&self) -> (w: PlannedWrite)
        ensures
            w@ == self@,
    {
        PlannedWrite { path: self.path.clone(), original: self.original.clone(), next: self.next.clone(), created: self.created }
    }
}

// ---------------------------------------------------------------------------
// The write set
// ---------------------------------------------------------------------------

/// What staging `w` over an already staged `old` leaves: the first path
/// spelling and original stay, the new text replaces the old, and a write
/// that creates the file marks it created.
pub open spec fn merged(old: WriteView, w: WriteView) -> WriteView {
    (old.0, old.1, w.2, old.3 || w.3)
}

/// What staging `w` does to the staged writes `m`, keyed by path.
pub open spec fn staged(m: Map<Seq<char>, WriteView>, w: WriteView) -> Map<Seq<char>, WriteView> {
    let k = write_key(w.0);
    if m.contains_key(k) {
        m.insert(k, merged(m[k], w))
    } else {
        m.insert(k, w)
    }
}

/// Staging every write of `ws` in order.
pub open spec fn staged_all(m: Map<Seq<char>, WriteView>, ws: Seq<WriteView>) -> Map<Seq<char>, WriteView>
    decreases ws.len(),
{
    if ws.len() == 0 {
        m
    } else {
        staged(staged_all(m, ws.drop_last()), ws.last())
    }
}

/// The keys of a sequence of writes.
pub open spec fn keys_of(ws: Seq<WriteView>) -> Seq<Seq<char>> {
    ws.map_values(|w: WriteView| write_key(w.0))
}

/// A sequence of writes as the map it holds.
pub open spec fn as_map(ws: Seq<WriteView>) -> Map<Seq<char>, WriteView> {
    Map::new(|k: Seq<char>| keys_of(ws).contains(k), |k: Seq<char>| ws[keys_of(ws).index_of(k)])
}

/// Accumulated writes, one per path, kept in path order.
#[derive(Debug)]
pub struct WriteSet {
    entries: Vec<PlannedWrite>,
}

pub open spec fn writes_view(v: Seq<PlannedWrite>) -> Seq<WriteView> {
    v.map_values(|w: PlannedWrite| w@)
}

impl View for WriteSet {
    type V = Map<Seq<char>, WriteView>;

    closed spec fn view(&self) -> Map<Seq<char>, WriteView> {
        as_map(writes_view(self.entries@))
    }
}

impl WriteSet {
    /// The entries are in strictly increasing key order.
    #[verifier::type_invariant]
    spec fn well_formed(&self) -> bool {
        strictly_sorted(keys_of(writes_view(self.entries@)))
    }

    /// An empty write set.
    pub fn new() -> (s: WriteSet)
        ensures
            s@ == Map::<Seq<char>, WriteView>::empty(),
    {
        let s = WriteSet { entries: Vec::new() };
        assert(keys_of(writes_view(s.entries@)) =~= Seq::<Seq<char>>::empty());
        assert(s@ =~= Map::<Seq<char>, WriteView>::empty());
        s
    }

    /// Stages one write: a path already staged keeps its first original and
    /// takes the new text; a new path is added.
    pub fn stage(&mut self, write: PlannedWrite)
        ensures
            final(self)@ == staged(old(self)@, write@),
    {
        proof {
            use_type_invariant(&*self);
        }
        let mut entries: Vec<PlannedWrite> = Vec::new();
        std::mem::swap(&mut entries, &mut self.entries);
        let ghost ws = writes_view(entries@);
        let ghost ks = keys_of(ws);
        let k = key_of(write.path.as_str());
        let mut p: usize = 0;
        loop
            invariant
                ws == writes_view(entries@),
                ks == keys_of(ws),
                strictly_sorted(ks),
                k@ == write_key(write@.0),
                p <= ks.len(),
                forall|i: int| 0 <= i < p ==> text_lt(#[trigger] ks[i], k@),
            ensures
                p <= ks.len(),
                forall|i: int| 0 <= i < p ==> text_lt(#[trigger] ks[i], k@),
                p < ks.len() ==> !text_lt(ks[p as int], k@),
            decreases ks.len() - p,
        {
            if p == entries.len() {
                break;
            }
            let here = key_of(entries[p].path.as_str());
            assert(here@ == ks[p as int]);
            if !precedes(&here, &k) {
                break;
            }
            p = p + 1;
        }
        let found = p < entries.len() && same(&key_of(entries[p].path.as_str()), &k);
        assert(found == (p < ks.len() && ks[p as int] == k@));
        proof {
            lemma_keys_distinct(ks);
        }
        if found {
            let mut entry = entries[p].duplicate();
            entry.next = write.next;
            entry.created = entry.created || write.created;
            entries.set(p, entry);
            proof {
                let nws = writes_view(entries@);
                assert(nws =~= ws.update(p as int, merged(ws[p as int], write@)));
                assert(keys_of(nws) =~= ks);
                lemma_as_map_update(ws, p as int, merged(ws[p as int], write@));
                lemma_as_map_index(ws, p as int);
            }
        } else {
            proof {
                if p < ks.len() {
                    lemma_lt_total(ks[p as int], k@);
                }
                lemma_not_in(ks, k@, p as int);
            }
            entries.insert(p, write);
            proof {
                let nws = writes_view(entries@);
                assert(nws =~= ws.insert(p as int, write@));
                assert(keys_of(nws) =~= ks.insert(p as int, k@));
                lemma_sorted_insert(ks, p as int, k@);
                lemma_as_map_insert(ws, p as int, write@);
            }
        }
        self.entries = entries;
    }

    /// Stages every write in order.
    pub fn extend(&mut self, writes: Vec<PlannedWrite>)
        ensures
            final(self)@ == staged_all(old(self)@, writes_view(writes@)),
    {
        let ghost start = self@;
        let ghost wv = writes_view(writes@);
        let mut i: usize = 0;
        assert(wv.take(0) =~= Seq::<WriteView>::empty());
        while i < writes.len()
            invariant
                wv == writes_view(writes@),
                i <= wv.len(),
                self@ == staged_all(start, wv.take(i as int)),
            decreases wv.len() - i,
        {
            assert(wv.take(i + 1).drop_last() == wv.take(i as int));
            assert(wv.take(i + 1).last() == writes@[i as int]@);
            self.stage(writes[i].duplicate());
            i = i + 1;
        }
        assert(wv.take(wv.len() as int) == wv);
    }

    /// Stages a write read off disk with `original`, unless the path is
    /// already staged, in which case only its text changes.
    pub fn put_write(&mut self, path: String, original: String, next: String)
        ensures
            final(self)@ == staged(old(self)@, (path@, original@, next@, false)),
    {
        self.stage(PlannedWrite::new(path, original, next));
    }

    /// The staged original and text for `path`, when it is staged.
    pub fn staged_text(&self, path: &str) -> (r: Option<(String, String)>)
        ensures
            match self@.get(write_key(path@)) {
                Some(w) => r matches Some((o, n)) && o@ == w.1 && n@ == w.2,
                None => r is None,
            },
    {
        let ghost ws = writes_view(self.entries@);
        let k = key_of(path);
        let mut i: usize = 0;
        proof {
            use_type_invariant(self);
            lemma_keys_distinct(keys_of(ws));
        }
        while i < self.entries.len()
            invariant
                ws == writes_view(self.entries@),
                strictly_sorted(keys_of(ws)),
                self@ == as_map(ws),
                k@ == write_key(path@),
                i <= ws.len(),
                forall|j: int| 0 <= j < i ==> #[trigger] keys_of(ws)[j] != k@,
            decreases ws.len() - i,
        {
            let here = key_of(self.entries[i].path.as_str());
            assert(here@ == keys_of(ws)[i as int]);
            if same(&here, &k) {
                proof {
                    assert(keys_of(ws)[i as int] == k@);
                    lemma_as_map_index(ws, i as int);
                }
                return Some((self.entries[i].original.clone(), self.entries[i].next.clone()));
            }
            i = i + 1;
        }
        proof {
            assert(!keys_of(ws).contains(k@));
        }
        None
    }

    /// The staged writes, in path order.
    pub fn writes(&self) -> (v: Vec<PlannedWrite>)
        ensures
            strictly_sorted(keys_of(writes_view(v@))),
            as_map(writes_view(v@)) == self@,
    {
        proof {
            use_type_invariant(self);
        }
        let mut v: Vec<PlannedWrite> = Vec::new();
        let mut i: usize = 0;
        while i < self.entries.len()
            invariant
                i <= self.entries@.len(),
                writes_view(v@) == writes_view(self.entries@).take(i as int),
            decreases self.entries@.len() - i,
        {
            let ghost before = v@;
            let d = self.entries[i].duplicate();
            v.push(d);
            assert(v@ == before.push(d));
            assert(writes_view(v@) =~= writes_view(before).push(d@));
            assert(writes_view(v@) =~= writes_view(self.entries@).take(i + 1));
            i = i + 1;
        }
        assert(writes_view(self.entries@).take(self.entries@.len() as int) == writes_view(self.entries@));
        v
    }
}

// ---------------------------------------------------------------------------
// Lemmas about keyed sequences
// ---------------------------------------------------------------------------

proof fn lemma_keys_distinct(ks: Seq<Seq<char>>)
    requires
        strictly_sorted(ks),
    ensures
        forall|i: int, j: int| 0 <= i < ks.len() && 0 <= j < ks.len() && i != j ==> ks[i] != ks[j],
{
    assert forall|i: int, j: int| 0 <= i < ks.len() && 0 <= j < ks.len() && i != j implies ks[i] != ks[j] by {
        if i < j {
            assert(text_lt(ks[i], ks[j]));
            lemma_lt_irreflexive(ks[i]);
        } else {
            assert(text_lt(ks[j], ks[i]));
            lemma_lt_irreflexive(ks[j]);
        }
    }
}

proof fn lemma_as_map_index(ws: Seq<WriteView>, i: int)
    requires
        0 <= i < ws.len(),
        strictly_sorted(keys_of(ws)),
    ensures
        as_map(ws).contains_key(keys_of(ws)[i]),
        as_map(ws)[keys_of(ws)[i]] == ws[i],
{
    let ks = keys_of(ws);
    lemma_keys_distinct(ks);
    assert(ks.contains(ks[i]));
    let j = ks.index_of(ks[i]);
    assert(ks[j] == ks[i]);
}

proof fn lemma_not_in(ks: Seq<Seq<char>>, k: Seq<char>, p: int)
    requires
        strictly_sorted(ks),
        0 <= p <= ks.len(),
        forall|i: int| 0 <= i < p ==> text_lt(#[trigger] ks[i], k),
        p < ks.len() ==> ks[p] != k && !text_lt(ks[p], k),
    ensures
        !ks.contains(k),
        p < ks.len() ==> text_lt(k, ks[p]),
{
    if p < ks.len() {
        lemma_lt_total(ks[p], k);
    }
    if ks.contains(k) {
        let j = choose|j: int| 0 <= j < ks.len() && ks[j] == k;
        if j < p {
            assert(text_lt(ks[j], k));
            lemma_lt_irreflexive(k);
        } else if j == p {
        } else {
            assert(text_lt(ks[p], ks[j]));
            lemma_lt_asymmetric(k, ks[p]);
        }
    }
}

proof fn lemma_sorted_insert(ks: Seq<Seq<char>>, p: int, k: Seq<char>)
    requires
        strictly_sorted(ks),
        0 <= p <= ks.len(),
        forall|i: int| 0 <= i < p ==> text_lt(#[trigger] ks[i], k),
        p < ks.len() ==> text_lt(k, ks[p]),
    ensures
        strictly_sorted(ks.insert(p, k)),
{
    let t = ks.insert(p, k);
    assert forall|i: int, j: int| 0 <= i < j < t.len() implies #[trigger] text_lt(t[i], t[j]) && text_lt(t[i], t[j]) by {
        if j < p {
            assert(t[i] == ks[i] && t[j] == ks[j]);
        } else if j == p {
            assert(t[i] == ks[i]);
        } else if i < p {
            assert(t[i] == ks[i] && t[j] == ks[j - 1]);
            if p < ks.len() {
                assert(text_lt(ks[i], k));
                if j - 1 > p {
                    assert(text_lt(ks[p], ks[j - 1]));
                    lemma_lt_transitive(k, ks[p], ks[j - 1]);
                }
                lemma_lt_transitive(ks[i], k, ks[j - 1]);
            }
        } else if i == p {
            assert(t[j] == ks[j - 1]);
            if j - 1 > p {
                assert(text_lt(ks[p], ks[j - 1]));
                lemma_lt_transitive(k, ks[p], ks[j - 1]);
            }
        } else {
            assert(t[i] == ks[i - 1] && t[j] == ks[j - 1]);
        }
    }
}

proof fn lemma_as_map_update(ws: Seq<WriteView>, p: int, w: WriteView)
    requires
        strictly_sorted(keys_of(ws)),
        0 <= p < ws.len(),
        write_key(w.0) == keys_of(ws)[p],
    ensures
        as_map(ws.update(p, w)) == as_map(ws).insert(keys_of(ws)[p], w),
{
    let ks = keys_of(ws);
    let nws = ws.update(p, w);
    assert(keys_of(nws) =~= ks);
    lemma_keys_distinct(ks);
    assert forall|k: Seq<char>| #[trigger] as_map(nws).contains_key(k) == as_map(ws).insert(ks[p], w).contains_key(k) by {}
    assert forall|k: Seq<char>| as_map(nws).contains_key(k) implies #[trigger] as_map(nws)[k] == as_map(ws).insert(ks[p], w)[k] by {
        let j = ks.index_of(k);
        assert(ks[j] == k);
        if k == ks[p] {
            assert(j == p);
        } else {
            assert(j != p);
        }
    }
    assert(as_map(nws) =~= as_map(ws).insert(ks[p], w));
}

proof fn lemma_as_map_insert(ws: Seq<WriteView>, p: int, w: WriteView)
    requires
        strictly_sorted(keys_of(ws.insert(p, w))),
        0 <= p <= ws.len(),
    ensures
        as_map(ws.insert(p, w)) == as_map(ws).insert(write_key(w.0), w),
{
    let ks = keys_of(ws);
    let nws = ws.insert(p, w);
    let nks = keys_of(nws);
    let k = write_key(w.0);
    assert(nks =~= ks.insert(p, k));
    lemma_keys_distinct(nks);
    assert(strictly_sorted(ks)) by {
        assert forall|a: int, b: int| 0 <= a < b < ks.len() implies #[trigger] text_lt(ks[a], ks[b]) && text_lt(ks[a], ks[b]) by {
            let a2 = if a < p { a } else { a + 1 };
            let b2 = if b < p { b } else { b + 1 };
            assert(nks[a2] == ks[a] && nks[b2] == ks[b]);
            assert(a2 < b2);
        }
    }
    lemma_keys_distinct(ks);
    assert forall|x: Seq<char>| #[trigger] as_map(nws).contains_key(x) == as_map(ws).insert(k, w).contains_key(x) by {
        if ks.contains(x) {
            let j = choose|j: int| 0 <= j < ks.len() && ks[j] == x;
            if j < p {
                assert(nks[j] == x);
            } else {
                assert(nks[j + 1] == x);
            }
        }
        if nks.contains(x) && x != k {
            let j = choose|j: int| 0 <= j < nks.len() && nks[j] == x;
            if j < p {
                assert(ks[j] == x);
            } else {
                assert(j != p);
                assert(ks[j - 1] == x);
            }
        }
        if x == k {
            assert(nks[p] == k);
        }
    }
    assert forall|x: Seq<char>| as_map(nws).contains_key(x) implies #[trigger] as_map(nws)[x] == as_map(ws).insert(k, w)[x] by {
        let j = nks.index_of(x);
        assert(nks[j] == x);
        if x == k {
            assert(nks[p] == k);
            assert(j == p);
        } else if j < p {
            assert(ks[j] == x);
            assert(ks.index_of(x) == j);
        } else {
            assert(j > p);
            assert(ks[j - 1] == x);
            assert(ks.index_of(x) == j - 1);
        }
    }
    assert(as_map(nws) =~= as_map(ws).insert(k, w));
}

// ---------------------------------------------------------------------------
// Laws
// ---------------------------------------------------------------------------

/// The first write staged under `key`'s index in `ws`, if any.
pub open spec fn first_with_key(ws: Seq<WriteView>, key: Seq<char>) -> Option<int>
    decreases ws.len(),
{
    if ws.len() == 0 {
        None
    } else {
        match first_with_key(ws.drop_last(), key) {
            Some(i) => Some(i),
            None => if write_key(ws.last().0) == key {
                Some(ws.len() - 1)
            } else {
                None
            },
        }
    }
}

/// Repeated staging keeps the first original: however many writes are
/// staged under one path, the entry keeps the path spelling and the original
/// of the first of them, and a path is staged exactly when some write names it.
pub proof fn lemma_repeated_staging_keeps_the_first_original(ws: Seq<WriteView>, key: Seq<char>)
    ensures
        staged_all(Map::empty(), ws).contains_key(key) <==> first_with_key(ws, key) is Some,
        first_with_key(ws, key) matches Some(i) ==> ({
            let e = staged_all(Map::empty(), ws)[key];
            &&& 0 <= i < ws.len()
            &&& e.0 == ws[i].0
            &&& e.1 == ws[i].1
        }),
    decreases ws.len(),
{
    if ws.len() > 0 {
        lemma_repeated_staging_keeps_the_first_original(ws.drop_last(), key);
        let before = staged_all(Map::empty(), ws.drop_last());
        let w = ws.last();
        if first_with_key(ws.drop_last(), key) is Some {
            let i = first_with_key(ws.drop_last(), key)->0;
            assert(ws[i] == ws.drop_last()[i]);
        }
        if write_key(w.0) != key {
            assert(staged(before, w).contains_key(key) == before.contains_key(key));
        }
    }
}

/// Writes staged under distinct paths as a map from path key to write.
pub open spec fn distinct_paths(ws: Seq<WriteView>) -> bool {
    forall|i: int, j: int| 0 <= i < ws.len() && 0 <= j < ws.len() && i != j ==> write_key(#[trigger] ws[i].0) != write_key(#[trigger] ws[j].0)
}

proof fn lemma_staged_distinct(ws: Seq<WriteView>)
    requires
        distinct_paths(ws),
    ensures
        forall|k: Seq<char>| #[trigger] staged_all(Map::empty(), ws).contains_key(k) <==> exists|i: int| 0 <= i < ws.len() && write_key(ws[i].0) == k,
        forall|i: int| 0 <= i < ws.len() ==> staged_all(Map::empty(), ws)[write_key(#[trigger] ws[i].0)] == ws[i],
    decreases ws.len(),
{
    if ws.len() > 0 {
        let rest = ws.drop_last();
        assert(distinct_paths(rest)) by {
            assert forall|i: int, j: int| 0 <= i < rest.len() && 0 <= j < rest.len() && i != j implies write_key(#[trigger] rest[i].0) != write_key(#[trigger] rest[j].0) by {
                assert(rest[i] == ws[i] && rest[j] == ws[j]);
            }
        }
        lemma_staged_distinct(rest);
        let w = ws.last();
        let m = staged_all(Map::empty(), rest);
        assert(!m.contains_key(write_key(w.0))) by {
            if m.contains_key(write_key(w.0)) {
                let i = choose|i: int| 0 <= i < rest.len() && write_key(rest[i].0) == write_key(w.0);
                assert(ws[i] == rest[i]);
                assert(ws[ws.len() - 1] == w);
            }
        }
        assert forall|k: Seq<char>| #[trigger] staged_all(Map::empty(), ws).contains_key(k) <==> exists|i: int| 0 <= i < ws.len() && write_key(ws[i].0) == k by {
            if m.contains_key(k) {
                let i = choose|i: int| 0 <= i < rest.len() && write_key(rest[i].0) == k;
                assert(ws[i] == rest[i]);
            }
            if exists|i: int| 0 <= i < ws.len() && write_key(ws[i].0) == k {
                let i = choose|i: int| 0 <= i < ws.len() && write_key(ws[i].0) == k;
                if i < rest.len() {
                    assert(ws[i] == rest[i]);
                }
            }
        }
        assert forall|i: int| 0 <= i < ws.len() implies staged_all(Map::empty(), ws)[write_key(#[trigger] ws[i].0)] == ws[i] by {
            if i < rest.len() {
                assert(ws[i] == rest[i]);
                assert(write_key(rest[i].0) != write_key(w.0));
            }
        }
    }
}

/// The order writes are staged in does not change the final write set: two
/// orders of the same writes under distinct paths stage the same set.
pub proof fn lemma_staging_order_does_not_change_the_final_write_set(a: Seq<WriteView>, b: Seq<WriteView>)
    requires
        distinct_paths(a),
        distinct_paths(b),
        a.to_set() == b.to_set(),
    ensures
        staged_all(Map::empty(), a) == staged_all(Map::empty(), b),
{
    lemma_staged_distinct(a);
    lemma_staged_distinct(b);
    let ma = staged_all(Map::empty(), a);
    let mb = staged_all(Map::empty(), b);
    assert forall|k: Seq<char>| #[trigger] ma.contains_key(k) == mb.contains_key(k) by {
        if ma.contains_key(k) {
            let i = choose|i: int| 0 <= i < a.len() && write_key(a[i].0) == k;
            assert(a.to_set().contains(a[i]));
            assert(b.to_set().contains(a[i]));
            let j = choose|j: int| 0 <= j < b.len() && b[j] == a[i];
            assert(write_key(b[j].0) == k);
        }
        if mb.contains_key(k) {
            let j = choose|j: int| 0 <= j < b.len() && write_key(b[j].0) == k;
            assert(b.to_set().contains(b[j]));
            assert(a.to_set().contains(b[j]));
            let i = choose|i: int| 0 <= i < a.len() && a[i] == b[j];
            assert(write_key(a[i].0) == k);
        }
    }
    assert forall|k: Seq<char>| ma.contains_key(k) implies #[trigger] ma[k] == mb[k] by {
        let i = choose|i: int| 0 <= i < a.len() && write_key(a[i].0) == k;
        assert(a.to_set().contains(a[i]));
        assert(b.to_set().contains(a[i]));
        let j = choose|j: int| 0 <= j < b.len() && b[j] == a[i];
        assert(ma[write_key(a[i].0)] == a[i]);
        assert(mb[write_key(b[j].0)] == b[j]);
    }
    assert(ma =~= mb);
}

// ---------------------------------------------------------------------------
// The report of a failed write set
// ---------------------------------------------------------------------------

/// `a` sorts no later than `b`.
pub open spec fn text_le(a: Seq<char>, b: Seq<char>) -> bool {
    a == b || text_lt(a, b)
}

/// Every element sorts no later than every later one.
pub open spec fn sorted_le(s: Seq<Seq<char>>) -> bool {
    forall|i: int, j: int| 0 <= i < j < s.len() ==> #[trigger] text_le(s[i], s[j])
}

/// `v`, sorted by `slice::sort`; `String` orders by its bytes, which is the
/// order of the characters they encode.
#[verifier::external_body]
pub(crate) fn sort_strings(v: &mut Vec<String>)
    ensures
        sorted_le(final(v).deep_view()),
        final(v).deep_view().to_multiset() == old(v).deep_view().to_multiset(),
{
    v.sort();
}

/// A write set that failed partway, and everything it could not put back.
#[derive(Clone, Debug)]
pub struct WriteSetFailure {
    cause: String,
    left_changed: Vec<String>,
    unswept: Vec<String>,
}

impl View for WriteSetFailure {
    type V = (Seq<char>, Seq<Seq<char>>, Seq<Seq<char>>);

    closed spec fn view(&self) -> (Seq<char>, Seq<Seq<char>>, Seq<Seq<char>>) {
        (self.cause@, self.left_changed.deep_view(), self.unswept.deep_view())
    }
}

/// Each entry on a line of its own, indented.
pub open spec fn entry_lines(es: Seq<Seq<char>>) -> Seq<char>
    decreases es.len(),
{
    if es.len() == 0 {
        Seq::empty()
    } else {
        entry_lines(es.drop_last()) + "\n  "@ + es.last()
    }
}

/// The report: the cause, then the files left changed and the directories
/// that could not be checked, each list counted and one entry per line.
pub open spec fn failure_text(f: (Seq<char>, Seq<Seq<char>>, Seq<Seq<char>>)) -> Seq<char> {
    f.0 + (if f.1.len() == 0 {
        Seq::empty()
    } else {
        "\n"@ + decimal(f.1.len()) + " file(s) left changed:"@ + entry_lines(f.1)
    }) + (if f.2.len() == 0 {
        Seq::empty()
    } else {
        "\n"@ + decimal(f.2.len()) + (if f.2.len() == 1 {
            " directory could not be checked for staging files:"@
        } else {
            " directories could not be checked for staging files:"@
        }) + entry_lines(f.2)
    })
}

fn push_entries(out: &mut Text, es: &Vec<String>)
    ensures
        final(out)@ == old(out)@ + entry_lines(es.deep_view()),
{
    let ghost start = out@;
    let ghost ev = es.deep_view();
    let mut i: usize = 0;
    assert(ev.take(0) =~= Seq::<Seq<char>>::empty());
    while i < es.len()
        invariant
            ev == es.deep_view(),
            i <= ev.len(),
            out@ == start + entry_lines(ev.take(i as int)),
        decreases ev.len() - i,
    {
        assert(ev.take(i + 1).drop_last() == ev.take(i as int));
        assert(ev.take(i + 1).last() == es@[i as int]@);
        push_str(out, "\n  ");
        push_str(out, es[i].as_str());
        proof {
            assert(out@ =~= start + entry_lines(ev.take(i + 1)));
        }
        i = i + 1;
    }
    assert(ev.take(ev.len() as int) == ev);
}

impl WriteSetFailure {
    /// A failure with its lists in a stable, sorted order.
    pub fn new(cause: String, left_changed: Vec<String>, unswept: Vec<String>) -> (f: WriteSetFailure)
        ensures
            f@.0 == cause@,
            sorted_le(f@.1) && f@.1.to_multiset() == left_changed.deep_view().to_multiset(),
            sorted_le(f@.2) && f@.2.to_multiset() == unswept.deep_view().to_multiset(),
    {
        let mut left_changed = left_changed;
        let mut unswept = unswept;
        sort_strings(&mut left_changed);
        sort_strings(&mut unswept);
        WriteSetFailure { cause, left_changed, unswept }
    }

    /// The report, as it is printed.
    pub fn message(&self) -> (m: String)
        ensures
            m@ == failure_text(self@),
    {
        let mut out = chars_of(self.cause.as_str());
        if self.left_changed.len() > 0 {
            push_str(&mut out, "\n");
            push_all(&mut out, &decimal_of(self.left_changed.len()));
            push_str(&mut out, " file(s) left changed:");
            push_entries(&mut out, &self.left_changed);
        }
        if self.unswept.len() > 0 {
            push_str(&mut out, "\n");
            push_all(&mut out, &decimal_of(self.unswept.len()));
            if self.unswept.len() == 1 {
                push_str(&mut out, " directory could not be checked for staging files:");
            } else {
                push_str(&mut out, " directories could not be checked for staging files:");
            }
            push_entries(&mut out, &self.unswept);
        }
        string_of(&out)
    }
}

// ---------------------------------------------------------------------------
// Committing a write set
// ---------------------------------------------------------------------------

/// Whether committing a write touches the file: a created file always, an
/// existing one only when its text changes.
pub open spec fn applies(w: WriteView) -> bool {
    w.3 || w.1 != w.2
}

impl PlannedWrite {
    /// Whether committing this write touches the file.
    pub fn applies(&self) -> (b: bool)
        ensures
            b == applies(self@),
    {
        self.created || !crate::text::same(&chars_of(self.original.as_str()), &chars_of(self.next.as_str()))
    }
}

/// The first delete, in order, whose path a write also names.
pub open spec fn first_overlap(writes: Seq<WriteView>, deletes: Seq<Seq<char>>) -> Option<Seq<char>>
    decreases deletes.len(),
{
    if deletes.len() == 0 {
        None
    } else if exists|k: int| 0 <= k < writes.len() && (#[trigger] writes[k]).0 == deletes[0] {
        Some(deletes[0])
    } else {
        first_overlap(writes, deletes.drop_first())
    }
}

/// The first deleted path a write also names: a write set may not both
/// write and delete one file.
pub fn overlapping_path(writes: &Vec<PlannedWrite>, deletes: &Vec<String>) -> (r: Option<String>)
    ensures
        match first_overlap(writes_view(writes@), deletes.deep_view()) {
            Some(p) => r matches Some(x) && x@ == p,
            None => r is None,
        },
{
    let ghost wv = writes_view(writes@);
    let ghost dv = deletes.deep_view();
    let mut d: usize = 0;
    assert(dv.skip(0) =~= dv);
    while d < deletes.len()
        invariant
            wv == writes_view(writes@),
            dv == deletes.deep_view(),
            d <= dv.len(),
            first_overlap(wv, dv) == first_overlap(wv, dv.skip(d as int)),
        decreases dv.len() - d,
    {
        assert(dv.skip(d as int)[0] == dv[d as int]);
        assert(dv.skip(d as int).drop_first() =~= dv.skip(d + 1));
        let target = chars_of(deletes[d].as_str());
        let mut w: usize = 0;
        while w < writes.len()
            invariant
                wv == writes_view(writes@),
                dv == deletes.deep_view(),
                d < dv.len(),
                target@ == dv[d as int],
                first_overlap(wv, dv) == first_overlap(wv, dv.skip(d as int)),
                dv.skip(d as int)[0] == dv[d as int],
                w <= wv.len(),
                forall|k: int| 0 <= k < w ==> (#[trigger] wv[k]).0 != target@,
            decreases wv.len() - w,
        {
            assert(wv[w as int] == writes@[w as int]@);
            if crate::text::same(&chars_of(writes[w].path.as_str()), &target) {
                assert(wv[w as int].0 == dv.skip(d as int)[0]);
                return Some(deletes[d].clone());
            }
            w = w + 1;
        }
        d = d + 1;
    }
    assert(dv.skip(dv.len() as int) =~= Seq::<Seq<char>>::empty());
    None
}

/// The refusal for a write set that both writes and deletes a path.
pub fn overlap_refusal(path: &str) -> (m: String)
    ensures
        m@ == "write-set path appears in both writes and deletes: "@ + path@,
{
    let mut t = chars_of("write-set path appears in both writes and deletes: ");
    crate::text::push_str(&mut t, path);
    crate::text::string_of(&t)
}

// ---------------------------------------------------------------------------
// Committing a write set, and undoing it
// ---------------------------------------------------------------------------

/// One step of committing a write set: create a new file, replace one that
/// held `original`, or delete one that held `original`.
#[derive(Clone, Debug)]
pub enum CommitOp {
    Create { path: String, body: String },
    Replace { path: String, original: String, body: String },
    Delete { path: String, original: String },
}

/// One step of undoing a commit: put a file back with `body`, or remove a
/// file the commit created.
#[derive(Clone, Debug)]
pub enum RestoreOp {
    Put { path: String, body: String },
    Remove { path: String },
}

/// A commit step as the contracts see it.
pub enum OpView {
    Create(Seq<char>, Seq<char>),
    Replace(Seq<char>, Seq<char>, Seq<char>),
    Delete(Seq<char>, Seq<char>),
}

/// A restore step as the contracts see it.
pub enum RestoreView {
    Put(Seq<char>, Seq<char>),
    Remove(Seq<char>),
}

pub open spec fn op_view(o: CommitOp) -> OpView {
    match o {
        CommitOp::Create { path, body } => OpView::Create(path@, body@),
        CommitOp::Replace { path, original, body } => OpView::Replace(path@, original@, body@),
        CommitOp::Delete { path, original } => OpView::Delete(path@, original@),
    }
}

pub open spec fn restore_view(r: RestoreOp) -> RestoreView {
    match r {
        RestoreOp::Put { path, body } => RestoreView::Put(path@, body@),
        RestoreOp::Remove { path } => RestoreView::Remove(path@),
    }
}

/// The steps that commit `ws`, in order: a created file is created, a file
/// whose text changes is replaced, and an unchanged one is not touched.
pub open spec fn write_ops(ws: Seq<WriteView>) -> Seq<OpView>
    decreases ws.len(),
{
    if ws.len() == 0 {
        Seq::empty()
    } else {
        let rest = write_ops(ws.drop_last());
        let w = ws.last();
        if w.3 {
            rest.push(OpView::Create(w.0, w.2))
        } else if w.1 == w.2 {
            rest
        } else {
            rest.push(OpView::Replace(w.0, w.1, w.2))
        }
    }
}

/// The steps that delete `ds` (path and the text it held), in order.
pub open spec fn delete_ops(ds: Seq<(Seq<char>, Seq<char>)>) -> Seq<OpView> {
    ds.map_values(|d: (Seq<char>, Seq<char>)| OpView::Delete(d.0, d.1))
}

/// The step that undoes `o`.
pub open spec fn restore_of(o: OpView) -> RestoreView {
    match o {
        OpView::Create(p, _) => RestoreView::Remove(p),
        OpView::Replace(p, original, _) => RestoreView::Put(p, original),
        OpView::Delete(p, original) => RestoreView::Put(p, original),
    }
}

/// The steps that undo `os`, the last first.
pub open spec fn rollback_of(os: Seq<OpView>) -> Seq<RestoreView>
    decreases os.len(),
{
    if os.len() == 0 {
        Seq::empty()
    } else {
        seq![restore_of(os.last())] + rollback_of(os.drop_last())
    }
}

/// The path a step touches.
pub open spec fn op_path(o: OpView) -> Seq<char> {
    match o {
        OpView::Create(p, _) => p,
        OpView::Replace(p, _, _) => p,
        OpView::Delete(p, _) => p,
    }
}

/// A tree of files, by path, after a step.
pub open spec fn apply_op(m: Map<Seq<char>, Seq<char>>, o: OpView) -> Map<Seq<char>, Seq<char>> {
    match o {
        OpView::Create(p, b) => m.insert(p, b),
        OpView::Replace(p, _, b) => m.insert(p, b),
        OpView::Delete(p, _) => m.remove(p),
    }
}

/// A tree of files after steps `os`, in order.
pub open spec fn apply_ops(m: Map<Seq<char>, Seq<char>>, os: Seq<OpView>) -> Map<Seq<char>, Seq<char>>
    decreases os.len(),
{
    if os.len() == 0 {
        m
    } else {
        apply_op(apply_ops(m, os.drop_last()), os.last())
    }
}

/// A tree of files after a restore step.
pub open spec fn apply_restore(m: Map<Seq<char>, Seq<char>>, r: RestoreView) -> Map<Seq<char>, Seq<char>> {
    match r {
        RestoreView::Put(p, b) => m.insert(p, b),
        RestoreView::Remove(p) => m.remove(p),
    }
}

/// A tree of files after restore steps `rs`, in order.
pub open spec fn apply_restores(m: Map<Seq<char>, Seq<char>>, rs: Seq<RestoreView>) -> Map<Seq<char>, Seq<char>>
    decreases rs.len(),
{
    if rs.len() == 0 {
        m
    } else {
        apply_restores(apply_restore(m, rs[0]), rs.drop_first())
    }
}

/// Whether a step finds the tree as it was planned against: a created file
/// absent, a replaced or deleted one holding its original.
pub open spec fn finds(m: Map<Seq<char>, Seq<char>>, o: OpView) -> bool {
    match o {
        OpView::Create(p, _) => !m.contains_key(p),
        OpView::Replace(p, original, _) => m.contains_key(p) && m[p] == original,
        OpView::Delete(p, original) => m.contains_key(p) && m[p] == original,
    }
}

proof fn lemma_apply_ops_elsewhere(m: Map<Seq<char>, Seq<char>>, os: Seq<OpView>, p: Seq<char>)
    requires
        forall|i: int| 0 <= i < os.len() ==> op_path(#[trigger] os[i]) != p,
    ensures
        apply_ops(m, os).contains_key(p) == m.contains_key(p),
        m.contains_key(p) ==> apply_ops(m, os)[p] == m[p],
    decreases os.len(),
{
    if os.len() > 0 {
        assert forall|i: int| 0 <= i < os.drop_last().len() implies op_path(#[trigger] os.drop_last()[i]) != p by {
            assert(os.drop_last()[i] == os[i]);
        }
        lemma_apply_ops_elsewhere(m, os.drop_last(), p);
        assert(op_path(os[os.len() - 1]) != p);
    }
}

/// Undoing a commit restores the tree: after any prefix of the steps has
/// landed, the restore steps put every file back as it was, provided each
/// step touches its own path and found the tree as it was planned against.
pub proof fn lemma_rollback_restores(m: Map<Seq<char>, Seq<char>>, os: Seq<OpView>)
    requires
        forall|i: int, j: int| 0 <= i < os.len() && 0 <= j < os.len() && i != j ==> op_path(#[trigger] os[i]) != op_path(#[trigger] os[j]),
        forall|i: int| 0 <= i < os.len() ==> finds(m, #[trigger] os[i]),
    ensures
        apply_restores(apply_ops(m, os), rollback_of(os)) == m,
    decreases os.len(),
{
    if os.len() > 0 {
        let pre = os.drop_last();
        let o = os.last();
        assert forall|i: int, j: int| 0 <= i < pre.len() && 0 <= j < pre.len() && i != j implies op_path(#[trigger] pre[i]) != op_path(#[trigger] pre[j]) by {
            assert(pre[i] == os[i] && pre[j] == os[j]);
        }
        assert forall|i: int| 0 <= i < pre.len() implies finds(m, #[trigger] pre[i]) by {
            assert(pre[i] == os[i]);
        }
        lemma_rollback_restores(m, pre);
        let a = apply_ops(m, pre);
        assert forall|i: int| 0 <= i < pre.len() implies op_path(#[trigger] pre[i]) != op_path(o) by {
            assert(pre[i] == os[i]);
            assert(o == os[os.len() - 1]);
        }
        lemma_apply_ops_elsewhere(m, pre, op_path(o));
        assert(finds(m, os[os.len() - 1]));
        assert(apply_restore(apply_op(a, o), restore_of(o)) =~= a);
        let rs = rollback_of(os);
        assert(rs[0] == restore_of(o));
        assert(rs.drop_first() =~= rollback_of(pre));
    }
}

fn op_of(w: &PlannedWrite) -> (r: Option<CommitOp>)
    ensures
        w@.3 ==> (r matches Some(o) && op_view(o) == OpView::Create(w@.0, w@.2)),
        !w@.3 && w@.1 == w@.2 ==> r is None,
        !w@.3 && w@.1 != w@.2 ==> (r matches Some(o) && op_view(o) == OpView::Replace(w@.0, w@.1, w@.2)),
{
    if w.created {
        Some(CommitOp::Create { path: w.path.clone(), body: w.next.clone() })
    } else if same(&chars_of(w.original.as_str()), &chars_of(w.next.as_str())) {
        None
    } else {
        Some(CommitOp::Replace { path: w.path.clone(), original: w.original.clone(), body: w.next.clone() })
    }
}

/// The steps that commit a write set: its writes in order (a file whose
/// text does not change is left alone), then its deletes, each given as its
/// path and the text it held. A path both written and deleted is refused.
pub fn commit_ops(writes: &Vec<PlannedWrite>, deletes: &Vec<(String, String)>) -> (r: Result<Vec<CommitOp>, String>)
    ensures
        match first_overlap(writes_view(writes@), deletes@.map_values(|d: (String, String)| d.0@)) {
            Some(p) => r matches Err(m) && m@ == "write-set path appears in both writes and deletes: "@ + p,
            None => r matches Ok(ops) && ops@.map_values(|o: CommitOp| op_view(o))
                == write_ops(writes_view(writes@)) + delete_ops(deletes@.map_values(|d: (String, String)| (d.0@, d.1@))),
        },
{
    let mut paths: Vec<String> = Vec::new();
    let mut k: usize = 0;
    while k < deletes.len()
        invariant
            k <= deletes@.len(),
            paths.deep_view() == deletes@.map_values(|d: (String, String)| d.0@).take(k as int),
        decreases deletes@.len() - k,
    {
        let ghost prev = paths.deep_view();
        let p = deletes[k].0.clone();
        assert(p@ == deletes@[k as int].0@);
        paths.push(p);
        assert(paths.deep_view() =~= prev.push(p@));
        assert(paths.deep_view() =~= deletes@.map_values(|d: (String, String)| d.0@).take(k + 1));
        k = k + 1;
    }
    assert(deletes@.map_values(|d: (String, String)| d.0@).take(deletes@.len() as int) =~= deletes@.map_values(|d: (String, String)| d.0@));
    if let Some(p) = overlapping_path(writes, &paths) {
        return Err(overlap_refusal(p.as_str()));
    }
    let ghost wv = writes_view(writes@);
    let mut ops: Vec<CommitOp> = Vec::new();
    let mut i: usize = 0;
    while i < writes.len()
        invariant
            wv == writes_view(writes@),
            i <= wv.len(),
            ops@.map_values(|o: CommitOp| op_view(o)) == write_ops(wv.take(i as int)),
        decreases wv.len() - i,
    {
        assert(wv.take(i + 1).drop_last() =~= wv.take(i as int));
        assert(wv.take(i + 1).last() == writes@[i as int]@);
        match op_of(&writes[i]) {
            Some(o) => ops.push(o),
            None => {},
        }
        assert(ops@.map_values(|o: CommitOp| op_view(o)) =~= write_ops(wv.take(i + 1)));
        i = i + 1;
    }
    assert(wv.take(wv.len() as int) =~= wv);
    let ghost before = ops@.map_values(|o: CommitOp| op_view(o));
    let ghost dv = deletes@.map_values(|d: (String, String)| (d.0@, d.1@));
    let mut j: usize = 0;
    while j < deletes.len()
        invariant
            dv == deletes@.map_values(|d: (String, String)| (d.0@, d.1@)),
            j <= dv.len(),
            ops@.map_values(|o: CommitOp| op_view(o)) == before + delete_ops(dv.take(j as int)),
        decreases dv.len() - j,
    {
        let ghost prev = ops@.map_values(|o: CommitOp| op_view(o));
        let dp = deletes[j].0.clone();
        let dorig = deletes[j].1.clone();
        assert(dp@ == dv[j as int].0 && dorig@ == dv[j as int].1);
        let step = CommitOp::Delete { path: dp, original: dorig };
        ops.push(step);
        assert(ops@.map_values(|o: CommitOp| op_view(o)) =~= prev.push(op_view(step)));
        assert(delete_ops(dv.take(j + 1)) =~= delete_ops(dv.take(j as int)).push(OpView::Delete(dv[j as int].0, dv[j as int].1)));
        assert(ops@.map_values(|o: CommitOp| op_view(o)) =~= before + delete_ops(dv.take(j + 1)));
        j = j + 1;
    }
    assert(dv.take(dv.len() as int) =~= dv);
    Ok(ops)
}

/// The steps that undo the first `done` steps of a commit, the last first:
/// a created file is removed, a replaced or deleted one is put back with the
/// text it held.
pub fn rollback_ops(ops: &Vec<CommitOp>, done: usize) -> (r: Vec<RestoreOp>)
    requires
        done <= ops@.len(),
    ensures
        r@.map_values(|x: RestoreOp| restore_view(x)) == rollback_of(ops@.map_values(|o: CommitOp| op_view(o)).take(done as int)),
{
    let ghost ov = ops@.map_values(|o: CommitOp| op_view(o));
    let mut r: Vec<RestoreOp> = Vec::new();
    let mut k: usize = done;
    assert(rollback_of(ov.take(done as int)) == Seq::<RestoreView>::empty() + rollback_of(ov.take(done as int)));
    while k > 0
        invariant
            ov == ops@.map_values(|o: CommitOp| op_view(o)),
            k <= done <= ov.len(),
            rollback_of(ov.take(done as int)) == r@.map_values(|x: RestoreOp| restore_view(x)) + rollback_of(ov.take(k as int)),
        decreases k,
    {
        let step = match &ops[k - 1] {
            CommitOp::Create { path, body: _ } => RestoreOp::Remove { path: path.clone() },
            CommitOp::Replace { path, original, body: _ } => RestoreOp::Put { path: path.clone(), body: original.clone() },
            CommitOp::Delete { path, original } => RestoreOp::Put { path: path.clone(), body: original.clone() },
        };
        proof {
            assert(ov.take(k as int).drop_last() =~= ov.take(k - 1));
            assert(ov.take(k as int).last() == ov[k - 1]);
            assert(restore_view(step) == restore_of(ov[k - 1]));
        }
        let ghost before = r@.map_values(|x: RestoreOp| restore_view(x));
        r.push(step);
        assert(r@.map_values(|x: RestoreOp| restore_view(x)) =~= before.push(restore_view(step)));
        assert(rollback_of(ov.take(k as int)) =~= seq![restore_of(ov[k - 1])] + rollback_of(ov.take(k - 1)));
        k = k - 1;
    }
    assert(ov.take(0) =~= Seq::<OpView>::empty());
    assert(r@.map_values(|x: RestoreOp| restore_view(x)) + Seq::<RestoreView>::empty() =~= r@.map_values(|x: RestoreOp| restore_view(x)));
    r
}

} // verus!
