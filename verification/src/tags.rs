//! Tags reachable from HEAD, read from git's own output. Empty is a look that
//! found nothing; a shallow clone, a tag-suppressed clone, or output that does
//! not parse is unverified, never an empty list.
use vstd::prelude::*;

use crate::order::{insert_sorted, lemma_lt_irreflexive, lower_bound, strictly_sorted, text_lt};
use crate::outcome::CliError;
use crate::text::{
    ascii_alnum, chars_of, debug_str, debug_text, is, is_ascii_alnum, lines, lines_of, push_all,
    push_str, slice_of, split, split_on, split_once, split_once_at, string_of, strip_prefix,
    strip_prefix_str, strip_suffix, strip_suffix_str, trim, trimmed, Text,
};
use crate::verdict::strings_of;

verus! {

broadcast use crate::views::lemma_text_deep_view;

/// A look that did not happen, saying `detail`.
pub open spec fn unverified_with(e: CliError, detail: Seq<char>) -> bool {
    e matches CliError::Unverified { detail: d } && d@ == detail
}

fn unverified(detail: &Text) -> (e: CliError)
    ensures
        unverified_with(e, detail@),
{
    CliError::Unverified { detail: string_of(detail) }
}

/// Tag names on one commit, sorted and unique.
#[derive(Clone, Debug, PartialEq, Eq)]
pub struct CommitTags {
    commit: String,
    tags: Vec<String>,
}

impl View for CommitTags {
    type V = (Seq<char>, Seq<Seq<char>>);

    closed spec fn view(&self) -> (Seq<char>, Seq<Seq<char>>) {
        (self.commit@, self.tags.deep_view())
    }
}

impl CommitTags {
    /// One commit's tags; an empty commit or an empty tag set is unverified.
    pub fn new(commit: String, tags: Vec<String>) -> (r: Result<CommitTags, CliError>)
        ensures
            commit@.len() == 0 ==> (r matches Err(e) && unverified_with(e, "unverified: empty commit for a reachable tag group"@)),
            commit@.len() > 0 && tags@.len() == 0 ==> (r matches Err(e) && unverified_with(e, "unverified: empty tag set for a reachable commit"@)),
            commit@.len() > 0 && tags@.len() > 0 ==> (r matches Ok(t) && t@ == (commit@, tags.deep_view())),
    {
        if commit.as_str().is_empty() {
            return Err(unverified(&chars_of("unverified: empty commit for a reachable tag group")));
        }
        if tags.len() == 0 {
            return Err(unverified(&chars_of("unverified: empty tag set for a reachable commit")));
        }
        Ok(CommitTags { commit, tags })
    }

    pub fn commit(&self) -> (c: &str)
        ensures
            c@ == self@.0,
    {
        self.commit.as_str()
    }

    pub fn tags(&self) -> (t: &[String])
        ensures
            t@.map_values(|s: String| s@) == self@.1,
    {
        let r = self.tags.as_slice();
        assert(r@.map_values(|s: String| s@) =~= self.tags.deep_view());
        r
    }
}

// ---------------------------------------------------------------------------
// for-each-ref records
// ---------------------------------------------------------------------------

/// One NUL-separated `refname, objecttype, objectname, peeled type, peeled
/// name` record as `(commit, tag name)`, or the detail of its refusal.
pub open spec fn ref_record(line: Seq<char>) -> Result<(Seq<char>, Seq<char>), Seq<char>> {
    let f = split(line, '\0');
    if f.len() != 5 {
        Err("unverified: unparseable for-each-ref record: "@ + debug_str(line))
    } else {
        match strip_prefix(f[0], "refs/tags/"@) {
            Some(name) => if name.len() == 0 {
                Err("unverified: unparseable tag ref: "@ + debug_str(f[0]))
            } else if f[1] == "commit"@ && f[2].len() > 0 {
                Ok((f[2], name))
            } else if f[1] == "tag"@ && f[2].len() > 0 && f[3] == "commit"@ && f[4].len() > 0 {
                Ok((f[4], name))
            } else {
                Err("unverified: tag "@ + debug_str(name) + " does not peel to a commit"@)
            },
            None => Err("unverified: unparseable tag ref: "@ + debug_str(f[0])),
        }
    }
}

/// Every non-empty line parsed as a record, or the first refusal.
pub open spec fn ref_records(ls: Seq<Seq<char>>) -> Result<Seq<(Seq<char>, Seq<char>)>, Seq<char>>
    decreases ls.len(),
{
    if ls.len() == 0 {
        Ok(Seq::empty())
    } else {
        match ref_records(ls.drop_last()) {
            Err(e) => Err(e),
            Ok(ps) => if ls.last().len() == 0 {
                Ok(ps)
            } else {
                match ref_record(ls.last()) {
                    Ok(p) => Ok(ps.push(p)),
                    Err(e) => Err(e),
                }
            },
        }
    }
}

pub open spec fn pairs_view(v: Seq<(String, String)>) -> Seq<(Seq<char>, Seq<char>)> {
    v.map_values(|p: (String, String)| (p.0@, p.1@))
}

fn parse_one_record(line: &[char]) -> (r: Result<(Text, Text), Text>)
    ensures
        match ref_record(line@) {
            Ok((c, n)) => r matches Ok((rc, rn)) && rc@ == c && rn@ == n,
            Err(d) => r matches Err(rd) && rd@ == d,
        },
{
    let f = split_on(line, '\0');
    if f.len() != 5 {
        let mut d = chars_of("unverified: unparseable for-each-ref record: ");
        push_all(&mut d, &debug_text(line));
        return Err(d);
    }
    let name = match strip_prefix_str(&f[0], "refs/tags/") {
        Some(n) => n,
        None => {
            let mut d = chars_of("unverified: unparseable tag ref: ");
            push_all(&mut d, &debug_text(&f[0]));
            return Err(d);
        },
    };
    if name.len() == 0 {
        let mut d = chars_of("unverified: unparseable tag ref: ");
        push_all(&mut d, &debug_text(&f[0]));
        return Err(d);
    }
    if is(&f[1], "commit") && f[2].len() > 0 {
        return Ok((crate::text::copy(&f[2]), name));
    }
    if is(&f[1], "tag") && f[2].len() > 0 && is(&f[3], "commit") && f[4].len() > 0 {
        return Ok((crate::text::copy(&f[4]), name));
    }
    let mut d = chars_of("unverified: tag ");
    push_all(&mut d, &debug_text(&name));
    push_str(&mut d, " does not peel to a commit");
    Err(d)
}

/// `(commit, tag name)` pairs from `for-each-ref` output. A lightweight tag's
/// object is the commit; an annotated tag peels through its `%(*...)` fields.
/// A ref that does not resolve to a commit fails closed.
pub fn parse_ref_records(stdout: &str) -> (r: Result<Vec<(String, String)>, CliError>)
    ensures
        match ref_records(lines(stdout@)) {
            Ok(ps) => r matches Ok(v) && pairs_view(v@) == ps,
            Err(d) => r matches Err(e) && unverified_with(e, d),
        },
{
    let s = chars_of(stdout);
    let ls = lines_of(&s);
    let ghost lv = ls.deep_view();
    let mut pairs: Vec<(String, String)> = Vec::new();
    let mut i: usize = 0;
    assert(lv.take(0) =~= Seq::<Seq<char>>::empty());
    assert(pairs_view(pairs@) =~= Seq::<(Seq<char>, Seq<char>)>::empty());
    while i < ls.len()
        invariant
            lv == ls.deep_view(),
            lv == lines(stdout@),
            i <= lv.len(),
            ref_records(lv.take(i as int)) == Ok::<Seq<(Seq<char>, Seq<char>)>, Seq<char>>(pairs_view(pairs@)),
        decreases lv.len() - i,
    {
        assert(lv.take(i + 1).drop_last() == lv.take(i as int));
        assert(lv.take(i + 1).last() == ls[i as int]@);
        if ls[i].len() == 0 {
            i = i + 1;
            continue;
        }
        match parse_one_record(&ls[i]) {
            Ok((c, n)) => {
                let ghost before = pairs@;
                pairs.push((string_of(&c), string_of(&n)));
                assert(pairs_view(pairs@) =~= pairs_view(before).push((c@, n@)));
            },
            Err(d) => {
                proof {
                    lemma_records_error_sticks(lv, (i + 1) as int);
                }
                return Err(unverified(&d));
            },
        }
        i = i + 1;
    }
    assert(lv.take(lv.len() as int) == lv);
    Ok(pairs)
}

/// Once a prefix of the lines refuses, the whole does, with the same detail.
proof fn lemma_records_error_sticks(ls: Seq<Seq<char>>, i: int)
    requires
        0 <= i <= ls.len(),
        ref_records(ls.take(i)) is Err,
    ensures
        ref_records(ls) == ref_records(ls.take(i)),
    decreases ls.len() - i,
{
    if i < ls.len() {
        assert(ls.take(i + 1).drop_last() == ls.take(i));
        lemma_records_error_sticks(ls, i + 1);
    } else {
        assert(ls.take(i) == ls);
    }
}

// ---------------------------------------------------------------------------
// Shallow clones and tag-suppressed remotes
// ---------------------------------------------------------------------------

/// What `git rev-parse --is-shallow-repository` said.
pub open spec fn shallow_answer(stdout: Seq<char>) -> Result<bool, Seq<char>> {
    let t = trim(stdout);
    if t == "true"@ {
        Ok(true)
    } else if t == "false"@ {
        Ok(false)
    } else {
        Err("unverified: git rev-parse --is-shallow-repository returned "@ + debug_str(t))
    }
}

/// `true` or `false` from `rev-parse --is-shallow-repository`; anything else
/// is unverified.
pub fn parse_is_shallow(stdout: &str) -> (r: Result<bool, CliError>)
    ensures
        match shallow_answer(stdout@) {
            Ok(b) => r == Ok::<bool, CliError>(b),
            Err(d) => r matches Err(e) && unverified_with(e, d),
        },
{
    let s = chars_of(stdout);
    let t = trimmed(&s);
    if is(&t, "true") {
        Ok(true)
    } else if is(&t, "false") {
        Ok(false)
    } else {
        let mut d = chars_of("unverified: git rev-parse --is-shallow-repository returned ");
        push_all(&mut d, &debug_text(&t));
        Err(unverified(&d))
    }
}

/// A `remote.<name>.tagopt <value>` line as `(name, value)`, or the detail of
/// its refusal.
pub open spec fn tagopt_line(line: Seq<char>) -> Result<(Seq<char>, Seq<char>), Seq<char>> {
    let (key, value) = match split_once(line, ' ') {
        Some((k, v)) => (k, v),
        None => (line, Seq::empty()),
    };
    match strip_prefix(key, "remote."@) {
        Some(rest) => match strip_suffix(rest, ".tagopt"@) {
            Some(name) => if name.len() > 0 {
                Ok((name, value))
            } else {
                Err("unverified: unparseable git config line: "@ + debug_str(line))
            },
            None => Err("unverified: unparseable git config line: "@ + debug_str(line)),
        },
        None => Err("unverified: unparseable git config line: "@ + debug_str(line)),
    }
}

/// Every non-empty line parsed, or the first refusal.
pub open spec fn tagopt_lines(ls: Seq<Seq<char>>) -> Result<Seq<(Seq<char>, Seq<char>)>, Seq<char>>
    decreases ls.len(),
{
    if ls.len() == 0 {
        Ok(Seq::empty())
    } else {
        match tagopt_lines(ls.drop_last()) {
            Err(e) => Err(e),
            Ok(ps) => if ls.last().len() == 0 {
                Ok(ps)
            } else {
                match tagopt_line(ls.last()) {
                    Ok(p) => Ok(ps.push(p)),
                    Err(e) => Err(e),
                }
            },
        }
    }
}

/// The effective value per remote: values print in ascending precedence, so
/// the last one wins.
pub open spec fn effective(ps: Seq<(Seq<char>, Seq<char>)>) -> Map<Seq<char>, Seq<char>>
    decreases ps.len(),
{
    if ps.len() == 0 {
        Map::empty()
    } else {
        effective(ps.drop_last()).insert(ps.last().0, ps.last().1)
    }
}

/// `n` is the first remote, in name order, whose effective `tagOpt` is `--no-tags`.
pub open spec fn first_suppressing(m: Map<Seq<char>, Seq<char>>, n: Seq<char>) -> bool {
    &&& m.dom().contains(n)
    &&& m[n] == "--no-tags"@
    &&& forall|k: Seq<char>| #[trigger] m.dom().contains(k) && m[k] == "--no-tags"@ ==> k == n || text_lt(n, k)
}

fn parse_one_tagopt(line: &[char]) -> (r: Result<(Text, Text), Text>)
    ensures
        match tagopt_line(line@) {
            Ok((n, v)) => r matches Ok((rn, rv)) && rn@ == n && rv@ == v,
            Err(d) => r matches Err(rd) && rd@ == d,
        },
{
    let (key, value) = match split_once_at(line, ' ') {
        Some((k, v)) => (k, v),
        None => (crate::text::copy(line), Vec::new()),
    };
    let mut d = chars_of("unverified: unparseable git config line: ");
    push_all(&mut d, &debug_text(line));
    let rest = match strip_prefix_str(&key, "remote.") {
        Some(r) => r,
        None => return Err(d),
    };
    let name = match strip_suffix_str(&rest, ".tagopt") {
        Some(n) => n,
        None => return Err(d),
    };
    if name.len() == 0 {
        return Err(d);
    }
    Ok((name, value))
}

/// The first remote, in name order, whose effective `tagOpt` suppresses tag
/// fetching, from `git config --get-regexp` output. A global `--no-tags`
/// overridden by a local `--tags` does not suppress.
pub fn parse_tag_suppression(stdout: &str) -> (r: Result<Option<String>, CliError>)
    ensures
        match tagopt_lines(lines(stdout@)) {
            Ok(ps) => r matches Ok(found) && match found {
                Some(n) => first_suppressing(effective(ps), n@),
                None => forall|k: Seq<char>| #[trigger] effective(ps).dom().contains(k) ==> effective(ps)[k] != "--no-tags"@,
            },
            Err(d) => r matches Err(e) && unverified_with(e, d),
        },
{
    let s = chars_of(stdout);
    let ls = lines_of(&s);
    let ghost lv = ls.deep_view();
    let ghost mut ps: Seq<(Seq<char>, Seq<char>)> = Seq::empty();
    let mut names: Vec<Text> = Vec::new();
    let mut values: Vec<Text> = Vec::new();
    let mut i: usize = 0;
    while i < ls.len()
        invariant
            lv == ls.deep_view(),
            lv == lines(stdout@),
            i <= lv.len(),
            tagopt_lines(lv.take(i as int)) == Ok::<Seq<(Seq<char>, Seq<char>)>, Seq<char>>(ps),
            strictly_sorted(names.deep_view()),
            values@.len() == names@.len(),
            names.deep_view().to_set() == effective(ps).dom(),
            forall|j: int| 0 <= j < names@.len() ==> effective(ps)[#[trigger] names.deep_view()[j]] == values@[j]@,
        decreases lv.len() - i,
    {
        assert(lv.take(i + 1).drop_last() == lv.take(i as int));
        assert(lv.take(i + 1).last() == ls[i as int]@);
        if ls[i].len() == 0 {
            i = i + 1;
            continue;
        }
        match parse_one_tagopt(&ls[i]) {
            Ok((n, v)) => {
                let ghost old_names = names.deep_view();
                let ghost old_values = values@;
                let ghost old_ps = ps;
                let (p, added) = insert_sorted(&mut names, &n);
                assert(names@.len() == names.deep_view().len());
                if added {
                    values.insert(p, v);
                } else {
                    values.set(p, v);
                }
                proof {
                    ps = ps.push((n@, values@[p as int]@));
                    assert(ps.drop_last() =~= old_ps);
                    assert(effective(ps) == effective(old_ps).insert(n@, values@[p as int]@));
                    assert(names.deep_view().to_set() =~= effective(ps).dom());
                    assert forall|j: int| 0 <= j < names@.len() implies effective(ps)[#[trigger] names.deep_view()[j]] == values@[j]@ by {
                        if added {
                            if j < p {
                                assert(names.deep_view()[j] == old_names[j]);
                                assert(old_names[j] != n@) by { lemma_lt_irreflexive(n@); }
                            } else if j > p {
                                assert(names.deep_view()[j] == old_names[j - 1]);
                                assert(old_names[j - 1] != n@) by { lemma_lt_irreflexive(n@); }
                            }
                        } else if j != p {
                            assert(names.deep_view()[j] == old_names[j]);
                            assert(old_names[j] != old_names[p as int]) by { lemma_lt_irreflexive(old_names[j]); }
                        }
                    }
                }
            },
            Err(d) => {
                proof {
                    lemma_tagopt_error_sticks(lv, (i + 1) as int);
                }
                return Err(unverified(&d));
            },
        }
        i = i + 1;
    }
    assert(lv.take(lv.len() as int) == lv);
    let mut j: usize = 0;
    while j < names.len()
        invariant
            lv == lines(stdout@),
            tagopt_lines(lv) == Ok::<Seq<(Seq<char>, Seq<char>)>, Seq<char>>(ps),
            strictly_sorted(names.deep_view()),
            values@.len() == names@.len(),
            names.deep_view().to_set() == effective(ps).dom(),
            forall|k: int| 0 <= k < names@.len() ==> effective(ps)[#[trigger] names.deep_view()[k]] == values@[k]@,
            j <= names@.len(),
            forall|k: int| 0 <= k < j ==> values@[k]@ != "--no-tags"@,
        decreases names@.len() - j,
    {
        if is(&values[j], "--no-tags") {
            proof {
                let n = names.deep_view()[j as int];
                assert(names.deep_view().to_set().contains(n));
                assert forall|k: Seq<char>| #[trigger] effective(ps).dom().contains(k) && effective(ps)[k] == "--no-tags"@ implies k == n || text_lt(n, k) by {
                    assert(names.deep_view().to_set().contains(k));
                    let m = choose|m: int| 0 <= m < names.deep_view().len() && names.deep_view()[m] == k;
                    if m < j {
                        assert(values@[m]@ == effective(ps)[k]);
                    } else if m > j {
                        assert(text_lt(names.deep_view()[j as int], names.deep_view()[m]));
                    }
                }
            }
            return Ok(Some(string_of(&names[j])));
        }
        j = j + 1;
    }
    proof {
        assert forall|k: Seq<char>| #[trigger] effective(ps).dom().contains(k) implies effective(ps)[k] != "--no-tags"@ by {
            assert(names.deep_view().to_set().contains(k));
            let m = choose|m: int| 0 <= m < names.deep_view().len() && names.deep_view()[m] == k;
            assert(values@[m]@ == effective(ps)[k]);
        }
    }
    Ok(None)
}

proof fn lemma_tagopt_error_sticks(ls: Seq<Seq<char>>, i: int)
    requires
        0 <= i <= ls.len(),
        tagopt_lines(ls.take(i)) is Err,
    ensures
        tagopt_lines(ls) == tagopt_lines(ls.take(i)),
    decreases ls.len() - i,
{
    if i < ls.len() {
        assert(ls.take(i + 1).drop_last() == ls.take(i));
        lemma_tagopt_error_sticks(ls, i + 1);
    } else {
        assert(ls.take(i) == ls);
    }
}

// ---------------------------------------------------------------------------
// Shell quoting for the copy-pasteable diagnostic
// ---------------------------------------------------------------------------

/// A character a plain name may hold unquoted.
pub open spec fn plain_char(c: char) -> bool {
    is_ascii_alnum(c) || c == '-' || c == '_' || c == '.' || c == '/'
}

/// `s` with each `'` written as `'\''`.
pub open spec fn escape_quotes(s: Seq<char>) -> Seq<char>
    decreases s.len(),
{
    if s.len() == 0 {
        Seq::empty()
    } else {
        escape_quotes(s.drop_last()) + (if s.last() == '\'' {
            seq!['\'', '\\', '\'', '\'']
        } else {
            seq![s.last()]
        })
    }
}

/// A plain, non-empty name stays bare; anything else gets POSIX single-quoting.
pub open spec fn quoted_for_shell(s: Seq<char>) -> Seq<char> {
    if s.len() > 0 && forall|i: int| 0 <= i < s.len() ==> plain_char(#[trigger] s[i]) {
        s
    } else {
        seq!['\''] + escape_quotes(s) + seq!['\'']
    }
}

/// Quotes a value for the copy-pasteable diagnostic. Plain names stay bare so
/// the common command also pastes into non-POSIX shells.
pub fn shell_quote(value: &str) -> (out: String)
    ensures
        out@ == quoted_for_shell(value@),
{
    let v = chars_of(value);
    let mut plain = v.len() > 0;
    let mut i: usize = 0;
    while i < v.len()
        invariant
            i <= v@.len(),
            plain == (v@.len() > 0 && forall|k: int| 0 <= k < i ==> plain_char(#[trigger] v@[k])),
        decreases v@.len() - i,
    {
        let c = v[i];
        if !(ascii_alnum(c) || c == '-' || c == '_' || c == '.' || c == '/') {
            plain = false;
        }
        i = i + 1;
    }
    if plain {
        return value.to_owned();
    }
    let mut out: Text = Vec::new();
    out.push('\'');
    let mut k: usize = 0;
    while k < v.len()
        invariant
            k <= v@.len(),
            out@ == seq!['\''] + escape_quotes(v@.take(k as int)),
        decreases v@.len() - k,
    {
        assert(v@.take(k + 1).drop_last() == v@.take(k as int));
        if v[k] == '\'' {
            out.push('\'');
            out.push('\\');
            out.push('\'');
            out.push('\'');
        } else {
            out.push(v[k]);
        }
        k = k + 1;
        assert(out@ =~= seq!['\''] + escape_quotes(v@.take(k as int)));
    }
    assert(v@.take(v@.len() as int) == v@);
    out.push('\'');
    assert(out@ =~= seq!['\''] + escape_quotes(v@) + seq!['\'']);
    string_of(&out)
}

// ---------------------------------------------------------------------------
// Grouping
// ---------------------------------------------------------------------------

/// Every commit some pair names.
pub open spec fn commits_of(ps: Seq<(Seq<char>, Seq<char>)>) -> Set<Seq<char>> {
    Set::new(|c: Seq<char>| exists|i: int| 0 <= i < ps.len() && #[trigger] ps[i].0 == c)
}

/// Every tag name some pair puts on `commit`.
pub open spec fn tags_on(ps: Seq<(Seq<char>, Seq<char>)>, commit: Seq<char>) -> Set<Seq<char>> {
    Set::new(|t: Seq<char>| exists|i: int| 0 <= i < ps.len() && #[trigger] ps[i].0 == commit && ps[i].1 == t)
}

/// What `group_pairs` promises of its groups: one per commit, commits sorted,
/// each with the tags put on it, sorted and unique.
pub open spec fn groups_of(gs: Seq<(Seq<char>, Seq<Seq<char>>)>, ps: Seq<(Seq<char>, Seq<char>)>) -> bool {
    &&& strictly_sorted(gs.map_values(|g: (Seq<char>, Seq<Seq<char>>)| g.0))
    &&& gs.map_values(|g: (Seq<char>, Seq<Seq<char>>)| g.0).to_set() == commits_of(ps)
    &&& forall|i: int| 0 <= i < gs.len() ==> strictly_sorted(#[trigger] gs[i].1) && gs[i].1.to_set() == tags_on(ps, gs[i].0)
}

/// Groups `(commit, tag)` pairs by commit. A pair with an empty commit or an
/// empty tag name is unverified.
pub fn group_pairs(pairs: Vec<(String, String)>) -> (r: Result<Vec<CommitTags>, CliError>)
    ensures
        (exists|i: int| 0 <= i < pairs@.len() && (#[trigger] pairs@[i].0@.len() == 0 || pairs@[i].1@.len() == 0))
            ==> (r matches Err(e) && unverified_with(e, "unverified: empty commit or tag name in a reachable pair"@)),
        (forall|i: int| 0 <= i < pairs@.len() ==> #[trigger] pairs@[i].0@.len() > 0 && pairs@[i].1@.len() > 0)
            ==> (r matches Ok(gs) && groups_of(gs@.map_values(|g: CommitTags| g@), pairs_view(pairs@))),
{
    let ghost pv = pairs_view(pairs@);
    let mut commits: Vec<Text> = Vec::new();
    let mut tagsets: Vec<Vec<Text>> = Vec::new();
    let mut k: usize = 0;
    while k < pairs.len()
        invariant
            pv == pairs_view(pairs@),
            k <= pv.len(),
            forall|i: int| 0 <= i < k ==> #[trigger] pairs@[i].0@.len() > 0 && pairs@[i].1@.len() > 0,
            strictly_sorted(commits.deep_view()),
            tagsets@.len() == commits@.len(),
            commits.deep_view().to_set() == commits_of(pv.take(k as int)),
            forall|j: int| 0 <= j < tagsets@.len() ==> strictly_sorted(#[trigger] tagsets@[j].deep_view())
                && tagsets@[j].deep_view().to_set() == tags_on(pv.take(k as int), commits.deep_view()[j]),
        decreases pv.len() - k,
    {
        let c = chars_of(pairs[k].0.as_str());
        let t = chars_of(pairs[k].1.as_str());
        assert(c@ == pairs@[k as int].0@ && t@ == pairs@[k as int].1@);
        if c.len() == 0 || t.len() == 0 {
            return Err(unverified(&chars_of("unverified: empty commit or tag name in a reachable pair")));
        }
        assert(pairs@[k as int].0@.len() > 0 && pairs@[k as int].1@.len() > 0);
        let ghost before = pv.take(k as int);
        let ghost now = pv.take(k + 1);
        assert(now.drop_last() == before);
        assert(now.last() == (c@, t@));
        let ghost old_commits = commits.deep_view();
        let ghost old_sets = tagsets@;
        let (p, added) = insert_sorted(&mut commits, &c);
        assert(commits@.len() == commits.deep_view().len());
        if added {
            let mut fresh: Vec<Text> = Vec::new();
            fresh.push(crate::text::copy(&t));
            assert(fresh.deep_view() =~= seq![t@]);
            tagsets.insert(p, fresh);
            proof {
                assert(tagsets@[p as int].deep_view() == seq![t@]);
                assert(seq![t@].to_set() =~= Set::<Seq<char>>::empty().insert(t@)) by {
                    assert(seq![t@][0] == t@);
                }
                assert(tags_on(before, c@) =~= Set::empty()) by {
                    assert forall|x: Seq<char>| !tags_on(before, c@).contains(x) by {
                        if tags_on(before, c@).contains(x) {
                            let i = choose|i: int| 0 <= i < before.len() && #[trigger] before[i].0 == c@ && before[i].1 == x;
                            assert(commits_of(before).contains(c@));
                        }
                    }
                }
                assert(tagsets@[p as int].deep_view().to_set() == tags_on(before, c@).insert(t@));
            }
        } else {
            assert(strictly_sorted(tagsets@[p as int].deep_view()));
            assert(old_commits[p as int] == c@);
            let mut set = tagsets.remove(p);
            let ghost before_set = set.deep_view();
            assert(before_set.to_set() == tags_on(before, c@));
            insert_sorted(&mut set, &t);
            tagsets.insert(p, set);
            assert(tagsets@[p as int].deep_view().to_set() == tags_on(before, c@).insert(t@));
        }
        proof {
            assert(commits.deep_view().to_set() =~= commits_of(now)) by {
                assert forall|x: Seq<char>| commits_of(now).contains(x) <==> commits.deep_view().to_set().contains(x) by {
                    if commits_of(now).contains(x) && x != c@ {
                        let i = choose|i: int| 0 <= i < now.len() && #[trigger] now[i].0 == x;
                        assert(before[i] == now[i]);
                        assert(commits_of(before).contains(x));
                    }
                    if commits.deep_view().to_set().contains(x) && x != c@ {
                        assert(old_commits.to_set().contains(x));
                        let i = choose|i: int| 0 <= i < before.len() && #[trigger] before[i].0 == x;
                        assert(now[i] == before[i]);
                    }
                    if x == c@ {
                        assert(now[k as int].0 == x);
                    }
                }
            }
            assert forall|j: int| 0 <= j < tagsets@.len() implies strictly_sorted(#[trigger] tagsets@[j].deep_view())
                && tagsets@[j].deep_view().to_set() == tags_on(now, commits.deep_view()[j]) by {
                let cj = commits.deep_view()[j];
                let oj: int = if added && j > p { j - 1 } else { j };
                if !(j == p) {
                    assert(tagsets@[j] == old_sets[oj]);
                    assert(cj == old_commits[oj]);
                    assert(cj != c@) by { lemma_lt_irreflexive(c@); }
                    assert(tags_on(now, cj) =~= tags_on(before, cj)) by {
                        assert forall|x: Seq<char>| tags_on(now, cj).contains(x) <==> tags_on(before, cj).contains(x) by {
                            if tags_on(now, cj).contains(x) {
                                let i = choose|i: int| 0 <= i < now.len() && #[trigger] now[i].0 == cj && now[i].1 == x;
                                assert(before[i] == now[i]);
                            }
                            if tags_on(before, cj).contains(x) {
                                let i = choose|i: int| 0 <= i < before.len() && #[trigger] before[i].0 == cj && before[i].1 == x;
                                assert(now[i] == before[i]);
                            }
                        }
                    }
                } else {
                    assert(cj == c@);
                    if added {
                        assert(strictly_sorted(seq![t@]));
                    }
                    assert(tags_on(now, c@) =~= tags_on(before, c@).insert(t@)) by {
                        assert forall|x: Seq<char>| tags_on(now, c@).contains(x) <==> tags_on(before, c@).insert(t@).contains(x) by {
                            if tags_on(now, c@).contains(x) && x != t@ {
                                let i = choose|i: int| 0 <= i < now.len() && #[trigger] now[i].0 == c@ && now[i].1 == x;
                                assert(i < k);
                                assert(before[i] == now[i]);
                            }
                            if tags_on(before, c@).contains(x) {
                                let i = choose|i: int| 0 <= i < before.len() && #[trigger] before[i].0 == c@ && before[i].1 == x;
                                assert(now[i] == before[i]);
                            }
                            if x == t@ {
                                assert(now[k as int].0 == c@ && now[k as int].1 == x);
                            }
                        }
                    }
                }
            }
        }
        k = k + 1;
    }
    assert(pv.take(pv.len() as int) == pv);
    let mut groups: Vec<CommitTags> = Vec::new();
    let mut tagsets = tagsets;
    let mut i: usize = 0;
    let ghost all_sets = tagsets@;
    let n = commits.len();
    while i < n
        invariant
            n == commits@.len(),
            i <= n,
            tagsets@.len() + i == n,
            forall|j: int| 0 <= j < tagsets@.len() ==> #[trigger] tagsets@[j] == all_sets[j + i],
            groups@.len() == i,
            forall|j: int| 0 <= j < i ==> (#[trigger] groups@[j])@ == (commits.deep_view()[j], all_sets[j].deep_view()),
            strictly_sorted(commits.deep_view()),
            commits.deep_view().to_set() == commits_of(pv),
            all_sets.len() == n,
            forall|j: int| 0 <= j < n ==> strictly_sorted(#[trigger] all_sets[j].deep_view())
                && all_sets[j].deep_view().to_set() == tags_on(pv, commits.deep_view()[j]),
        decreases n - i,
    {
        let set = tagsets.remove(0);
        let strings = strings_of(&set);
        assert(set == all_sets[i as int]);
        let g = CommitTags { commit: string_of(&commits[i]), tags: strings };
        groups.push(g);
        i = i + 1;
    }
    proof {
        let gs = groups@.map_values(|g: CommitTags| g@);
        assert(gs.map_values(|g: (Seq<char>, Seq<Seq<char>>)| g.0) =~= commits.deep_view());
        assert forall|j: int| 0 <= j < gs.len() implies strictly_sorted(#[trigger] gs[j].1) && gs[j].1.to_set() == tags_on(pv, gs[j].0) by {
            assert(gs[j] == (commits.deep_view()[j], all_sets[j].deep_view()));
        }
    }
    Ok(groups)
}

// ---------------------------------------------------------------------------
// Remotes
// ---------------------------------------------------------------------------

/// The remote names `git remote` printed: trimmed, blank lines dropped.
pub open spec fn remote_names(ls: Seq<Seq<char>>) -> Seq<Seq<char>>
    decreases ls.len(),
{
    if ls.len() == 0 {
        Seq::empty()
    } else if trim(ls.last()).len() == 0 {
        remote_names(ls.drop_last())
    } else {
        remote_names(ls.drop_last()).push(trim(ls.last()))
    }
}

/// `origin` when it is among the remotes, else the first remote, else none.
pub open spec fn preferred_of(names: Seq<Seq<char>>) -> Option<Seq<char>> {
    if names.contains("origin"@) {
        Some("origin"@)
    } else if names.len() > 0 {
        Some(names[0])
    } else {
        None
    }
}

/// `origin` even when it is not listed first.
pub fn preferred_remote(stdout: &str) -> (r: Option<String>)
    ensures
        match preferred_of(remote_names(lines(stdout@))) {
            Some(n) => r matches Some(s) && s@ == n,
            None => r is None,
        },
{
    let s = chars_of(stdout);
    let ls = lines_of(&s);
    let ghost lv = ls.deep_view();
    let mut names: Vec<Text> = Vec::new();
    let mut i: usize = 0;
    while i < ls.len()
        invariant
            lv == ls.deep_view(),
            i <= lv.len(),
            names.deep_view() == remote_names(lv.take(i as int)),
        decreases lv.len() - i,
    {
        assert(lv.take(i + 1).drop_last() == lv.take(i as int));
        assert(lv.take(i + 1).last() == ls[i as int]@);
        let t = trimmed(&ls[i]);
        if t.len() > 0 {
            let ghost before = names.deep_view();
            names.push(t);
            assert(names.deep_view() =~= before.push(t@));
        }
        i = i + 1;
    }
    assert(lv.take(lv.len() as int) == lv);
    assert(lv == lines(stdout@));
    let mut j: usize = 0;
    while j < names.len()
        invariant
            names.deep_view() == remote_names(lines(stdout@)),
            j <= names@.len(),
            forall|k: int| 0 <= k < j ==> names.deep_view()[k] != "origin"@,
        decreases names@.len() - j,
    {
        if is(&names[j], "origin") {
            assert(names.deep_view()[j as int] == "origin"@);
            return Some(string_of(&names[j]));
        }
        j = j + 1;
    }
    if names.len() > 0 {
        Some(string_of(&names[0]))
    } else {
        None
    }
}

// ---------------------------------------------------------------------------
// ls-remote
// ---------------------------------------------------------------------------

/// One `ls-remote` line as `(tag name, sha, peeled)`, or the detail of its
/// refusal. A peeled `^{}` line names the commit an annotated tag points at.
pub open spec fn ls_remote_line(line: Seq<char>) -> Result<(Seq<char>, Seq<char>, bool), Seq<char>> {
    match split_once(line, '\t') {
        None => Err("unverified: unparseable ls-remote line "@ + debug_str(line)),
        Some((sha, reference)) => match strip_prefix(reference, "refs/tags/"@) {
            None => Err("unverified: ls-remote ref is not a tag: "@ + debug_str(reference)),
            Some(name) => match strip_suffix(name, "^{}"@) {
                Some(peeled) => if peeled.len() == 0 {
                    Err("unverified: ls-remote advertised an empty tag name"@)
                } else {
                    Ok((peeled, sha, true))
                },
                None => if name.len() == 0 {
                    Err("unverified: ls-remote advertised an empty tag name"@)
                } else {
                    Ok((name, sha, false))
                },
            },
        },
    }
}

/// Every non-empty line parsed, or the first refusal.
pub open spec fn ls_remote_lines(ls: Seq<Seq<char>>) -> Result<Seq<(Seq<char>, Seq<char>, bool)>, Seq<char>>
    decreases ls.len(),
{
    if ls.len() == 0 {
        Ok(Seq::empty())
    } else {
        match ls_remote_lines(ls.drop_last()) {
            Err(e) => Err(e),
            Ok(es) => if ls.last().len() == 0 {
                Ok(es)
            } else {
                match ls_remote_line(ls.last()) {
                    Ok(e) => Ok(es.push(e)),
                    Err(e) => Err(e),
                }
            },
        }
    }
}

/// The commit each advertised tag names: a peeled line wins, a plain line
/// counts only for a tag nothing else has named yet.
pub open spec fn advertised(es: Seq<(Seq<char>, Seq<char>, bool)>) -> Map<Seq<char>, Seq<char>>
    decreases es.len(),
{
    if es.len() == 0 {
        Map::empty()
    } else {
        let m = advertised(es.drop_last());
        let e = es.last();
        if e.2 || !m.dom().contains(e.0) {
            m.insert(e.0, e.1)
        } else {
            m
        }
    }
}

fn parse_one_ls_remote(line: &[char]) -> (r: Result<(Text, Text, bool), Text>)
    ensures
        match ls_remote_line(line@) {
            Ok((n, c, p)) => r matches Ok((rn, rc, rp)) && rn@ == n && rc@ == c && rp == p,
            Err(d) => r matches Err(rd) && rd@ == d,
        },
{
    let (sha, reference) = match split_once_at(line, '\t') {
        Some(pair) => pair,
        None => {
            let mut d = chars_of("unverified: unparseable ls-remote line ");
            push_all(&mut d, &debug_text(line));
            return Err(d);
        },
    };
    let name = match strip_prefix_str(&reference, "refs/tags/") {
        Some(n) => n,
        None => {
            let mut d = chars_of("unverified: ls-remote ref is not a tag: ");
            push_all(&mut d, &debug_text(&reference));
            return Err(d);
        },
    };
    match strip_suffix_str(&name, "^{}") {
        Some(peeled) => {
            if peeled.len() == 0 {
                return Err(chars_of("unverified: ls-remote advertised an empty tag name"));
            }
            Ok((peeled, sha, true))
        },
        None => {
            if name.len() == 0 {
                return Err(chars_of("unverified: ls-remote advertised an empty tag name"));
            }
            Ok((name, sha, false))
        },
    }
}

/// The commit each advertised tag names, sorted by tag name. Peeled `^{}`
/// lines win so an annotated tag maps to the commit, not the tag object.
pub fn parse_ls_remote_tag_commits(stdout: &str) -> (r: Result<Vec<(String, String)>, CliError>)
    ensures
        match ls_remote_lines(lines(stdout@)) {
            Ok(es) => r matches Ok(v) && strictly_sorted(v@.map_values(|p: (String, String)| p.0@))
                && v@.map_values(|p: (String, String)| p.0@).to_set() == advertised(es).dom()
                && forall|i: int| 0 <= i < v@.len() ==> advertised(es)[(#[trigger] v@[i]).0@] == v@[i].1@,
            Err(d) => r matches Err(e) && unverified_with(e, d),
        },
{
    let s = chars_of(stdout);
    let ls = lines_of(&s);
    let ghost lv = ls.deep_view();
    let ghost mut es: Seq<(Seq<char>, Seq<char>, bool)> = Seq::empty();
    let mut names: Vec<Text> = Vec::new();
    let mut shas: Vec<Text> = Vec::new();
    let mut i: usize = 0;
    while i < ls.len()
        invariant
            lv == ls.deep_view(),
            lv == lines(stdout@),
            i <= lv.len(),
            ls_remote_lines(lv.take(i as int)) == Ok::<Seq<(Seq<char>, Seq<char>, bool)>, Seq<char>>(es),
            strictly_sorted(names.deep_view()),
            shas@.len() == names@.len(),
            names.deep_view().to_set() == advertised(es).dom(),
            forall|j: int| 0 <= j < names@.len() ==> advertised(es)[#[trigger] names.deep_view()[j]] == shas@[j]@,
        decreases lv.len() - i,
    {
        assert(lv.take(i + 1).drop_last() == lv.take(i as int));
        assert(lv.take(i + 1).last() == ls[i as int]@);
        if ls[i].len() == 0 {
            i = i + 1;
            continue;
        }
        match parse_one_ls_remote(&ls[i]) {
            Ok((n, c, peeled)) => {
                let ghost old_names = names.deep_view();
                let ghost old_shas = shas@;
                let ghost old_es = es;
                let (p, added) = insert_sorted(&mut names, &n);
                assert(names@.len() == names.deep_view().len());
                if added {
                    shas.insert(p, c);
                } else if peeled {
                    shas.set(p, c);
                }
                proof {
                    es = es.push((n@, c@, peeled));
                    assert(es.drop_last() =~= old_es);
                    assert(old_names.to_set().contains(n@) == !added);
                    assert(names.deep_view().to_set() =~= advertised(es).dom());
                    assert forall|j: int| 0 <= j < names@.len() implies advertised(es)[#[trigger] names.deep_view()[j]] == shas@[j]@ by {
                        if added {
                            if j < p {
                                assert(names.deep_view()[j] == old_names[j]);
                                assert(old_names[j] != n@) by { lemma_lt_irreflexive(n@); }
                            } else if j > p {
                                assert(names.deep_view()[j] == old_names[j - 1]);
                                assert(old_names[j - 1] != n@) by { lemma_lt_irreflexive(n@); }
                            }
                        } else if j != p {
                            assert(names.deep_view()[j] == old_names[j]);
                            assert(old_names[j] != old_names[p as int]) by { lemma_lt_irreflexive(old_names[j]); }
                        }
                    }
                }
            },
            Err(d) => {
                proof {
                    lemma_ls_remote_error_sticks(lv, (i + 1) as int);
                }
                return Err(unverified(&d));
            },
        }
        i = i + 1;
    }
    assert(lv.take(lv.len() as int) == lv);
    let mut out: Vec<(String, String)> = Vec::new();
    let mut j: usize = 0;
    while j < names.len()
        invariant
            lv == lines(stdout@),
            ls_remote_lines(lv) == Ok::<Seq<(Seq<char>, Seq<char>, bool)>, Seq<char>>(es),
            strictly_sorted(names.deep_view()),
            names.deep_view().to_set() == advertised(es).dom(),
            forall|k: int| 0 <= k < names@.len() ==> advertised(es)[#[trigger] names.deep_view()[k]] == shas@[k]@,
            j <= names@.len(),
            shas@.len() == names@.len(),
            out@.len() == j,
            forall|k: int| 0 <= k < j ==> (#[trigger] out@[k]).0@ == names.deep_view()[k] && out@[k].1@ == shas@[k]@,
        decreases names@.len() - j,
    {
        out.push((string_of(&names[j]), string_of(&shas[j])));
        j = j + 1;
    }
    assert(out@.map_values(|p: (String, String)| p.0@) =~= names.deep_view());
    assert forall|i: int| 0 <= i < out@.len() implies advertised(es)[(#[trigger] out@[i]).0@] == out@[i].1@ by {
        assert(names.deep_view()[i] == out@[i].0@);
    }
    Ok(out)
}

proof fn lemma_ls_remote_error_sticks(ls: Seq<Seq<char>>, i: int)
    requires
        0 <= i <= ls.len(),
        ls_remote_lines(ls.take(i)) is Err,
    ensures
        ls_remote_lines(ls) == ls_remote_lines(ls.take(i)),
    decreases ls.len() - i,
{
    if i < ls.len() {
        assert(ls.take(i + 1).drop_last() == ls.take(i));
        lemma_ls_remote_error_sticks(ls, i + 1);
    } else {
        assert(ls.take(i) == ls);
    }
}

/// The advertised tag names, sorted. Peeled suffixes are stripped so a
/// peeled-only listing still yields the name.
pub fn parse_ls_remote_tags(stdout: &str) -> (r: Result<Vec<String>, CliError>)
    ensures
        match ls_remote_lines(lines(stdout@)) {
            Ok(es) => r matches Ok(v) && strictly_sorted(v.deep_view()) && v.deep_view().to_set() == advertised(es).dom(),
            Err(d) => r matches Err(e) && unverified_with(e, d),
        },
{
    let table = parse_ls_remote_tag_commits(stdout)?;
    let mut out: Vec<String> = Vec::new();
    let mut j: usize = 0;
    while j < table.len()
        invariant
            j <= table@.len(),
            out@.len() == j,
            forall|k: int| 0 <= k < j ==> (#[trigger] out@[k])@ == table@[k].0@,
        decreases table@.len() - j,
    {
        out.push(table[j].0.clone());
        j = j + 1;
    }
    assert(out.deep_view() =~= table@.map_values(|p: (String, String)| p.0@));
    Ok(out)
}

/// The shallow-clone refusal, read off `rev-parse --is-shallow-repository`.
pub fn refuse_shallow(stdout: &str) -> (r: Result<(), CliError>)
    ensures
        match shallow_answer(stdout@) {
            Ok(true) => r matches Err(e) && unverified_with(e, "unverified: shallow clone; fetch full history before reading tags"@),
            Ok(false) => r is Ok,
            Err(d) => r matches Err(e) && unverified_with(e, d),
        },
{
    if parse_is_shallow(stdout)? {
        return Err(unverified(&chars_of("unverified: shallow clone; fetch full history before reading tags")));
    }
    Ok(())
}

/// The refusal for a clone that does not fetch tags, naming the commands
/// that put it right.
pub open spec fn suppression_refusal(remote: Seq<char>) -> Seq<char> {
    let key = quoted_for_shell("remote."@ + remote + ".tagOpt"@);
    let name = quoted_for_shell(remote);
    "unverified: remote "@ + debug_str(remote)
        + " is configured with tagOpt --no-tags, so this clone does not fetch tags; run `git config --replace-all "@
        + key + " --tags`, then `git fetch --tags -- "@ + name + "` before reading tags"@ + (
    if key.contains('\'') || name.contains('\'') {
        " (commands use POSIX shell quoting; adapt for cmd.exe or PowerShell)"@
    } else {
        Seq::empty()
    })
}

/// The refusal for a remote whose effective `tagOpt` is `--no-tags`, read off
/// `git config --get-regexp` output; `Ok` when no remote suppresses tags.
pub fn refuse_suppressed(stdout: &str) -> (r: Result<(), CliError>)
    ensures
        match tagopt_lines(lines(stdout@)) {
            Ok(ps) => match r {
                Ok(_) => forall|k: Seq<char>| #[trigger] effective(ps).dom().contains(k) ==> effective(ps)[k] != "--no-tags"@,
                Err(e) => exists|n: Seq<char>| first_suppressing(effective(ps), n) && unverified_with(e, suppression_refusal(n)),
            },
            Err(d) => r matches Err(e) && unverified_with(e, d),
        },
{
    let remote = match parse_tag_suppression(stdout)? {
        Some(remote) => remote,
        None => return Ok(()),
    };
    let rc = chars_of(remote.as_str());
    let mut key_raw = chars_of("remote.");
    push_all(&mut key_raw, &rc);
    push_str(&mut key_raw, ".tagOpt");
    let key = chars_of(shell_quote(string_of(&key_raw).as_str()).as_str());
    let name = chars_of(shell_quote(remote.as_str()).as_str());
    let mut d = chars_of("unverified: remote ");
    push_all(&mut d, &debug_text(&rc));
    push_str(&mut d, " is configured with tagOpt --no-tags, so this clone does not fetch tags; run `git config --replace-all ");
    push_all(&mut d, &key);
    push_str(&mut d, " --tags`, then `git fetch --tags -- ");
    push_all(&mut d, &name);
    push_str(&mut d, "` before reading tags");
    if crate::text::has_char(&key, '\'') || crate::text::has_char(&name, '\'') {
        push_str(&mut d, " (commands use POSIX shell quoting; adapt for cmd.exe or PowerShell)");
    }
    Err(unverified(&d))
}

/// What the grouped answer to `for-each-ref` output `records` is: the
/// groups of its pairs, or the refusal of its first bad record.
pub open spec fn grouped_answer(records: Seq<char>, r: Result<Vec<CommitTags>, CliError>) -> bool {
    match ref_records(lines(records)) {
        Ok(ps) => (forall|i: int| 0 <= i < ps.len() ==> (#[trigger] ps[i]).0.len() > 0 && ps[i].1.len() > 0)
            && (r matches Ok(gs) && groups_of(gs@.map_values(|g: CommitTags| g@), ps)),
        Err(d) => r matches Err(e) && unverified_with(e, d),
    }
}

/// The reachable tags, grouped by commit, from `for-each-ref` output: the
/// last of the three reads, after the shallow and suppression refusals.
pub fn reachable_tags_from(records: &str) -> (r: Result<Vec<CommitTags>, CliError>)
    ensures
        grouped_answer(records@, r),
{
    let pairs = parse_ref_records(records)?;
    proof {
        lemma_records_nonempty(lines(records@));
        assert forall|i: int| 0 <= i < pairs@.len() implies #[trigger] pairs@[i].0@.len() > 0 && pairs@[i].1@.len() > 0 by {
            assert(pairs_view(pairs@)[i] == (pairs@[i].0@, pairs@[i].1@));
        }
    }
    group_pairs(pairs)
}

/// The git reads a tag look makes, in the order it makes them.
#[derive(Clone, Copy, Debug, PartialEq, Eq, Structural)]
pub enum TagRead {
    Shallow,
    Suppression,
    Records,
}

/// Where a tag look stands: the read to make next, or its answer.
#[derive(Debug)]
pub enum TagLook {
    Read(TagRead),
    Done(Result<Vec<CommitTags>, CliError>),
}

/// A tag look starts by asking whether the clone is shallow.
pub fn start_tag_look() -> (next: TagLook)
    ensures
        next == TagLook::Read(TagRead::Shallow),
{
    TagLook::Read(TagRead::Shallow)
}

/// After `rev-parse --is-shallow-repository`: a read that failed or a shallow
/// clone ends the look before any tag is read; otherwise the suppression read
/// comes next.
pub fn after_shallow_read(reply: Result<String, CliError>) -> (next: TagLook)
    ensures
        match reply {
            Err(e) => next == TagLook::Done(Err(e)),
            Ok(out) => match shallow_answer(out@) {
                Ok(false) => next == TagLook::Read(TagRead::Suppression),
                Ok(true) => next matches TagLook::Done(Err(e))
                    && unverified_with(e, "unverified: shallow clone; fetch full history before reading tags"@),
                Err(d) => next matches TagLook::Done(Err(e)) && unverified_with(e, d),
            },
        },
{
    match reply {
        Err(e) => TagLook::Done(Err(e)),
        Ok(out) => match refuse_shallow(out.as_str()) {
            Ok(()) => TagLook::Read(TagRead::Suppression),
            Err(e) => TagLook::Done(Err(e)),
        },
    }
}

/// After `config --get-regexp` for `tagOpt`: no such setting at all, or none
/// that suppresses tags, moves on to the tag read; a read that failed, a line
/// that does not parse, or a suppressing remote ends the look.
pub fn after_suppression_read(reply: Result<Option<String>, CliError>) -> (next: TagLook)
    ensures
        match reply {
            Err(e) => next == TagLook::Done(Err(e)),
            Ok(None) => next == TagLook::Read(TagRead::Records),
            Ok(Some(out)) => match tagopt_lines(lines(out@)) {
                Ok(ps) => match next {
                    TagLook::Read(r) => r == TagRead::Records
                        && forall|k: Seq<char>| #[trigger] effective(ps).dom().contains(k) ==> effective(ps)[k] != "--no-tags"@,
                    TagLook::Done(Err(e)) => exists|n: Seq<char>| first_suppressing(effective(ps), n) && unverified_with(e, suppression_refusal(n)),
                    TagLook::Done(Ok(_)) => false,
                },
                Err(d) => next matches TagLook::Done(Err(e)) && unverified_with(e, d),
            },
        },
{
    match reply {
        Err(e) => TagLook::Done(Err(e)),
        Ok(None) => TagLook::Read(TagRead::Records),
        Ok(Some(out)) => match refuse_suppressed(out.as_str()) {
            Ok(()) => TagLook::Read(TagRead::Records),
            Err(e) => TagLook::Done(Err(e)),
        },
    }
}

/// After `for-each-ref --merged HEAD`: the look is done, with the grouped
/// tags, or with the read's failure or its first bad record.
pub fn after_records_read(reply: Result<String, CliError>) -> (next: TagLook)
    ensures
        match reply {
            Err(e) => next == TagLook::Done(Err(e)),
            Ok(out) => next matches TagLook::Done(r) && grouped_answer(out@, r),
        },
{
    match reply {
        Err(e) => TagLook::Done(Err(e)),
        Ok(out) => TagLook::Done(reachable_tags_from(out.as_str())),
    }
}

/// Every record a parse yields names a non-empty commit and tag.
proof fn lemma_records_nonempty(ls: Seq<Seq<char>>)
    ensures
        ref_records(ls) matches Ok(ps) ==> forall|i: int| 0 <= i < ps.len() ==> (#[trigger] ps[i]).0.len() > 0 && ps[i].1.len() > 0,
    decreases ls.len(),
{
    if ls.len() > 0 {
        lemma_records_nonempty(ls.drop_last());
    }
}

} // verus!
