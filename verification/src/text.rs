//! Text as sequences of characters: the specifications every parser and
//! renderer in this crate states its contract over, and their executable
//! counterparts on `Vec<char>`.
use vstd::prelude::*;
use vstd::slice::slice_subrange;
use vstd::slice::slice_to_vec;

verus! {

broadcast use crate::views::lemma_text_deep_view;

/// A run of characters, the working form of every string in this crate.
pub type Text = Vec<char>;

// ---------------------------------------------------------------------------
// Specifications
// ---------------------------------------------------------------------------

/// Unicode `White_Space`, the set `char::is_whitespace` answers for.
pub open spec fn is_space(c: char) -> bool {
    let u = c as u32;
    u == 0x09 || u == 0x0A || u == 0x0B || u == 0x0C || u == 0x0D || u == 0x20 || u == 0x85
        || u == 0xA0 || u == 0x1680 || (0x2000 <= u && u <= 0x200A) || u == 0x2028 || u == 0x2029
        || u == 0x202F || u == 0x205F || u == 0x3000
}

/// ASCII letters and digits.
pub open spec fn is_ascii_alnum(c: char) -> bool {
    let u = c as u32;
    (0x30 <= u && u <= 0x39) || (0x41 <= u && u <= 0x5A) || (0x61 <= u && u <= 0x7A)
}

/// `c` with an ASCII upper-case letter mapped to lower case.
pub open spec fn lower_char(c: char) -> char {
    let u = c as u32;
    if 0x41 <= u && u <= 0x5A {
        (u + 32) as char
    } else {
        c
    }
}

/// `str::to_ascii_lowercase`.
pub open spec fn lower(s: Seq<char>) -> Seq<char> {
    s.map_values(|c: char| lower_char(c))
}

/// `s` without its leading whitespace.
pub open spec fn trim_start(s: Seq<char>) -> Seq<char>
    decreases s.len(),
{
    if s.len() > 0 && is_space(s[0]) {
        trim_start(s.drop_first())
    } else {
        s
    }
}

/// `s` without its trailing whitespace.
pub open spec fn trim_end(s: Seq<char>) -> Seq<char>
    decreases s.len(),
{
    if s.len() > 0 && is_space(s.last()) {
        trim_end(s.drop_last())
    } else {
        s
    }
}

/// `str::trim`.
pub open spec fn trim(s: Seq<char>) -> Seq<char> {
    trim_end(trim_start(s))
}

/// `s` begins with `p`.
pub open spec fn starts_with(s: Seq<char>, p: Seq<char>) -> bool {
    p.len() <= s.len() && s.take(p.len() as int) == p
}

/// `s` ends with `p`.
pub open spec fn ends_with(s: Seq<char>, p: Seq<char>) -> bool {
    p.len() <= s.len() && s.skip(s.len() - p.len()) == p
}

/// `p` occurs in `s` at `i`.
pub open spec fn occurs_at(s: Seq<char>, p: Seq<char>, i: int) -> bool {
    0 <= i && i + p.len() <= s.len() && s.subrange(i, i + p.len()) == p
}

/// The first place from `i` on where `p` occurs in `s`.
pub open spec fn first_occurrence_from(s: Seq<char>, p: Seq<char>, i: int) -> Option<int>
    decreases s.len() + 1 - i,
{
    if i < 0 || i + p.len() > s.len() {
        None
    } else if occurs_at(s, p, i) {
        Some(i)
    } else {
        first_occurrence_from(s, p, i + 1)
    }
}

/// The first place `p` occurs in `s`, as `str::find` reports it.
pub open spec fn find(s: Seq<char>, p: Seq<char>) -> Option<int> {
    first_occurrence_from(s, p, 0)
}

/// `p` occurs somewhere in `s`.
pub open spec fn contains(s: Seq<char>, p: Seq<char>) -> bool {
    find(s, p) is Some
}

/// `s` with one `p` taken off its front, as `str::strip_prefix` does.
pub open spec fn strip_prefix(s: Seq<char>, p: Seq<char>) -> Option<Seq<char>> {
    if starts_with(s, p) {
        Some(s.skip(p.len() as int))
    } else {
        None
    }
}

/// `s` with one `p` taken off its end, as `str::strip_suffix` does.
pub open spec fn strip_suffix(s: Seq<char>, p: Seq<char>) -> Option<Seq<char>> {
    if ends_with(s, p) {
        Some(s.take(s.len() - p.len()))
    } else {
        None
    }
}

/// The pieces of `s` between occurrences of `c`, as `str::split(c)` yields
/// them: always at least one piece.
pub open spec fn split(s: Seq<char>, c: char) -> Seq<Seq<char>>
    decreases s.len(),
{
    if s.len() == 0 {
        seq![Seq::<char>::empty()]
    } else {
        let before = split(s.drop_last(), c);
        if s.last() == c {
            before.push(Seq::<char>::empty())
        } else {
            before.update(before.len() - 1, before.last().push(s.last()))
        }
    }
}

/// `str::split_once(c)`: the text before the first `c` and after it.
pub open spec fn split_once(s: Seq<char>, c: char) -> Option<(Seq<char>, Seq<char>)> {
    match find(s, seq![c]) {
        Some(i) => Some((s.take(i), s.skip(i + 1))),
        None => None,
    }
}

/// A line without the `\r` of a `\r\n` ending.
pub open spec fn strip_cr(line: Seq<char>) -> Seq<char> {
    if line.len() > 0 && line.last() == '\r' {
        line.drop_last()
    } else {
        line
    }
}

/// `str::lines`: split at `\n`, a `\r` before it dropped, and no empty line
/// after a final newline.
pub open spec fn lines(s: Seq<char>) -> Seq<Seq<char>> {
    let pieces = split(s, '\n');
    let n = pieces.len() - 1;
    let ended = Seq::new(n as nat, |i: int| strip_cr(pieces[i]));
    if pieces[n].len() == 0 {
        ended
    } else {
        ended.push(pieces[n])
    }
}

/// The pieces of `parts` with `sep` between each pair, as `[..].join(sep)`.
pub open spec fn join(parts: Seq<Seq<char>>, sep: Seq<char>) -> Seq<char>
    decreases parts.len(),
{
    if parts.len() == 0 {
        Seq::empty()
    } else if parts.len() == 1 {
        parts[0]
    } else {
        join(parts.drop_last(), sep) + sep + parts.last()
    }
}

/// The decimal digits of `n`, as `Display` writes an unsigned integer.
pub open spec fn decimal(n: nat) -> Seq<char>
    decreases n,
{
    if n < 10 {
        seq![digit(n)]
    } else {
        decimal(n / 10).push(digit(n % 10))
    }
}

/// The character for a digit below ten.
pub open spec fn digit(d: nat) -> char {
    (0x30 + d) as char
}

/// `text` between backticks.
pub open spec fn ticked(text: Seq<char>) -> Seq<char> {
    seq!['`'] + text + seq!['`']
}

/// Every element of `items` between backticks, comma-separated.
pub open spec fn ticked_list(items: Seq<Seq<char>>) -> Seq<char> {
    join(items.map_values(|t: Seq<char>| ticked(t)), ", "@)
}


/// The whitespace-separated words of `s`, as `str::split_whitespace` yields
/// them.
pub open spec fn words(s: Seq<char>) -> Seq<Seq<char>>
    decreases s.len(),
{
    if s.len() == 0 {
        Seq::empty()
    } else {
        let w = words(s.drop_last());
        let c = s.last();
        if is_space(c) {
            w
        } else if s.len() >= 2 && !is_space(s[s.len() - 2]) {
            w.update(w.len() - 1, w.last().push(c))
        } else {
            w.push(seq![c])
        }
    }
}

/// The pieces of `s` between the characters `set` holds, as `str::split`
/// with a set of characters yields them.
pub open spec fn split_set(s: Seq<char>, set: Seq<char>) -> Seq<Seq<char>>
    decreases s.len(),
{
    if s.len() == 0 {
        seq![Seq::<char>::empty()]
    } else {
        let before = split_set(s.drop_last(), set);
        if set.contains(s.last()) {
            before.push(Seq::<char>::empty())
        } else {
            before.update(before.len() - 1, before.last().push(s.last()))
        }
    }
}

/// `s` without the leading and trailing characters `set` holds.
pub open spec fn trim_set(s: Seq<char>, set: Seq<char>) -> Seq<char>
    decreases s.len(),
{
    if s.len() > 0 && set.contains(s[0]) {
        trim_set(s.drop_first(), set)
    } else if s.len() > 0 && set.contains(s.last()) {
        trim_set(s.drop_last(), set)
    } else {
        s
    }
}

pub fn trimmed_set(s: &[char], set: &[char]) -> (out: Text)
    ensures
        out@ == trim_set(s@, set@),
    decreases s@.len(),
{
    if s.len() > 0 && has_char(set, s[0]) {
        assert(set@.contains(s@[0]));
        return trimmed_set(&slice_of(s, 1, s.len()), set);
    }
    if s.len() > 0 && has_char(set, s[s.len() - 1]) {
        assert(set@.contains(s@.last()));
        return trimmed_set(&slice_of(s, 0, s.len() - 1), set);
    }
    copy(s)
}

/// Where the token starting at `i` ends.
pub open spec fn token_end(t: Seq<char>, i: int) -> int
    decreases t.len() - i,
{
    if i >= t.len() || is_space(t[i]) {
        i
    } else {
        token_end(t, i + 1)
    }
}


/// Where the last `c` of `s` is.
pub open spec fn last_index_of(s: Seq<char>, c: char) -> Option<int>
    decreases s.len(),
{
    if s.len() == 0 {
        None
    } else if s.last() == c {
        Some(s.len() - 1)
    } else {
        last_index_of(s.drop_last(), c)
    }
}

// ---------------------------------------------------------------------------
// Lemmas
// ---------------------------------------------------------------------------

pub proof fn lemma_split_len(s: Seq<char>, c: char)
    ensures
        split(s, c).len() >= 1,
    decreases s.len(),
{
    if s.len() > 0 {
        lemma_split_len(s.drop_last(), c);
    }
}


/// Where a search from `i` lands lies at or after `i`, with `p` there.
pub proof fn lemma_first_occurrence(s: Seq<char>, p: Seq<char>, i: int)
    ensures
        first_occurrence_from(s, p, i) matches Some(j) ==> i <= j && occurs_at(s, p, j) && j + p.len() <= s.len(),
    decreases s.len() + 1 - i,
{
    if !(i < 0 || i + p.len() > s.len()) && !occurs_at(s, p, i) {
        lemma_first_occurrence(s, p, i + 1);
    }
}

/// A search from at or before an occurrence finds one.
pub proof fn lemma_occurrence_found(s: Seq<char>, p: Seq<char>, i: int, k: int)
    requires
        0 <= i <= k,
        occurs_at(s, p, k),
    ensures
        first_occurrence_from(s, p, i) is Some,
    decreases k - i,
{
    if !occurs_at(s, p, i) {
        lemma_occurrence_found(s, p, i + 1, k);
    }
}

/// A word that ends at the end of `s` makes `words(s)` non-empty.
pub proof fn lemma_words_nonempty(s: Seq<char>)
    ensures
        s.len() > 0 && !is_space(s.last()) ==> words(s).len() > 0,
    decreases s.len(),
{
    if s.len() > 0 {
        lemma_words_nonempty(s.drop_last());
    }
}

pub proof fn lemma_split_set_len(s: Seq<char>, set: Seq<char>)
    ensures
        split_set(s, set).len() >= 1,
    decreases s.len(),
{
    if s.len() > 0 {
        lemma_split_set_len(s.drop_last(), set);
    }
}


/// Trimming never lengthens a run.
pub proof fn lemma_trim_len(s: Seq<char>)
    ensures
        trim_start(s).len() <= s.len(),
        trim_end(s).len() <= s.len(),
        trim(s).len() <= s.len(),
    decreases s.len(),
{
    if s.len() > 0 {
        lemma_trim_len(s.drop_first());
        lemma_trim_len(s.drop_last());
    }
    lemma_trim_end_len(trim_start(s));
}

proof fn lemma_trim_end_len(s: Seq<char>)
    ensures
        trim_end(s).len() <= s.len(),
    decreases s.len(),
{
    if s.len() > 0 {
        lemma_trim_end_len(s.drop_last());
    }
}

// ---------------------------------------------------------------------------
// Executable counterparts
// ---------------------------------------------------------------------------

/// The characters of `s`, in order.
pub fn chars_of(s: &str) -> (out: Text)
    ensures
        out@ == s@,
{
    let mut out: Vec<char> = Vec::new();
    for c in it: s.chars()
        invariant
            out@ == it.seq().take(it.index() as int),
    {
        out.push(c);
    }
    out
}

/// The string holding exactly `chars`. Wraps `FromIterator<&char>` for
/// `String`, which collects the characters in order.
#[verifier::external_body]
pub(crate) fn string_of(chars: &[char]) -> (out: String)
    ensures
        out@ == chars@,
{
    chars.iter().collect()
}

/// How `Debug` writes a string: quoted, with escapes.
pub uninterp spec fn debug_str(s: Seq<char>) -> Seq<char>;

/// `s` as `{:?}` formats a `str`. Wraps `format!`; the contract names the
/// result, which depends on `s` alone.
#[verifier::external_body]
pub(crate) fn debug_quoted(s: &str) -> (out: String)
    ensures
        out@ == debug_str(s@),
{
    format!("{s:?}")
}

/// `s` as `{:?}` formats it, as characters.
pub fn debug_text(s: &[char]) -> (out: Text)
    ensures
        out@ == debug_str(s@),
{
    let st = string_of(s);
    let d = debug_quoted(st.as_str());
    chars_of(d.as_str())
}

/// A copy of `s`.
pub fn copy(s: &[char]) -> (out: Text)
    ensures
        out@ == s@,
{
    slice_to_vec(s)
}

/// `s[from..to]`, copied.
pub fn slice_of(s: &[char], from: usize, to: usize) -> (out: Text)
    requires
        from <= to <= s@.len(),
    ensures
        out@ == s@.subrange(from as int, to as int),
{
    slice_to_vec(slice_subrange(s, from, to))
}

/// `out` followed by `more`.
pub fn push_all(out: &mut Text, more: &[char])
    ensures
        final(out)@ == old(out)@ + more@,
{
    let ghost start = out@;
    let mut i: usize = 0;
    while i < more.len()
        invariant
            i <= more@.len(),
            out@ == start + more@.take(i as int),
        decreases more@.len() - i,
    {
        out.push(more[i]);
        i = i + 1;
        assert(out@ == start + more@.take(i as int));
    }
    assert(more@.take(more@.len() as int) == more@);
}

/// `out` followed by the characters of `more`.
pub fn push_str(out: &mut Text, more: &str)
    ensures
        final(out)@ == old(out)@ + more@,
{
    let chars = chars_of(more);
    push_all(out, &chars);
}

/// `char::is_whitespace`.
pub fn space(c: char) -> (b: bool)
    ensures
        b == is_space(c),
{
    let u = c as u32;
    u == 0x09 || u == 0x0A || u == 0x0B || u == 0x0C || u == 0x0D || u == 0x20 || u == 0x85
        || u == 0xA0 || u == 0x1680 || (0x2000 <= u && u <= 0x200A) || u == 0x2028 || u == 0x2029
        || u == 0x202F || u == 0x205F || u == 0x3000
}

/// `char::is_ascii_alphanumeric`.
pub fn ascii_alnum(c: char) -> (b: bool)
    ensures
        b == is_ascii_alnum(c),
{
    let u = c as u32;
    (0x30 <= u && u <= 0x39) || (0x41 <= u && u <= 0x5A) || (0x61 <= u && u <= 0x7A)
}

/// `char::to_ascii_lowercase`.
pub fn lower_one(c: char) -> (out: char)
    ensures
        out == lower_char(c),
{
    let u = c as u32;
    if 0x41 <= u && u <= 0x5A {
        let l: u32 = u + 32;
        assert(l <= 0x7A);
        char_from_ascii(l)
    } else {
        c
    }
}

/// The character with an ASCII code point.
fn char_from_ascii(u: u32) -> (c: char)
    requires
        u < 128,
    ensures
        c == u as char,
{
    let b: u8 = u as u8;
    b as char
}

/// `str::to_ascii_lowercase`.
pub fn to_lower(s: &[char]) -> (out: Text)
    ensures
        out@ == lower(s@),
{
    let mut out: Vec<char> = Vec::new();
    let mut i: usize = 0;
    while i < s.len()
        invariant
            i <= s@.len(),
            out@ == lower(s@.take(i as int)),
        decreases s@.len() - i,
    {
        let c = lower_one(s[i]);
        out.push(c);
        i = i + 1;
        assert(lower(s@.take(i as int)) =~= lower(s@.take(i - 1)).push(lower_char(s@[i - 1])));
    }
    assert(s@.take(s@.len() as int) == s@);
    out
}

/// Whether two runs hold the same characters.
pub fn same(a: &[char], b: &[char]) -> (r: bool)
    ensures
        r == (a@ == b@),
{
    if a.len() != b.len() {
        return false;
    }
    let mut i: usize = 0;
    while i < a.len()
        invariant
            a@.len() == b@.len(),
            i <= a@.len(),
            forall|j: int| 0 <= j < i ==> a@[j] == b@[j],
        decreases a@.len() - i,
    {
        if a[i] != b[i] {
            return false;
        }
        i = i + 1;
    }
    assert(a@ =~= b@);
    true
}

/// Whether `s` holds the characters of `lit`.
pub fn is(s: &[char], lit: &str) -> (r: bool)
    ensures
        r == (s@ == lit@),
{
    let l = chars_of(lit);
    same(s, &l)
}

/// Whether `p` occurs in `s` at `at`.
pub fn matches_at(s: &[char], p: &[char], at: usize) -> (r: bool)
    ensures
        r == occurs_at(s@, p@, at as int),
{
    if at > s.len() || p.len() > s.len() - at {
        return false;
    }
    let mut i: usize = 0;
    while i < p.len()
        invariant
            at <= s.len(),
            at + p@.len() <= s@.len(),
            i <= p@.len(),
            forall|j: int| 0 <= j < i ==> s@[at + j] == p@[j],
        decreases p@.len() - i,
    {
        if s[at + i] != p[i] {
            assert(s@.subrange(at as int, at + p@.len())[i as int] != p@[i as int]);
            return false;
        }
        i = i + 1;
    }
    assert(s@.subrange(at as int, at + p@.len()) =~= p@);
    true
}

/// `str::starts_with`.
pub fn begins(s: &[char], p: &[char]) -> (r: bool)
    ensures
        r == starts_with(s@, p@),
{
    let r = matches_at(s, p, 0);
    proof {
        if p@.len() <= s@.len() {
            assert(s@.subrange(0, p@.len() as int) == s@.take(p@.len() as int));
        }
    }
    r
}

/// `str::starts_with` with a literal.
pub fn begins_str(s: &[char], p: &str) -> (r: bool)
    ensures
        r == starts_with(s@, p@),
{
    let pc = chars_of(p);
    begins(s, &pc)
}

/// `str::ends_with`.
pub fn finishes(s: &[char], p: &[char]) -> (r: bool)
    ensures
        r == ends_with(s@, p@),
{
    if p.len() > s.len() {
        return false;
    }
    let at = s.len() - p.len();
    let r = matches_at(s, p, at);
    proof {
        assert(s@.subrange(at as int, at + p@.len()) == s@.skip(at as int));
    }
    r
}

/// `str::ends_with` with a literal.
pub fn finishes_str(s: &[char], p: &str) -> (r: bool)
    ensures
        r == ends_with(s@, p@),
{
    let pc = chars_of(p);
    finishes(s, &pc)
}

/// `str::find`: the first place `p` occurs in `s`.
pub fn find_in(s: &[char], p: &[char]) -> (r: Option<usize>)
    ensures
        r matches Some(i) ==> find(s@, p@) == Some(i as int) && occurs_at(s@, p@, i as int),
        r is None <==> find(s@, p@) is None,
{
    if p.len() > s.len() {
        return None;
    }
    let last = s.len() - p.len();
    let mut i: usize = 0;
    loop
        invariant
            last + p@.len() == s@.len(),
            i <= last,
            find(s@, p@) == first_occurrence_from(s@, p@, i as int),
        decreases last - i,
    {
        if matches_at(s, p, i) {
            return Some(i);
        }
        if i == last {
            assert(first_occurrence_from(s@, p@, i + 1) is None);
            return None;
        }
        i = i + 1;
    }
}

/// `str::find` with a literal.
pub fn find_str(s: &[char], p: &str) -> (r: Option<usize>)
    ensures
        r matches Some(i) ==> find(s@, p@) == Some(i as int) && occurs_at(s@, p@, i as int),
        r is None <==> find(s@, p@) is None,
{
    let pc = chars_of(p);
    find_in(s, &pc)
}

/// `str::split_once(c)`.
pub fn split_once_at(s: &[char], c: char) -> (r: Option<(Text, Text)>)
    ensures
        match split_once(s@, c) {
            Some((a, b)) => r matches Some((ra, rb)) && ra@ == a && rb@ == b,
            None => r is None,
        },
{
    let mut p: Text = Vec::new();
    p.push(c);
    assert(p@ == seq![c]);
    let f = find_in(s, &p);
    match f {
        Some(i) => {
            assert(find(s@, seq![c]) == Some(i as int));
            assert(occurs_at(s@, p@, i as int));
            assert(p@.len() == 1);
            let n = s.len();
            assert(i < n);
            let a = slice_of(s, 0, i);
            let b = slice_of(s, i + 1, n);
            Some((a, b))
        },
        None => {
            assert(find(s@, seq![c]) is None);
            None
        },
    }
}

/// `str::contains` with a literal.
pub fn has_str(s: &[char], p: &str) -> (r: bool)
    ensures
        r == contains(s@, p@),
{
    let pc = chars_of(p);
    let f = find_in(s, &pc);
    f.is_some()
}

/// Whether `c` occurs in `s`.
pub fn has_char(s: &[char], c: char) -> (r: bool)
    ensures
        r == s@.contains(c),
{
    let mut i: usize = 0;
    while i < s.len()
        invariant
            i <= s@.len(),
            forall|j: int| 0 <= j < i ==> s@[j] != c,
        decreases s@.len() - i,
    {
        if s[i] == c {
            return true;
        }
        i = i + 1;
    }
    false
}

/// `str::strip_prefix` with a literal.
pub fn strip_prefix_str(s: &[char], p: &str) -> (r: Option<Text>)
    ensures
        r matches Some(t) ==> strip_prefix(s@, p@) == Some(t@),
        r is None ==> strip_prefix(s@, p@) is None,
{
    let pc = chars_of(p);
    if begins(s, &pc) {
        Some(slice_of(s, pc.len(), s.len()))
    } else {
        None
    }
}

/// `str::strip_suffix` with a literal.
pub fn strip_suffix_str(s: &[char], p: &str) -> (r: Option<Text>)
    ensures
        r matches Some(t) ==> strip_suffix(s@, p@) == Some(t@),
        r is None ==> strip_suffix(s@, p@) is None,
{
    let pc = chars_of(p);
    if finishes(s, &pc) {
        Some(slice_of(s, 0, s.len() - pc.len()))
    } else {
        None
    }
}

/// Where the text of `s` starts once leading whitespace is skipped.
pub fn trim_start_at(s: &[char]) -> (i: usize)
    ensures
        i <= s@.len(),
        trim_start(s@) == s@.skip(i as int),
{
    let mut i: usize = 0;
    assert(s@.skip(0) == s@);
    while i < s.len() && space(s[i])
        invariant
            i <= s@.len(),
            trim_start(s@) == trim_start(s@.skip(i as int)),
        decreases s@.len() - i,
    {
        assert(s@.skip(i as int).drop_first() == s@.skip(i + 1));
        i = i + 1;
    }
    proof {
        if i < s@.len() {
            assert(s@.skip(i as int)[0] == s@[i as int]);
        }
    }
    i
}

/// Where the text of `s` ends once trailing whitespace is dropped.
pub fn trim_end_at(s: &[char]) -> (j: usize)
    ensures
        j <= s@.len(),
        trim_end(s@) == s@.take(j as int),
{
    let mut j: usize = s.len();
    assert(s@.take(j as int) == s@);
    while j > 0 && space(s[j - 1])
        invariant
            j <= s@.len(),
            trim_end(s@) == trim_end(s@.take(j as int)),
        decreases j,
    {
        assert(s@.take(j as int).drop_last() == s@.take(j - 1));
        j = j - 1;
    }
    j
}

/// `str::trim_start`.
pub fn trimmed_start(s: &[char]) -> (out: Text)
    ensures
        out@ == trim_start(s@),
{
    let i = trim_start_at(s);
    slice_of(s, i, s.len())
}

/// `str::trim_end`.
pub fn trimmed_end(s: &[char]) -> (out: Text)
    ensures
        out@ == trim_end(s@),
{
    let j = trim_end_at(s);
    slice_of(s, 0, j)
}

/// `str::trim`.
pub fn trimmed(s: &[char]) -> (out: Text)
    ensures
        out@ == trim(s@),
{
    let a = trimmed_start(s);
    trimmed_end(&a)
}

/// `str::split(c)`.
pub fn split_on(s: &[char], c: char) -> (out: Vec<Text>)
    ensures
        out.deep_view() == split(s@, c),
{
    let mut done: Vec<Text> = Vec::new();
    let mut cur: Text = Vec::new();
    let mut i: usize = 0;
    assert(s@.take(0) =~= Seq::<char>::empty());
    while i < s.len()
        invariant
            i <= s@.len(),
            done.deep_view().push(cur@) == split(s@.take(i as int), c),
        decreases s@.len() - i,
    {
        let ghost before = done.deep_view().push(cur@);
        assert(s@.take(i + 1).drop_last() == s@.take(i as int));
        proof {
            lemma_split_len(s@.take(i as int), c);
        }
        let ghost old_done = done.deep_view();
        if s[i] == c {
            let finished = cur;
            done.push(finished);
            assert(done.deep_view() =~= old_done.push(finished@));
            cur = Vec::new();
            assert(done.deep_view().push(cur@) =~= before.push(Seq::<char>::empty()));
        } else {
            cur.push(s[i]);
            assert(done.deep_view().push(cur@) =~= before.update(
                before.len() - 1,
                before.last().push(s@[i as int]),
            ));
        }
        i = i + 1;
    }
    assert(s@.take(s@.len() as int) == s@);
    let ghost old_done = done.deep_view();
    let ghost last = cur@;
    done.push(cur);
    assert(done.deep_view() =~= old_done.push(last));
    done
}

/// A line without the `\r` of a `\r\n` ending.
fn without_cr(line: Text) -> (out: Text)
    ensures
        out@ == strip_cr(line@),
{
    let mut line = line;
    if line.len() > 0 && line[line.len() - 1] == '\r' {
        line.pop();
    }
    line
}

/// `str::lines`.
pub fn lines_of(s: &[char]) -> (out: Vec<Text>)
    ensures
        out.deep_view() == lines(s@),
{
    let pieces = split_on(s, '\n');
    let ghost p = split(s@, '\n');
    proof {
        lemma_split_len(s@, '\n');
    }
    let n = pieces.len() - 1;
    let mut out: Vec<Text> = Vec::new();
    let mut i: usize = 0;
    while i < n
        invariant
            pieces.deep_view() == p,
            n == p.len() - 1,
            i <= n,
            out.deep_view() == Seq::new(i as nat, |k: int| strip_cr(p[k])),
        decreases n - i,
    {
        let piece = copy(&pieces[i]);
        assert(pieces[i as int]@ == p[i as int]);
        let line = without_cr(piece);
        let ghost old_out = out.deep_view();
        let ghost lv = line@;
        out.push(line);
        assert(out.deep_view() =~= old_out.push(lv));
        i = i + 1;
        assert(out.deep_view() =~= Seq::new(i as nat, |k: int| strip_cr(p[k])));
    }
    assert(pieces[n as int]@ == p[n as int]);
    if pieces[n].len() > 0 {
        let last = copy(&pieces[n]);
        let ghost old_out = out.deep_view();
        let ghost lv = last@;
        out.push(last);
        assert(out.deep_view() =~= old_out.push(lv));
    }
    out
}

/// `parts.join(sep)`.
pub fn joined(parts: &Vec<Text>, sep: &str) -> (out: Text)
    ensures
        out@ == join(parts.deep_view(), sep@),
{
    let sepc = chars_of(sep);
    let mut out: Text = Vec::new();
    let mut i: usize = 0;
    while i < parts.len()
        invariant
            i <= parts@.len(),
            sepc@ == sep@,
            out@ == join(parts.deep_view().take(i as int), sep@),
        decreases parts@.len() - i,
    {
        let ghost before = parts.deep_view().take(i as int);
        assert(parts.deep_view().take(i + 1).drop_last() == before);
        assert(parts.deep_view().take(i + 1).last() == parts[i as int]@);
        if i > 0 {
            push_all(&mut out, &sepc);
        } else {
            assert(before.len() == 0);
        }
        push_all(&mut out, &parts[i]);
        i = i + 1;
    }
    assert(parts.deep_view().take(parts@.len() as int) == parts.deep_view());
    out
}

/// The decimal digits of `n`.
pub fn decimal_of(n: usize) -> (out: Text)
    ensures
        out@ == decimal(n as nat),
{
    decimal_of_u64(n as u64)
}

/// The decimal digits of `n`.
pub fn decimal_of_u64(n: u64) -> (out: Text)
    ensures
        out@ == decimal(n as nat),
    decreases n,
{
    if n < 10 {
        let d = char_from_ascii((0x30 + n) as u32);
        let mut out: Text = Vec::new();
        out.push(d);
        assert(out@ =~= seq![digit(n as nat)]);
        out
    } else {
        let mut out = decimal_of_u64(n / 10);
        let d = char_from_ascii((0x30 + n % 10) as u32);
        out.push(d);
        out
    }
}

/// `text` between backticks.
pub fn tick(text: &[char]) -> (out: Text)
    ensures
        out@ == ticked(text@),
{
    let mut out: Text = Vec::new();
    out.push('`');
    push_all(&mut out, text);
    out.push('`');
    assert(out@ =~= ticked(text@));
    out
}

/// Every element of `items` between backticks, comma-separated.
pub fn tick_list(items: &Vec<Text>) -> (out: Text)
    ensures
        out@ == ticked_list(items.deep_view()),
{
    let mut ticked_items: Vec<Text> = Vec::new();
    let mut i: usize = 0;
    while i < items.len()
        invariant
            i <= items@.len(),
            ticked_items.deep_view() == items.deep_view().take(i as int).map_values(
                |t: Seq<char>| ticked(t),
            ),
        decreases items@.len() - i,
    {
        let t = tick(&items[i]);
        let ghost old_t = ticked_items.deep_view();
        let ghost tv = t@;
        ticked_items.push(t);
        assert(ticked_items.deep_view() =~= old_t.push(tv));
        i = i + 1;
        assert(ticked_items.deep_view() =~= items.deep_view().take(i as int).map_values(
            |t: Seq<char>| ticked(t),
        ));
    }
    assert(items.deep_view().take(items@.len() as int) == items.deep_view());
    joined(&ticked_items, ", ")
}

/// `str::find` from `from` on: the first place `p` occurs at or after it.
pub fn find_from(s: &[char], p: &[char], from: usize) -> (r: Option<usize>)
    ensures
        r matches Some(i) ==> first_occurrence_from(s@, p@, from as int) == Some(i as int),
        r is None <==> first_occurrence_from(s@, p@, from as int) is None,
{
    if from > s.len() || p.len() > s.len() - from {
        return None;
    }
    let last = s.len() - p.len();
    let mut i: usize = from;
    loop
        invariant
            last + p@.len() == s@.len(),
            from <= i <= last,
            first_occurrence_from(s@, p@, from as int) == first_occurrence_from(s@, p@, i as int),
        decreases last - i,
    {
        if matches_at(s, p, i) {
            return Some(i);
        }
        if i == last {
            assert(first_occurrence_from(s@, p@, i + 1) is None);
            return None;
        }
        i = i + 1;
    }
}

/// `str::find` from `from` on, with a literal.
pub fn find_str_from(s: &[char], p: &str, from: usize) -> (r: Option<usize>)
    ensures
        r matches Some(i) ==> first_occurrence_from(s@, p@, from as int) == Some(i as int),
        r is None <==> first_occurrence_from(s@, p@, from as int) is None,
{
    let pc = chars_of(p);
    find_from(s, &pc, from)
}

/// `str::split_whitespace`.
pub fn words_of(s: &[char]) -> (out: Vec<Text>)
    ensures
        out.deep_view() == words(s@),
{
    let mut done: Vec<Text> = Vec::new();
    let mut cur: Text = Vec::new();
    let mut i: usize = 0;
    assert(s@.take(0) =~= Seq::<char>::empty());
    while i < s.len()
        invariant
            i <= s@.len(),
            words(s@.take(i as int)) == (if cur@.len() > 0 { done.deep_view().push(cur@) } else { done.deep_view() }),
            cur@.len() > 0 <==> (i > 0 && !is_space(s@[i - 1])),
        decreases s@.len() - i,
    {
        let ghost t = s@.take(i + 1);
        assert(t.drop_last() == s@.take(i as int));
        assert(t.last() == s@[i as int]);
        proof {
            if i > 0 {
                assert(t[t.len() - 2] == s@[i - 1]);
                assert(s@.take(i as int).last() == s@[i - 1]);
                lemma_words_nonempty(s@.take(i as int));
            }
        }
        let ghost old_done = done.deep_view();
        if space(s[i]) {
            if cur.len() > 0 {
                let finished = cur;
                done.push(finished);
                assert(done.deep_view() =~= old_done.push(finished@));
                cur = Vec::new();
            }
        } else {
            let ghost old_cur = cur@;
            cur.push(s[i]);
            proof {
                if old_cur.len() > 0 {
                    assert(old_done.push(cur@) =~= old_done.push(old_cur).update(
                        old_done.len() as int,
                        old_done.push(old_cur).last().push(s@[i as int]),
                    ));
                } else {
                    assert(cur@ =~= seq![s@[i as int]]);
                }
            }
        }
        i = i + 1;
    }
    assert(s@.take(s@.len() as int) == s@);
    if cur.len() > 0 {
        let ghost old_done = done.deep_view();
        let ghost last = cur@;
        done.push(cur);
        assert(done.deep_view() =~= old_done.push(last));
    }
    done
}

/// `str::split` at every character `set` holds.
pub fn split_on_set(s: &[char], set: &[char]) -> (out: Vec<Text>)
    ensures
        out.deep_view() == split_set(s@, set@),
{
    let mut done: Vec<Text> = Vec::new();
    let mut cur: Text = Vec::new();
    let mut i: usize = 0;
    assert(s@.take(0) =~= Seq::<char>::empty());
    while i < s.len()
        invariant
            i <= s@.len(),
            done.deep_view().push(cur@) == split_set(s@.take(i as int), set@),
        decreases s@.len() - i,
    {
        let ghost before = done.deep_view().push(cur@);
        assert(s@.take(i + 1).drop_last() == s@.take(i as int));
        proof {
            lemma_split_set_len(s@.take(i as int), set@);
        }
        let ghost old_done = done.deep_view();
        if has_char(set, s[i]) {
            let finished = cur;
            done.push(finished);
            assert(done.deep_view() =~= old_done.push(finished@));
            cur = Vec::new();
            assert(done.deep_view().push(cur@) =~= before.push(Seq::<char>::empty()));
        } else {
            cur.push(s[i]);
            assert(done.deep_view().push(cur@) =~= before.update(
                before.len() - 1,
                before.last().push(s@[i as int]),
            ));
        }
        i = i + 1;
    }
    assert(s@.take(s@.len() as int) == s@);
    let ghost old_done = done.deep_view();
    let ghost last = cur@;
    done.push(cur);
    assert(done.deep_view() =~= old_done.push(last));
    done
}

/// Where the last `c` of `s` is.
pub fn last_index(s: &[char], c: char) -> (r: Option<usize>)
    ensures
        match last_index_of(s@, c) {
            Some(i) => r matches Some(j) && j == i && j < s@.len(),
            None => r is None,
        },
{
    let mut i = s.len();
    assert(s@.take(i as int) =~= s@);
    while i > 0 && s[i - 1] != c
        invariant
            i <= s@.len(),
            last_index_of(s@, c) == last_index_of(s@.take(i as int), c),
        decreases i,
    {
        assert(s@.take(i as int).drop_last() =~= s@.take(i - 1));
        i = i - 1;
    }
    if i == 0 {
        assert(s@.take(0) =~= Seq::<char>::empty());
        None
    } else {
        assert(s@.take(i as int).last() == s@[i - 1]);
        Some(i - 1)
    }
}

} // verus!
