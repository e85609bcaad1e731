//! `CommonMark` fence state shared by the changelog reader and writer.
use vstd::prelude::*;

use crate::text::{chars_of, slice_of, string_of, trim, trimmed, Text};

verus! {

broadcast use crate::views::lemma_text_deep_view;

proof fn lemma_counts_nonnegative(s: Seq<char>, c: char)
    ensures
        lead_len(s) >= 0,
        lead_cols(s) >= 0,
        run_len(s, c) >= 0,
    decreases s.len(),
{
    if s.len() > 0 {
        lemma_counts_nonnegative(s.drop_first(), c);
    }
}

/// How many of the first characters of `s` are spaces or tabs.
pub open spec fn lead_len(s: Seq<char>) -> int
    decreases s.len(),
{
    if s.len() > 0 && (s[0] == ' ' || s[0] == '\t') {
        1 + lead_len(s.drop_first())
    } else {
        0
    }
}

/// The columns that leading whitespace occupies: a tab counts four.
pub open spec fn lead_cols(s: Seq<char>) -> int
    decreases s.len(),
{
    if s.len() > 0 && s[0] == ' ' {
        1 + lead_cols(s.drop_first())
    } else if s.len() > 0 && s[0] == '\t' {
        4 + lead_cols(s.drop_first())
    } else {
        0
    }
}

/// How many times `c` repeats at the start of `s`.
pub open spec fn run_len(s: Seq<char>, c: char) -> int
    decreases s.len(),
{
    if s.len() > 0 && s[0] == c {
        1 + run_len(s.drop_first(), c)
    } else {
        0
    }
}

/// The marker run of a fence line — its character, its length, and what
/// follows it — or `None` for indented or non-fence text.
pub open spec fn fence_run_of(line: Seq<char>) -> Option<(char, int, Seq<char>)> {
    let rest = line.skip(lead_len(line));
    if lead_cols(line) >= 4 || rest.len() == 0 || (rest[0] != '`' && rest[0] != '~') {
        None
    } else {
        let n = run_len(rest, rest[0]);
        if n >= 3 {
            Some((rest[0], n, rest.skip(n)))
        } else {
            None
        }
    }
}

/// A line that opens a block: a backtick opener's info string holds no backtick.
pub open spec fn opener_of(line: Seq<char>) -> Option<(char, int)> {
    match fence_run_of(line) {
        Some((c, n, info)) => if c == '`' && info.contains('`') {
            None
        } else {
            Some((c, n))
        },
        None => None,
    }
}

/// A line that can close a block: nothing but whitespace after the run.
pub open spec fn closer_of(line: Seq<char>) -> Option<(char, int)> {
    match fence_run_of(line) {
        Some((c, n, rest)) => if trim(rest).len() == 0 {
            Some((c, n))
        } else {
            None
        },
        None => None,
    }
}

/// Fence state as `CommonMark` defines it.
pub struct Fence {
    pub open: Option<(char, usize)>,
}

/// Whether `line`, seen while `open` is the state, closes the open block.
pub open spec fn closes(open: (char, usize), line: Seq<char>) -> bool {
    match closer_of(line) {
        Some((c, n)) => c == open.0 && n >= open.1,
        None => false,
    }
}

impl Default for Fence {
    fn default() -> (f: Fence)
        ensures
            f.open is None,
    {
        Fence { open: None }
    }
}

impl Fence {
    /// Records `line` and reports whether it belongs to a fenced block: the
    /// fence lines themselves and everything between them. A block left open
    /// runs to the end of the text.
    pub fn observe(&mut self, line: &str) -> (fenced: bool)
        ensures
            match old(self).open {
                None => match opener_of(line@) {
                    Some((c, n)) => fenced && final(self).open == Some((c, n as usize)),
                    None => !fenced && final(self).open is None,
                },
                Some(o) => fenced && final(self).open == (if closes(o, line@) {
                    None
                } else {
                    Some(o)
                }),
            },
    {
        let l = chars_of(line);
        let current = self.open;
        assert(current == old(self).open);
        if current.is_none() {
            let opened = fence_opener(&l);
            if opened.is_some() {
                self.open = opened;
                return true;
            }
            return false;
        }
        let (open_char, open_len) = current.unwrap();
        let closing = fence_closer(&l);
        if closing.is_some() {
            let (ch, len) = closing.unwrap();
            if ch == open_char && len >= open_len {
                self.open = None;
            }
        }
        true
    }
}

/// The marker run of a fence line, or `None` for indented or non-fence text.
pub fn fence_run_text(line: &[char]) -> (r: Option<(char, usize, Text)>)
    ensures
        match fence_run_of(line@) {
            Some((c, n, rest)) => r matches Some((rc, rn, rr)) && rc == c && rn == n && rr@ == rest,
            None => r is None,
        },
{
    let mut i: usize = 0;
    let mut columns: usize = 0;
    assert(line@.skip(0) == line@);
    while columns < 4 && i < line.len() && (line[i] == ' ' || line[i] == '\t')
        invariant
            i <= line@.len(),
            columns < 8,
            lead_len(line@) == i + lead_len(line@.skip(i as int)),
            lead_cols(line@) == columns + lead_cols(line@.skip(i as int)),
        decreases line@.len() - i,
    {
        assert(line@.skip(i as int).drop_first() == line@.skip(i + 1));
        if line[i] == ' ' {
            columns = columns + 1;
        } else {
            columns = columns + 4;
        }
        i = i + 1;
    }
    proof {
        if i < line@.len() {
            assert(line@.skip(i as int)[0] == line@[i as int]);
        }
    }
    proof {
        lemma_counts_nonnegative(line@.skip(i as int), ' ');
    }
    if columns >= 4 {
        return None;
    }
    let rest = slice_of(line, i, line.len());
    if rest.len() == 0 {
        return None;
    }
    let ch = rest[0];
    if ch != '`' && ch != '~' {
        return None;
    }
    let mut run: usize = 0;
    assert(rest@.skip(0) == rest@);
    while run < rest.len() && rest[run] == ch
        invariant
            run <= rest@.len(),
            run_len(rest@, ch) == run + run_len(rest@.skip(run as int), ch),
        decreases rest@.len() - run,
    {
        assert(rest@.skip(run as int).drop_first() == rest@.skip(run + 1));
        run = run + 1;
    }
    proof {
        if run < rest@.len() {
            assert(rest@.skip(run as int)[0] == rest@[run as int]);
        }
    }
    if run >= 3 {
        Some((ch, run, slice_of(&rest, run, rest.len())))
    } else {
        None
    }
}

/// The marker run of a fence line, or `None` for indented or non-fence text.
pub fn fence_run(line: &str) -> (r: Option<(char, usize, String)>)
    ensures
        match fence_run_of(line@) {
            Some((c, n, rest)) => r matches Some((rc, rn, rr)) && rc == c && rn == n && rr@ == rest,
            None => r is None,
        },
{
    let l = chars_of(line);
    match fence_run_text(&l) {
        Some((c, n, rest)) => Some((c, n, string_of(&rest))),
        None => None,
    }
}

fn fence_opener(line: &[char]) -> (r: Option<(char, usize)>)
    ensures
        match opener_of(line@) {
            Some((c, n)) => r matches Some((rc, rn)) && rc == c && rn == n,
            None => r is None,
        },
{
    match fence_run_text(line) {
        Some((ch, run, info)) => {
            if ch == '`' && crate::text::has_char(&info, '`') {
                None
            } else {
                Some((ch, run))
            }
        },
        None => None,
    }
}

fn fence_closer(line: &[char]) -> (r: Option<(char, usize)>)
    ensures
        match closer_of(line@) {
            Some((c, n)) => r matches Some((rc, rn)) && rc == c && rn == n,
            None => r is None,
        },
{
    match fence_run_text(line) {
        Some((ch, run, rest)) => {
            let t = trimmed(&rest);
            if t.len() == 0 {
                Some((ch, run))
            } else {
                None
            }
        },
        None => None,
    }
}

/// A line that opens a block, as its marker and run length.
pub fn opener(line: &str) -> (r: Option<(char, usize)>)
    ensures
        match opener_of(line@) {
            Some((c, n)) => r matches Some((rc, rn)) && rc == c && rn == n,
            None => r is None,
        },
{
    let l = chars_of(line);
    fence_opener(&l)
}

/// A line that can close a block, as its marker and run length.
pub fn closer(line: &str) -> (r: Option<(char, usize)>)
    ensures
        match closer_of(line@) {
            Some((c, n)) => r matches Some((rc, rn)) && rc == c && rn == n,
            None => r is None,
        },
{
    let l = chars_of(line);
    fence_closer(&l)
}

} // verus!
