//! Install pins: where a repository fixes the oakum version it installs, and
//! whether that is the version its configuration names.
//!
//! Workflows are read as text: a line that installs oakum (`cargo binstall`,
//! `cargo install`, or an install action's `tool:`) must name an exact
//! version; one that installs it without one, or with a range, is refused.
use vstd::prelude::*;

use crate::text::{
    chars_of, contains, find, first_occurrence_from, has_char, is_ascii_alnum, is_space, join,
    lemma_first_occurrence, lemma_trim_len, lower, slice_of, space, split_set, split_on_set,
    starts_with, strip_prefix, to_lower, trim, trim_end, trim_set, trim_start, trimmed,
    trimmed_end, trimmed_set, words, words_of, Text,
};
use crate::documents::{doc_get, doc_text, json_doc_of, read_json, read_toml, toml_doc_of, DocValue};
use crate::outcome::CliError;
use crate::versions::{parse_version, semver_parse, version_text, SemVer, VersionView};

verus! {

broadcast use crate::views::lemma_text_deep_view;

// ---------------------------------------------------------------------------
// Exact versions
// ---------------------------------------------------------------------------

/// The text a pin spells its version with: surrounding whitespace and one
/// leading `v` dropped.
pub open spec fn pin_text(raw: Seq<char>) -> Seq<char> {
    let t = trim(raw);
    if t.len() > 0 && t[0] == 'v' {
        t.drop_first()
    } else {
        t
    }
}

/// The exact version `raw` pins, if it pins one.
pub open spec fn pin_version(raw: Seq<char>) -> Option<VersionView> {
    semver_parse(pin_text(raw))
}

/// The exact version `raw` pins, if it pins one.
pub fn exact_pin(raw: &[char]) -> (r: Option<SemVer>)
    ensures
        match pin_version(raw@) {
            Some(v) => r matches Some(x) && x@ == v,
            None => r is None,
        },
{
    let t = trimmed(raw);
    let u = if t.len() > 0 && t[0] == 'v' {
        slice_of(&t, 1, t.len())
    } else {
        t
    };
    assert(u@ == pin_text(raw@));
    match parse_version(crate::text::string_of(&u).as_str()) {
        Ok(v) => Some(v),
        Err(_) => None,
    }
}

// ---------------------------------------------------------------------------
// Tokens
// ---------------------------------------------------------------------------

/// A character that continues a crate or tool name.
pub open spec fn word_char(c: char) -> bool {
    is_ascii_alnum(c) || c == '_' || c == '-'
}

/// Position `i` of `s` begins a token.
pub open spec fn starts_token(s: Seq<char>, i: int) -> bool {
    i <= 0 || !word_char(s[i - 1])
}

/// Position `i` of `s` ends a token.
pub open spec fn ends_token(s: Seq<char>, i: int) -> bool {
    i >= s.len() || !word_char(s[i])
}

fn is_word_char(c: char) -> (b: bool)
    ensures
        b == word_char(c),
{
    crate::text::ascii_alnum(c) || c == '_' || c == '-'
}

/// Whether `tok` occurs in `s` from `cursor` on as a whole token.
pub open spec fn present_from(s: Seq<char>, tok: Seq<char>, cursor: int) -> bool
    decreases s.len() + 1 - cursor,
{
    match first_occurrence_from(s, tok, cursor) {
        None => false,
        Some(start) => {
            proof {
                lemma_first_occurrence(s, tok, cursor);
            }
            (starts_token(s, start) && ends_token(s, start + tok.len())) || present_from(s, tok, start + 1)
        },
    }
}

/// Whether `tok` occurs in `s` as a whole token.
pub open spec fn token_present(s: Seq<char>, tok: Seq<char>) -> bool {
    present_from(s, tok, 0)
}

fn has_token(s: &[char], tok: &str) -> (b: bool)
    ensures
        b == token_present(s@, tok@),
{
    let t = chars_of(tok);
    let mut cursor: usize = 0;
    loop
        invariant
            t@ == tok@,
            cursor <= s@.len() + 1,
            token_present(s@, tok@) == present_from(s@, tok@, cursor as int),
        decreases s@.len() + 1 - cursor,
    {
        if cursor > s.len() {
            assert(first_occurrence_from(s@, tok@, cursor as int) is None);
            return false;
        }
        match crate::text::find_from(s, &t, cursor) {
            None => return false,
            Some(start) => {
                proof {
                    lemma_first_occurrence(s@, tok@, cursor as int);
                }
                let at_start = start == 0 || !is_word_char(s[start - 1]);
                let end = start + t.len();
                let at_end = end >= s.len() || !is_word_char(s[end]);
                if at_start && at_end {
                    return true;
                }
                if start >= s.len() {
                    assert(first_occurrence_from(s@, tok@, start + 1) is None);
                    assert(!present_from(s@, tok@, start + 1));
                    return false;
                }
                cursor = start + 1;
            },
        }
    }
}

/// The characters a version token stops at, besides whitespace.
pub open spec fn version_stop(c: char) -> bool {
    c == '"' || c == '\'' || c == ',' || c == ';' || c == '#' || c == '|' || c == '`' || c == ')'
        || c == ']'
}

/// `s` without its leading quotes.
pub open spec fn skip_quotes(s: Seq<char>) -> Seq<char>
    decreases s.len(),
{
    if s.len() > 0 && (s[0] == '"' || s[0] == '\'') {
        skip_quotes(s.drop_first())
    } else {
        s
    }
}

/// Where the version token at the front of `s` ends.
pub open spec fn stop_from(s: Seq<char>, i: int) -> int
    decreases s.len() - i,
{
    if i >= s.len() || is_space(s[i]) || version_stop(s[i]) {
        i
    } else {
        stop_from(s, i + 1)
    }
}

/// The version text at the front of `rest`: leading quotes skipped, up to
/// whitespace, a quote or shell punctuation.
pub open spec fn version_token(rest: Seq<char>) -> Seq<char> {
    let r = skip_quotes(rest);
    r.take(stop_from(r, 0))
}

proof fn lemma_stop_from(s: Seq<char>, i: int)
    requires
        0 <= i <= s.len(),
    ensures
        i <= stop_from(s, i) <= s.len(),
    decreases s.len() - i,
{
    if !(i >= s.len() || is_space(s[i]) || version_stop(s[i])) {
        lemma_stop_from(s, i + 1);
    }
}

fn version_token_of(rest: &[char]) -> (out: Text)
    ensures
        out@ == version_token(rest@),
{
    let mut i: usize = 0;
    assert(rest@.skip(0) == rest@);
    while i < rest.len() && (rest[i] == '"' || rest[i] == '\'')
        invariant
            i <= rest@.len(),
            skip_quotes(rest@) == skip_quotes(rest@.skip(i as int)),
        decreases rest@.len() - i,
    {
        assert(rest@.skip(i as int).drop_first() == rest@.skip(i + 1));
        i = i + 1;
    }
    proof {
        if i < rest@.len() {
            assert(rest@.skip(i as int)[0] == rest@[i as int]);
        }
    }
    let r = slice_of(rest, i, rest.len());
    assert(r@ == skip_quotes(rest@));
    let mut e: usize = 0;
    while e < r.len() && !space(r[e]) && !(r[e] == '"' || r[e] == '\'' || r[e] == ',' || r[e] == ';'
        || r[e] == '#' || r[e] == '|' || r[e] == '`' || r[e] == ')' || r[e] == ']')
        invariant
            e <= r@.len(),
            stop_from(r@, 0) == stop_from(r@, e as int),
        decreases r@.len() - e,
    {
        e = e + 1;
    }
    slice_of(&r, 0, e)
}

/// The punctuation around a crate name on a command line.
pub open spec fn crate_punct() -> Seq<char> {
    seq!['"', '\'', '(', ')', '[', ']', '{', '}', '`', ',', ';']
}

/// A command-line token without the punctuation around it.
pub open spec fn crate_token(t: Seq<char>) -> Seq<char> {
    trim_set(t, crate_punct())
}

fn crate_token_of(t: &[char]) -> (out: Text)
    ensures
        out@ == crate_token(t@),
{
    let mut p: Text = Vec::new();
    p.push('"');
    p.push('\'');
    p.push('(');
    p.push(')');
    p.push('[');
    p.push(']');
    p.push('{');
    p.push('}');
    p.push('`');
    p.push(',');
    p.push(';');
    assert(p@ =~= crate_punct());
    trimmed_set(t, &p)
}

// ---------------------------------------------------------------------------
// Comments and commands
// ---------------------------------------------------------------------------

/// Where a `#` outside quotes starts a comment, scanning from `i`.
pub open spec fn comment_from(line: Seq<char>, i: int, single: bool, double: bool) -> Option<int>
    decreases line.len() - i,
{
    if i < 0 || i >= line.len() {
        None
    } else if line[i] == '\'' && !double {
        comment_from(line, i + 1, !single, double)
    } else if line[i] == '"' && !single {
        comment_from(line, i + 1, single, !double)
    } else if line[i] == '#' && !single && !double {
        Some(i)
    } else {
        comment_from(line, i + 1, single, double)
    }
}

/// `line` cut at a `#` outside quotes, so `oakum@1.0.0 # pin` keeps the
/// version.
pub open spec fn strip_comment(line: Seq<char>) -> Seq<char> {
    match comment_from(line, 0, false, false) {
        Some(i) => trim_end(line.take(i)),
        None => line,
    }
}

proof fn lemma_comment_from(line: Seq<char>, i: int, single: bool, double: bool)
    ensures
        comment_from(line, i, single, double) matches Some(k) ==> 0 <= i <= k < line.len(),
    decreases line.len() - i,
{
    if !(i < 0 || i >= line.len()) {
        lemma_comment_from(line, i + 1, !single, double);
        lemma_comment_from(line, i + 1, single, !double);
        lemma_comment_from(line, i + 1, single, double);
    }
}

fn without_comment(line: &[char]) -> (out: Text)
    ensures
        out@ == strip_comment(line@),
{
    let mut single = false;
    let mut double = false;
    let mut i: usize = 0;
    while i < line.len()
        invariant
            i <= line@.len(),
            comment_from(line@, 0, false, false) == comment_from(line@, i as int, single, double),
        decreases line@.len() - i,
    {
        let c = line[i];
        if c == '\'' && !double {
            single = !single;
        } else if c == '"' && !single {
            double = !double;
        } else if c == '#' && !single && !double {
            return trimmed_end(&slice_of(line, 0, i));
        }
        i = i + 1;
    }
    crate::text::copy(line)
}

/// The command of a `run:` step line, if the line is one and it is not
/// empty.
pub open spec fn run_command(line: Seq<char>) -> Option<Seq<char>> {
    let t = trim(line);
    let l = lower(t);
    let n: int = if starts_with(l, "- run:"@) {
        6
    } else if starts_with(l, "run:"@) {
        4
    } else {
        -1
    };
    if n < 0 {
        None
    } else {
        let c = trim(t.skip(n));
        if c.len() == 0 {
            None
        } else {
            Some(c)
        }
    }
}

fn run_command_of(line: &[char]) -> (r: Option<Text>)
    ensures
        match run_command(line@) {
            Some(c) => r matches Some(x) && x@ == c,
            None => r is None,
        },
{
    let t = trimmed(line);
    let l = to_lower(&t);
    proof {
        reveal_strlit("- run:");
        reveal_strlit("run:");
        assert(l@.len() == t@.len());
    }
    let n: usize = if crate::text::begins_str(&l, "- run:") {
        6
    } else if crate::text::begins_str(&l, "run:") {
        4
    } else {
        return None;
    };
    let c = trimmed(&slice_of(&t, n, t.len()));
    if c.len() == 0 {
        None
    } else {
        Some(c)
    }
}

/// The first command separator in `s`: where it is and how long.
pub open spec fn first_separator(s: Seq<char>) -> Option<(int, int)> {
    match (find(s, "&&"@), find(s, ";"@)) {
        (Some(a), Some(b)) => if a <= b {
            Some((a, 2))
        } else {
            Some((b, 1))
        },
        (Some(a), None) => Some((a, 2)),
        (None, Some(b)) => Some((b, 1)),
        (None, None) => None,
    }
}

pub proof fn lemma_first_separator(s: Seq<char>)
    ensures
        first_separator(s) matches Some((i, n)) ==> 0 <= i && 1 <= n && i + n <= s.len(),
{
    lemma_first_occurrence(s, "&&"@, 0);
    lemma_first_occurrence(s, ";"@, 0);
    reveal_strlit("&&");
    reveal_strlit(";");
}

/// The commands of a shell line, split at `&&` and `;`, each trimmed.
pub open spec fn shell_segments(s: Seq<char>) -> Seq<Seq<char>>
    decreases s.len(),
{
    match first_separator(s) {
        Some((i, n)) => {
            proof {
                lemma_first_separator(s);
                lemma_trim_len(s.skip(i + n));
            }
            seq![trim(s.take(i))] + shell_segments(trim(s.skip(i + n)))
        },
        None => seq![trim(s)],
    }
}

fn separator_of(s: &[char]) -> (r: Option<(usize, usize)>)
    ensures
        match first_separator(s@) {
            Some((i, n)) => r matches Some((a, b)) && a == i && b == n,
            None => r is None,
        },
{
    let a = crate::text::find_str(s, "&&");
    let b = crate::text::find_str(s, ";");
    match (a, b) {
        (Some(a), Some(b)) => if a <= b {
            Some((a, 2))
        } else {
            Some((b, 1))
        },
        (Some(a), None) => Some((a, 2)),
        (None, Some(b)) => Some((b, 1)),
        (None, None) => None,
    }
}

fn shell_segments_of(command: &[char]) -> (out: Vec<Text>)
    ensures
        out.deep_view() == shell_segments(command@),
{
    let mut out: Vec<Text> = Vec::new();
    let mut rest = crate::text::copy(command);
    loop
        invariant
            shell_segments(command@) == out.deep_view() + shell_segments(rest@),
        decreases rest@.len(),
    {
        proof {
            lemma_first_separator(rest@);
        }
        match separator_of(&rest) {
            Some((i, n)) => {
                assert(first_separator(rest@) == Some((i as int, n as int)));
                let len = rest.len();
                assert(i + n <= len);
                let after: usize = i + n;
                let seg = trimmed(&slice_of(&rest, 0, i));
                let next = trimmed(&slice_of(&rest, after, len));
                proof {
                    lemma_trim_len(rest@.skip(i + n));
                }
                let ghost old_out = out.deep_view();
                let ghost sv = seg@;
                out.push(seg);
                assert(out.deep_view() =~= old_out.push(sv));
                assert(shell_segments(rest@) == seq![sv] + shell_segments(next@));
                assert(old_out + (seq![sv] + shell_segments(next@)) =~= old_out.push(sv) + shell_segments(next@));
                rest = next;
            },
            None => {
                let seg = trimmed(&rest);
                let ghost old_out = out.deep_view();
                let ghost sv = seg@;
                out.push(seg);
                assert(out.deep_view() =~= old_out + seq![sv]);
                return out;
            },
        }
    }
}

/// A command that only prints: `echo` or `printf`.
pub open spec fn is_echo_or_printf(seg: Seq<char>) -> bool {
    let t = lower(trim(seg));
    starts_with(t, "echo "@) || starts_with(t, "echo\""@) || starts_with(t, "echo'"@) || starts_with(
        t,
        "printf "@,
    )
}

fn echoes(seg: &[char]) -> (b: bool)
    ensures
        b == is_echo_or_printf(seg@),
{
    let t = to_lower(&trimmed(seg));
    crate::text::begins_str(&t, "echo ") || crate::text::begins_str(&t, "echo\"")
        || crate::text::begins_str(&t, "echo'") || crate::text::begins_str(&t, "printf ")
}

/// The value of a `tool:` line (or list item), if `t` is one.
pub open spec fn tool_value(t: Seq<char>) -> Option<Seq<char>> {
    match strip_prefix(t, "tool:"@) {
        Some(v) => Some(v),
        None => strip_prefix(t, "- tool:"@),
    }
}

fn tool_value_of(t: &[char]) -> (r: Option<Text>)
    ensures
        match tool_value(t@) {
            Some(v) => r matches Some(x) && x@ == v,
            None => r is None,
        },
{
    match crate::text::strip_prefix_str(t, "tool:") {
        Some(v) => Some(v),
        None => crate::text::strip_prefix_str(t, "- tool:"),
    }
}

/// A shell command that installs a crate.
pub open spec fn installs(seg: Seq<char>) -> bool {
    !is_echo_or_printf(seg) && (contains(seg, "binstall"@) || contains(seg, "cargo install"@))
}

/// Whether a workflow line installs oakum: an install action's `tool:`
/// naming oakum, or a `run:` command with `binstall` or `cargo install`
/// that is not only printed.
pub open spec fn is_install_line(line: Seq<char>) -> bool {
    let low = lower(line);
    match tool_value(trim(low)) {
        Some(tool) => token_present(tool, "oakum"@),
        None => match run_command(low) {
            None => false,
            Some(cmd) => runs_install(cmd),
        },
    }
}

/// Whether a `run:` command holds a command that installs a crate.
pub open spec fn runs_install(cmd: Seq<char>) -> bool {
    exists|k: int| 0 <= k < shell_segments(cmd).len() && installs(#[trigger] shell_segments(cmd)[k])
}

fn install_line(line: &[char]) -> (b: bool)
    ensures
        b == is_install_line(line@),
{
    let low = to_lower(line);
    if let Some(tool) = tool_value_of(&trimmed(&low)) {
        return has_token(&tool, "oakum");
    }
    let cmd = match run_command_of(&low) {
        None => return false,
        Some(c) => c,
    };
    let segs = shell_segments_of(&cmd);
    let ghost sv = segs.deep_view();
    let mut i: usize = 0;
    while i < segs.len()
        invariant
            sv == segs.deep_view(),
            sv == shell_segments(cmd@),
            low@ == lower(line@),
            tool_value(trim(lower(line@))) is None,
            run_command(lower(line@)) == Some(cmd@),
            i <= sv.len(),
            forall|k: int| 0 <= k < i ==> !installs(#[trigger] sv[k]),
        decreases sv.len() - i,
    {
        let s = &segs[i];
        if !echoes(s) && (crate::text::has_str(s, "binstall") || crate::text::has_str(s, "cargo install")) {
            assert(installs(sv[i as int]));
            assert(runs_install(cmd@));
            return true;
        }
        i = i + 1;
    }
    false
}

/// The segments of `segs` that do more than print.
pub open spec fn unechoed(segs: Seq<Seq<char>>) -> Seq<Seq<char>>
    decreases segs.len(),
{
    if segs.len() == 0 {
        Seq::empty()
    } else if is_echo_or_printf(segs.last()) {
        unechoed(segs.drop_last())
    } else {
        unechoed(segs.drop_last()).push(segs.last())
    }
}

/// The install commands of a line: each non-printing command of a `run:`
/// step, or the whole line otherwise.
pub open spec fn install_units(line: Seq<char>) -> Seq<Seq<char>> {
    match run_command(line) {
        None => seq![line],
        Some(c) => unechoed(shell_segments(c)),
    }
}

fn install_units_of(line: &[char]) -> (out: Vec<Text>)
    ensures
        out.deep_view() == install_units(line@),
{
    let cmd = match run_command_of(line) {
        None => {
            let mut out: Vec<Text> = Vec::new();
            out.push(crate::text::copy(line));
            assert(out.deep_view() =~= seq![line@]);
            return out;
        },
        Some(c) => c,
    };
    let segs = shell_segments_of(&cmd);
    let ghost sv = segs.deep_view();
    let mut out: Vec<Text> = Vec::new();
    let mut i: usize = 0;
    while i < segs.len()
        invariant
            sv == segs.deep_view(),
            i <= sv.len(),
            out.deep_view() == unechoed(sv.take(i as int)),
        decreases sv.len() - i,
    {
        assert(sv.take(i + 1).drop_last() == sv.take(i as int));
        assert(sv.take(i + 1).last() == sv[i as int]);
        if !echoes(&segs[i]) {
            let ghost old_out = out.deep_view();
            let s = crate::text::copy(&segs[i]);
            let ghost v = s@;
            out.push(s);
            assert(out.deep_view() =~= old_out.push(v));
        }
        i = i + 1;
    }
    assert(sv.take(sv.len() as int) == sv);
    out
}

// ---------------------------------------------------------------------------
// Version specs on an install command
// ---------------------------------------------------------------------------

/// The `oakum@<version>` specs of `line` from `cursor` on, each where
/// `oakum@` begins a token.
pub open spec fn at_specs_from(line: Seq<char>, cursor: int) -> Seq<Seq<char>>
    decreases line.len() + 1 - cursor,
{
    match first_occurrence_from(lower(line), "oakum@"@, cursor) {
        None => Seq::empty(),
        Some(start) => {
            proof {
                lemma_first_occurrence(lower(line), "oakum@"@, cursor);
                reveal_strlit("oakum@");
            }
            (if starts_token(line, start) {
                seq![version_token(line.skip(start + 6))]
            } else {
                Seq::empty()
            }) + at_specs_from(line, start + 6)
        },
    }
}

/// The `oakum@<version>` specs of `line`.
pub open spec fn oakum_at_specs(line: Seq<char>) -> Seq<Seq<char>> {
    at_specs_from(line, 0)
}

fn oakum_at_specs_of(line: &[char]) -> (out: Vec<Text>)
    ensures
        out.deep_view() == oakum_at_specs(line@),
{
    let low = to_lower(line);
    let mut out: Vec<Text> = Vec::new();
    let mut cursor: usize = 0;
    proof {
        reveal_strlit("oakum@");
    }
    loop
        invariant
            low@ == lower(line@),
            low@.len() == line@.len(),
            cursor <= line@.len() + 1,
            oakum_at_specs(line@) == out.deep_view() + at_specs_from(line@, cursor as int),
        decreases line@.len() + 1 - cursor,
    {
        if cursor > line.len() {
            assert(first_occurrence_from(lower(line@), "oakum@"@, cursor as int) is None);
            assert(out.deep_view() + Seq::<Seq<char>>::empty() =~= out.deep_view());
            return out;
        }
        match crate::text::find_str_from(&low, "oakum@", cursor) {
            None => {
                assert(out.deep_view() + Seq::<Seq<char>>::empty() =~= out.deep_view());
                return out;
            },
            Some(start) => {
                proof {
                    lemma_first_occurrence(lower(line@), "oakum@"@, cursor as int);
                    reveal_strlit("oakum@");
                }
                let ghost old_out = out.deep_view();
                let ghost next = at_specs_from(line@, start + 6);
                if start == 0 || !is_word_char(line[start - 1]) {
                    let v = version_token_of(&slice_of(line, start + 6, line.len()));
                    let ghost vv = v@;
                    out.push(v);
                    assert(out.deep_view() =~= old_out.push(vv));
                    assert(old_out + (seq![vv] + next) =~= out.deep_view() + next);
                } else {
                    assert(old_out + (Seq::<Seq<char>>::empty() + next) =~= old_out + next);
                }
                cursor = start + 6;
            },
        }
    }
}

/// The earlier of two optional positions.
pub open spec fn earlier(a: Option<int>, b: Option<int>) -> Option<int> {
    match (a, b) {
        (Some(x), Some(y)) => Some(if x <= y {
            x
        } else {
            y
        }),
        (Some(x), None) => Some(x),
        (None, Some(y)) => Some(y),
        (None, None) => None,
    }
}

/// Where an install command's arguments end: at the first `&&`, `;` or `|`.
pub open spec fn cut_at(rest: Seq<char>) -> int {
    match earlier(earlier(find(rest, "&&"@), find(rest, ";"@)), find(rest, "|"@)) {
        Some(i) => i,
        None => rest.len() as int,
    }
}

proof fn lemma_cut_at(rest: Seq<char>)
    ensures
        0 <= cut_at(rest) <= rest.len(),
{
    lemma_first_occurrence(rest, "&&"@, 0);
    lemma_first_occurrence(rest, ";"@, 0);
    lemma_first_occurrence(rest, "|"@, 0);
}

fn earlier_of(a: Option<usize>, b: Option<usize>) -> (r: Option<usize>)
    ensures
        earlier(
            match a {
                Some(x) => Some(x as int),
                None => None,
            },
            match b {
                Some(x) => Some(x as int),
                None => None,
            },
        ) == match r {
            Some(x) => Some(x as int),
            None => None::<int>,
        },
{
    match (a, b) {
        (Some(x), Some(y)) => Some(if x <= y {
            x
        } else {
            y
        }),
        (Some(x), None) => Some(x),
        (None, Some(y)) => Some(y),
        (None, None) => None,
    }
}

/// The arguments of an install command: `rest` up to [`cut_at`], trimmed.
pub open spec fn install_args(rest: Seq<char>) -> Seq<char> {
    trim(rest.take(cut_at(rest)))
}

fn install_args_of(rest: &[char]) -> (out: Text)
    ensures
        out@ == install_args(rest@),
{
    proof {
        lemma_cut_at(rest@);
    }
    let a = crate::text::find_str(rest, "&&");
    let b = crate::text::find_str(rest, ";");
    let c = crate::text::find_str(rest, "|");
    let e = match earlier_of(earlier_of(a, b), c) {
        Some(i) => i,
        None => rest.len(),
    };
    assert(e == cut_at(rest@));
    trimmed(&slice_of(rest, 0, e))
}

/// The value of a `--version=` or `--vers=` flag.
pub open spec fn version_flag_value(lw: Seq<char>) -> Option<Seq<char>> {
    match strip_prefix(lw, "--version="@) {
        Some(v) => Some(v),
        None => strip_prefix(lw, "--vers="@),
    }
}

fn version_flag_value_of(lw: &[char]) -> (r: Option<Text>)
    ensures
        match version_flag_value(lw@) {
            Some(v) => r matches Some(x) && x@ == v,
            None => r is None,
        },
{
    match crate::text::strip_prefix_str(lw, "--version=") {
        Some(v) => Some(v),
        None => crate::text::strip_prefix_str(lw, "--vers="),
    }
}

/// Whether `lw` is a bare `--version` or `--vers` flag.
pub open spec fn is_version_flag(lw: Seq<char>) -> bool {
    lw == "--version"@ || lw == "--vers"@
}

/// Whether the words from `i` on name oakum (`saw`) and no exact version
/// flag (`version`) follows; an `oakum@...` word is skipped, since it pins.
pub open spec fn unversioned_from(toks: Seq<Seq<char>>, i: int, saw: bool, version: bool) -> bool
    decreases toks.len() - i,
{
    if i < 0 || i >= toks.len() {
        saw && !version
    } else {
        let lw = lower(crate_token(toks[i]));
        if starts_with(lw, "oakum@"@) {
            unversioned_from(toks, i + 1, saw, version)
        } else if lw == "oakum"@ {
            unversioned_from(toks, i + 1, true, version)
        } else if version_flag_value(lw) is Some {
            unversioned_from(toks, i + 1, saw, pin_version(version_flag_value(lw)->0) is Some)
        } else if is_version_flag(lw) {
            if i + 1 < toks.len() {
                unversioned_from(toks, i + 2, saw, pin_version(crate_token(toks[i + 1])) is Some)
            } else {
                saw
            }
        } else {
            unversioned_from(toks, i + 1, saw, version)
        }
    }
}

/// Whether the arguments of an install command name oakum without an exact
/// `--version`.
pub open spec fn argv_unversioned(args: Seq<char>) -> bool {
    unversioned_from(words(args), 0, false, false)
}

fn argv_unversioned_of(args: &[char]) -> (b: bool)
    ensures
        b == argv_unversioned(args@),
{
    let toks = words_of(args);
    let ghost tv = toks.deep_view();
    let mut saw = false;
    let mut version = false;
    let mut i: usize = 0;
    while i < toks.len()
        invariant
            tv == toks.deep_view(),
            i <= tv.len(),
            argv_unversioned(args@) == unversioned_from(tv, i as int, saw, version),
        decreases tv.len() - i,
    {
        let lw = to_lower(&crate_token_of(&toks[i]));
        assert(toks[i as int]@ == tv[i as int]);
        if crate::text::begins_str(&lw, "oakum@") {
            i = i + 1;
        } else if crate::text::is(&lw, "oakum") {
            saw = true;
            i = i + 1;
        } else if let Some(spec) = version_flag_value_of(&lw) {
            version = exact_pin(&spec).is_some();
            i = i + 1;
        } else if crate::text::is(&lw, "--version") || crate::text::is(&lw, "--vers") {
            if i + 1 < toks.len() {
                assert(toks[i + 1]@ == tv[i + 1]);
                version = exact_pin(&crate_token_of(&toks[i + 1])).is_some();
                i = i + 2;
            } else {
                return saw;
            }
        } else {
            i = i + 1;
        }
    }
    saw && !version
}

/// Whether some `verb` from `search` on is followed by arguments that name
/// oakum without an exact version.
pub open spec fn unversioned_after(line: Seq<char>, verb: Seq<char>, search: int) -> bool
    decreases line.len() + 1 - search,
{
    if verb.len() == 0 {
        false
    } else {
        match first_occurrence_from(lower(line), verb, search) {
            None => false,
            Some(start) => {
                proof {
                    lemma_first_occurrence(lower(line), verb, search);
                }
                argv_unversioned(install_args(line.skip(start + verb.len())))
                    || unversioned_after(line, verb, start + verb.len())
            },
        }
    }
}

fn unversioned_after_of(line: &[char], verb: &str) -> (b: bool)
    requires
        verb@.len() > 0,
    ensures
        b == unversioned_after(line@, verb@, 0),
{
    let low = to_lower(line);
    let v = chars_of(verb);
    let mut search: usize = 0;
    loop
        invariant
            low@ == lower(line@),
            low@.len() == line@.len(),
            v@ == verb@,
            verb@.len() > 0,
            search <= line@.len() + 1,
            unversioned_after(line@, verb@, 0) == unversioned_after(line@, verb@, search as int),
        decreases line@.len() + 1 - search,
    {
        if search > line.len() {
            assert(first_occurrence_from(lower(line@), verb@, search as int) is None);
            return false;
        }
        match crate::text::find_from(&low, &v, search) {
            None => return false,
            Some(start) => {
                proof {
                    lemma_first_occurrence(lower(line@), verb@, search as int);
                }
                let after = start + v.len();
                if argv_unversioned_of(&install_args_of(&slice_of(line, after, line.len()))) {
                    return true;
                }
                search = after;
            },
        }
    }
}

/// Whether an install action's `tool:` line names oakum with no version.
pub open spec fn unversioned_tool_line(line: Seq<char>) -> bool {
    match tool_value(trim(lower(line))) {
        None => false,
        Some(tool) => names_oakum(tool_entries(tool)),
    }
}

/// Whether one of `parts` is the bare crate name `oakum`.
pub open spec fn names_oakum(parts: Seq<Seq<char>>) -> bool {
    exists|k: int| 0 <= k < parts.len() && crate_token(#[trigger] parts[k]) == "oakum"@
}

/// The entries of a `tool:` value, split at `,`, space and tab.
pub open spec fn tool_entries(tool: Seq<char>) -> Seq<Seq<char>> {
    split_set(tool, seq![',', ' ', '\t'])
}

fn unversioned_tool_line_of(line: &[char]) -> (b: bool)
    ensures
        b == unversioned_tool_line(line@),
{
    let tool = match tool_value_of(&trimmed(&to_lower(line))) {
        None => return false,
        Some(t) => t,
    };
    let mut set: Text = Vec::new();
    set.push(',');
    set.push(' ');
    set.push('\t');
    assert(set@ =~= seq![',', ' ', '\t']);
    let parts = split_on_set(&tool, &set);
    let ghost pv = parts.deep_view();
    let mut i: usize = 0;
    while i < parts.len()
        invariant
            pv == parts.deep_view(),
            pv == tool_entries(tool@),
            tool_value(trim(lower(line@))) == Some(tool@),
            i <= pv.len(),
            forall|k: int| 0 <= k < i ==> crate_token(#[trigger] pv[k]) != "oakum"@,
        decreases pv.len() - i,
    {
        assert(parts[i as int]@ == pv[i as int]);
        if crate::text::is(&crate_token_of(&parts[i]), "oakum") {
            assert(names_oakum(pv));
            return true;
        }
        i = i + 1;
    }
    false
}

/// Whether an install command installs oakum without an exact version.
pub open spec fn unversioned_install(unit: Seq<char>) -> bool {
    unversioned_tool_line(unit) || unversioned_after(unit, "binstall"@, 0) || unversioned_after(
        unit,
        "cargo install"@,
        0,
    )
}

fn unversioned_install_of(unit: &[char]) -> (b: bool)
    ensures
        b == unversioned_install(unit@),
{
    proof {
        reveal_strlit("binstall");
        reveal_strlit("cargo install");
    }
    unversioned_tool_line_of(unit) || unversioned_after_of(unit, "binstall") || unversioned_after_of(
        unit,
        "cargo install",
    )
}

/// The version the words from `i` on give oakum: an `oakum@...` word
/// settles it at once; otherwise the last `--version` flag counts, and only
/// once a bare `oakum` word was seen.
pub open spec fn version_spec_from(toks: Seq<Seq<char>>, i: int, saw: bool, version: Option<Seq<char>>) -> Option<Seq<char>>
    decreases toks.len() - i,
{
    if i < 0 || i >= toks.len() {
        if saw {
            version
        } else {
            None
        }
    } else {
        let t = crate_token(toks[i]);
        let lw = lower(t);
        if starts_with(lw, "oakum@"@) {
            Some(version_token(t.skip(6)))
        } else if lw == "oakum"@ {
            version_spec_from(toks, i + 1, true, version)
        } else if version_flag_value(lw) is Some {
            version_spec_from(toks, i + 1, saw, Some(version_token(t.skip(t.len() - version_flag_value(lw)->0.len()))))
        } else if is_version_flag(lw) && i + 1 < toks.len() {
            version_spec_from(toks, i + 2, saw, Some(version_token(trim_set(toks[i + 1], seq!['"', '\'']))))
        } else {
            version_spec_from(toks, i + 1, saw, version)
        }
    }
}

/// The version an install command's arguments give oakum.
pub open spec fn argv_version_spec(rest: Seq<char>) -> Option<Seq<char>> {
    version_spec_from(words(install_args(rest)), 0, false, None)
}

fn argv_version_spec_of(rest: &[char]) -> (r: Option<Text>)
    ensures
        match argv_version_spec(rest@) {
            Some(v) => r matches Some(x) && x@ == v,
            None => r is None,
        },
{
    let toks = words_of(&install_args_of(rest));
    let ghost tv = toks.deep_view();
    let mut saw = false;
    let mut version: Option<Text> = None;
    let mut quotes: Text = Vec::new();
    quotes.push('"');
    quotes.push('\'');
    assert(quotes@ =~= seq!['"', '\'']);
    let mut i: usize = 0;
    proof {
        reveal_strlit("oakum@");
    }
    while i < toks.len()
        invariant
            tv == toks.deep_view(),
            quotes@ == seq!['"', '\''],
            i <= tv.len(),
            argv_version_spec(rest@) == version_spec_from(tv, i as int, saw, match version {
                Some(v) => Some(v@),
                None => None,
            }),
        decreases tv.len() - i,
    {
        assert(toks[i as int]@ == tv[i as int]);
        let t = crate_token_of(&toks[i]);
        let lw = to_lower(&t);
        assert(lw@.len() == t@.len());
        proof {
            reveal_strlit("oakum@");
        }
        if crate::text::begins_str(&lw, "oakum@") {
            return Some(version_token_of(&slice_of(&t, 6, t.len())));
        } else if crate::text::is(&lw, "oakum") {
            saw = true;
            i = i + 1;
        } else if let Some(spec) = version_flag_value_of(&lw) {
            proof {
                reveal_strlit("--version=");
                reveal_strlit("--vers=");
            }
            version = Some(version_token_of(&slice_of(&t, t.len() - spec.len(), t.len())));
            i = i + 1;
        } else if (crate::text::is(&lw, "--version") || crate::text::is(&lw, "--vers")) && i + 1 < toks.len() {
            assert(toks[i + 1]@ == tv[i + 1]);
            version = Some(version_token_of(&trimmed_set(&toks[i + 1], &quotes)));
            i = i + 2;
        } else {
            i = i + 1;
        }
    }
    if saw {
        version
    } else {
        None
    }
}

/// The versions the `verb` commands of `line` from `search` on give oakum.
pub open spec fn command_specs_from(line: Seq<char>, verb: Seq<char>, search: int) -> Seq<Seq<char>>
    decreases line.len() + 1 - search,
{
    if verb.len() == 0 {
        Seq::empty()
    } else {
        match first_occurrence_from(lower(line), verb, search) {
            None => Seq::empty(),
            Some(start) => {
                proof {
                    lemma_first_occurrence(lower(line), verb, search);
                }
                (match argv_version_spec(line.skip(start + verb.len())) {
                    Some(v) => seq![v],
                    None => Seq::empty(),
                }) + command_specs_from(line, verb, start + verb.len())
            },
        }
    }
}

fn command_specs_of(line: &[char], verb: &str) -> (out: Vec<Text>)
    requires
        verb@.len() > 0,
    ensures
        out.deep_view() == command_specs_from(line@, verb@, 0),
{
    let low = to_lower(line);
    let v = chars_of(verb);
    let mut out: Vec<Text> = Vec::new();
    let mut search: usize = 0;
    loop
        invariant
            low@ == lower(line@),
            low@.len() == line@.len(),
            v@ == verb@,
            verb@.len() > 0,
            search <= line@.len() + 1,
            command_specs_from(line@, verb@, 0) == out.deep_view() + command_specs_from(line@, verb@, search as int),
        decreases line@.len() + 1 - search,
    {
        if search > line.len() {
            assert(first_occurrence_from(lower(line@), verb@, search as int) is None);
            assert(out.deep_view() + Seq::<Seq<char>>::empty() =~= out.deep_view());
            return out;
        }
        match crate::text::find_from(&low, &v, search) {
            None => {
                assert(out.deep_view() + Seq::<Seq<char>>::empty() =~= out.deep_view());
                return out;
            },
            Some(start) => {
                proof {
                    lemma_first_occurrence(lower(line@), verb@, search as int);
                }
                let after = start + v.len();
                let ghost old_out = out.deep_view();
                let ghost next = command_specs_from(line@, verb@, after as int);
                match argv_version_spec_of(&slice_of(line, after, line.len())) {
                    Some(spec) => {
                        let ghost sv = spec@;
                        out.push(spec);
                        assert(out.deep_view() =~= old_out.push(sv));
                        assert(old_out + (seq![sv] + next) =~= out.deep_view() + next);
                    },
                    None => {
                        assert(old_out + (Seq::<Seq<char>>::empty() + next) =~= old_out + next);
                    },
                }
                search = after;
            },
        }
    }
}

/// An install action's `tool:` line.
pub open spec fn is_tool_unit(unit: Seq<char>) -> bool {
    let t = lower(trim(unit));
    starts_with(t, "tool:"@) || starts_with(t, "- tool:"@)
}

/// The version specs an install command gives oakum: a `tool:` line's
/// `oakum@...` entries; else those of its `binstall` and `cargo install`
/// commands, or any `oakum@...` when those name none.
pub open spec fn install_version_specs(unit: Seq<char>) -> Seq<Seq<char>> {
    if is_tool_unit(unit) {
        oakum_at_specs(unit)
    } else {
        let l = lower(unit);
        let specs = (if contains(l, "binstall"@) {
            command_specs_from(unit, "binstall"@, 0)
        } else {
            Seq::empty()
        }) + (if contains(l, "cargo install"@) {
            command_specs_from(unit, "cargo install"@, 0)
        } else {
            Seq::empty()
        });
        if specs.len() == 0 {
            oakum_at_specs(unit)
        } else {
            specs
        }
    }
}

fn install_version_specs_of(unit: &[char]) -> (out: Vec<Text>)
    ensures
        out.deep_view() == install_version_specs(unit@),
{
    proof {
        reveal_strlit("binstall");
        reveal_strlit("cargo install");
    }
    let t = to_lower(&trimmed(unit));
    if crate::text::begins_str(&t, "tool:") || crate::text::begins_str(&t, "- tool:") {
        return oakum_at_specs_of(unit);
    }
    let l = to_lower(unit);
    let mut specs: Vec<Text> = if crate::text::has_str(&l, "binstall") {
        command_specs_of(unit, "binstall")
    } else {
        Vec::new()
    };
    let ghost first = specs.deep_view();
    if crate::text::has_str(&l, "cargo install") {
        let more = command_specs_of(unit, "cargo install");
        let ghost mv = more.deep_view();
        let mut k: usize = 0;
        while k < more.len()
            invariant
                mv == more.deep_view(),
                k <= mv.len(),
                specs.deep_view() == first + mv.take(k as int),
            decreases mv.len() - k,
        {
            let ghost old_specs = specs.deep_view();
            let x = crate::text::copy(&more[k]);
            assert(x@ == mv[k as int]);
            specs.push(x);
            assert(specs.deep_view() =~= old_specs.push(mv[k as int]));
            assert(mv.take(k + 1) =~= mv.take(k as int).push(mv[k as int]));
            k = k + 1;
        }
        assert(mv.take(mv.len() as int) == mv);
    } else {
        assert(specs.deep_view() =~= first + Seq::<Seq<char>>::empty());
    }
    if specs.len() == 0 {
        oakum_at_specs_of(unit)
    } else {
        specs
    }
}

// ---------------------------------------------------------------------------
// Logical lines and block scalars
// ---------------------------------------------------------------------------

/// The lines of a workflow with `\`-continued lines joined: the finished
/// lines, and the continued text still open at the end.
pub open spec fn joined_lines(ls: Seq<Seq<char>>) -> (Seq<Seq<char>>, Seq<char>)
    decreases ls.len(),
{
    if ls.len() == 0 {
        (Seq::empty(), Seq::empty())
    } else {
        let (done, pending) = joined_lines(ls.drop_last());
        let t = trim_end(ls.last());
        if t.len() > 0 && t.last() == '\\' {
            (done, pending + trim_end(t.drop_last()) + seq![' '])
        } else {
            (done.push(pending + t), Seq::empty())
        }
    }
}

/// The logical lines of a workflow: a line ending in `\` continues on the
/// next, joined with one space.
pub open spec fn logical_lines(text: Seq<char>) -> Seq<Seq<char>> {
    let (done, pending) = joined_lines(crate::text::lines(text));
    if pending.len() > 0 {
        done.push(pending)
    } else {
        done
    }
}

fn logical_lines_of(text: &[char]) -> (out: Vec<Text>)
    ensures
        out.deep_view() == logical_lines(text@),
{
    let ls = crate::text::lines_of(text);
    let ghost lv = ls.deep_view();
    let mut done: Vec<Text> = Vec::new();
    let mut pending: Text = Vec::new();
    let mut i: usize = 0;
    assert(lv.take(0) =~= Seq::<Seq<char>>::empty());
    while i < ls.len()
        invariant
            lv == ls.deep_view(),
            i <= lv.len(),
            joined_lines(lv.take(i as int)) == (done.deep_view(), pending@),
        decreases lv.len() - i,
    {
        assert(lv.take(i + 1).drop_last() == lv.take(i as int));
        assert(lv.take(i + 1).last() == ls[i as int]@);
        let t = trimmed_end(&ls[i]);
        if t.len() > 0 && t[t.len() - 1] == '\\' {
            let head = trimmed_end(&slice_of(&t, 0, t.len() - 1));
            assert(t@.drop_last() == t@.subrange(0, t@.len() - 1));
            let ghost before = pending@;
            crate::text::push_all(&mut pending, &head);
            pending.push(' ');
            assert(pending@ == before + head@ + seq![' ']);
        } else {
            let ghost old_done = done.deep_view();
            crate::text::push_all(&mut pending, &t);
            let finished = pending;
            let ghost fv = finished@;
            done.push(finished);
            assert(done.deep_view() =~= old_done.push(fv));
            pending = Vec::new();
        }
        i = i + 1;
    }
    assert(lv.take(lv.len() as int) == lv);
    if pending.len() > 0 {
        let ghost old_done = done.deep_view();
        let ghost pv = pending@;
        done.push(pending);
        assert(done.deep_view() =~= old_done.push(pv));
    }
    done
}

/// How many bytes UTF-8 spends on `c`.
pub open spec fn char_width(c: char) -> nat {
    let u = c as u32;
    if u < 0x80 {
        1
    } else if u < 0x800 {
        2
    } else if u < 0x10000 {
        3
    } else {
        4
    }
}

/// How many bytes UTF-8 spends on `s`.
pub open spec fn utf8_len(s: Seq<char>) -> nat
    decreases s.len(),
{
    if s.len() == 0 {
        0
    } else {
        utf8_len(s.drop_last()) + char_width(s.last())
    }
}

/// The byte width of a line's leading whitespace.
pub open spec fn indent_of(line: Seq<char>) -> nat {
    utf8_len(line.take(line.len() - trim_start(line).len()))
}

fn utf8_width(s: &[char]) -> (n: u128)
    ensures
        n == utf8_len(s@),
{
    let mut n: u128 = 0;
    let mut i: usize = 0;
    assert(s@.take(0) =~= Seq::<char>::empty());
    while i < s.len()
        invariant
            i <= s@.len(),
            n == utf8_len(s@.take(i as int)),
            n <= 4 * i,
        decreases s@.len() - i,
    {
        assert(s@.take(i + 1).drop_last() == s@.take(i as int));
        assert(s@.take(i + 1).last() == s@[i as int]);
        let u = s[i] as u32;
        let w: u128 = if u < 0x80 {
            1
        } else if u < 0x800 {
            2
        } else if u < 0x10000 {
            3
        } else {
            4
        };
        n = n + w;
        i = i + 1;
    }
    assert(s@.take(s@.len() as int) == s@);
    n
}

fn indent_width(line: &[char]) -> (n: u128)
    ensures
        n == indent_of(line@),
{
    let i = crate::text::trim_start_at(line);
    assert(line@.len() - trim_start(line@).len() == i);
    assert(line@.subrange(0, i as int) == line@.take(i as int));
    utf8_width(&slice_of(line, 0, i))
}

/// Whether `t` starts `key:` followed by a block scalar marker: `|` keeps
/// lines apart, `>` folds them into one.
pub open spec fn scalar_marker(t: Seq<char>, key: Seq<char>) -> Option<bool> {
    match strip_prefix(t, key + seq![':']) {
        None => None,
        Some(rest) => {
            let r = trim(rest);
            if r.len() > 0 && r[0] == '|' {
                Some(false)
            } else if r.len() > 0 && r[0] == '>' {
                Some(true)
            } else {
                None
            }
        },
    }
}

/// The key of a `run:` or `tool:` block scalar that `trimmed` opens, and
/// whether it folds.
pub open spec fn block_scalar_key(trimmed: Seq<char>) -> Option<(Seq<char>, bool)> {
    let t = match strip_prefix(trimmed, "- "@) {
        Some(r) => r,
        None => trimmed,
    };
    match scalar_marker(t, "run"@) {
        Some(f) => Some(("run"@, f)),
        None => match scalar_marker(t, "tool"@) {
            Some(f) => Some(("tool"@, f)),
            None => None,
        },
    }
}

fn scalar_marker_of(t: &[char], key: &str) -> (r: Option<bool>)
    ensures
        r == scalar_marker(t@, key@),
{
    let mut k = chars_of(key);
    k.push(':');
    assert(k@ =~= key@ + seq![':']);
    if !crate::text::begins(t, &k) {
        return None;
    }
    let r = trimmed(&slice_of(t, k.len(), t.len()));
    if r.len() > 0 && r[0] == '|' {
        Some(false)
    } else if r.len() > 0 && r[0] == '>' {
        Some(true)
    } else {
        None
    }
}

fn block_scalar_key_of(trimmed: &[char]) -> (r: Option<(Text, bool)>)
    ensures
        match block_scalar_key(trimmed@) {
            Some((k, f)) => r matches Some((x, g)) && x@ == k && g == f,
            None => r is None,
        },
{
    let t = match crate::text::strip_prefix_str(trimmed, "- ") {
        Some(r) => r,
        None => crate::text::copy(trimmed),
    };
    match scalar_marker_of(&t, "run") {
        Some(f) => Some((chars_of("run"), f)),
        None => match scalar_marker_of(&t, "tool") {
            Some(f) => Some((chars_of("tool"), f)),
            None => None,
        },
    }
}

/// The body lines of a block scalar from line `j` on: each more indented
/// than the key, trimmed, blank lines skipped; and where the body ends.
pub open spec fn block_body(lines: Seq<Seq<char>>, j: int, indent: nat) -> (Seq<Seq<char>>, int)
    decreases lines.len() - j,
{
    if j < 0 || j >= lines.len() {
        (Seq::empty(), j)
    } else if trim(lines[j]).len() == 0 {
        block_body(lines, j + 1, indent)
    } else if indent_of(lines[j]) <= indent {
        (Seq::empty(), j)
    } else {
        let (rest, k) = block_body(lines, j + 1, indent);
        (seq![trim(lines[j])] + rest, k)
    }
}

pub proof fn lemma_block_body_end(lines: Seq<Seq<char>>, j: int, indent: nat)
    requires
        0 <= j <= lines.len(),
    ensures
        j <= block_body(lines, j, indent).1 <= lines.len(),
    decreases lines.len() - j,
{
    if j < lines.len() {
        lemma_block_body_end(lines, j + 1, indent);
    }
}

/// The lines from `i` on with every `run:` or `tool:` block scalar turned
/// into `key: body` lines: one per body line, or one joined line when the
/// scalar folds.
pub open spec fn expand_from(lines: Seq<Seq<char>>, i: int) -> Seq<Seq<char>>
    decreases lines.len() - i,
{
    if i < 0 || i >= lines.len() {
        Seq::empty()
    } else {
        let line = lines[i];
        match block_scalar_key(trim_start(line)) {
            Some((key, folded)) => {
                let (body, next) = block_body(lines, i + 1, indent_of(line));
                proof {
                    lemma_block_body_end(lines, i + 1, indent_of(line));
                }
                let emitted = if folded {
                    seq![key + ": "@ + join(body, " "@)]
                } else {
                    body.map_values(|b: Seq<char>| key + ": "@ + b)
                };
                emitted + expand_from(lines, next)
            },
            None => seq![line] + expand_from(lines, i + 1),
        }
    }
}

fn block_body_of(lines: &Vec<Text>, j: usize, indent: u128) -> (r: (Vec<Text>, usize))
    requires
        j <= lines@.len(),
    ensures
        block_body(lines.deep_view(), j as int, indent as nat) == (r.0.deep_view(), r.1 as int),
{
    let ghost lv = lines.deep_view();
    let mut body: Vec<Text> = Vec::new();
    let mut k: usize = j;
    while k < lines.len()
        invariant
            lv == lines.deep_view(),
            j <= k <= lv.len(),
            block_body(lv, j as int, indent as nat) == (body.deep_view() + block_body(lv, k as int, indent as nat).0, block_body(lv, k as int, indent as nat).1),
        decreases lv.len() - k,
    {
        assert(lines[k as int]@ == lv[k as int]);
        let t = trimmed(&lines[k]);
        if t.len() == 0 {
            k = k + 1;
        } else if indent_width(&lines[k]) <= indent {
            assert(body.deep_view() + Seq::<Seq<char>>::empty() =~= body.deep_view());
            return (body, k);
        } else {
            let ghost old_body = body.deep_view();
            let ghost rest = block_body(lv, k + 1, indent as nat);
            let ghost tv = t@;
            body.push(t);
            assert(body.deep_view() =~= old_body.push(tv));
            assert(old_body + (seq![tv] + rest.0) =~= body.deep_view() + rest.0);
            k = k + 1;
        }
    }
    assert(body.deep_view() + Seq::<Seq<char>>::empty() =~= body.deep_view());
    (body, k)
}

/// `key: body`.
fn keyed(key: &[char], body: &[char]) -> (out: Text)
    ensures
        out@ == key@ + ": "@ + body@,
{
    let mut out = crate::text::copy(key);
    crate::text::push_str(&mut out, ": ");
    crate::text::push_all(&mut out, body);
    out
}

fn expand_block_scalars(lines: &Vec<Text>) -> (out: Vec<Text>)
    ensures
        out.deep_view() == expand_from(lines.deep_view(), 0),
{
    let ghost lv = lines.deep_view();
    let mut out: Vec<Text> = Vec::new();
    let mut index: usize = 0;
    while index < lines.len()
        invariant
            lv == lines.deep_view(),
            index <= lv.len(),
            expand_from(lv, 0) == out.deep_view() + expand_from(lv, index as int),
        decreases lv.len() - index,
    {
        let line = &lines[index];
        assert(line@ == lv[index as int]);
        let ghost old_out = out.deep_view();
        match block_scalar_key_of(&crate::text::trimmed_start(line)) {
            Some((key, folded)) => {
                let ind = indent_width(line);
                let (body, next) = block_body_of(lines, index + 1, ind);
                proof {
                    lemma_block_body_end(lv, index + 1, indent_of(lv[index as int]));
                }
                let ghost bv = body.deep_view();
                if folded {
                    let joined_body = crate::text::joined(&body, " ");
                    let l = keyed(&key, &joined_body);
                    let ghost l_v = l@;
                    out.push(l);
                    assert(out.deep_view() =~= old_out + seq![l_v]);
                } else {
                    let mut b: usize = 0;
                    while b < body.len()
                        invariant
                            bv == body.deep_view(),
                            b <= bv.len(),
                            out.deep_view() == old_out + bv.take(b as int).map_values(|x: Seq<char>| key@ + ": "@ + x),
                        decreases bv.len() - b,
                    {
                        let ghost before = out.deep_view();
                        let l = keyed(&key, &body[b]);
                        let ghost l_v = l@;
                        out.push(l);
                        assert(out.deep_view() =~= before.push(l_v));
                        assert(bv.take(b + 1).map_values(|x: Seq<char>| key@ + ": "@ + x) =~= bv.take(b as int).map_values(|x: Seq<char>| key@ + ": "@ + x).push(key@ + ": "@ + bv[b as int]));
                        b = b + 1;
                    }
                    assert(bv.take(bv.len() as int) == bv);
                }
                assert(expand_from(lv, 0) == out.deep_view() + expand_from(lv, next as int));
                index = next;
            },
            None => {
                let l = crate::text::copy(line);
                let ghost l_v = l@;
                out.push(l);
                assert(out.deep_view() =~= old_out + seq![l_v]);
                assert(old_out + (seq![l_v] + expand_from(lv, index + 1)) =~= out.deep_view() + expand_from(lv, index + 1));
                index = index + 1;
            },
        }
    }
    assert(out.deep_view() + Seq::<Seq<char>>::empty() =~= out.deep_view());
    out
}

// ---------------------------------------------------------------------------
// The versions a workflow pins
// ---------------------------------------------------------------------------

/// The versions of `rs` in order, or the first refusal among them.
pub open spec fn gather(rs: Seq<Result<Seq<VersionView>, Seq<char>>>) -> Result<Seq<VersionView>, Seq<char>>
    decreases rs.len(),
{
    if rs.len() == 0 {
        Ok(Seq::empty())
    } else {
        match gather(rs.drop_last()) {
            Err(e) => Err(e),
            Ok(vs) => match rs.last() {
                Ok(ws) => Ok(vs + ws),
                Err(e) => Err(e),
            },
        }
    }
}

/// Once a prefix of `rs` refuses, all of `rs` refuses the same way.
pub proof fn lemma_gather_refusal_sticks(rs: Seq<Result<Seq<VersionView>, Seq<char>>>, i: int)
    requires
        0 <= i <= rs.len(),
        gather(rs.take(i)) is Err,
    ensures
        gather(rs) == gather(rs.take(i)),
    decreases rs.len() - i,
{
    if i < rs.len() {
        assert(rs.take(i + 1).drop_last() == rs.take(i));
        lemma_gather_refusal_sticks(rs, i + 1);
    } else {
        assert(rs.take(i) == rs);
    }
}

/// A version spec read as a pin: its exact version, or the spec itself as
/// the refusal.
pub open spec fn spec_result(raw: Seq<char>) -> Result<Seq<VersionView>, Seq<char>> {
    match pin_version(raw) {
        Some(v) => Ok(seq![v]),
        None => Err(raw),
    }
}

/// The versions one install command pins; `unversioned` when it installs
/// oakum with none.
pub open spec fn unit_versions(unit: Seq<char>) -> Result<Seq<VersionView>, Seq<char>> {
    if unversioned_install(unit) {
        Err("unversioned"@)
    } else {
        gather(install_version_specs(unit).map_values(|raw: Seq<char>| spec_result(raw)))
    }
}

/// The versions a logical line pins.
pub open spec fn line_versions(line: Seq<char>) -> Result<Seq<VersionView>, Seq<char>> {
    let code = strip_comment(line);
    if !is_install_line(code) {
        Ok(Seq::empty())
    } else {
        gather(install_units(code).map_values(|u: Seq<char>| unit_versions(u)))
    }
}

/// The versions a workflow pins for oakum, in order; or the first spec that
/// is not an exact version, or `unversioned`.
pub open spec fn workflow_versions(text: Seq<char>) -> Result<Seq<VersionView>, Seq<char>> {
    gather(expand_from(logical_lines(text), 0).map_values(|l: Seq<char>| line_versions(l)))
}

/// The views of a run of versions.
pub open spec fn versions_view(vs: Seq<SemVer>) -> Seq<VersionView> {
    vs.map_values(|v: SemVer| v@)
}

proof fn lemma_versions_view_append(a: Seq<SemVer>, b: Seq<SemVer>)
    ensures
        versions_view(a + b) == versions_view(a) + versions_view(b),
{
    assert(versions_view(a + b) =~= versions_view(a) + versions_view(b));
}

fn unit_versions_of(unit: &[char]) -> (r: Result<Vec<SemVer>, Text>)
    ensures
        match unit_versions(unit@) {
            Ok(vs) => r matches Ok(x) && versions_view(x@) == vs,
            Err(e) => r matches Err(x) && x@ == e,
        },
{
    if unversioned_install_of(unit) {
        return Err(chars_of("unversioned"));
    }
    let specs = install_version_specs_of(unit);
    let ghost rs = specs.deep_view().map_values(|raw: Seq<char>| spec_result(raw));
    let mut out: Vec<SemVer> = Vec::new();
    let mut i: usize = 0;
    assert(rs.take(0) =~= Seq::<Result<Seq<VersionView>, Seq<char>>>::empty());
    assert(versions_view(out@) =~= Seq::<VersionView>::empty());
    assert(unit_versions(unit@) == gather(rs));
    while i < specs.len()
        invariant
            rs == specs.deep_view().map_values(|raw: Seq<char>| spec_result(raw)),
            unit_versions(unit@) == gather(rs),
            i <= rs.len(),
            gather(rs.take(i as int)) == Ok::<Seq<VersionView>, Seq<char>>(versions_view(out@)),
        decreases rs.len() - i,
    {
        assert(rs.take(i + 1).drop_last() == rs.take(i as int));
        assert(rs.take(i + 1).last() == spec_result(specs[i as int]@));
        match exact_pin(&specs[i]) {
            Some(v) => {
                let ghost before = out@;
                out.push(v);
                assert(versions_view(out@) =~= versions_view(before) + seq![v@]);
            },
            None => {
                proof {
                    lemma_gather_refusal_sticks(rs, i + 1);
                }
                return Err(crate::text::copy(&specs[i]));
            },
        }
        i = i + 1;
    }
    assert(rs.take(rs.len() as int) == rs);
    Ok(out)
}

fn line_versions_of(line: &[char]) -> (r: Result<Vec<SemVer>, Text>)
    ensures
        match line_versions(line@) {
            Ok(vs) => r matches Ok(x) && versions_view(x@) == vs,
            Err(e) => r matches Err(x) && x@ == e,
        },
{
    let code = without_comment(line);
    if !install_line(&code) {
        assert(versions_view(Seq::<SemVer>::empty()) =~= Seq::<VersionView>::empty());
        return Ok(Vec::new());
    }
    let units = install_units_of(&code);
    let ghost rs = units.deep_view().map_values(|u: Seq<char>| unit_versions(u));
    let mut out: Vec<SemVer> = Vec::new();
    let mut i: usize = 0;
    assert(rs.take(0) =~= Seq::<Result<Seq<VersionView>, Seq<char>>>::empty());
    assert(versions_view(out@) =~= Seq::<VersionView>::empty());
    assert(line_versions(line@) == gather(rs));
    while i < units.len()
        invariant
            rs == units.deep_view().map_values(|u: Seq<char>| unit_versions(u)),
            line_versions(line@) == gather(rs),
            i <= rs.len(),
            gather(rs.take(i as int)) == Ok::<Seq<VersionView>, Seq<char>>(versions_view(out@)),
        decreases rs.len() - i,
    {
        assert(rs.take(i + 1).drop_last() == rs.take(i as int));
        assert(rs.take(i + 1).last() == unit_versions(units[i as int]@));
        match unit_versions_of(&units[i]) {
            Ok(mut vs) => {
                let ghost before = out@;
                let ghost more = vs@;
                out.append(&mut vs);
                proof {
                    lemma_versions_view_append(before, more);
                }
            },
            Err(e) => {
                proof {
                    lemma_gather_refusal_sticks(rs, i + 1);
                }
                return Err(e);
            },
        }
        i = i + 1;
    }
    assert(rs.take(rs.len() as int) == rs);
    Ok(out)
}

/// The versions a workflow pins for oakum, in order; or the first spec that
/// is not an exact version, or `unversioned` when a line installs oakum with
/// none.
pub fn versions_in_workflow(text: &str) -> (r: Result<Vec<SemVer>, String>)
    ensures
        match workflow_versions(text@) {
            Ok(vs) => r matches Ok(x) && versions_view(x@) == vs,
            Err(e) => r matches Err(x) && x@ == e,
        },
{
    let lines = expand_block_scalars(&logical_lines_of(&chars_of(text)));
    let ghost rs = lines.deep_view().map_values(|l: Seq<char>| line_versions(l));
    let mut out: Vec<SemVer> = Vec::new();
    let mut i: usize = 0;
    assert(rs.take(0) =~= Seq::<Result<Seq<VersionView>, Seq<char>>>::empty());
    assert(versions_view(out@) =~= Seq::<VersionView>::empty());
    assert(workflow_versions(text@) == gather(rs));
    while i < lines.len()
        invariant
            rs == lines.deep_view().map_values(|l: Seq<char>| line_versions(l)),
            workflow_versions(text@) == gather(rs),
            i <= rs.len(),
            gather(rs.take(i as int)) == Ok::<Seq<VersionView>, Seq<char>>(versions_view(out@)),
        decreases rs.len() - i,
    {
        assert(rs.take(i + 1).drop_last() == rs.take(i as int));
        assert(rs.take(i + 1).last() == line_versions(lines[i as int]@));
        match line_versions_of(&lines[i]) {
            Ok(mut vs) => {
                let ghost before = out@;
                let ghost more = vs@;
                out.append(&mut vs);
                proof {
                    lemma_versions_view_append(before, more);
                }
            },
            Err(e) => {
                proof {
                    lemma_gather_refusal_sticks(rs, i + 1);
                }
                return Err(crate::text::string_of(&e));
            },
        }
        i = i + 1;
    }
    assert(rs.take(rs.len() as int) == rs);
    Ok(out)
}

// ---------------------------------------------------------------------------
// Pins and where they were found
// ---------------------------------------------------------------------------

/// An install pin: the file it was found in and the version it fixes.
#[derive(Debug)]
pub struct FoundPin {
    pub source: String,
    pub version: SemVer,
}

/// A pin as the contracts compare it.
pub open spec fn pin_view(p: FoundPin) -> (Seq<char>, VersionView) {
    (p.source@, p.version@)
}

/// The pins of `ps` as the contracts compare them.
pub open spec fn pins_view(ps: Seq<FoundPin>) -> Seq<(Seq<char>, VersionView)> {
    ps.map_values(|p: FoundPin| pin_view(p))
}

fn found(source: &str, version: SemVer) -> (p: FoundPin)
    ensures
        p.source@ == source@,
        p.version@ == version@,
{
    FoundPin { source: source.to_owned(), version }
}

/// Whether a file name has a `.yml` or `.yaml` extension, in any case.
pub open spec fn is_yaml_name(name: Seq<char>) -> bool {
    match crate::text::last_index_of(name, '.') {
        Some(i) => i > 0 && (lower(name.skip(i + 1)) == "yml"@ || lower(name.skip(i + 1)) == "yaml"@),
        None => false,
    }
}

/// Why a workflow at `path` cannot be verified, from what reading it
/// refused.
pub open spec fn workflow_refusal(path: Seq<char>, raw: Seq<char>) -> Seq<char> {
    if raw == "unversioned"@ {
        "unverified: `"@ + path + "` installs oakum without a version"@
    } else {
        "unverified: `"@ + path + "` pins oakum as `"@ + raw + "`, which is not an exact version"@
    }
}

/// The pins a workflow file holds, each recorded against its path; or why
/// it cannot be verified.
pub fn workflow_pins(path: &str, text: &str) -> (r: Result<Vec<FoundPin>, String>)
    ensures
        match workflow_versions(text@) {
            Ok(vs) => r matches Ok(ps) && ps@.len() == vs.len() && forall|k: int| 0 <= k < vs.len()
                ==> #[trigger] pin_view(ps@[k]) == (path@, vs[k]),
            Err(raw) => r matches Err(m) && m@ == workflow_refusal(path@, raw),
        },
{
    match versions_in_workflow(text) {
        Err(raw) => {
            let mut m = chars_of("unverified: `");
            crate::text::push_str(&mut m, path);
            if crate::text::is(&chars_of(raw.as_str()), "unversioned") {
                crate::text::push_str(&mut m, "` installs oakum without a version");
            } else {
                crate::text::push_str(&mut m, "` pins oakum as `");
                crate::text::push_str(&mut m, raw.as_str());
                crate::text::push_str(&mut m, "`, which is not an exact version");
            }
            Err(crate::text::string_of(&m))
        },
        Ok(vs) => {
            let ghost vv = versions_view(vs@);
            let mut out: Vec<FoundPin> = Vec::new();
            let mut rest = vs;
            let ghost all = rest@;
            let ghost mut taken: int = 0;
            while rest.len() > 0
                invariant
                    all.len() == taken + rest@.len(),
                    rest@ == all.skip(taken),
                    out@.len() == taken,
                    0 <= taken,
                    forall|k: int| 0 <= k < taken ==> #[trigger] pin_view(out@[k]) == (path@, all[k]@),
                decreases rest@.len(),
            {
                let v = rest.remove(0);
                assert(v == all[taken]);
                assert(rest@ =~= all.skip(taken + 1));
                out.push(found(path, v));
                proof {
                    taken = taken + 1;
                }
            }
            Ok(out)
        },
    }
}

/// A second pin of the same kind must fix the same version.
pub open spec fn merged_pins(found: Option<(Seq<char>, VersionView)>, pin: (Seq<char>, VersionView)) -> Result<Option<(Seq<char>, VersionView)>, Seq<char>> {
    match found {
        None => Ok(Some(pin)),
        Some(e) => if e.1 == pin.1 {
            Ok(found)
        } else {
            Err("unverified: `"@ + e.0 + "` pins oakum as `"@ + version_text(e.1) + "` but `"@ + pin.0
                + "` pins `"@ + version_text(pin.1) + "`"@)
        },
    }
}

/// The view of an optional pin.
pub open spec fn opt_pin_view(p: Option<FoundPin>) -> Option<(Seq<char>, VersionView)> {
    match p {
        Some(x) => Some(pin_view(x)),
        None => None,
    }
}

/// Keeps the pin found first, refusing a later one that fixes another
/// version.
pub fn merge_pin(found: Option<FoundPin>, pin: FoundPin) -> (r: Result<Option<FoundPin>, String>)
    ensures
        match merged_pins(opt_pin_view(found), pin_view(pin)) {
            Ok(m) => r matches Ok(x) && opt_pin_view(x) == m,
            Err(e) => r matches Err(x) && x@ == e,
        },
{
    match found {
        None => Ok(Some(pin)),
        Some(existing) => {
            if existing.version.same_as(&pin.version) {
                Ok(Some(existing))
            } else {
                let mut m = chars_of("unverified: `");
                crate::text::push_str(&mut m, existing.source.as_str());
                crate::text::push_str(&mut m, "` pins oakum as `");
                crate::text::push_all(&mut m, &existing.version.chars());
                crate::text::push_str(&mut m, "` but `");
                crate::text::push_str(&mut m, pin.source.as_str());
                crate::text::push_str(&mut m, "` pins `");
                crate::text::push_all(&mut m, &pin.version.chars());
                crate::text::push_str(&mut m, "`");
                Err(crate::text::string_of(&m))
            }
        },
    }
}

// ---------------------------------------------------------------------------
// package.json
// ---------------------------------------------------------------------------

/// What one dependency section of `package.json` makes of the pin found so
/// far.
pub open spec fn json_section_pin(root: DocValue, section: Seq<char>, pin: Option<VersionView>) -> Result<Option<VersionView>, Seq<char>> {
    match doc_get(root, section) {
        None => Ok(pin),
        Some(sv) => if !(sv is Table) {
            Err("unverified: `package.json` `"@ + section + "` is not an object"@)
        } else {
            match doc_get(sv, "oakum"@) {
                None => Ok(pin),
                Some(DocValue::Text(raw)) => match pin_version(raw@) {
                    None => Err("unverified: `package.json` pins oakum as `"@ + raw@ + "`, which is not an exact version"@),
                    Some(v) => match pin {
                        None => Ok(Some(v)),
                        Some(e) => if e == v {
                            Ok(pin)
                        } else {
                            Err("unverified: `package.json` pins oakum as both `"@ + version_text(e) + "` and `"@
                                + version_text(v) + "`"@)
                        },
                    },
                },
                Some(_) => Err("unverified: `package.json` pins oakum with a non-string value"@),
            }
        },
    }
}

/// The oakum pin of a parsed `package.json`: the one exact version its
/// `dependencies`, `devDependencies`, `optionalDependencies` and
/// `peerDependencies` agree on, if any names oakum.
pub open spec fn package_json_pin_of(root: DocValue) -> Result<Option<VersionView>, Seq<char>> {
    if !(root is Table) {
        Err("unverified: `package.json` is not a JSON object"@)
    } else {
        match json_section_pin(root, "dependencies"@, None) {
            Err(e) => Err(e),
            Ok(p) => match json_section_pin(root, "devDependencies"@, p) {
                Err(e) => Err(e),
                Ok(p) => match json_section_pin(root, "optionalDependencies"@, p) {
                    Err(e) => Err(e),
                    Ok(p) => json_section_pin(root, "peerDependencies"@, p),
                },
            },
        }
    }
}

/// The view of an optional version.
pub open spec fn opt_version_view(v: Option<SemVer>) -> Option<VersionView> {
    match v {
        Some(x) => Some(x@),
        None => None,
    }
}

fn json_section_pin_of(root: &DocValue, section: &str, pin: Option<SemVer>) -> (r: Result<Option<SemVer>, String>)
    ensures
        match json_section_pin(*root, section@, opt_version_view(pin)) {
            Ok(p) => r matches Ok(x) && opt_version_view(x) == p,
            Err(e) => r matches Err(x) && x@ == e,
        },
{
    let sv = match root.get(section) {
        None => return Ok(pin),
        Some(v) => v,
    };
    if !matches!(sv, DocValue::Table(_)) {
        let mut m = chars_of("unverified: `package.json` `");
        crate::text::push_str(&mut m, section);
        crate::text::push_str(&mut m, "` is not an object");
        return Err(crate::text::string_of(&m));
    }
    let raw = match sv.get("oakum") {
        None => return Ok(pin),
        Some(DocValue::Text(raw)) => raw,
        Some(_) => return Err("unverified: `package.json` pins oakum with a non-string value".to_owned()),
    };
    let v = match exact_pin(&chars_of(raw.as_str())) {
        None => {
            let mut m = chars_of("unverified: `package.json` pins oakum as `");
            crate::text::push_str(&mut m, raw.as_str());
            crate::text::push_str(&mut m, "`, which is not an exact version");
            return Err(crate::text::string_of(&m));
        },
        Some(v) => v,
    };
    match pin {
        None => Ok(Some(v)),
        Some(e) => if e.same_as(&v) {
            Ok(Some(e))
        } else {
            let mut m = chars_of("unverified: `package.json` pins oakum as both `");
            crate::text::push_all(&mut m, &e.chars());
            crate::text::push_str(&mut m, "` and `");
            crate::text::push_all(&mut m, &v.chars());
            crate::text::push_str(&mut m, "`");
            Err(crate::text::string_of(&m))
        },
    }
}

/// The oakum pin of a parsed `package.json`, recorded against
/// `package.json`; or why it cannot be verified.
pub fn package_json_pin(root: &DocValue) -> (r: Result<Option<FoundPin>, String>)
    ensures
        match package_json_pin_of(*root) {
            Ok(None) => r matches Ok(None),
            Ok(Some(v)) => r matches Ok(Some(p)) && pin_view(p) == ("package.json"@, v),
            Err(e) => r matches Err(x) && x@ == e,
        },
{
    if !matches!(root, DocValue::Table(_)) {
        return Err("unverified: `package.json` is not a JSON object".to_owned());
    }
    let p = json_section_pin_of(root, "dependencies", None)?;
    let p = json_section_pin_of(root, "devDependencies", p)?;
    let p = json_section_pin_of(root, "optionalDependencies", p)?;
    let p = json_section_pin_of(root, "peerDependencies", p)?;
    match p {
        None => Ok(None),
        Some(v) => Ok(Some(found("package.json", v))),
    }
}

// ---------------------------------------------------------------------------
// mise
// ---------------------------------------------------------------------------

/// A mise tool key that installs oakum.
pub open spec fn is_mise_oakum_key(key: Seq<char>) -> bool {
    key == "oakum"@ || key == "cargo:oakum"@
}

/// The version text of a mise tool entry: the entry itself, or its
/// `version`.
pub open spec fn mise_version_spec(entry: DocValue) -> Option<Seq<char>> {
    match entry {
        DocValue::Text(s) => Some(s@),
        _ => doc_text(doc_get(entry, "version"@)),
    }
}

/// What the mise tools from `i` on make of the pin found so far.
pub open spec fn mise_tools_from(name: Seq<char>, tools: Seq<(String, DocValue)>, i: int, pin: Option<VersionView>) -> Result<Option<VersionView>, Seq<char>>
    decreases tools.len() - i,
{
    if i < 0 || i >= tools.len() {
        Ok(pin)
    } else {
        let key = tools[i].0@;
        if !is_mise_oakum_key(key) {
            mise_tools_from(name, tools, i + 1, pin)
        } else {
            match mise_version_spec(tools[i].1) {
                None => Err("unverified: `"@ + name + "` pins `"@ + key + "` with a value that is not an exact version"@),
                Some(raw) => match pin_version(raw) {
                    None => Err("unverified: `"@ + name + "` pins oakum as `"@ + raw + "`, which is not an exact version"@),
                    Some(v) => match pin {
                        None => mise_tools_from(name, tools, i + 1, Some(v)),
                        Some(e) => if e == v {
                            mise_tools_from(name, tools, i + 1, pin)
                        } else {
                            Err("unverified: `"@ + name + "` pins oakum as both `"@ + version_text(e) + "` and `"@
                                + version_text(v) + "`"@)
                        },
                    },
                },
            }
        }
    }
}

/// The oakum pin of a parsed mise file named `name`.
pub open spec fn mise_pin_of(name: Seq<char>, value: DocValue) -> Result<Option<VersionView>, Seq<char>> {
    match doc_get(value, "tools"@) {
        None => Ok(None),
        Some(DocValue::Table(tools)) => mise_tools_from(name, tools@, 0, None),
        Some(_) => Err("unverified: `"@ + name + "` has a `tools` value that is not a table"@),
    }
}

fn mise_version_spec_of(entry: &DocValue) -> (r: Option<&String>)
    ensures
        match mise_version_spec(*entry) {
            Some(s) => r matches Some(x) && x@ == s,
            None => r is None,
        },
{
    match entry {
        DocValue::Text(s) => Some(s),
        _ => match entry.get("version") {
            Some(DocValue::Text(s)) => Some(s),
            _ => None,
        },
    }
}

/// The oakum pin of a parsed mise file named `name`, recorded against it;
/// or why it cannot be verified.
pub fn mise_pin(name: &str, value: &DocValue) -> (r: Result<Option<FoundPin>, String>)
    ensures
        match mise_pin_of(name@, *value) {
            Ok(None) => r matches Ok(None),
            Ok(Some(v)) => r matches Ok(Some(p)) && pin_view(p) == (name@, v),
            Err(e) => r matches Err(x) && x@ == e,
        },
{
    let tools = match value.get("tools") {
        None => return Ok(None),
        Some(DocValue::Table(tools)) => tools,
        Some(_) => {
            let mut m = chars_of("unverified: `");
            crate::text::push_str(&mut m, name);
            crate::text::push_str(&mut m, "` has a `tools` value that is not a table");
            return Err(crate::text::string_of(&m));
        },
    };
    let mut pin: Option<SemVer> = None;
    let mut i: usize = 0;
    while i < tools.len()
        invariant
            i <= tools@.len(),
            mise_pin_of(name@, *value) == mise_tools_from(name@, tools@, i as int, opt_version_view(pin)),
        decreases tools@.len() - i,
    {
        let key = &tools[i].0;
        let kc = chars_of(key.as_str());
        if !(crate::text::is(&kc, "oakum") || crate::text::is(&kc, "cargo:oakum")) {
            i = i + 1;
        } else {
            let raw = match mise_version_spec_of(&tools[i].1) {
                None => {
                    let mut m = chars_of("unverified: `");
                    crate::text::push_str(&mut m, name);
                    crate::text::push_str(&mut m, "` pins `");
                    crate::text::push_str(&mut m, key.as_str());
                    crate::text::push_str(&mut m, "` with a value that is not an exact version");
                    return Err(crate::text::string_of(&m));
                },
                Some(raw) => raw,
            };
            let v = match exact_pin(&chars_of(raw.as_str())) {
                None => {
                    let mut m = chars_of("unverified: `");
                    crate::text::push_str(&mut m, name);
                    crate::text::push_str(&mut m, "` pins oakum as `");
                    crate::text::push_str(&mut m, raw.as_str());
                    crate::text::push_str(&mut m, "`, which is not an exact version");
                    return Err(crate::text::string_of(&m));
                },
                Some(v) => v,
            };
            match pin {
                None => {
                    pin = Some(v);
                },
                Some(e) => {
                    if e.same_as(&v) {
                        pin = Some(e);
                    } else {
                        let mut m = chars_of("unverified: `");
                        crate::text::push_str(&mut m, name);
                        crate::text::push_str(&mut m, "` pins oakum as both `");
                        crate::text::push_all(&mut m, &e.chars());
                        crate::text::push_str(&mut m, "` and `");
                        crate::text::push_all(&mut m, &v.chars());
                        crate::text::push_str(&mut m, "`");
                        return Err(crate::text::string_of(&m));
                    }
                },
            }
            i = i + 1;
        }
    }
    match pin {
        None => Ok(None),
        Some(v) => Ok(Some(found(name, v))),
    }
}

// ---------------------------------------------------------------------------
// Workflow file names
// ---------------------------------------------------------------------------

/// Whether a file name has a `.yml` or `.yaml` extension, in any case.
pub fn is_yaml(name: &str) -> (b: bool)
    ensures
        b == is_yaml_name(name@),
{
    let n = chars_of(name);
    match crate::text::last_index(&n, '.') {
        None => false,
        Some(i) => {
            let len = n.len();
            assert(i < len);
            let after: usize = i + 1;
            let e = to_lower(&slice_of(&n, after, len));
            i > 0 && (crate::text::is(&e, "yml") || crate::text::is(&e, "yaml"))
        },
    }
}

// ---------------------------------------------------------------------------
// A Cargo workspace member named oakum
// ---------------------------------------------------------------------------

/// The components of a relative path once `.`, empty components and `..`
/// (which climbs back, never above the start) are resolved.
pub open spec fn normal_parts(parts: Seq<Seq<char>>) -> Seq<Seq<char>>
    decreases parts.len(),
{
    if parts.len() == 0 {
        Seq::empty()
    } else {
        let acc = normal_parts(parts.drop_last());
        let p = parts.last();
        if p.len() == 0 || p == "."@ {
            acc
        } else if p == ".."@ {
            if acc.len() > 0 {
                acc.drop_last()
            } else {
                acc
            }
        } else {
            acc.push(p)
        }
    }
}

/// A relative path with `.`/`..` noise resolved, so `./crates/oakum` and
/// `crates/oakum` compare equal.
pub open spec fn normalize_rel_path(path: Seq<char>) -> Seq<char> {
    join(normal_parts(crate::text::split(path, '/')), "/"@)
}

/// `file` inside `dir`.
pub open spec fn join_path(dir: Seq<char>, file: Seq<char>) -> Seq<char> {
    if dir.len() == 0 {
        file
    } else {
        dir + "/"@ + file
    }
}

/// A relative path with `.`/`..` noise resolved.
pub fn normalized_rel_path(path: &str) -> (out: String)
    ensures
        out@ == normalize_rel_path(path@),
{
    let parts = crate::text::split_on(&chars_of(path), '/');
    let ghost pv = parts.deep_view();
    let mut acc: Vec<Text> = Vec::new();
    let mut i: usize = 0;
    assert(pv.take(0) =~= Seq::<Seq<char>>::empty());
    while i < parts.len()
        invariant
            pv == parts.deep_view(),
            i <= pv.len(),
            acc.deep_view() == normal_parts(pv.take(i as int)),
        decreases pv.len() - i,
    {
        assert(pv.take(i + 1).drop_last() == pv.take(i as int));
        assert(pv.take(i + 1).last() == parts[i as int]@);
        let p = &parts[i];
        if p.len() == 0 || crate::text::is(p, ".") {
        } else if crate::text::is(p, "..") {
            if acc.len() > 0 {
                let ghost before = acc.deep_view();
                acc.pop();
                assert(acc.deep_view() =~= before.drop_last());
            }
        } else {
            let ghost before = acc.deep_view();
            let c = crate::text::copy(p);
            let ghost cv = c@;
            acc.push(c);
            assert(acc.deep_view() =~= before.push(cv));
        }
        i = i + 1;
    }
    assert(pv.take(pv.len() as int) == pv);
    crate::text::string_of(&crate::text::joined(&acc, "/"))
}

/// `file` inside `dir`.
pub fn path_in(dir: &str, file: &str) -> (out: String)
    ensures
        out@ == join_path(dir@, file@),
{
    if dir.is_empty() {
        file.to_owned()
    } else {
        let mut m = chars_of(dir);
        crate::text::push_str(&mut m, "/");
        crate::text::push_str(&mut m, file);
        crate::text::string_of(&m)
    }
}

/// The manifests a `workspace.members` (or `exclude`) entry names.
#[derive(Debug, PartialEq, Eq)]
pub enum MemberManifests {
    /// One manifest path.
    Literal(String),
    /// `Cargo.toml` in each directory under this one (a trailing `/*`).
    Children(String),
}

/// Whether a member path is a glob.
pub open spec fn is_glob_member(rel: Seq<char>) -> bool {
    rel.contains('*') || rel.contains('?') || rel.contains('[')
}

/// The refusal for a glob other than a trailing `/*`.
pub open spec fn unsupported_glob(rel: Seq<char>) -> Seq<char> {
    "unverified: unsupported `workspace.members` glob `"@ + rel + "` (only a trailing `/*` is expanded)"@
}

/// What a member entry names: an exact path stays literal; only a trailing
/// `/*` expands; any other glob is refused, since a silent skip could hide
/// a self-host pin.
pub open spec fn member_manifests_of(rel: Seq<char>) -> Result<(bool, Seq<char>), Seq<char>> {
    if !is_glob_member(rel) {
        Ok((false, join_path(normalize_rel_path(rel), "Cargo.toml"@)))
    } else {
        match crate::text::last_index_of(rel, '/') {
            None => Err(unsupported_glob(rel)),
            Some(i) => if rel.skip(i + 1) != "*"@ {
                Err(unsupported_glob(rel))
            } else {
                Ok((true, normalize_rel_path(rel.take(i))))
            },
        }
    }
}

/// What a member entry names, or why it cannot be followed.
pub fn member_manifests(rel: &str) -> (r: Result<MemberManifests, String>)
    ensures
        match member_manifests_of(rel@) {
            Ok((false, p)) => r matches Ok(MemberManifests::Literal(x)) && x@ == p,
            Ok((true, p)) => r matches Ok(MemberManifests::Children(x)) && x@ == p,
            Err(e) => r matches Err(x) && x@ == e,
        },
{
    let rc = chars_of(rel);
    let glob = has_char(&rc, '*') || has_char(&rc, '?') || has_char(&rc, '[');
    if !glob {
        let dir = normalized_rel_path(rel);
        return Ok(MemberManifests::Literal(path_in(dir.as_str(), "Cargo.toml")));
    }
    let mut refusal = chars_of("unverified: unsupported `workspace.members` glob `");
    crate::text::push_str(&mut refusal, rel);
    crate::text::push_str(&mut refusal, "` (only a trailing `/*` is expanded)");
    match crate::text::last_index(&rc, '/') {
        None => Err(crate::text::string_of(&refusal)),
        Some(i) => {
            let len = rc.len();
            assert(i < len);
            let after: usize = i + 1;
            if !crate::text::is(&slice_of(&rc, after, len), "*") {
                Err(crate::text::string_of(&refusal))
            } else {
                let parent = crate::text::string_of(&slice_of(&rc, 0, i));
                Ok(MemberManifests::Children(normalized_rel_path(parent.as_str())))
            }
        },
    }
}

/// The path a member entry gives: the entry itself, or its `path`.
pub open spec fn member_path(member: DocValue) -> Option<Seq<char>> {
    match member {
        DocValue::Text(s) => Some(s@),
        _ => doc_text(doc_get(member, "path"@)),
    }
}

/// The paths of the entries of a list, those that give one.
pub open spec fn member_paths(entries: Seq<DocValue>) -> Seq<Seq<char>>
    decreases entries.len(),
{
    if entries.len() == 0 {
        Seq::empty()
    } else {
        match member_path(entries.last()) {
            Some(p) => member_paths(entries.drop_last()).push(p),
            None => member_paths(entries.drop_last()),
        }
    }
}

fn member_paths_of(entries: &Vec<DocValue>) -> (out: Vec<String>)
    ensures
        out@.map_values(|s: String| s@) == member_paths(entries@),
{
    let mut out: Vec<String> = Vec::new();
    let mut i: usize = 0;
    assert(entries@.take(0) =~= Seq::<DocValue>::empty());
    while i < entries.len()
        invariant
            i <= entries@.len(),
            out@.map_values(|s: String| s@) == member_paths(entries@.take(i as int)),
        decreases entries@.len() - i,
    {
        assert(entries@.take(i + 1).drop_last() == entries@.take(i as int));
        assert(entries@.take(i + 1).last() == entries@[i as int]);
        let path = match &entries[i] {
            DocValue::Text(s) => Some(s),
            e => match e.get("path") {
                Some(DocValue::Text(s)) => Some(s),
                _ => None,
            },
        };
        if let Some(p) = path {
            let ghost before = out@;
            out.push(p.clone());
            assert(out@.map_values(|s: String| s@) =~= before.map_values(|s: String| s@).push(p@));
        }
        i = i + 1;
    }
    assert(entries@.take(entries@.len() as int) == entries@);
    out
}

/// The paths `[workspace].exclude` lists.
pub open spec fn exclude_paths_of(workspace: DocValue) -> Result<Seq<Seq<char>>, Seq<char>> {
    match doc_get(workspace, "exclude"@) {
        None => Ok(Seq::empty()),
        Some(DocValue::List(es)) => Ok(member_paths(es@)),
        Some(_) => Err("unverified: `Cargo.toml` `[workspace].exclude` is not an array"@),
    }
}

/// The paths `[workspace].exclude` lists, or why they cannot be read.
pub fn exclude_paths(workspace: &DocValue) -> (r: Result<Vec<String>, String>)
    ensures
        match exclude_paths_of(*workspace) {
            Ok(ps) => r matches Ok(x) && x@.map_values(|s: String| s@) == ps,
            Err(e) => r matches Err(x) && x@ == e,
        },
{
    match workspace.get("exclude") {
        None => {
            let out: Vec<String> = Vec::new();
            assert(out@.map_values(|s: String| s@) =~= Seq::<Seq<char>>::empty());
            Ok(out)
        },
        Some(DocValue::List(es)) => Ok(member_paths_of(es)),
        Some(_) => Err("unverified: `Cargo.toml` `[workspace].exclude` is not an array".to_owned()),
    }
}

/// The paths `[workspace].members` lists; none when it is absent.
pub open spec fn member_paths_in(workspace: DocValue) -> Result<Option<Seq<Seq<char>>>, Seq<char>> {
    match doc_get(workspace, "members"@) {
        None => Ok(None),
        Some(DocValue::List(es)) => Ok(Some(member_paths(es@))),
        Some(_) => Err("unverified: `Cargo.toml` `[workspace].members` is not an array"@),
    }
}

/// The paths `[workspace].members` lists, or why they cannot be read.
pub fn members_paths(workspace: &DocValue) -> (r: Result<Option<Vec<String>>, String>)
    ensures
        match member_paths_in(*workspace) {
            Ok(None) => r matches Ok(None),
            Ok(Some(ps)) => r matches Ok(Some(x)) && x@.map_values(|s: String| s@) == ps,
            Err(e) => r matches Err(x) && x@ == e,
        },
{
    match workspace.get("members") {
        None => Ok(None),
        Some(DocValue::List(es)) => Ok(Some(member_paths_of(es))),
        Some(_) => Err("unverified: `Cargo.toml` `[workspace].members` is not an array".to_owned()),
    }
}

/// Whether `dir` is one of the excluded member directories.
pub fn is_excluded(excluded: &Vec<String>, dir: &str) -> (b: bool)
    ensures
        b == exists|k: int| 0 <= k < excluded@.len() && (#[trigger] excluded@[k])@ == dir@,
{
    let d = chars_of(dir);
    let mut i: usize = 0;
    while i < excluded.len()
        invariant
            d@ == dir@,
            i <= excluded@.len(),
            forall|k: int| 0 <= k < i ==> (#[trigger] excluded@[k])@ != dir@,
        decreases excluded@.len() - i,
    {
        if crate::text::same(&chars_of(excluded[i].as_str()), &d) {
            return true;
        }
        i = i + 1;
    }
    false
}

/// `[workspace.package].version` of the root manifest, when it is text.
pub open spec fn workspace_package_version(root: DocValue) -> Option<Seq<char>> {
    match doc_get(root, "workspace"@) {
        Some(w) => match doc_get(w, "package"@) {
            Some(p) => doc_text(doc_get(p, "version"@)),
            None => None,
        },
        None => None,
    }
}

/// The exact version a `[package]` table at `source` has, its own or the
/// workspace's it inherits.
pub open spec fn package_version_of(package: DocValue, root: DocValue, source: Seq<char>) -> Result<VersionView, Seq<char>> {
    match doc_get(package, "version"@) {
        Some(DocValue::Text(raw)) => match pin_version(raw@) {
            Some(v) => Ok(v),
            None => Err("unverified: `"@ + source + "` package version `"@ + raw@ + "` is not an exact version"@),
        },
        Some(vv) => if doc_get(vv, "workspace"@) == Some(DocValue::Flag(true)) {
            match workspace_package_version(root) {
                None => Err("unverified: `"@ + source + "` inherits `version` but `[workspace.package].version` is missing"@),
                Some(raw) => match pin_version(raw) {
                    Some(v) => Ok(v),
                    None => Err("unverified: `[workspace.package].version` `"@ + raw + "` is not an exact version"@),
                },
            }
        } else {
            Err("unverified: `"@ + source + "` package `oakum` has no exact `version`"@)
        },
        None => Err("unverified: `"@ + source + "` package `oakum` has no exact `version`"@),
    }
}

/// The pin a manifest at `source` gives: its version when its package is
/// named `oakum`, none otherwise.
pub open spec fn manifest_pin_of(manifest: DocValue, source: Seq<char>, root: DocValue) -> Result<Option<VersionView>, Seq<char>> {
    match doc_get(manifest, "package"@) {
        None => Ok(None),
        Some(p) => if doc_text(doc_get(p, "name"@)) == Some("oakum"@) {
            match package_version_of(p, root, source) {
                Ok(v) => Ok(Some(v)),
                Err(e) => Err(e),
            }
        } else {
            Ok(None)
        },
    }
}

fn package_version(package: &DocValue, root: &DocValue, source: &str) -> (r: Result<SemVer, String>)
    ensures
        match package_version_of(*package, *root, source@) {
            Ok(v) => r matches Ok(x) && x@ == v,
            Err(e) => r matches Err(x) && x@ == e,
        },
{
    let no_version = {
        let mut m = chars_of("unverified: `");
        crate::text::push_str(&mut m, source);
        crate::text::push_str(&mut m, "` package `oakum` has no exact `version`");
        crate::text::string_of(&m)
    };
    let vv = match package.get("version") {
        None => return Err(no_version),
        Some(vv) => vv,
    };
    if let DocValue::Text(raw) = vv {
        return match exact_pin(&chars_of(raw.as_str())) {
            Some(v) => Ok(v),
            None => {
                let mut m = chars_of("unverified: `");
                crate::text::push_str(&mut m, source);
                crate::text::push_str(&mut m, "` package version `");
                crate::text::push_str(&mut m, raw.as_str());
                crate::text::push_str(&mut m, "` is not an exact version");
                Err(crate::text::string_of(&m))
            },
        };
    }
    let inherits = match vv.get("workspace") {
        Some(DocValue::Flag(b)) => *b,
        _ => false,
    };
    if !inherits {
        return Err(no_version);
    }
    let raw = match root.get("workspace") {
        Some(w) => match w.get("package") {
            Some(p) => match p.get("version") {
                Some(DocValue::Text(s)) => Some(s),
                _ => None,
            },
            None => None,
        },
        None => None,
    };
    match raw {
        None => {
            let mut m = chars_of("unverified: `");
            crate::text::push_str(&mut m, source);
            crate::text::push_str(&mut m, "` inherits `version` but `[workspace.package].version` is missing");
            Err(crate::text::string_of(&m))
        },
        Some(raw) => match exact_pin(&chars_of(raw.as_str())) {
            Some(v) => Ok(v),
            None => {
                let mut m = chars_of("unverified: `[workspace.package].version` `");
                crate::text::push_str(&mut m, raw.as_str());
                crate::text::push_str(&mut m, "` is not an exact version");
                Err(crate::text::string_of(&m))
            },
        },
    }
}

/// The pin a Cargo manifest at `source` gives, recorded against `source`:
/// one when its package is named `oakum`; or why it cannot be verified.
pub fn manifest_pin(manifest: &DocValue, source: &str, root: &DocValue) -> (r: Result<Option<FoundPin>, String>)
    ensures
        match manifest_pin_of(*manifest, source@, *root) {
            Ok(None) => r matches Ok(None),
            Ok(Some(v)) => r matches Ok(Some(p)) && pin_view(p) == (source@, v),
            Err(e) => r matches Err(x) && x@ == e,
        },
{
    let p = match manifest.get("package") {
        None => return Ok(None),
        Some(p) => p,
    };
    let named = match p.get("name") {
        Some(DocValue::Text(n)) => crate::text::is(&chars_of(n.as_str()), "oakum"),
        _ => false,
    };
    if !named {
        return Ok(None);
    }
    let v = package_version(p, root, source)?;
    Ok(Some(found(source, v)))
}

// ---------------------------------------------------------------------------
// The verdict on the pins found
// ---------------------------------------------------------------------------

/// `version (source)`, as a mismatch lists a pin.
pub open spec fn pin_entry(p: (Seq<char>, VersionView)) -> Seq<char> {
    version_text(p.1) + " ("@ + p.0 + ")"@
}

/// The pins of `ps` that fix a version other than `expected`.
pub open spec fn mismatched(ps: Seq<(Seq<char>, VersionView)>, expected: VersionView) -> Seq<(Seq<char>, VersionView)>
    decreases ps.len(),
{
    if ps.len() == 0 {
        Seq::empty()
    } else if ps.last().1 != expected {
        mismatched(ps.drop_last(), expected).push(ps.last())
    } else {
        mismatched(ps.drop_last(), expected)
    }
}

/// What the pins say of the version the configuration names: no pin at
/// all, or a pin of another version, is a look that could not be verified.
pub open spec fn pins_verdict(ps: Seq<(Seq<char>, VersionView)>, expected: VersionView) -> Option<Seq<char>> {
    if ps.len() == 0 {
        Some(
            "unverified: no oakum install pin in `.github/workflows`, `package.json`, `.mise.toml`, or a Cargo workspace member named `oakum`; pin the same version as `tool-version` (`"@
                + version_text(expected) + "`), for example `cargo binstall --no-confirm oakum@"@
                + version_text(expected) + "`"@,
        )
    } else if mismatched(ps, expected).len() == 0 {
        None
    } else {
        Some(
            "unverified: install pin is "@ + join(mismatched(ps, expected).map_values(|p: (Seq<char>, VersionView)| pin_entry(p)), ", "@)
                + " but `tool-version` is `"@ + version_text(expected) + "`"@,
        )
    }
}

/// Whether the install pins found fix the version the configuration names.
pub fn verify_pins(pins: &Vec<FoundPin>, expected: &SemVer) -> (r: Result<(), CliError>)
    ensures
        match pins_verdict(pins_view(pins@), expected@) {
            None => r is Ok,
            Some(d) => r matches Err(e) && e == (CliError::Unverified { detail: e->detail }) && e->detail@ == d,
        },
{
    let ghost pv = pins_view(pins@);
    let want = expected.chars();
    if pins.len() == 0 {
        let mut m = chars_of(
            "unverified: no oakum install pin in `.github/workflows`, `package.json`, `.mise.toml`, or a Cargo workspace member named `oakum`; pin the same version as `tool-version` (`",
        );
        crate::text::push_all(&mut m, &want);
        crate::text::push_str(&mut m, "`), for example `cargo binstall --no-confirm oakum@");
        crate::text::push_all(&mut m, &want);
        crate::text::push_str(&mut m, "`");
        return Err(CliError::unverified(crate::text::string_of(&m)));
    }
    let mut listed: Vec<Text> = Vec::new();
    let mut i: usize = 0;
    assert(pv.take(0) =~= Seq::<(Seq<char>, VersionView)>::empty());
    while i < pins.len()
        invariant
            pv == pins_view(pins@),
            i <= pins@.len(),
            listed.deep_view() == mismatched(pv.take(i as int), expected@).map_values(|p: (Seq<char>, VersionView)| pin_entry(p)),
        decreases pins@.len() - i,
    {
        assert(pv.take(i + 1).drop_last() == pv.take(i as int));
        assert(pv.take(i + 1).last() == pin_view(pins@[i as int]));
        let p = &pins[i];
        if !p.version.same_as(expected) {
            let mut e = p.version.chars();
            crate::text::push_str(&mut e, " (");
            crate::text::push_str(&mut e, p.source.as_str());
            crate::text::push_str(&mut e, ")");
            let ghost before = listed.deep_view();
            let ghost ev = e@;
            listed.push(e);
            assert(listed.deep_view() =~= before.push(ev));
            assert(mismatched(pv.take(i + 1), expected@).map_values(|p: (Seq<char>, VersionView)| pin_entry(p)) =~= before.push(ev));
        }
        i = i + 1;
    }
    assert(pv.take(pv.len() as int) == pv);
    if listed.len() == 0 {
        return Ok(());
    }
    let mut m = chars_of("unverified: install pin is ");
    crate::text::push_all(&mut m, &crate::text::joined(&listed, ", "));
    crate::text::push_str(&mut m, " but `tool-version` is `");
    crate::text::push_all(&mut m, &want);
    crate::text::push_str(&mut m, "`");
    Err(CliError::unverified(crate::text::string_of(&m)))
}

// ---------------------------------------------------------------------------
// Laws
// ---------------------------------------------------------------------------

proof fn lemma_gather_of_refusing_prefix(rs: Seq<Result<Seq<VersionView>, Seq<char>>>, k: int)
    requires
        0 <= k < rs.len(),
        rs[k] is Err,
    ensures
        gather(rs.take(k + 1)) is Err,
{
    assert(rs.take(k + 1).drop_last() == rs.take(k));
    assert(rs.take(k + 1).last() == rs[k]);
}

/// One refusal anywhere refuses the whole: an inexact or missing version on
/// one line is not hidden by exact pins on others.
pub proof fn lemma_one_refusal_refuses_the_whole(rs: Seq<Result<Seq<VersionView>, Seq<char>>>, k: int)
    requires
        0 <= k < rs.len(),
        rs[k] is Err,
    ensures
        gather(rs) is Err,
{
    lemma_gather_of_refusing_prefix(rs, k);
    lemma_gather_refusal_sticks(rs, k + 1);
}

proof fn lemma_mismatched_empty(ps: Seq<(Seq<char>, VersionView)>, expected: VersionView)
    ensures
        (mismatched(ps, expected).len() == 0) == (forall|k: int| 0 <= k < ps.len() ==> (#[trigger] ps[k]).1 == expected),
    decreases ps.len(),
{
    if ps.len() > 0 {
        lemma_mismatched_empty(ps.drop_last(), expected);
        if forall|k: int| 0 <= k < ps.len() ==> (#[trigger] ps[k]).1 == expected {
            assert forall|k: int| 0 <= k < ps.drop_last().len() implies (#[trigger] ps.drop_last()[k]).1 == expected by {
                assert(ps.drop_last()[k] == ps[k]);
            }
            assert(ps[ps.len() - 1] == ps.last());
        } else {
            let k = choose|k: int| 0 <= k < ps.len() && (#[trigger] ps[k]).1 != expected;
            if k < ps.len() - 1 {
                assert(ps.drop_last()[k] == ps[k]);
            }
        }
    }
}

/// The install pins verify exactly when at least one was found and every
/// one fixes the version the configuration names; a look that found none is
/// unverified, never a pass.
pub proof fn lemma_pins_verify_exactly_when_all_match(ps: Seq<(Seq<char>, VersionView)>, expected: VersionView)
    ensures
        (pins_verdict(ps, expected) is None) == (ps.len() > 0 && forall|k: int| 0 <= k < ps.len() ==> (#[trigger] ps[k]).1
            == expected),
{
    lemma_mismatched_empty(ps, expected);
}

/// The refusal for a file that does not read as `kind` (`JSON`, `TOML`).
pub open spec fn unreadable_doc(file: Seq<char>, kind: Seq<char>, err: Seq<char>) -> Seq<char> {
    "unverified: `"@ + file + "` is not valid "@ + kind + ": "@ + err
}

fn unreadable_doc_text(file: &str, kind: &str, err: &str) -> (out: String)
    ensures
        out@ == unreadable_doc(file@, kind@, err@),
{
    let mut m = chars_of("unverified: `");
    crate::text::push_str(&mut m, file);
    crate::text::push_str(&mut m, "` is not valid ");
    crate::text::push_str(&mut m, kind);
    crate::text::push_str(&mut m, ": ");
    crate::text::push_str(&mut m, err);
    crate::text::string_of(&m)
}

/// A TOML file's text as a document, or the refusal naming it.
pub open spec fn toml_file_of(file: Seq<char>, text: Seq<char>) -> Result<DocValue, Seq<char>> {
    match toml_doc_of(text) {
        Ok(d) => Ok(d),
        Err(e) => Err(unreadable_doc(file, "TOML"@, e)),
    }
}

/// A TOML file's text, read as a document; a text `toml` refuses is
/// refused as unverified, naming the file.
pub fn read_toml_file(file: &str, text: &str) -> (r: Result<DocValue, String>)
    ensures
        match toml_file_of(file@, text@) {
            Ok(d) => r == Ok::<DocValue, String>(d),
            Err(e) => r matches Err(x) && x@ == e,
        },
{
    match read_toml(text) {
        Ok(d) => Ok(d),
        Err(e) => Err(unreadable_doc_text(file, "TOML", e.as_str())),
    }
}

/// The pin `package.json`'s text holds.
pub open spec fn package_json_text_pin_of(text: Seq<char>) -> Result<Option<VersionView>, Seq<char>> {
    match json_doc_of(text) {
        Ok(d) => package_json_pin_of(d),
        Err(e) => Err(unreadable_doc("package.json"@, "JSON"@, e)),
    }
}

/// The pin `package.json`'s text holds: the text is read as JSON, and a
/// text that is not JSON is refused as unverified.
pub fn package_json_text_pin(text: &str) -> (r: Result<Option<FoundPin>, String>)
    ensures
        match package_json_text_pin_of(text@) {
            Ok(None) => r matches Ok(None),
            Ok(Some(v)) => r matches Ok(Some(p)) && pin_view(p) == ("package.json"@, v),
            Err(e) => r matches Err(x) && x@ == e,
        },
{
    match read_json(text) {
        Ok(d) => package_json_pin(&d),
        Err(e) => Err(unreadable_doc_text("package.json", "JSON", e.as_str())),
    }
}

/// The pin a mise config's text holds.
pub open spec fn mise_text_pin_of(name: Seq<char>, text: Seq<char>) -> Result<Option<VersionView>, Seq<char>> {
    match toml_file_of(name, text) {
        Ok(d) => mise_pin_of(name, d),
        Err(e) => Err(e),
    }
}

/// The pin the mise config `name` holds, read from its text.
pub fn mise_text_pin(name: &str, text: &str) -> (r: Result<Option<FoundPin>, String>)
    ensures
        match mise_text_pin_of(name@, text@) {
            Ok(None) => r matches Ok(None),
            Ok(Some(v)) => r matches Ok(Some(p)) && pin_view(p) == (name@, v),
            Err(e) => r matches Err(x) && x@ == e,
        },
{
    match read_toml_file(name, text) {
        Ok(d) => mise_pin(name, &d),
        Err(e) => Err(e),
    }
}

/// The pin a member manifest's text holds.
pub open spec fn manifest_text_pin_of(path: Seq<char>, text: Seq<char>, root: DocValue) -> Result<Option<VersionView>, Seq<char>> {
    match toml_file_of(path, text) {
        Ok(d) => manifest_pin_of(d, path, root),
        Err(e) => Err(e),
    }
}

/// The pins of `members` (path and text, in scan order) merged into
/// `found`: the first refusal stops the scan.
pub open spec fn member_pins_of(
    found: Option<(Seq<char>, VersionView)>,
    members: Seq<(Seq<char>, Seq<char>)>,
    root: DocValue,
) -> Result<Option<(Seq<char>, VersionView)>, Seq<char>>
    decreases members.len(),
{
    if members.len() == 0 {
        Ok(found)
    } else {
        match manifest_text_pin_of(members[0].0, members[0].1, root) {
            Err(e) => Err(e),
            Ok(None) => member_pins_of(found, members.drop_first(), root),
            Ok(Some(v)) => match merged_pins(found, (members[0].0, v)) {
                Err(e) => Err(e),
                Ok(m) => member_pins_of(m, members.drop_first(), root),
            },
        }
    }
}

/// The workspace members' pins, each member given by its manifest path and
/// text, merged into the root manifest's pin `found`.
pub fn member_pins(found: Option<FoundPin>, members: &Vec<(String, String)>, root: &DocValue) -> (r: Result<Option<FoundPin>, String>)
    ensures
        match member_pins_of(opt_pin_view(found), crate::release_steps::pairs_view(members@), *root) {
            Ok(m) => r matches Ok(x) && opt_pin_view(x) == m,
            Err(e) => r matches Err(x) && x@ == e,
        },
{
    let ghost mv = crate::release_steps::pairs_view(members@);
    let mut cur = found;
    let mut i: usize = 0;
    assert(mv.skip(0) =~= mv);
    while i < members.len()
        invariant
            mv == crate::release_steps::pairs_view(members@),
            i <= mv.len(),
            member_pins_of(opt_pin_view(cur), mv.skip(i as int), *root)
                == member_pins_of(opt_pin_view(found), mv, *root),
        decreases mv.len() - i,
    {
        assert(mv.skip(i as int)[0] == mv[i as int]);
        assert(mv.skip(i as int).drop_first() =~= mv.skip(i + 1));
        let path = members[i].0.as_str();
        let pin = match read_toml_file(path, members[i].1.as_str()) {
            Ok(d) => manifest_pin(&d, path, root),
            Err(e) => Err(e),
        };
        match pin {
            Err(e) => return Err(e),
            Ok(None) => {},
            Ok(Some(p)) => {
                match merge_pin(cur, p) {
                    Err(e) => return Err(e),
                    Ok(m) => cur = m,
                }
            },
        }
        i = i + 1;
    }
    assert(mv.skip(mv.len() as int) =~= Seq::<(Seq<char>, Seq<char>)>::empty());
    Ok(cur)
}

} // verus!
