//! One verdict from what the looks established: the blocks a run prints,
//! the deciding line first. Reports in, one `CliError` out.
use vstd::prelude::*;

use crate::outcome::{class_of, detail_of, outcome_token, said, CliError, Outcome};
use crate::text::{
    chars_of, copy, is_space, joined, lines, lines_of, push_all, push_str, starts_with, string_of,
    trim, trimmed, Text,
};

verus! {

broadcast use crate::views::lemma_text_deep_view;

/// A refusal and the evidence beneath it: one block of the verdict.
pub struct Refusal {
    pub error: CliError,
    pub lines: Vec<String>,
}

/// What one look established: what it reports without refusing, and each
/// refusal with the detail that supports it.
pub struct LookReport {
    pub lines: Vec<String>,
    pub refusals: Vec<Refusal>,
}

/// A block as the contracts see it: the error and its evidence lines.
pub type Block = (CliError, Seq<Seq<char>>);

pub open spec fn block_of(r: Refusal) -> Block {
    (r.error, r.lines.deep_view())
}

pub open spec fn blocks_of(rs: Seq<Refusal>) -> Seq<Block> {
    rs.map_values(|r: Refusal| block_of(r))
}

/// Every refusal of every report, in the order announced.
pub open spec fn all_refusals(reports: Seq<LookReport>) -> Seq<Block>
    decreases reports.len(),
{
    if reports.len() == 0 {
        Seq::empty()
    } else {
        all_refusals(reports.drop_last()) + blocks_of(reports.last().refusals@)
    }
}

/// Every reported line of every report, in order.
pub open spec fn all_lines(reports: Seq<LookReport>) -> Seq<Seq<char>>
    decreases reports.len(),
{
    if reports.len() == 0 {
        Seq::empty()
    } else {
        all_lines(reports.drop_last()) + reports.last().lines.deep_view()
    }
}

/// Two refusals that say the same thing with the same weight.
pub open spec fn same_refusal(a: CliError, b: CliError) -> bool {
    class_of(a) == class_of(b) && said(a) == said(b)
}

/// The first block from `i` on that `e` repeats, or `blocks.len()`.
pub open spec fn first_same_from(blocks: Seq<Block>, e: CliError, i: int) -> int
    decreases blocks.len() - i,
{
    if i >= blocks.len() || i < 0 {
        blocks.len() as int
    } else if same_refusal(blocks[i].0, e) {
        i
    } else {
        first_same_from(blocks, e, i + 1)
    }
}

/// `r` said once: its evidence joins the first block that says the same
/// thing, or it becomes a block of its own.
pub open spec fn merge_one(blocks: Seq<Block>, r: Block) -> Seq<Block> {
    let i = first_same_from(blocks, r.0, 0);
    if i < blocks.len() {
        blocks.update(i, (blocks[i].0, blocks[i].1 + r.1))
    } else {
        blocks.push(r)
    }
}

/// The blocks of a run: each refusal merged in announced order.
pub open spec fn merged(rs: Seq<Block>) -> Seq<Block>
    decreases rs.len(),
{
    if rs.len() == 0 {
        Seq::empty()
    } else {
        merge_one(merged(rs.drop_last()), rs.last())
    }
}

/// The first block from `i` on that is a finding, or `blocks.len()`.
pub open spec fn first_finding_from(blocks: Seq<Block>, i: int) -> int
    decreases blocks.len() - i,
{
    if i >= blocks.len() || i < 0 {
        blocks.len() as int
    } else if class_of(blocks[i].0) == Outcome::Error {
        i
    } else {
        first_finding_from(blocks, i + 1)
    }
}

/// The deciding block: the first finding, else the first block.
pub open spec fn deciding(blocks: Seq<Block>) -> int {
    let f = first_finding_from(blocks, 0);
    if f < blocks.len() {
        f
    } else {
        0
    }
}

proof fn lemma_first_finding(blocks: Seq<Block>, i: int)
    requires
        0 <= i <= blocks.len(),
    ensures
        i <= first_finding_from(blocks, i) <= blocks.len(),
        first_finding_from(blocks, i) < blocks.len() ==> class_of(blocks[first_finding_from(blocks, i)].0) == Outcome::Error,
        first_finding_from(blocks, i) == blocks.len() ==> forall|k: int| i <= k < blocks.len() ==> class_of(#[trigger] blocks[k].0) != Outcome::Error,
    decreases blocks.len() - i,
{
    if i < blocks.len() && class_of(blocks[i].0) != Outcome::Error {
        lemma_first_finding(blocks, i + 1);
    }
}

/// A finding is never reported as a look that did not happen: the verdict
/// is a finding exactly when some look established one, and the deciding
/// block is always one of the blocks.
pub proof fn lemma_a_finding_outranks_a_look_that_did_not_happen(blocks: Seq<Block>)
    requires
        blocks.len() > 0,
    ensures
        0 <= deciding(blocks) < blocks.len(),
        (exists|i: int| 0 <= i < blocks.len() && class_of(#[trigger] blocks[i].0) == Outcome::Error)
            <==> class_of(blocks[deciding(blocks)].0) == Outcome::Error,
{
    lemma_first_finding(blocks, 0);
}

/// The first line of `s`, or nothing.
pub open spec fn first_line_of(s: Seq<char>) -> Seq<char> {
    if lines(s).len() > 0 {
        lines(s)[0]
    } else {
        Seq::empty()
    }
}

/// Every line of `s` after the first.
pub open spec fn continuation_of(s: Seq<char>) -> Seq<Seq<char>> {
    if lines(s).len() > 0 {
        lines(s).drop_first()
    } else {
        Seq::empty()
    }
}

/// Each line on a line of its own, indented two spaces unless blank.
pub open spec fn indented(ls: Seq<Seq<char>>) -> Seq<char>
    decreases ls.len(),
{
    if ls.len() == 0 {
        Seq::empty()
    } else {
        indented(ls.drop_last()) + seq!['\n'] + (if ls.last().len() > 0 {
            "  "@ + ls.last()
        } else {
            Seq::empty()
        })
    }
}

/// A block's summary with its detail beneath.
pub open spec fn block_body(b: Block) -> Seq<char> {
    first_line_of(detail_of(b.0)) + indented(continuation_of(detail_of(b.0))) + indented(b.1)
}

/// Blocks shadowed by the deciding one, each marked `also`.
pub open spec fn alsos(bs: Seq<Block>) -> Seq<char>
    decreases bs.len(),
{
    if bs.len() == 0 {
        Seq::empty()
    } else {
        alsos(bs.drop_last()) + "\nalso "@ + outcome_token(class_of(bs.last().0)) + ": "@
            + block_body(bs.last())
    }
}

/// The sentence the verdict carries.
pub open spec fn verdict_detail(blocks: Seq<Block>) -> Seq<char> {
    let d = deciding(blocks);
    block_body(blocks[d]) + alsos(blocks.remove(d))
}

impl Refusal {
    /// A refusal with no evidence beneath it.
    pub fn bare(error: CliError) -> (r: Refusal)
        ensures
            r.error == error,
            r.lines@.len() == 0,
    {
        Refusal { error, lines: Vec::new() }
    }
}

impl Default for LookReport {
    fn default() -> (r: LookReport)
        ensures
            r.lines@.len() == 0,
            r.refusals@.len() == 0,
    {
        LookReport { lines: Vec::new(), refusals: Vec::new() }
    }
}

impl LookReport {
    /// A report that refuses for each of `refusals` and says nothing else.
    pub fn refusing(refusals: Vec<Refusal>) -> (r: LookReport)
        ensures
            r.lines@.len() == 0,
            r.refusals == refusals,
    {
        LookReport { lines: Vec::new(), refusals }
    }

    /// A report from a look's result: its error, if any, is a bare refusal.
    pub fn from_result(result: Result<(), CliError>) -> (r: LookReport)
        ensures
            r.lines@.len() == 0,
            match result {
                Ok(_) => r.refusals@.len() == 0,
                Err(e) => r.refusals@.len() == 1 && r.refusals@[0].error == e
                    && r.refusals@[0].lines@.len() == 0,
            },
    {
        let mut refusals: Vec<Refusal> = Vec::new();
        match result {
            Ok(()) => {},
            Err(e) => refusals.push(Refusal::bare(e)),
        }
        LookReport::refusing(refusals)
    }
}

/// The index of the first block from `from` that `e` repeats.
fn find_same(blocks: &Vec<Refusal>, e: &CliError) -> (i: usize)
    ensures
        i == first_same_from(blocks_of(blocks@), *e, 0),
{
    let ghost bs = blocks_of(blocks@);
    let m = e.message_text();
    let c = e.class();
    let mut i: usize = 0;
    while i < blocks.len()
        invariant
            bs == blocks_of(blocks@),
            m@ == said(*e),
            c == class_of(*e),
            i <= blocks@.len(),
            first_same_from(bs, *e, 0) == first_same_from(bs, *e, i as int),
        decreases blocks@.len() - i,
    {
        let other = blocks[i].error.message_text();
        if blocks[i].error.class() == c && crate::text::same(&other, &m) {
            return i;
        }
        i = i + 1;
    }
    i
}

/// Appends each of `more` to `into`.
fn extend_strings(into: &mut Vec<String>, more: Vec<String>)
    ensures
        final(into).deep_view() == old(into).deep_view() + more.deep_view(),
{
    let mut more = more;
    let ghost start = into.deep_view();
    let ghost all = more.deep_view();
    let mut k: usize = 0;
    let total: usize = more.len();
    while more.len() > 0
        invariant
            k + more@.len() == total,
            all.len() == total,
            more.deep_view() == all.skip(k as int),
            into.deep_view() == start + all.take(k as int),
        decreases more@.len(),
    {
        let ghost old_more = more.deep_view();
        let s = more.remove(0);
        assert(more.deep_view() =~= old_more.drop_first());
        let ghost before = into.deep_view();
        into.push(s);
        assert(into.deep_view() =~= before.push(s@));
        assert(all.skip(k as int)[0] == s@);
        k = k + 1;
        assert(all.take(k as int) =~= all.take(k - 1).push(s@));
        assert(all.skip(k - 1).drop_first() =~= all.skip(k as int));
    }
    assert(all.take(total as int) == all);
}

/// One refusal merged into the blocks.
fn merge_into(blocks: &mut Vec<Refusal>, r: Refusal)
    ensures
        blocks_of(final(blocks)@) == merge_one(blocks_of(old(blocks)@), block_of(r)),
{
    let ghost bs = blocks_of(blocks@);
    let j = find_same(blocks, &r.error);
    if j < blocks.len() {
        let mut b = blocks.remove(j);
        let ghost old_lines = b.lines.deep_view();
        extend_strings(&mut b.lines, r.lines);
        blocks.insert(j, b);
        assert(blocks_of(blocks@) =~= bs.update(j as int, (bs[j as int].0, bs[j as int].1 + block_of(r).1)));
    } else {
        let ghost rv = block_of(r);
        blocks.push(r);
        assert(blocks_of(blocks@) =~= bs.push(rv));
    }
}

/// The lines of `s`.
fn lines_text(s: &[char]) -> (out: Vec<Text>)
    ensures
        out.deep_view() == lines(s@),
{
    lines_of(s)
}

/// `detail` followed by each line on its own, indented unless blank.
fn indent_into(detail: &mut Text, ls: &Vec<Text>)
    ensures
        final(detail)@ == old(detail)@ + indented(ls.deep_view()),
{
    let ghost start = detail@;
    let mut i: usize = 0;
    while i < ls.len()
        invariant
            i <= ls@.len(),
            detail@ == start + indented(ls.deep_view().take(i as int)),
        decreases ls@.len() - i,
    {
        let ghost prev = ls.deep_view().take(i as int);
        assert(ls.deep_view().take(i + 1).drop_last() == prev);
        detail.push('\n');
        if ls[i].len() > 0 {
            push_str(detail, "  ");
            push_all(detail, &ls[i]);
        }
        i = i + 1;
        assert(detail@ =~= start + indented(ls.deep_view().take(i as int)));
    }
    assert(ls.deep_view().take(ls@.len() as int) == ls.deep_view());
}

/// The first line of `s`, or nothing.
fn first_line_text(s: &[char]) -> (out: Text)
    ensures
        out@ == first_line_of(s@),
{
    let ls = lines_text(s);
    if ls.len() > 0 {
        copy(&ls[0])
    } else {
        Vec::new()
    }
}

/// Every line of `s` after the first.
fn continuation_text(s: &[char]) -> (out: Vec<Text>)
    ensures
        out.deep_view() == continuation_of(s@),
{
    let mut ls = lines_text(s);
    if ls.len() > 0 {
        let ghost all = ls.deep_view();
        ls.remove(0);
        assert(ls.deep_view() =~= all.drop_first());
        ls
    } else {
        Vec::new()
    }
}

/// The strings as runs of characters.
fn texts_of(v: &Vec<String>) -> (out: Vec<Text>)
    ensures
        out.deep_view() == v.deep_view(),
{
    let mut out: Vec<Text> = Vec::new();
    let mut i: usize = 0;
    while i < v.len()
        invariant
            i <= v@.len(),
            out.deep_view() == v.deep_view().take(i as int),
        decreases v@.len() - i,
    {
        let t = chars_of(v[i].as_str());
        let ghost before = out.deep_view();
        out.push(t);
        assert(out.deep_view() =~= before.push(v[i as int]@));
        i = i + 1;
        assert(out.deep_view() =~= v.deep_view().take(i as int));
    }
    assert(v.deep_view().take(v@.len() as int) == v.deep_view());
    out
}

/// A block's summary with its detail beneath.
fn block_text(b: &Refusal) -> (out: Text)
    ensures
        out@ == block_body(block_of(*b)),
{
    let d = b.error.detail_text();
    let mut out = first_line_text(&d);
    let cont = continuation_text(&d);
    indent_into(&mut out, &cont);
    let evidence = texts_of(&b.lines);
    indent_into(&mut out, &evidence);
    out
}

/// The index of the first finding, or the first block when none is one.
fn deciding_index(blocks: &Vec<Refusal>) -> (d: usize)
    requires
        blocks@.len() > 0,
    ensures
        d == deciding(blocks_of(blocks@)),
        d < blocks@.len(),
{
    let ghost bs = blocks_of(blocks@);
    let mut i: usize = 0;
    while i < blocks.len()
        invariant
            bs == blocks_of(blocks@),
            i <= blocks@.len(),
            first_finding_from(bs, 0) == first_finding_from(bs, i as int),
        decreases blocks@.len() - i,
    {
        if blocks[i].error.class() == Outcome::Error {
            return i;
        }
        i = i + 1;
    }
    0
}

/// Every refusal reported, with the one that decides the exit code chosen by
/// what it means: a finding outranks a look that did not happen, and among
/// equals the announced order decides. Identical refusals are said once with
/// the evidence of both. The reports' own lines come back to be said first.
pub fn carry(reports: Vec<LookReport>) -> (out: (Vec<String>, Option<CliError>))
    ensures
        out.0.deep_view() == all_lines(reports@),
        ({
            let blocks = merged(all_refusals(reports@));
            match out.1 {
                None => blocks.len() == 0,
                Some(v) => blocks.len() > 0 && class_of(v) == class_of(blocks[deciding(blocks)].0)
                    && said(v) == verdict_detail(blocks),
            }
        }),
{
    let ghost all = reports@;
    let mut reports = reports;
    let mut said_lines: Vec<String> = Vec::new();
    let mut blocks: Vec<Refusal> = Vec::new();
    let mut k: usize = 0;
    let total: usize = reports.len();
    while reports.len() > 0
        invariant
            k + reports@.len() == total,
            all.len() == total,
            reports@ == all.skip(k as int),
            said_lines.deep_view() == all_lines(all.take(k as int)),
            blocks_of(blocks@) == merged(all_refusals(all.take(k as int))),
        decreases reports@.len(),
    {
        let ghost old_reports = reports@;
        let report = reports.remove(0);
        assert(reports@ =~= old_reports.drop_first());
        assert(all.skip(k as int)[0] == report);
        assert(all.take(k + 1).drop_last() == all.take(k as int));
        extend_strings(&mut said_lines, report.lines);
        let mut refusals = report.refusals;
        let ghost rs = blocks_of(refusals@);
        let ghost base = all_refusals(all.take(k as int));
        let mut m: usize = 0;
        let count: usize = refusals.len();
        while refusals.len() > 0
            invariant
                rs.len() == count,
                m + refusals@.len() == count,
                blocks_of(refusals@) == rs.skip(m as int),
                blocks_of(blocks@) == merged(base + rs.take(m as int)),
            decreases refusals@.len(),
        {
            let ghost old_rs = refusals@;
            let r = refusals.remove(0);
            assert(refusals@ =~= old_rs.drop_first());
            assert(rs.skip(m as int)[0] == block_of(r));
            let ghost prefix = base + rs.take(m as int);
            merge_into(&mut blocks, r);
            m = m + 1;
            assert((base + rs.take(m as int)).drop_last() =~= prefix);
            assert((base + rs.take(m as int)).last() == block_of(r));
            assert(rs.skip(m - 1).drop_first() =~= rs.skip(m as int));
            assert(blocks_of(refusals@) =~= blocks_of(old_rs).drop_first());
        }
        assert(rs.take(m as int) == rs);
        k = k + 1;
        assert(all.skip(k - 1).drop_first() =~= all.skip(k as int));
    }
    assert(all.take(total as int) == all);
    if blocks.len() == 0 {
        return (said_lines, None);
    }
    let ghost bs = blocks_of(blocks@);
    let d = deciding_index(&blocks);
    let chosen = blocks.remove(d);
    assert(blocks_of(blocks@) =~= bs.remove(d as int));
    let mut detail = block_text(&chosen);
    let ghost rest = blocks_of(blocks@);
    let mut i: usize = 0;
    while i < blocks.len()
        invariant
            rest == blocks_of(blocks@),
            i <= blocks@.len(),
            detail@ == block_body(block_of(chosen)) + alsos(rest.take(i as int)),
        decreases blocks@.len() - i,
    {
        assert(rest.take(i + 1).drop_last() == rest.take(i as int));
        push_str(&mut detail, "\nalso ");
        push_str(&mut detail, blocks[i].error.outcome());
        push_str(&mut detail, ": ");
        let body = block_text(&blocks[i]);
        push_all(&mut detail, &body);
        i = i + 1;
        assert(detail@ =~= block_body(block_of(chosen)) + alsos(rest.take(i as int)));
    }
    assert(rest.take(rest.len() as int) == rest);
    let verdict = chosen.error.recast(string_of(&detail));
    (said_lines, Some(verdict))
}

/// The first line of `detail`, or nothing: a summary is one line.
pub fn first_line(detail: &str) -> (out: String)
    ensures
        out@ == first_line_of(detail@),
{
    let d = chars_of(detail);
    string_of(&first_line_text(&d))
}

/// Every line of `detail` after the first.
pub fn continuation(detail: &str) -> (out: Vec<String>)
    ensures
        out.deep_view() == continuation_of(detail@),
{
    let d = chars_of(detail);
    let ls = continuation_text(&d);
    strings_of(&ls)
}

/// The runs of characters as strings.
pub fn strings_of(v: &Vec<Text>) -> (out: Vec<String>)
    ensures
        out.deep_view() == v.deep_view(),
{
    let mut out: Vec<String> = Vec::new();
    let mut i: usize = 0;
    while i < v.len()
        invariant
            i <= v@.len(),
            out.deep_view() == v.deep_view().take(i as int),
        decreases v@.len() - i,
    {
        let s = string_of(&v[i]);
        let ghost before = out.deep_view();
        out.push(s);
        assert(out.deep_view() =~= before.push(v[i as int]@));
        i = i + 1;
        assert(out.deep_view() =~= v.deep_view().take(i as int));
    }
    assert(v.deep_view().take(v@.len() as int) == v.deep_view());
    out
}

/// `detail` followed by each of `lines` on its own line, indented unless blank.
pub fn indent_lines(detail: &mut String, lines: &Vec<String>)
    ensures
        final(detail)@ == old(detail)@ + indented(lines.deep_view()),
{
    let mut d = chars_of(detail.as_str());
    let ls = texts_of(lines);
    indent_into(&mut d, &ls);
    *detail = string_of(&d);
}

/// An English list: comma-separated with a final `and`.
pub open spec fn english_list(looks: Seq<Seq<char>>) -> Seq<char> {
    if looks.len() == 0 {
        Seq::empty()
    } else if looks.len() == 1 {
        looks[0]
    } else {
        crate::text::join(looks.drop_last(), ", "@) + ", and "@ + looks.last()
    }
}

/// An English list: comma-separated with a final `and`.
pub fn named(looks: &Vec<String>) -> (out: String)
    ensures
        out@ == english_list(looks.deep_view()),
{
    let ts = texts_of(looks);
    if ts.len() == 0 {
        return String::new();
    }
    if ts.len() == 1 {
        return string_of(&ts[0]);
    }
    let ghost all = ts.deep_view();
    let mut rest = ts;
    let last = rest.pop().unwrap();
    assert(rest.deep_view() =~= all.drop_last());
    let mut out = joined(&rest, ", ");
    push_str(&mut out, ", and ");
    push_all(&mut out, &last);
    string_of(&out)
}

/// A line git concludes with: `fatal:` or `error:`.
pub open spec fn is_conclusion(line: Seq<char>) -> bool {
    starts_with(line, "fatal:"@) || starts_with(line, "error:"@)
}

/// The last concluding line from `i` down, or `-1`.
pub open spec fn last_conclusion_below(ls: Seq<Seq<char>>, i: int) -> int
    decreases i,
{
    if i <= 0 {
        -1
    } else if is_conclusion(ls[i - 1]) {
        i - 1
    } else {
        last_conclusion_below(ls, i - 1)
    }
}

/// The first line from `i` on with something beside whitespace, or `ls.len()`.
pub open spec fn first_content_from(ls: Seq<Seq<char>>, i: int) -> int
    decreases ls.len() - i,
{
    if i >= ls.len() || i < 0 {
        ls.len() as int
    } else if trim(ls[i]).len() > 0 {
        i
    } else {
        first_content_from(ls, i + 1)
    }
}

/// The one line a diagnostic is reported by: the last `fatal:` or `error:`,
/// else the first line with content, else the first line, else the whole.
pub open spec fn verdict_line_of(detail: Seq<char>) -> Seq<char> {
    let ls = lines(detail);
    let c = last_conclusion_below(ls, ls.len() as int);
    let f = first_content_from(ls, 0);
    if c >= 0 {
        ls[c]
    } else if f < ls.len() {
        ls[f]
    } else if ls.len() > 0 {
        ls[0]
    } else {
        detail
    }
}

/// git's diagnostics run to dozens of lines; the verdict is the last
/// `fatal:` or `error:`, not the first `warning:`.
pub fn verdict_line(detail: &str) -> (out: String)
    ensures
        out@ == verdict_line_of(detail@),
{
    let d = chars_of(detail);
    let ls = lines_text(&d);
    let ghost lv = ls.deep_view();
    let mut i: usize = ls.len();
    while i > 0
        invariant
            lv == ls.deep_view(),
            lv == lines(detail@),
            i <= lv.len(),
            last_conclusion_below(lv, lv.len() as int) == last_conclusion_below(lv, i as int),
        decreases i,
    {
        if crate::text::begins_str(&ls[i - 1], "fatal:") || crate::text::begins_str(
            &ls[i - 1],
            "error:",
        ) {
            assert(ls[i - 1]@ == lv[i - 1]);
            assert(is_conclusion(lv[i - 1]));
            assert(last_conclusion_below(lv, i as int) == i - 1);
            assert(lv == lines(detail@));
            return string_of(&ls[i - 1]);
        }
        assert(ls[i - 1]@ == lv[i - 1]);
        i = i - 1;
    }
    let mut j: usize = 0;
    while j < ls.len()
        invariant
            lv == ls.deep_view(),
            lv == lines(detail@),
            last_conclusion_below(lv, lv.len() as int) == -1,
            j <= lv.len(),
            first_content_from(lv, 0) == first_content_from(lv, j as int),
        decreases lv.len() - j,
    {
        let t = trimmed(&ls[j]);
        assert(ls[j as int]@ == lv[j as int]);
        if t.len() > 0 {
            assert(first_content_from(lv, j as int) == j);
            return string_of(&ls[j]);
        }
        j = j + 1;
    }
    if ls.len() > 0 {
        string_of(&ls[0])
    } else {
        string_of(&d)
    }
}

} // verus!
