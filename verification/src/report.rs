//! The text that is shown for a set of error blocks: the plain report printed
//! after a build, and the lines of the interactive list.

use vstd::prelude::*;
use crate::classify::{
    block_views, context_texts, context_views, shown_context, severity_is_error, severity_label, BlockModel,
    ErrorBlock, Severity,
};
use crate::text::{chars_of, decimal, push_decimal, string_of, string_views, trim_end, trimmed_end};

verus! {

/// Whether a block of severity `s` is shown: errors always, everything else
/// only with `show_warnings`.
pub open spec fn is_shown(s: Severity, show_warnings: bool) -> bool {
    severity_is_error(s) || (show_warnings && !severity_is_error(s))
}

/// Whether a block of this severity is shown (see `is_shown`).
pub fn shown(s: Severity, show_warnings: bool) -> (b: bool)
    ensures
        b == is_shown(s, show_warnings),
{
    s.is_error() || (show_warnings && !s.is_error())
}

/// Number of error blocks (errors, linker and build failures).
pub open spec fn count_errors(bs: Seq<BlockModel>) -> nat
    decreases bs.len(),
{
    if bs.len() == 0 {
        0
    } else {
        count_errors(bs.drop_last()) + if severity_is_error(bs.last().severity) {
            1nat
        } else {
            0nat
        }
    }
}

/// Number of warning blocks.
pub open spec fn count_warnings(bs: Seq<BlockModel>) -> nat
    decreases bs.len(),
{
    if bs.len() == 0 {
        0
    } else {
        count_warnings(bs.drop_last()) + if bs.last().severity is Warning {
            1nat
        } else {
            0nat
        }
    }
}

/// The blocks that are shown, in order.
pub open spec fn shown_blocks(bs: Seq<BlockModel>, show_warnings: bool) -> Seq<BlockModel>
    decreases bs.len(),
{
    if bs.len() == 0 {
        seq![]
    } else if is_shown(bs.last().severity, show_warnings) {
        shown_blocks(bs.drop_last(), show_warnings).push(bs.last())
    } else {
        shown_blocks(bs.drop_last(), show_warnings)
    }
}

/// The rule between the parts of the report.
pub open spec fn divider() -> Seq<char> {
    Seq::new(80, |i: int| '\u{2500}')
}

/// The report lines of one block: its tag and trigger, its shown attached
/// lines, then an empty line.
pub open spec fn block_report(b: BlockModel) -> Seq<Seq<char>> {
    seq![" ["@ + severity_label(b.severity) + "]  "@ + trim_end(b.trigger)] + context_texts(
        shown_context(b.context, b.context_limit),
    ) + seq![seq![]]
}

/// The report lines of several blocks, one after the other.
pub open spec fn blocks_report(bs: Seq<BlockModel>) -> Seq<Seq<char>>
    decreases bs.len(),
{
    if bs.len() == 0 {
        seq![]
    } else {
        blocks_report(bs.drop_last()) + block_report(bs.last())
    }
}

/// The closing line: the error count, and the warning count when there are warnings.
pub open spec fn summary_line(errors: nat, warnings: nat, show_warnings: bool) -> Seq<char> {
    decimal(errors) + " error(s)"@ + if warnings > 0 {
        "  \u{b7}  "@ + decimal(warnings) + " warning(s)"@ + if show_warnings {
            Seq::<char>::empty()
        } else {
            " (--warnings to show)"@
        }
    } else {
        Seq::<char>::empty()
    }
}

/// The plain report of `bs`, line by line.
pub open spec fn report_lines(bs: Seq<BlockModel>, show_warnings: bool) -> Seq<Seq<char>> {
    let e = count_errors(bs);
    let w = count_warnings(bs);
    let sh = shown_blocks(bs, show_warnings);
    if sh.len() == 0 {
        if w == 0 {
            seq!["bx: no errors or warnings found."@]
        } else {
            seq!["bx: no errors. "@ + decimal(w) + " warning(s) \u{2014} pass --warnings to show them."@]
        }
    } else {
        seq![divider(), "bx \u{2014} "@ + decimal(e) + " error(s), "@ + decimal(w) + " warning(s)"@, divider()]
            + blocks_report(sh) + seq![divider(), summary_line(e, w, show_warnings)]
    }
}

/// Appends the characters of `s` to `out`.
fn push_str(out: &mut Vec<char>, s: &str)
    ensures
        final(out)@ == old(out)@ + s@,
{
    let v = chars_of(s);
    let mut i: usize = 0;
    while i < v.len()
        invariant
            i <= v@.len(),
            v@ == s@,
            out@ == old(out)@ + v@.take(i as int),
        decreases v.len() - i,
    {
        out.push(v[i]);
        i = i + 1;
        assert(out@ =~= old(out)@ + v@.take(i as int));
    }
    assert(v@.take(i as int) == v@);
}

/// Appends the characters of `v` to `out`.
fn push_vec(out: &mut Vec<char>, v: &[char])
    ensures
        final(out)@ == old(out)@ + v@,
{
    let mut i: usize = 0;
    while i < v.len()
        invariant
            i <= v@.len(),
            out@ == old(out)@ + v@.take(i as int),
        decreases v.len() - i,
    {
        out.push(v[i]);
        i = i + 1;
        assert(out@ =~= old(out)@ + v@.take(i as int));
    }
    assert(v@.take(i as int) == v@);
}

/// Appends the decimal representation of `n` to `out`.
fn push_count(out: &mut Vec<char>, n: usize)
    ensures
        final(out)@ == old(out)@ + decimal(n as nat),
{
    push_decimal(out, n as u64);
}

fn divider_line() -> (s: String)
    ensures
        s@ == divider(),
{
    let mut v: Vec<char> = Vec::new();
    let mut i: usize = 0;
    while i < 80
        invariant
            i <= 80,
            v@ == Seq::new(i as nat, |k: int| '\u{2500}'),
        decreases 80 - i,
    {
        v.push('\u{2500}');
        i = i + 1;
        assert(v@ =~= Seq::new(i as nat, |k: int| '\u{2500}'));
    }
    string_of(v.as_slice())
}

/// The report lines of `b` (see `block_report`).
fn block_report_lines(b: &ErrorBlock) -> (r: Vec<String>)
    ensures
        string_views(r@) == block_report(b.view()),
{
    let mut head: Vec<char> = Vec::new();
    push_str(&mut head, " [");
    push_str(&mut head, b.severity.label());
    push_str(&mut head, "]  ");
    push_vec(&mut head, trimmed_end(chars_of(b.trigger.as_str()).as_slice()).as_slice());
    let lines = b.display_lines();
    let mut out: Vec<String> = Vec::new();
    out.push(string_of(head.as_slice()));
    let ghost ct = context_texts(shown_context(context_views(b.context@), b.context_limit));
    assert(string_views(lines@).skip(1) =~= ct);
    let mut i: usize = 1;
    while i < lines.len()
        invariant
            1 <= i <= lines@.len(),
            string_views(lines@).skip(1) == ct,
            string_views(out@) == seq![" ["@ + severity_label(b.severity) + "]  "@ + trim_end(b.trigger@)] + ct.take(i - 1),
        decreases lines.len() - i,
    {
        let ghost before = out@;
        let l = lines[i].clone();
        out.push(l);
        assert(ct[i - 1] == string_views(lines@)[i as int]);
        assert(string_views(lines@)[i as int] == l@);
        assert(string_views(out@) =~= string_views(before).push(l@));
        assert(string_views(out@) =~= seq![" ["@ + severity_label(b.severity) + "]  "@ + trim_end(b.trigger@)] + ct.take(i as int));
        i = i + 1;
    }
    assert(ct.take(i - 1) == ct);
    let ghost before = out@;
    out.push(String::new());
    assert(string_views(out@) =~= block_report(b.view()));
    out
}

proof fn lemma_shown_blocks_take(bs: Seq<BlockModel>, i: int, w: bool)
    requires
        0 <= i < bs.len(),
    ensures
        shown_blocks(bs.take(i + 1), w) == if is_shown(bs[i].severity, w) {
            shown_blocks(bs.take(i), w).push(bs[i])
        } else {
            shown_blocks(bs.take(i), w)
        },
        count_errors(bs.take(i + 1)) == count_errors(bs.take(i)) + if severity_is_error(bs[i].severity) {
            1nat
        } else {
            0nat
        },
        count_warnings(bs.take(i + 1)) == count_warnings(bs.take(i)) + if bs[i].severity is Warning {
            1nat
        } else {
            0nat
        },
{
    assert(bs.take(i + 1).drop_last() == bs.take(i));
}

proof fn lemma_blocks_report_push(bs: Seq<BlockModel>, b: BlockModel)
    ensures
        blocks_report(bs.push(b)) == blocks_report(bs) + block_report(b),
{
    assert(bs.push(b).drop_last() == bs);
}

proof fn lemma_counts_bounded(bs: Seq<BlockModel>)
    ensures
        count_errors(bs) <= bs.len(),
        count_warnings(bs) <= bs.len(),
    decreases bs.len(),
{
    if bs.len() > 0 {
        lemma_counts_bounded(bs.drop_last());
    }
}

/// The plain report of `blocks` (see `report_lines`).
pub fn plain_report(blocks: &[ErrorBlock], show_warnings: bool) -> (r: Vec<String>)
    ensures
        string_views(r@) == report_lines(block_views(blocks@), show_warnings),
{
    let ghost bv = block_views(blocks@);
    let mut n_errors: usize = 0;
    let mut n_warnings: usize = 0;
    let mut body: Vec<String> = Vec::new();
    let mut n_shown: usize = 0;
    let mut i: usize = 0;
    assert(bv.take(0) =~= Seq::<BlockModel>::empty());
    while i < blocks.len()
        invariant
            i <= blocks@.len(),
            bv == block_views(blocks@),
            n_errors == count_errors(bv.take(i as int)),
            n_warnings == count_warnings(bv.take(i as int)),
            n_shown == shown_blocks(bv.take(i as int), show_warnings).len(),
            n_shown <= i,
            string_views(body@) == blocks_report(shown_blocks(bv.take(i as int), show_warnings)),
        decreases blocks.len() - i,
    {
        let b = &blocks[i];
        proof {
            lemma_shown_blocks_take(bv, i as int, show_warnings);
            lemma_counts_bounded(bv.take(i as int));
        }
        assert(bv[i as int] == b.view());
        if b.severity.is_error() {
            n_errors = n_errors + 1;
        }
        if b.severity == Severity::Warning {
            n_warnings = n_warnings + 1;
        }
        if shown(b.severity, show_warnings) {
            let lines = block_report_lines(b);
            let ghost before = body@;
            let mut k: usize = 0;
            while k < lines.len()
                invariant
                    k <= lines@.len(),
                    string_views(body@) == string_views(before) + string_views(lines@).take(k as int),
                decreases lines.len() - k,
            {
                let ghost mid = body@;
                let l = lines[k].clone();
                body.push(l);
                assert(string_views(lines@)[k as int] == l@);
                assert(string_views(body@) =~= string_views(mid).push(l@));
                k = k + 1;
                assert(string_views(body@) =~= string_views(before) + string_views(lines@).take(k as int));
            }
            assert(string_views(lines@).take(k as int) == string_views(lines@));
            proof {
                lemma_blocks_report_push(shown_blocks(bv.take(i as int), show_warnings), b.view());
            }
            n_shown = n_shown + 1;
        }
        i = i + 1;
    }
    assert(bv.take(i as int) == bv);
    let ghost sh = shown_blocks(bv, show_warnings);
    let ghost e = count_errors(bv);
    let ghost w = count_warnings(bv);
    let mut out: Vec<String> = Vec::new();
    if n_shown == 0 {
        let mut v: Vec<char> = Vec::new();
        if n_warnings == 0 {
            push_str(&mut v, "bx: no errors or warnings found.");
            assert(v@ =~= "bx: no errors or warnings found."@);
        } else {
            push_str(&mut v, "bx: no errors. ");
            push_count(&mut v, n_warnings);
            push_str(&mut v, " warning(s) \u{2014} pass --warnings to show them.");
        }
        out.push(string_of(v.as_slice()));
        assert(string_views(out@) =~= report_lines(bv, show_warnings));
        return out;
    }
    let d1 = divider_line();
    out.push(d1);
    let mut head: Vec<char> = Vec::new();
    push_str(&mut head, "bx \u{2014} ");
    push_count(&mut head, n_errors);
    push_str(&mut head, " error(s), ");
    push_count(&mut head, n_warnings);
    push_str(&mut head, " warning(s)");
    let hs = string_of(head.as_slice());
    out.push(hs);
    let d2 = divider_line();
    out.push(d2);
    let ghost before = out@;
    assert(string_views(before) =~= seq![divider(), "bx \u{2014} "@ + decimal(e) + " error(s), "@ + decimal(w) + " warning(s)"@, divider()]);
    let mut k: usize = 0;
    while k < body.len()
        invariant
            k <= body@.len(),
            string_views(out@) == string_views(before) + string_views(body@).take(k as int),
        decreases body.len() - k,
    {
        let ghost mid = out@;
        let l = body[k].clone();
        out.push(l);
        assert(string_views(body@)[k as int] == l@);
        assert(string_views(out@) =~= string_views(mid).push(l@));
        k = k + 1;
        assert(string_views(out@) =~= string_views(before) + string_views(body@).take(k as int));
    }
    assert(string_views(body@).take(k as int) == string_views(body@));
    let ghost mid0 = out@;
    let d3 = divider_line();
    out.push(d3);
    assert(string_views(out@) =~= string_views(mid0).push(divider()));
    let mut last: Vec<char> = Vec::new();
    push_count(&mut last, n_errors);
    push_str(&mut last, " error(s)");
    if n_warnings > 0 {
        push_str(&mut last, "  \u{b7}  ");
        push_count(&mut last, n_warnings);
        push_str(&mut last, " warning(s)");
        if !show_warnings {
            push_str(&mut last, " (--warnings to show)");
        } else {
            assert(last@ =~= last@ + Seq::<char>::empty());
        }
    } else {
        assert(last@ =~= last@ + Seq::<char>::empty());
    }
    let ghost mid = out@;
    let ls = string_of(last.as_slice());
    out.push(ls);
    assert(ls@ == summary_line(e, w, show_warnings));
    assert(string_views(mid) =~= string_views(before) + blocks_report(sh) + seq![divider()]);
    assert(string_views(out@) =~= string_views(mid).push(ls@));
    assert(string_views(out@) =~= report_lines(bv, show_warnings));
    out
}


/// At most the first 120 characters of `s`.
pub open spec fn clip_120(s: Seq<char>) -> Seq<char> {
    if s.len() <= 120 {
        s
    } else {
        s.take(120)
    }
}

/// The entry of the interactive list for a block: a marker when it is
/// selected, its tag, and its trigger cut to 120 characters.
pub open spec fn list_item(b: BlockModel, selected: bool) -> Seq<char> {
    (if selected {
        "\u{25b6} "@
    } else {
        "  "@
    }) + " ["@ + severity_label(b.severity) + "]  "@ + clip_120(trim_end(b.trigger))
}

/// The entry of the interactive list for `b` (see `list_item`).
pub fn list_item_text(b: &ErrorBlock, selected: bool) -> (r: String)
    ensures
        r@ == list_item(b.view(), selected),
{
    let mut v: Vec<char> = Vec::new();
    if selected {
        push_str(&mut v, "\u{25b6} ");
    } else {
        push_str(&mut v, "  ");
    }
    push_str(&mut v, " [");
    push_str(&mut v, b.severity.label());
    push_str(&mut v, "]  ");
    let t = trimmed_end(chars_of(b.trigger.as_str()).as_slice());
    let n = if t.len() <= 120 {
        t.len()
    } else {
        120
    };
    let clipped = crate::text::slice_prefix(t.as_slice(), n);
    assert(clipped@ == clip_120(t@));
    push_vec(&mut v, clipped.as_slice());
    string_of(v.as_slice())
}

/// The status line under the list: the 1-based position of the selection,
/// the number of blocks, and the key help.
pub open spec fn status_line(selected: nat, n: nat) -> Seq<char> {
    "  "@ + decimal(selected + 1) + "/"@ + decimal(n)
        + "   [j/k move  gg/G jump  y yank  Enter detail  q quit]"@
}

/// The status line under the list (see `status_line`).
pub fn status_text(selected: usize, n: usize) -> (r: String)
    requires
        selected < usize::MAX,
    ensures
        r@ == status_line(selected as nat, n as nat),
{
    let mut v: Vec<char> = Vec::new();
    push_str(&mut v, "  ");
    push_count(&mut v, selected + 1);
    push_str(&mut v, "/");
    push_count(&mut v, n);
    push_str(&mut v, "   [j/k move  gg/G jump  y yank  Enter detail  q quit]");
    string_of(v.as_slice())
}


/// The header counts the error blocks and the warning blocks of the whole
/// build, whatever is shown: the same header with and without `--warnings`,
/// and the closing line repeats the error count.
pub proof fn lemma_report_counts(bs: Seq<BlockModel>, w: bool)
    requires
        shown_blocks(bs, w).len() > 0,
    ensures
        report_lines(bs, w).len() >= 5,
        report_lines(bs, w)[1] == "bx \u{2014} "@ + decimal(count_errors(bs)) + " error(s), "@
            + decimal(count_warnings(bs)) + " warning(s)"@,
        report_lines(bs, w).last().take(decimal(count_errors(bs)).len() as int) == decimal(
            count_errors(bs),
        ),
        shown_blocks(bs, !w).len() > 0 ==> report_lines(bs, !w)[1] == report_lines(bs, w)[1],
{
    let r = report_lines(bs, w);
    let e = decimal(count_errors(bs));
    assert(r.last() == summary_line(count_errors(bs), count_warnings(bs), w));
    assert(r.last().take(e.len() as int) =~= e);
}

/// With `--warnings` every block is shown.
pub proof fn lemma_warnings_show_all(bs: Seq<BlockModel>)
    ensures
        shown_blocks(bs, true) == bs,
    decreases bs.len(),
{
    if bs.len() > 0 {
        lemma_warnings_show_all(bs.drop_last());
        assert(bs.drop_last().push(bs.last()) == bs);
    }
}

/// Without `--warnings` exactly the error blocks are shown.
pub proof fn lemma_default_shows_errors(bs: Seq<BlockModel>)
    ensures
        shown_blocks(bs, false).len() == count_errors(bs),
        forall|k: int|
            0 <= k < shown_blocks(bs, false).len() ==> severity_is_error(
                #[trigger] shown_blocks(bs, false)[k].severity,
            ),
    decreases bs.len(),
{
    if bs.len() > 0 {
        lemma_default_shows_errors(bs.drop_last());
        let p = shown_blocks(bs.drop_last(), false);
        assert forall|k: int| 0 <= k < shown_blocks(bs, false).len() implies severity_is_error(
            #[trigger] shown_blocks(bs, false)[k].severity,
        ) by {
            if k < p.len() {
                assert(shown_blocks(bs, false)[k] == p[k]);
            }
        }
    }
}

/// A block is counted at most once: as an error, as a warning, or not at all.
pub proof fn lemma_counts_partition(bs: Seq<BlockModel>)
    ensures
        count_errors(bs) + count_warnings(bs) <= bs.len(),
    decreases bs.len(),
{
    if bs.len() > 0 {
        lemma_counts_partition(bs.drop_last());
    }
}

} // verus!
