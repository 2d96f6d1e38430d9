//! Laws of classification and grouping: what holds of every input.

use vstd::prelude::*;
use crate::classify::{
    attach, block_lines, block_text, classify_line, classify_lines, context_block_text,
    context_text, context_texts, count_context, group_lines, location_of, open_block,
    builtin_table, severity_is_error, shown_context, BlockModel,
    ContextKind, Grouping, Severity,
};
use crate::matcher::regex_finds;
use crate::saved::{join_lines, lemma_join_push};
use crate::text::{first_index, lemma_first_index_bounds, lines_of, trim_end};

verus! {

/// Whether a classified line opens a block: it is classified, and not as a note.
pub open spec fn opens_block(sev: Option<Severity>) -> bool {
    sev matches Some(s) && s !is Note
}

/// Number of lines that open blocks.
pub open spec fn count_openers(input: Seq<(Seq<char>, Option<Severity>)>) -> nat
    decreases input.len(),
{
    if input.len() == 0 {
        0
    } else {
        count_openers(input.drop_last()) + if opens_block(input.last().1) {
            1nat
        } else {
            0nat
        }
    }
}

/// Number of note lines that come after some line that opens a block.
pub open spec fn count_later_notes(input: Seq<(Seq<char>, Option<Severity>)>) -> nat
    decreases input.len(),
{
    if input.len() == 0 {
        0
    } else {
        count_later_notes(input.drop_last()) + if input.last().1 == Some(Severity::Note)
            && count_openers(input.drop_last()) > 0 {
            1nat
        } else {
            0nat
        }
    }
}

/// Number of note lines attached to a context.
pub open spec fn count_notes(c: Seq<(ContextKind, Seq<char>)>) -> nat
    decreases c.len(),
{
    if c.len() == 0 {
        0
    } else {
        count_notes(c.drop_last()) + if c.last().0 is Note {
            1nat
        } else {
            0nat
        }
    }
}

/// Number of note lines attached to any of the blocks.
pub open spec fn notes_in_blocks(bs: Seq<BlockModel>) -> nat
    decreases bs.len(),
{
    if bs.len() == 0 {
        0
    } else {
        notes_in_blocks(bs.drop_last()) + count_notes(bs.last().context)
    }
}

/// Number of lines the blocks hold: each trigger and each attached line.
pub open spec fn lines_in_blocks(bs: Seq<BlockModel>) -> nat
    decreases bs.len(),
{
    if bs.len() == 0 {
        0
    } else {
        lines_in_blocks(bs.drop_last()) + 1 + bs.last().context.len()
    }
}

/// Number of lines before the first line that opens a block.
pub open spec fn leading_lines(input: Seq<(Seq<char>, Option<Severity>)>) -> nat
    decreases input.len(),
{
    if input.len() == 0 {
        0
    } else if count_openers(input.drop_last()) == 0 && !opens_block(input.last().1) {
        leading_lines(input.drop_last()) + 1
    } else {
        leading_lines(input.drop_last())
    }
}

proof fn lemma_notes_update(bs: Seq<BlockModel>, e: (ContextKind, Seq<char>))
    requires
        bs.len() > 0,
    ensures
        notes_in_blocks(bs.update(bs.len() - 1, attach(bs.last(), e))) == notes_in_blocks(bs) + if e.0 is Note {
            1nat
        } else {
            0nat
        },
        lines_in_blocks(bs.update(bs.len() - 1, attach(bs.last(), e))) == lines_in_blocks(bs) + 1,
{
    let u = bs.update(bs.len() - 1, attach(bs.last(), e));
    assert(u.drop_last() == bs.drop_last());
    assert(attach(bs.last(), e).context.drop_last() == bs.last().context);
}

proof fn lemma_counts_push(bs: Seq<BlockModel>, b: BlockModel)
    ensures
        notes_in_blocks(bs.push(b)) == notes_in_blocks(bs) + count_notes(b.context),
        lines_in_blocks(bs.push(b)) == lines_in_blocks(bs) + 1 + b.context.len(),
{
    assert(bs.push(b).drop_last() == bs);
}

/// No classified line after the first block's trigger is lost: each line
/// classified as other than a note opens a block, and each note after the
/// first such line is attached to a block.
pub proof fn lemma_classified_lines_kept(input: Seq<(Seq<char>, Option<Severity>)>, limit: usize)
    ensures
        group_lines(input, limit).blocks.len() == count_openers(input),
        notes_in_blocks(group_lines(input, limit).blocks) == count_later_notes(input),
        group_lines(input, limit).collecting ==> group_lines(input, limit).blocks.len() > 0,
    decreases input.len(),
{
    if input.len() > 0 {
        let prev = input.drop_last();
        lemma_classified_lines_kept(prev, limit);
        let g = group_lines(prev, limit);
        let (line, sev) = input.last();
        let n = g.blocks.len();
        match sev {
            Some(s) => {
                if s is Note {
                    if n > 0 {
                        lemma_notes_update(g.blocks, (ContextKind::Note, line));
                    }
                } else {
                    lemma_counts_push(g.blocks, open_block(line, s, limit));
                }
            },
            None => {
                if g.collecting && n > 0 && !location_jump_at(g, line) {
                    lemma_notes_update(g.blocks, (ContextKind::Context, line));
                }
            },
        }
    }
}

spec fn location_jump_at(g: Grouping, line: Seq<char>) -> bool {
    crate::classify::location_jump(g.blocks[g.blocks.len() - 1].location, location_of(line))
}

/// A note never opens a block: no block has severity `Note`.
pub proof fn lemma_no_note_blocks(input: Seq<(Seq<char>, Option<Severity>)>, limit: usize)
    ensures
        forall|k: int|
            0 <= k < group_lines(input, limit).blocks.len() ==> (#[trigger] group_lines(
                input,
                limit,
            ).blocks[k]).severity !is Note,
    decreases input.len(),
{
    if input.len() > 0 {
        let prev = input.drop_last();
        lemma_no_note_blocks(prev, limit);
        let g = group_lines(prev, limit);
        let g2 = group_lines(input, limit);
        assert forall|k: int| 0 <= k < g2.blocks.len() implies (#[trigger] g2.blocks[k]).severity !is Note by {
            if k < g.blocks.len() {
                assert(g2.blocks[k].severity == g.blocks[k].severity);
            }
        }
    }
}

/// Whether `b` was opened by the line at some position of `input`: its
/// trigger is that line, its severity the line's, its location the line's,
/// and it records `limit`.
pub open spec fn opened_by_input(
    b: BlockModel,
    input: Seq<(Seq<char>, Option<Severity>)>,
    limit: usize,
) -> bool {
    &&& exists|j: int| 0 <= j < input.len() && #[trigger] input[j] == (b.trigger, Some(b.severity))
    &&& b.location == location_of(b.trigger)
    &&& b.context_limit == limit
}

/// Whether every attached line of `b` comes from `input`: a note from a line
/// classified as a note, plain context from an unclassified line.
pub open spec fn context_from_input(
    b: BlockModel,
    input: Seq<(Seq<char>, Option<Severity>)>,
) -> bool {
    forall|i: int|
        0 <= i < b.context.len() ==> exists|j: int|
            0 <= j < input.len() && #[trigger] input[j] == (
                (#[trigger] b.context[i]).1,
                if b.context[i].0 is Note {
                    Some(Severity::Note)
                } else {
                    None::<Severity>
                },
            )
}

proof fn lemma_from_input_extends(
    b: BlockModel,
    input: Seq<(Seq<char>, Option<Severity>)>,
    limit: usize,
)
    requires
        input.len() > 0,
        opened_by_input(b, input.drop_last(), limit),
        context_from_input(b, input.drop_last()),
    ensures
        opened_by_input(b, input, limit),
        context_from_input(b, input),
{
    let p = input.drop_last();
    let j = choose|j: int| 0 <= j < p.len() && #[trigger] p[j] == (b.trigger, Some(b.severity));
    assert(input[j] == p[j]);
    assert forall|i: int| 0 <= i < b.context.len() implies exists|j: int|
        0 <= j < input.len() && #[trigger] input[j] == (
            (#[trigger] b.context[i]).1,
            if b.context[i].0 is Note {
                Some(Severity::Note)
            } else {
                None::<Severity>
            },
        ) by {
        let e = (
            b.context[i].1,
            if b.context[i].0 is Note {
                Some(Severity::Note)
            } else {
                None::<Severity>
            },
        );
        let j2 = choose|j: int| 0 <= j < p.len() && #[trigger] p[j] == e;
        assert(input[j2] == p[j2]);
    }
}

/// Every block is opened by a classified line of the input (with that line's
/// severity and location, and the given limit), and every attached line is a
/// line of the input: notes are lines classified as notes, plain context lines
/// are unclassified ones.
pub proof fn lemma_blocks_come_from_input(input: Seq<(Seq<char>, Option<Severity>)>, limit: usize)
    ensures
        forall|k: int|
            0 <= k < group_lines(input, limit).blocks.len() ==> opened_by_input(
                #[trigger] group_lines(input, limit).blocks[k],
                input,
                limit,
            ) && context_from_input(group_lines(input, limit).blocks[k], input),
    decreases input.len(),
{
    if input.len() > 0 {
        let prev = input.drop_last();
        lemma_blocks_come_from_input(prev, limit);
        let g = group_lines(prev, limit);
        let g2 = group_lines(input, limit);
        let last = input.len() - 1;
        assert(input[last] == input.last());
        assert forall|k: int| 0 <= k < g2.blocks.len() implies opened_by_input(
            #[trigger] g2.blocks[k],
            input,
            limit,
        ) && context_from_input(g2.blocks[k], input) by {
            if k < g.blocks.len() {
                lemma_from_input_extends(g.blocks[k], input, limit);
                let b = g.blocks[k];
                let b2 = g2.blocks[k];
                if b2 != b {
                    // the last block, with one more attached line
                    let e = b2.context.last();
                    assert(b2.context == b.context.push(e));
                    assert forall|i: int| 0 <= i < b2.context.len() implies exists|j: int|
                        0 <= j < input.len() && #[trigger] input[j] == (
                            (#[trigger] b2.context[i]).1,
                            if b2.context[i].0 is Note {
                                Some(Severity::Note)
                            } else {
                                None::<Severity>
                            },
                        ) by {
                        if i < b.context.len() {
                            assert(b2.context[i] == b.context[i]);
                        } else {
                            assert(input[last] == (
                                b2.context[i].1,
                                if b2.context[i].0 is Note {
                                    Some(Severity::Note)
                                } else {
                                    None::<Severity>
                                },
                            ));
                        }
                    }
                }
            } else {
                assert(input[last] == (g2.blocks[k].trigger, Some(g2.blocks[k].severity)));
            }
        }
    }
}

/// When no unclassified line carries a location, nothing from the first block's
/// trigger on is dropped: all those lines end up in the blocks, as triggers or
/// attached lines, however small the display limit.
pub proof fn lemma_all_context_kept(input: Seq<(Seq<char>, Option<Severity>)>, limit: usize)
    requires
        forall|j: int| 0 <= j < input.len() && (#[trigger] input[j]).1 is None ==> location_of(
            input[j].0,
        ) is None,
    ensures
        lines_in_blocks(group_lines(input, limit).blocks) + leading_lines(input)
            == input.len(),
        group_lines(input, limit).blocks.len() > 0 ==> group_lines(input, limit).collecting,
    decreases input.len(),
{
    if input.len() > 0 {
        let prev = input.drop_last();
        assert forall|j: int| 0 <= j < prev.len() && (#[trigger] prev[j]).1 is None implies location_of(
            prev[j].0,
        ) is None by {
            assert(prev[j] == input[j]);
        }
        lemma_all_context_kept(prev, limit);
        lemma_classified_lines_kept(prev, limit);
        let g = group_lines(prev, limit);
        let (line, sev) = input.last();
        assert(input[input.len() - 1] == input.last());
        let n = g.blocks.len();
        match sev {
            Some(s) => {
                if s is Note {
                    if n > 0 {
                        lemma_notes_update(g.blocks, (ContextKind::Note, line));
                    }
                } else {
                    lemma_counts_push(g.blocks, open_block(line, s, limit));
                }
            },
            None => {
                if n > 0 {
                    assert(location_of(line) is None);
                    lemma_notes_update(g.blocks, (ContextKind::Context, line));
                }
            },
        }
    }
}

/// Every block that `collect_blocks` returns is opened by a line of the input
/// whose classification is the block's severity.
pub proof fn lemma_collected_blocks_classified(
    raw: Seq<char>,
    pats: Seq<(Seq<char>, Severity)>,
    limit: usize,
)
    ensures
        forall|k: int|
            0 <= k < group_lines(classify_lines(lines_of(raw), pats), limit).blocks.len() ==> {
                let b = #[trigger] group_lines(classify_lines(lines_of(raw), pats), limit).blocks[k];
                &&& lines_of(raw).contains(b.trigger)
                &&& classify_line(b.trigger, pats) == Some(b.severity)
            },
{
    let input = classify_lines(lines_of(raw), pats);
    lemma_blocks_come_from_input(input, limit);
    let bs = group_lines(input, limit).blocks;
    assert forall|k: int| 0 <= k < bs.len() implies {
        let b = #[trigger] bs[k];
        &&& lines_of(raw).contains(b.trigger)
        &&& classify_line(b.trigger, pats) == Some(b.severity)
    } by {
        let b = bs[k];
        assert(opened_by_input(b, input, limit));
        let j = choose|j: int| 0 <= j < input.len() && #[trigger] input[j] == (b.trigger, Some(b.severity));
        assert(lines_of(raw)[j] == b.trigger);
    }
}

/// The first matching pattern decides: a table extended at the end classifies
/// a line as the original table does whenever that one matches.
pub proof fn lemma_classify_extended_table(
    line: Seq<char>,
    a: Seq<(Seq<char>, Severity)>,
    b: Seq<(Seq<char>, Severity)>,
)
    ensures
        classify_line(line, a + b) == match classify_line(line, a) {
            Some(s) => Some(s),
            None => classify_line(line, b),
        },
    decreases a.len(),
{
    if a.len() > 0 {
        assert((a + b).drop_first() == a.drop_first() + b);
        lemma_classify_extended_table(line, a.drop_first(), b);
    } else {
        assert(a + b == b);
    }
}

/// A line is classified exactly when some pattern matches it, with the
/// severity of the first such pattern.
pub proof fn lemma_classify_first_match(line: Seq<char>, pats: Seq<(Seq<char>, Severity)>)
    ensures
        classify_line(line, pats) is None <==> forall|i: int|
            0 <= i < pats.len() ==> !regex_finds(#[trigger] pats[i].0, line),
        classify_line(line, pats) is Some ==> exists|i: int|
            0 <= i < pats.len() && regex_finds(#[trigger] pats[i].0, line) && pats[i].1
                == classify_line(line, pats)->0 && forall|j: int|
                0 <= j < i ==> !regex_finds(#[trigger] pats[j].0, line),
    decreases pats.len(),
{
    if pats.len() > 0 {
        let rest = pats.drop_first();
        lemma_classify_first_match(line, rest);
        if !regex_finds(pats[0].0, line) {
            assert forall|i: int| 1 <= i < pats.len() implies pats[i] == rest[i - 1] by {}
            if classify_line(line, rest) is Some {
                let i = choose|i: int|
                    0 <= i < rest.len() && regex_finds(#[trigger] rest[i].0, line) && rest[i].1
                        == classify_line(line, rest)->0 && forall|j: int|
                        0 <= j < i ==> !regex_finds(#[trigger] rest[j].0, line);
                assert(pats[i + 1] == rest[i]);
                assert forall|j: int| 0 <= j < i + 1 implies !regex_finds(#[trigger] pats[j].0, line) by {
                    if j > 0 {
                        assert(pats[j] == rest[j - 1]);
                    }
                }
            } else {
                assert forall|i: int| 0 <= i < pats.len() implies !regex_finds(#[trigger] pats[i].0, line) by {
                    if i > 0 {
                        assert(pats[i] == rest[i - 1]);
                    }
                }
            }
        }
    }
}

/// A block's text is its display lines joined with line breaks, when no plain
/// context line is held back by the display limit.
pub proof fn lemma_block_text_is_joined_lines(b: BlockModel)
    requires
        count_context(b.context) <= b.context_limit,
    ensures
        block_text(b) == join_lines(block_lines(b)),
{
    lemma_shown_context_counts(b.context, b.context_limit);
    lemma_join_context(trim_end(b.trigger), b.context);
}

/// What is shown of a block's attached lines: every note, and as many plain
/// context lines as the limit allows, the first ones; nothing is held back
/// when the plain lines fit in the limit.
pub proof fn lemma_shown_context_counts(c: Seq<(ContextKind, Seq<char>)>, limit: usize)
    ensures
        count_notes(shown_context(c, limit)) == count_notes(c),
        count_context(shown_context(c, limit)) == if count_context(c) <= limit {
            count_context(c)
        } else {
            limit as nat
        },
        count_context(c) <= limit ==> shown_context(c, limit) == c,
    decreases c.len(),
{
    if c.len() > 0 {
        let p = c.drop_last();
        lemma_shown_context_counts(p, limit);
        let sp = shown_context(p, limit);
        assert(sp.push(c.last()).drop_last() == sp);
        if count_context(c) <= limit {
            assert(p.push(c.last()) == c);
        }
    }
}

proof fn lemma_join_context(x: Seq<char>, c: Seq<(ContextKind, Seq<char>)>)
    ensures
        join_lines(seq![x] + context_texts(c)) == x + context_block_text(c),
    decreases c.len(),
{
    if c.len() == 0 {
        assert(seq![x] + context_texts(c) =~= seq![x]);
        assert(x + context_block_text(c) =~= x);
    } else {
        let p = c.drop_last();
        lemma_join_context(x, p);
        assert(context_texts(c) =~= context_texts(p).push(context_text(c.last())));
        assert(seq![x] + context_texts(c) =~= (seq![x] + context_texts(p)).push(context_text(c.last())));
        lemma_join_push(seq![x] + context_texts(p), context_text(c.last()));
        assert(x + context_block_text(c) =~= (x + context_block_text(p)) + seq!['\n'] + context_text(c.last()));
    }
}

/// A parsed location names the text before the first `':'` of the line.
pub proof fn lemma_location_is_prefix(line: Seq<char>)
    ensures
        location_of(line) matches Some(loc) ==> loc.file.len() > 0 && line.len() > loc.file.len()
            && line.take(loc.file.len() as int) == loc.file && line[loc.file.len() as int] == ':'
            && !loc.file.contains(':'),
{
    lemma_first_index_bounds(line, ':');
    if let Some(loc) = location_of(line) {
        let i = first_index(line, ':');
        assert(loc.file == line.take(i));
        if loc.file.contains(':') {
            let k = choose|k: int| 0 <= k < loc.file.len() && loc.file[k] == ':';
            assert(line[k] == ':');
        }
    }
}


/// Whether `a` is `b` with some elements left out (order kept).
pub open spec fn is_subsequence<T>(a: Seq<T>, b: Seq<T>) -> bool
    decreases b.len(),
{
    if a.len() == 0 {
        true
    } else if b.len() == 0 {
        false
    } else if a.last() == b.last() {
        is_subsequence(a.drop_last(), b.drop_last())
    } else {
        is_subsequence(a, b.drop_last())
    }
}

/// An attached line as an input line: a note is a line classified as a note,
/// plain context an unclassified line.
pub open spec fn entry_as_input(e: (ContextKind, Seq<char>)) -> (Seq<char>, Option<Severity>) {
    (e.1, if e.0 is Note {
        Some(Severity::Note)
    } else {
        None
    })
}

/// A block as the input lines it holds: its trigger, then its attached lines.
pub open spec fn block_as_input(b: BlockModel) -> Seq<(Seq<char>, Option<Severity>)> {
    seq![(b.trigger, Some(b.severity))] + b.context.map_values(
        |e: (ContextKind, Seq<char>)| entry_as_input(e),
    )
}

/// The blocks, in order, as the input lines they hold.
pub open spec fn blocks_as_input(bs: Seq<BlockModel>) -> Seq<(Seq<char>, Option<Severity>)>
    decreases bs.len(),
{
    if bs.len() == 0 {
        seq![]
    } else {
        blocks_as_input(bs.drop_last()) + block_as_input(bs.last())
    }
}

proof fn lemma_subsequence_extend<T>(a: Seq<T>, b: Seq<T>, x: T)
    requires
        is_subsequence(a, b),
    ensures
        is_subsequence(a, b.push(x)),
    decreases b.len(), 1nat,
{
    assert(b.push(x).drop_last() == b);
    if a.len() > 0 && a.last() == x {
        lemma_subsequence_drop_last(a, b);
    }
}

proof fn lemma_subsequence_drop_last<T>(a: Seq<T>, b: Seq<T>)
    requires
        is_subsequence(a, b),
        a.len() > 0,
    ensures
        is_subsequence(a.drop_last(), b),
    decreases b.len(), 0nat,
{
    if a.drop_last().len() > 0 && b.len() > 0 {
        if a.last() == b.last() {
            lemma_subsequence_extend(a.drop_last(), b.drop_last(), b.last());
        } else {
            lemma_subsequence_drop_last(a, b.drop_last());
            lemma_subsequence_extend(a.drop_last(), b.drop_last(), b.last());
        }
        assert(b.drop_last().push(b.last()) == b);
    }
}

proof fn lemma_blocks_as_input_attach(bs: Seq<BlockModel>, e: (ContextKind, Seq<char>))
    requires
        bs.len() > 0,
    ensures
        blocks_as_input(bs.update(bs.len() - 1, attach(bs.last(), e))) == blocks_as_input(bs).push(
            entry_as_input(e),
        ),
{
    let u = bs.update(bs.len() - 1, attach(bs.last(), e));
    assert(u.drop_last() == bs.drop_last());
    let b = bs.last();
    assert(attach(b, e).context.map_values(|e: (ContextKind, Seq<char>)| entry_as_input(e))
        =~= b.context.map_values(|e: (ContextKind, Seq<char>)| entry_as_input(e)).push(
        entry_as_input(e),
    ));
    assert(block_as_input(attach(b, e)) =~= block_as_input(b).push(entry_as_input(e)));
    assert(blocks_as_input(u) =~= blocks_as_input(bs).push(entry_as_input(e)));
}

/// Read in order, each trigger followed by its attached lines, the blocks are
/// the input's lines in the same order with some unclassified lines left out:
/// no line is moved, repeated, or attached to a block other than the one
/// opened last before it.
pub proof fn lemma_blocks_follow_input(input: Seq<(Seq<char>, Option<Severity>)>, limit: usize)
    ensures
        is_subsequence(blocks_as_input(group_lines(input, limit).blocks), input),
    decreases input.len(),
{
    if input.len() > 0 {
        let prev = input.drop_last();
        lemma_blocks_follow_input(prev, limit);
        let g = group_lines(prev, limit);
        let (line, sev) = input.last();
        let n = g.blocks.len();
        let a = blocks_as_input(g.blocks);
        assert(prev.push(input.last()) == input);
        match sev {
            Some(s) => {
                if s is Note {
                    if n > 0 {
                        lemma_blocks_as_input_attach(g.blocks, (ContextKind::Note, line));
                        assert(a.push(input.last()).drop_last() == a);
                    } else {
                        lemma_subsequence_extend(a, prev, input.last());
                    }
                } else {
                    let b = open_block(line, s, limit);
                    assert(g.blocks.push(b).drop_last() == g.blocks);
                    assert(b.context.map_values(|e: (ContextKind, Seq<char>)| entry_as_input(e))
                        =~= Seq::<(Seq<char>, Option<Severity>)>::empty());
                    assert(blocks_as_input(g.blocks.push(b)) =~= a.push(input.last()));
                    assert(a.push(input.last()).drop_last() == a);
                }
            },
            None => {
                if g.collecting && n > 0 && !location_jump_at(g, line) {
                    lemma_blocks_as_input_attach(g.blocks, (ContextKind::Context, line));
                    assert(a.push(input.last()).drop_last() == a);
                } else {
                    lemma_subsequence_extend(a, prev, input.last());
                }
            },
        }
    }
}


/// Whether an attached plain context line stays near its block's trigger:
/// when both carry a location, they name the same file and lie at most 5
/// lines apart.
pub open spec fn context_near_trigger(b: BlockModel, e: (ContextKind, Seq<char>)) -> bool {
    e.0 is Context ==> match (b.location, location_of(e.1)) {
        (Some(t), Some(h)) => t.file == h.file && -5 <= t.line - h.line <= 5,
        _ => true,
    }
}

/// Context never bleeds across files or far away: every plain context line
/// attached to a block either has no location, or the trigger has none, or
/// the two name the same file and lie at most 5 lines apart. In particular a
/// located line of another file than the trigger's never becomes context.
pub proof fn lemma_context_stays_near_trigger(input: Seq<(Seq<char>, Option<Severity>)>, limit: usize)
    ensures
        forall|k: int, i: int|
            0 <= k < group_lines(input, limit).blocks.len() && 0 <= i < group_lines(
                input,
                limit,
            ).blocks[k].context.len() ==> context_near_trigger(
                #[trigger] group_lines(input, limit).blocks[k],
                #[trigger] group_lines(input, limit).blocks[k].context[i],
            ),
    decreases input.len(),
{
    if input.len() > 0 {
        let prev = input.drop_last();
        lemma_context_stays_near_trigger(prev, limit);
        let g = group_lines(prev, limit);
        let g2 = group_lines(input, limit);
        assert forall|k: int, i: int|
            0 <= k < g2.blocks.len() && 0 <= i < g2.blocks[k].context.len() implies context_near_trigger(
            #[trigger] g2.blocks[k],
            #[trigger] g2.blocks[k].context[i],
        ) by {
            if k < g.blocks.len() {
                let b = g.blocks[k];
                let b2 = g2.blocks[k];
                assert(b2.location == b.location);
                if i < b.context.len() {
                    assert(b2.context[i] == b.context[i]);
                    assert(context_near_trigger(b, b.context[i]));
                }
            }
        }
    }
}

/// Only warning and note patterns of the built-in table give a severity that
/// is not an error: every other built-in pattern marks an error.
pub proof fn lemma_builtin_non_errors()
    ensures
        forall|j: int|
            0 <= j < builtin_table().len() && !severity_is_error(#[trigger] builtin_table()[j].1)
                ==> {
                ||| builtin_table()[j] == (":\\s*warning:"@, Severity::Warning)
                ||| builtin_table()[j] == ("^warning(\\[[^\\]]*\\])?:"@, Severity::Warning)
                ||| builtin_table()[j] == (":\\s*note:"@, Severity::Note)
                ||| builtin_table()[j] == ("^\\s*(= )?(note|help):"@, Severity::Note)
                ||| builtin_table()[j] == ("^referenced by:"@, Severity::Note)
                ||| builtin_table()[j] == ("CMake Warning"@, Severity::Warning)
            },
{
    let t = builtin_table();
    assert forall|j: int|
        0 <= j < t.len() && !severity_is_error(#[trigger] t[j].1) implies {
        ||| t[j] == (":\\s*warning:"@, Severity::Warning)
        ||| t[j] == ("^warning(\\[[^\\]]*\\])?:"@, Severity::Warning)
        ||| t[j] == (":\\s*note:"@, Severity::Note)
        ||| t[j] == ("^\\s*(= )?(note|help):"@, Severity::Note)
        ||| t[j] == ("^referenced by:"@, Severity::Note)
        ||| t[j] == ("CMake Warning"@, Severity::Warning)
    } by {
        assert(0 <= j < 26);
        if j < 13 {
            if j < 6 {
            } else {
            }
        } else {
        }
    }
}

/// A CMake configure error is an error: a line matched by the built-in
/// `CMake Error` pattern, and by no built-in warning or note pattern, is
/// classified with an error severity.
pub proof fn lemma_cmake_error_is_error(line: Seq<char>)
    requires
        regex_finds("CMake Error"@, line),
        !regex_finds(":\\s*warning:"@, line),
        !regex_finds("^warning(\\[[^\\]]*\\])?:"@, line),
        !regex_finds(":\\s*note:"@, line),
        !regex_finds("^\\s*(= )?(note|help):"@, line),
        !regex_finds("^referenced by:"@, line),
        !regex_finds("CMake Warning"@, line),
    ensures
        classify_line(line, builtin_table()) matches Some(s) && severity_is_error(s),
{
    let t = builtin_table();
    lemma_builtin_non_errors();
    lemma_classify_first_match(line, t);
    assert(t[16] == ("CMake Error"@, Severity::Error));
    if classify_line(line, t) is None {
        assert(!regex_finds(t[16].0, line));
    } else {
        let i = choose|i: int|
            0 <= i < t.len() && regex_finds(#[trigger] t[i].0, line) && t[i].1 == classify_line(
                line,
                t,
            )->0 && forall|j: int| 0 <= j < i ==> !regex_finds(#[trigger] t[j].0, line);
        if !severity_is_error(t[i].1) {
            assert(!regex_finds(t[i].0, line));
        }
    }
}

} // verus!
