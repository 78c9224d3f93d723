//! Applying a numbering mode to the lines of an input and emitting the
//! output bytes. Line numbering is per input and 1-based; in non-blank
//! mode a blank line is emitted bare and does not advance the counter.
//! The terminator of every line is reproduced exactly, so plain output is
//! the input verbatim.

use vstd::prelude::*;

use crate::config::Mode;
use crate::lines::{
    end_bytes, join_lines, lemma_join_split, lines_view, split_bytes, split_lines, LineEnd,
    LineModel, TextLine, CR, NL,
};
use crate::numfmt::{format_number, number_field};

verus! {

/// Whether a line advances the number counter under `mode`.
pub open spec fn counts_line(l: LineModel, mode: Mode) -> bool {
    match mode {
        Mode::Plain => false,
        Mode::NumberAll => true,
        Mode::NumberNonBlank => l.content.len() > 0,
    }
}

/// The prefix emitted before a line when the next number to hand out is
/// `next`: a number field for every line in all-lines mode, for non-blank
/// lines in non-blank mode, and never in plain mode.
pub open spec fn line_prefix(l: LineModel, next: nat, mode: Mode) -> Seq<u8> {
    match mode {
        Mode::Plain => Seq::empty(),
        Mode::NumberAll => number_field(next),
        Mode::NumberNonBlank => if l.content.len() == 0 {
            Seq::empty()
        } else {
            number_field(next)
        },
    }
}

/// The output for `lines` when the next number to hand out is `next`.
pub open spec fn render_from(lines: Seq<LineModel>, next: nat, mode: Mode) -> Seq<u8>
    decreases lines.len(),
{
    if lines.len() == 0 {
        Seq::empty()
    } else {
        line_prefix(lines[0], next, mode) + lines[0].content + end_bytes(lines[0].end)
            + render_from(
            lines.drop_first(),
            if counts_line(lines[0], mode) {
                next + 1
            } else {
                next
            },
            mode,
        )
    }
}

/// The output for `lines`, numbering from 1.
pub open spec fn rendered_lines(lines: Seq<LineModel>, mode: Mode) -> Seq<u8> {
    render_from(lines, 1, mode)
}

/// The output for the input bytes `s` under `mode`.
pub open spec fn rendered(s: Seq<u8>, mode: Mode) -> Seq<u8> {
    rendered_lines(split_bytes(s), mode)
}

/// How many of `lines` are non-blank.
pub open spec fn nonblank_count(lines: Seq<LineModel>) -> nat
    decreases lines.len(),
{
    if lines.len() == 0 {
        0
    } else {
        (if lines[0].content.len() > 0 {
            1nat
        } else {
            0nat
        }) + nonblank_count(lines.drop_first())
    }
}

/// Putting one line in front adds its own contribution to the non-blank
/// count.
pub proof fn lemma_nonblank_count_cons(l: LineModel, t: Seq<LineModel>)
    ensures
        nonblank_count(seq![l] + t) == (if l.content.len() > 0 {
            1nat
        } else {
            0nat
        }) + nonblank_count(t),
{
    let s = seq![l] + t;
    assert(s[0] == l);
    assert(s.drop_first() =~= t);
}

/// Appending one line adds its own contribution to the non-blank count.
pub proof fn lemma_nonblank_count_push(s: Seq<LineModel>, l: LineModel)
    ensures
        nonblank_count(s.push(l)) == nonblank_count(s) + (if l.content.len() > 0 {
            1nat
        } else {
            0nat
        }),
    decreases s.len(),
{
    if s.len() == 0 {
        assert(s.push(l) =~= seq![l]);
        assert(s.push(l)[0] == l);
        assert(s.push(l).drop_first() =~= Seq::<LineModel>::empty());
        assert(nonblank_count(Seq::<LineModel>::empty()) == 0);
        assert(nonblank_count(s) == 0);
    } else {
        assert(s.push(l)[0] == s[0]);
        assert(s.push(l).drop_first() =~= s.drop_first().push(l));
        lemma_nonblank_count_push(s.drop_first(), l);
    }
}

/// In plain mode the output is the lines joined back together unchanged,
/// whatever number would have come next.
pub proof fn lemma_render_plain(lines: Seq<LineModel>, next: nat)
    ensures
        render_from(lines, next, Mode::Plain) == join_lines(lines),
    decreases lines.len(),
{
    if lines.len() == 0 {
    } else {
        lemma_render_plain(lines.drop_first(), next);
        assert(line_prefix(lines[0], next, Mode::Plain) =~= Seq::<u8>::empty());
        assert(render_from(lines, next, Mode::Plain) =~= join_lines(lines));
    }
}

/// Plain output is the input verbatim, byte for byte, trailing terminator
/// included or absent exactly as in the input.
pub proof fn lemma_plain_verbatim(s: Seq<u8>)
    ensures
        rendered(s, Mode::Plain) == s,
{
    lemma_render_plain(split_bytes(s), 1);
    lemma_join_split(s);
}

/// Plain mode is idempotent: run on its own output it reproduces that
/// output byte for byte.
pub proof fn lemma_plain_idempotent(s: Seq<u8>)
    ensures
        rendered(rendered(s, Mode::Plain), Mode::Plain) == rendered(s, Mode::Plain),
{
    lemma_plain_verbatim(s);
    lemma_plain_verbatim(rendered(s, Mode::Plain));
}

/// Empty input gives empty output in every mode.
pub proof fn lemma_empty_input(mode: Mode)
    ensures
        rendered(Seq::empty(), mode) == Seq::<u8>::empty(),
{
    assert(split_bytes(Seq::empty()) =~= Seq::<LineModel>::empty());
}

/// What the k-th emitted line is in all-lines mode, when numbering starts
/// at `first`: the number field for `first + k`, then the line's content,
/// then its terminator.
pub open spec fn all_numbered_piece(lines: Seq<LineModel>, first: nat, k: int) -> Seq<u8> {
    number_field((first + k) as nat) + lines[k].content + end_bytes(lines[k].end)
}

proof fn lemma_render_all_from(lines: Seq<LineModel>, first: nat)
    ensures
        render_from(lines, first, Mode::NumberAll) == Seq::new(
            lines.len(),
            |k: int| all_numbered_piece(lines, first, k),
        ).flatten(),
    decreases lines.len(),
{
    let pieces = Seq::new(lines.len(), |k: int| all_numbered_piece(lines, first, k));
    if lines.len() == 0 {
        assert(pieces.len() == 0);
        assert(pieces.flatten() == Seq::<u8>::empty());
    } else {
        let tail = lines.drop_first();
        lemma_render_all_from(tail, first + 1);
        let tailpieces = Seq::new(tail.len(), |k: int| all_numbered_piece(tail, first + 1, k));
        assert forall|k: int| 0 <= k < tail.len() implies pieces[k + 1] == tailpieces[k] by {
            assert(tail[k] == lines[k + 1]);
            assert((first + (k + 1)) as nat == ((first + 1) + k) as nat);
        }
        assert(pieces.drop_first() =~= tailpieces);
        assert(pieces.first() == all_numbered_piece(lines, first, 0));
        assert(pieces.flatten() == pieces.first() + pieces.drop_first().flatten());
        assert(render_from(lines, first, Mode::NumberAll) =~= pieces.flatten());
    }
}

/// In all-lines mode the output is exactly the emitted lines in order,
/// and the k-th of them (counting from 1) carries the number k,
/// right-justified to six columns and followed by one tab, before its
/// unchanged content and terminator.
pub proof fn lemma_number_all_layout(lines: Seq<LineModel>)
    ensures
        rendered_lines(lines, Mode::NumberAll) == Seq::new(
            lines.len(),
            |k: int| all_numbered_piece(lines, 1, k),
        ).flatten(),
{
    lemma_render_all_from(lines, 1);
}

/// What the k-th emitted line is in non-blank mode, when numbering starts
/// at `first`: a blank line is its bare content and terminator; a
/// non-blank line carries the number field for `first` plus the count of
/// non-blank lines before it.
pub open spec fn nonblank_numbered_piece(lines: Seq<LineModel>, first: nat, k: int) -> Seq<u8> {
    if lines[k].content.len() == 0 {
        lines[k].content + end_bytes(lines[k].end)
    } else {
        number_field((first + nonblank_count(lines.take(k))) as nat) + lines[k].content
            + end_bytes(lines[k].end)
    }
}

proof fn lemma_render_nonblank_from(lines: Seq<LineModel>, first: nat)
    ensures
        render_from(lines, first, Mode::NumberNonBlank) == Seq::new(
            lines.len(),
            |k: int| nonblank_numbered_piece(lines, first, k),
        ).flatten(),
    decreases lines.len(),
{
    let pieces = Seq::new(lines.len(), |k: int| nonblank_numbered_piece(lines, first, k));
    if lines.len() == 0 {
        assert(pieces.len() == 0);
        assert(pieces.flatten() == Seq::<u8>::empty());
    } else {
        let tail = lines.drop_first();
        let w: nat = if lines[0].content.len() > 0 {
            1nat
        } else {
            0nat
        };
        lemma_render_nonblank_from(tail, first + w);
        let tailpieces = Seq::new(
            tail.len(),
            |k: int| nonblank_numbered_piece(tail, first + w, k),
        );
        assert forall|k: int| 0 <= k < tail.len() implies pieces[k + 1] == tailpieces[k] by {
            assert(tail[k] == lines[k + 1]);
            assert(lines.take(k + 1) =~= seq![lines[0]] + tail.take(k));
            lemma_nonblank_count_cons(lines[0], tail.take(k));
            assert((first + nonblank_count(lines.take(k + 1))) as nat == ((first + w)
                + nonblank_count(tail.take(k))) as nat);
        }
        assert(pieces.drop_first() =~= tailpieces);
        assert(lines.take(0) =~= Seq::<LineModel>::empty());
        assert(nonblank_count(lines.take(0)) == 0);
        assert(pieces.first() == nonblank_numbered_piece(lines, first, 0));
        assert(line_prefix(lines[0], first, Mode::NumberNonBlank) + lines[0].content + end_bytes(
            lines[0].end,
        ) =~= pieces.first());
        assert(pieces.flatten() == pieces.first() + pieces.drop_first().flatten());
        assert(render_from(lines, first, Mode::NumberNonBlank) =~= pieces.flatten());
    }
}

/// In non-blank mode the output is exactly the emitted lines in order:
/// blank lines carry no prefix, and each non-blank line carries the count
/// of non-blank lines seen so far, itself included, right-justified to
/// six columns and followed by one tab.
pub proof fn lemma_number_nonblank_layout(lines: Seq<LineModel>)
    ensures
        rendered_lines(lines, Mode::NumberNonBlank) == Seq::new(
            lines.len(),
            |k: int| nonblank_numbered_piece(lines, 1, k),
        ).flatten(),
{
    lemma_render_nonblank_from(lines, 1);
}

/// Unfolds one step of `render_from` at position `i` of `lines`.
proof fn lemma_render_step(lines: Seq<LineModel>, i: int, next: nat, mode: Mode)
    requires
        0 <= i < lines.len(),
    ensures
        render_from(lines.skip(i), next, mode) == line_prefix(lines[i], next, mode)
            + lines[i].content + end_bytes(lines[i].end) + render_from(
            lines.skip(i + 1),
            if counts_line(lines[i], mode) {
                next + 1
            } else {
                next
            },
            mode,
        ),
{
    let pre = lines.skip(i);
    assert(pre[0] == lines[i]);
    assert(pre.drop_first() =~= lines.skip(i + 1));
}

/// One step of the loop below: emitting line `idx` moves its bytes from
/// the pending remainder into the finished output.
proof fn lemma_loop_step(
    lv: Seq<LineModel>,
    idx: int,
    next0: nat,
    out0: Seq<u8>,
    out1: Seq<u8>,
    total: Seq<u8>,
    mode: Mode,
)
    requires
        0 <= idx < lv.len(),
        total == out0 + render_from(lv.skip(idx), next0, mode),
        out1 == ((out0 + line_prefix(lv[idx], next0, mode)) + lv[idx].content) + end_bytes(
            lv[idx].end,
        ),
    ensures
        total == out1 + render_from(
            lv.skip(idx + 1),
            if counts_line(lv[idx], mode) {
                next0 + 1
            } else {
                next0
            },
            mode,
        ),
{
    lemma_render_step(lv, idx, next0, mode);
    let a = line_prefix(lv[idx], next0, mode);
    let b = lv[idx].content;
    let c = end_bytes(lv[idx].end);
    let rest = render_from(
        lv.skip(idx + 1),
        if counts_line(lv[idx], mode) {
            next0 + 1
        } else {
            next0
        },
        mode,
    );
    assert(out0 + (a + b + c + rest) =~= (((out0 + a) + b) + c) + rest);
}

/// Appends one line to the output: the prefix the mode assigns for the
/// next number `next`, then the content, then the terminator. Returns
/// whether the line took a number.
fn emit_line(out: &mut Vec<u8>, line: &TextLine, next: usize, mode: Mode) -> (numbered: bool)
    ensures
        numbered == counts_line(line@, mode),
        final(out)@ == ((old(out)@ + line_prefix(line@, next as nat, mode)) + line@.content)
            + end_bytes(line@.end),
{
    let number_it = match mode {
        Mode::Plain => false,
        Mode::NumberAll => true,
        Mode::NumberNonBlank => line.content.len() > 0,
    };
    if number_it {
        let field = format_number(next);
        out.extend_from_slice(field.as_slice());
    } else {
        proof {
            assert(old(out)@ + line_prefix(line@, next as nat, mode) =~= old(out)@);
        }
    }
    out.extend_from_slice(line.content.as_slice());
    let ghost mid = out@;
    match line.end {
        LineEnd::Lf => {
            out.push(NL);
            proof {
                assert(out@ =~= mid + end_bytes(line@.end));
            }
        },
        LineEnd::CrLf => {
            out.push(CR);
            out.push(NL);
            proof {
                assert(out@ =~= mid + end_bytes(line@.end));
            }
        },
        LineEnd::Unterminated => {
            proof {
                assert(out@ =~= mid + end_bytes(line@.end));
            }
        },
    }
    number_it
}

/// Emits `lines` under `mode`, numbering from 1.
pub fn render_lines(lines: &Vec<TextLine>, mode: Mode) -> (r: Vec<u8>)
    ensures
        r@ == rendered_lines(lines_view(lines@), mode),
{
    let ghost lv = lines_view(lines@);
    let len = lines.len();
    let mut out: Vec<u8> = Vec::new();
    let mut printed: usize = 0;
    let mut i: usize = 0;
    proof {
        assert(lv.skip(0) =~= lv);
        assert(lv.take(0) =~= Seq::<LineModel>::empty());
        assert(rendered_lines(lv, mode) =~= out@ + render_from(lv.skip(0), 1nat, mode));
    }
    while i < len
        invariant
            lv == lines_view(lines@),
            len == lines@.len(),
            lv.len() == lines@.len(),
            i <= len,
            printed <= i,
            mode == Mode::NumberNonBlank ==> printed == nonblank_count(lv.take(i as int)),
            rendered_lines(lv, mode) == out@ + render_from(
                lv.skip(i as int),
                (printed + 1) as nat,
                mode,
            ),
        decreases len - i,
    {
        let ghost idx = i as int;
        let ghost out0 = out@;
        let ghost printed0 = printed as nat;
        let line = &lines[i];
        proof {
            assert(lv[idx] == lines@[idx]@);
        }
        let numbered = emit_line(&mut out, line, printed + 1, mode);
        proof {
            lemma_loop_step(lv, idx, printed0 + 1, out0, out@, rendered_lines(lv, mode), mode);
        }
        if numbered {
            printed = printed + 1;
        }
        i = i + 1;
        proof {
            if mode == Mode::NumberNonBlank {
                assert(lv.take(idx + 1) =~= lv.take(idx).push(lv[idx]));
                lemma_nonblank_count_push(lv.take(idx), lv[idx]);
            }
            assert(rendered_lines(lv, mode) == out@ + render_from(
                lv.skip(i as int),
                (printed + 1) as nat,
                mode,
            ));
        }
    }
    proof {
        assert(lv.skip(len as int) =~= Seq::<LineModel>::empty());
        assert(render_from(Seq::<LineModel>::empty(), (printed + 1) as nat, mode)
            == Seq::<u8>::empty());
        assert(out@ =~= rendered_lines(lv, mode));
    }
    out
}

/// Emits the whole of one input under `mode`: its lines in order, each
/// with the prefix the mode assigns, content and newline structure
/// reproduced exactly.
pub fn render(input: &[u8], mode: Mode) -> (r: Vec<u8>)
    ensures
        r@ == rendered(input@, mode),
{
    let parts = split_lines(input);
    render_lines(&parts, mode)
}

} // verus!
