//! Splitting input bytes into lines while keeping the exact newline
//! structure: each line records its content (without the terminator) and
//! which terminator followed it, so that joining the lines back together
//! reproduces the input byte for byte. A bare line feed and a carriage
//! return followed by a line feed are both recognized as terminators; a
//! final line without a terminator is still a line, and stays unterminated.

use vstd::prelude::*;

verus! {

/// The line-feed byte.
pub const NL: u8 = 0x0A;

/// The carriage-return byte.
pub const CR: u8 = 0x0D;

/// The terminator that followed a line in the input.
#[derive(Clone, Copy, PartialEq, Eq, Structural, Debug)]
pub enum LineEnd {
    /// A bare line feed.
    Lf,
    /// A carriage return followed by a line feed.
    CrLf,
    /// No terminator: the final line of an input that does not end in a
    /// line feed.
    Unterminated,
}

/// The mathematical model of one line: its content bytes (exclusive of the
/// terminator) and the terminator that followed it.
#[verifier::ext_equal]
pub struct LineModel {
    pub content: Seq<u8>,
    pub end: LineEnd,
}

/// One line as executable data.
pub struct TextLine {
    pub content: Vec<u8>,
    pub end: LineEnd,
}

impl View for TextLine {
    type V = LineModel;

    open spec fn view(&self) -> LineModel {
        LineModel { content: self.content@, end: self.end }
    }
}

/// The models of a sequence of executable lines.
pub open spec fn lines_view(lines: Seq<TextLine>) -> Seq<LineModel> {
    lines.map_values(|l: TextLine| l@)
}

/// The bytes of a terminator.
pub open spec fn end_bytes(end: LineEnd) -> Seq<u8> {
    match end {
        LineEnd::Lf => seq![NL],
        LineEnd::CrLf => seq![CR, NL],
        LineEnd::Unterminated => Seq::empty(),
    }
}

/// The lines of an input, in order. An empty input has no lines; a
/// trailing line feed closes the last line, so it adds no extra empty
/// line beyond the one it terminates.
pub open spec fn split_bytes(s: Seq<u8>) -> Seq<LineModel>
    decreases s.len(),
{
    if s.len() == 0 {
        Seq::empty()
    } else if s[0] == NL {
        seq![LineModel { content: Seq::empty(), end: LineEnd::Lf }] + split_bytes(s.drop_first())
    } else if s[0] == CR && s.len() >= 2 && s[1] == NL {
        seq![LineModel { content: Seq::empty(), end: LineEnd::CrLf }] + split_bytes(
            s.subrange(2, s.len() as int),
        )
    } else {
        prepend_content(seq![s[0]], split_bytes(s.drop_first()))
    }
}

/// The lines obtained by putting partial line content `c` in front of the
/// lines `rest`: `c` extends the first line of `rest`, or stands alone as
/// an unterminated line when `rest` is empty.
pub open spec fn prepend_content(c: Seq<u8>, rest: Seq<LineModel>) -> Seq<LineModel> {
    if rest.len() == 0 {
        if c.len() == 0 {
            Seq::empty()
        } else {
            seq![LineModel { content: c, end: LineEnd::Unterminated }]
        }
    } else {
        seq![LineModel { content: c + rest[0].content, end: rest[0].end }] + rest.drop_first()
    }
}

/// The bytes of a sequence of lines, contents and terminators in order.
pub open spec fn join_lines(lines: Seq<LineModel>) -> Seq<u8>
    decreases lines.len(),
{
    if lines.len() == 0 {
        Seq::empty()
    } else {
        lines[0].content + end_bytes(lines[0].end) + join_lines(lines.drop_first())
    }
}

/// Prepending no content changes nothing.
pub proof fn lemma_prepend_content_empty(rest: Seq<LineModel>)
    ensures
        prepend_content(Seq::empty(), rest) == rest,
{
    if rest.len() == 0 {
    } else {
        assert(prepend_content(Seq::empty(), rest) =~= rest);
    }
}

/// Content can be prepended in one step or two.
pub proof fn lemma_prepend_content_concat(a: Seq<u8>, b: Seq<u8>, rest: Seq<LineModel>)
    ensures
        prepend_content(a, prepend_content(b, rest)) == prepend_content(a + b, rest),
{
    if rest.len() == 0 {
        if b.len() == 0 {
            assert(a + b =~= a);
            if a.len() == 0 {
            } else {
                assert(prepend_content(a, prepend_content(b, rest)) =~= prepend_content(
                    a + b,
                    rest,
                ));
            }
        } else {
            assert((a + b).len() > 0);
            assert(prepend_content(a, prepend_content(b, rest)) =~= prepend_content(a + b, rest));
        }
    } else {
        assert(prepend_content(b, rest).len() > 0);
        assert(prepend_content(b, rest)[0].content =~= b + rest[0].content);
        assert(prepend_content(b, rest).drop_first() =~= rest.drop_first());
        assert(a + (b + rest[0].content) =~= (a + b) + rest[0].content);
        assert(prepend_content(a, prepend_content(b, rest)) =~= prepend_content(a + b, rest));
    }
}

/// Joining the lines of prepended content puts the content first.
pub proof fn lemma_join_prepend_content(c: Seq<u8>, rest: Seq<LineModel>)
    ensures
        join_lines(prepend_content(c, rest)) == c + join_lines(rest),
{
    assert(join_lines(Seq::<LineModel>::empty()) == Seq::<u8>::empty());
    if rest.len() == 0 {
        if c.len() == 0 {
            assert(prepend_content(c, rest) =~= Seq::<LineModel>::empty());
            assert(join_lines(prepend_content(c, rest)) =~= c + join_lines(rest));
        } else {
            let p = prepend_content(c, rest);
            assert(p.drop_first() =~= Seq::<LineModel>::empty());
            assert(join_lines(p) == p[0].content + end_bytes(p[0].end) + join_lines(
                p.drop_first(),
            ));
            assert(join_lines(prepend_content(c, rest)) =~= c + join_lines(rest));
        }
    } else {
        let p = prepend_content(c, rest);
        assert(p[0].content =~= c + rest[0].content);
        assert(p.drop_first() =~= rest.drop_first());
        assert(join_lines(p) == (c + rest[0].content) + end_bytes(rest[0].end) + join_lines(
            rest.drop_first(),
        ));
        assert(join_lines(prepend_content(c, rest)) =~= c + join_lines(rest));
    }
}

/// Splitting an input into lines loses nothing: joining the lines back
/// together reproduces the input byte for byte.
pub proof fn lemma_join_split(s: Seq<u8>)
    ensures
        join_lines(split_bytes(s)) == s,
    decreases s.len(),
{
    if s.len() == 0 {
    } else if s[0] == NL {
        lemma_join_split(s.drop_first());
        let head = seq![LineModel { content: Seq::empty(), end: LineEnd::Lf }];
        let parts = head + split_bytes(s.drop_first());
        assert(parts[0] == head[0]);
        assert(parts.drop_first() =~= split_bytes(s.drop_first()));
        assert(join_lines(split_bytes(s)) =~= s);
    } else if s[0] == CR && s.len() >= 2 && s[1] == NL {
        let tail = s.subrange(2, s.len() as int);
        lemma_join_split(tail);
        let head = seq![LineModel { content: Seq::empty(), end: LineEnd::CrLf }];
        let parts = head + split_bytes(tail);
        assert(parts[0] == head[0]);
        assert(parts.drop_first() =~= split_bytes(tail));
        assert(join_lines(split_bytes(s)) =~= s);
    } else {
        lemma_join_split(s.drop_first());
        lemma_join_prepend_content(seq![s[0]], split_bytes(s.drop_first()));
        assert(join_lines(split_bytes(s)) =~= s);
    }
}

/// Splits an input into its lines.
pub fn split_lines(input: &[u8]) -> (r: Vec<TextLine>)
    ensures
        lines_view(r@) == split_bytes(input@),
{
    let n = input.len();
    let mut out: Vec<TextLine> = Vec::new();
    let mut cur: Vec<u8> = Vec::new();
    let mut i: usize = 0;
    proof {
        assert(input@.subrange(0, n as int) =~= input@);
        lemma_prepend_content_empty(split_bytes(input@));
        assert(lines_view(out@) =~= Seq::<LineModel>::empty());
        assert(split_bytes(input@) =~= lines_view(out@) + prepend_content(
            cur@,
            split_bytes(input@.subrange(0, n as int)),
        ));
    }
    while i < n
        invariant
            i <= n,
            n == input@.len(),
            split_bytes(input@) == lines_view(out@) + prepend_content(
                cur@,
                split_bytes(input@.subrange(i as int, n as int)),
            ),
        decreases n - i,
    {
        let ghost pre = input@.subrange(i as int, n as int);
        let ghost out0 = out@;
        let ghost cur0 = cur@;
        let b = input[i];
        assert(pre.len() > 0 && pre[0] == b);
        if b == NL {
            out.push(TextLine { content: cur, end: LineEnd::Lf });
            cur = Vec::new();
            i = i + 1;
            proof {
                let post = input@.subrange(i as int, n as int);
                assert(pre.drop_first() =~= post);
                assert(split_bytes(pre) == seq![
                    LineModel { content: Seq::empty(), end: LineEnd::Lf },
                ] + split_bytes(post));
                assert(prepend_content(cur0, split_bytes(pre)) =~= seq![
                    LineModel { content: cur0, end: LineEnd::Lf },
                ] + split_bytes(post));
                lemma_prepend_content_empty(split_bytes(post));
                assert(lines_view(out@) =~= lines_view(out0) + seq![
                    LineModel { content: cur0, end: LineEnd::Lf },
                ]);
                assert(split_bytes(input@) =~= lines_view(out@) + prepend_content(
                    cur@,
                    split_bytes(post),
                ));
            }
        } else if b == CR && i + 1 < n && input[i + 1] == NL {
            out.push(TextLine { content: cur, end: LineEnd::CrLf });
            cur = Vec::new();
            i = i + 2;
            proof {
                let post = input@.subrange(i as int, n as int);
                assert(pre.len() >= 2 && pre[1] == NL);
                assert(pre.subrange(2, pre.len() as int) =~= post);
                assert(split_bytes(pre) == seq![
                    LineModel { content: Seq::empty(), end: LineEnd::CrLf },
                ] + split_bytes(post));
                assert(prepend_content(cur0, split_bytes(pre)) =~= seq![
                    LineModel { content: cur0, end: LineEnd::CrLf },
                ] + split_bytes(post));
                lemma_prepend_content_empty(split_bytes(post));
                assert(lines_view(out@) =~= lines_view(out0) + seq![
                    LineModel { content: cur0, end: LineEnd::CrLf },
                ]);
                assert(split_bytes(input@) =~= lines_view(out@) + prepend_content(
                    cur@,
                    split_bytes(post),
                ));
            }
        } else {
            cur.push(b);
            i = i + 1;
            proof {
                let post = input@.subrange(i as int, n as int);
                assert(pre.drop_first() =~= post);
                assert(split_bytes(pre) == prepend_content(seq![b], split_bytes(post)));
                lemma_prepend_content_concat(cur0, seq![b], split_bytes(post));
                assert(cur0 + seq![b] =~= cur@);
            }
        }
    }
    proof {
        assert(input@.subrange(n as int, n as int) =~= Seq::<u8>::empty());
    }
    if cur.len() > 0 {
        let ghost out0 = out@;
        let ghost cur0 = cur@;
        out.push(TextLine { content: cur, end: LineEnd::Unterminated });
        proof {
            assert(lines_view(out@) =~= lines_view(out0) + seq![
                LineModel { content: cur0, end: LineEnd::Unterminated },
            ]);
            assert(split_bytes(input@) =~= lines_view(out@));
        }
    } else {
        proof {
            assert(split_bytes(input@) =~= lines_view(out@));
        }
    }
    out
}

} // verus!
