//! The comment scanner, and the rendering of one comment block.
//!
//! The scanner receives, for every character of the source text, its byte
//! offset and the verdict of the lexer's per-offset comment oracle, and
//! turns maximal runs of comment characters into byte spans.

use vstd::prelude::*;
use crate::cst::Span;

verus! {

/// The spans the scanner is still going to emit when it stands before
/// element `i` of `flags`, in comment mode `in_mode` with a pending run
/// that began at `start`.
///
/// A run is closed at the first offset whose flag is false; its span ends
/// one byte before that offset, so the character that ended the run (the
/// newline) stays outside the half-open interval.  A run still open when
/// the text ends is closed at `text_len`, so a comment on the last line
/// without a trailing newline is not lost.
pub open spec fn scan_from(
    flags: Seq<(usize, bool)>,
    i: int,
    in_mode: bool,
    start: usize,
    text_len: usize,
) -> Seq<Span>
    decreases flags.len() - i,
{
    if i < 0 || i >= flags.len() {
        if in_mode {
            seq![Span { start, end: text_len }]
        } else {
            Seq::empty()
        }
    } else {
        let off = flags[i].0;
        if flags[i].1 {
            scan_from(flags, i + 1, true, if in_mode { start } else { off }, text_len)
        } else {
            if in_mode {
                seq![Span { start, end: (off - 1) as usize }] + scan_from(flags, i + 1, false, start, text_len)
            } else {
                scan_from(flags, i + 1, false, start, text_len)
            }
        }
    }
}

/// All comment spans of a text: what one full sweep of the scanner emits.
pub open spec fn comment_spans(flags: Seq<(usize, bool)>, text_len: usize) -> Seq<Span> {
    scan_from(flags, 0, false, 0, text_len)
}

/// Scans the text once, left to right, and returns the ordered list of
/// comment spans.
///
/// `flags` pairs the byte offset of every character of the text, in
/// ascending order, with the lexer's "is this offset inside a comment"
/// verdict; `text_len` is the byte length of the text.
pub fn make_comment_lst(flags: &Vec<(usize, bool)>, text_len: usize) -> (r: Vec<Span>)
    requires
        forall|i: int| 0 <= i < flags@.len() ==> (#[trigger] flags@[i]).0 < text_len,
        forall|i: int| 0 <= i < flags@.len() - 1 ==> (#[trigger] flags@[i]).0 < flags@[i + 1].0,
    ensures
        r@ == comment_spans(flags@, text_len),
{
    let mut comment_lst: Vec<Span> = Vec::new();
    let mut is_in_comment_mode = false;
    let mut start: usize = 0;
    let mut i: usize = 0;
    while i < flags.len()
        invariant
            i <= flags@.len(),
            forall|k: int| 0 <= k < flags@.len() ==> (#[trigger] flags@[k]).0 < text_len,
            forall|k: int| 0 <= k < flags@.len() - 1 ==> (#[trigger] flags@[k]).0 < flags@[k + 1].0,
            is_in_comment_mode ==> i >= 1,
            comment_spans(flags@, text_len) == comment_lst@ + scan_from(
                flags@,
                i as int,
                is_in_comment_mode,
                start,
                text_len,
            ),
        decreases flags@.len() - i,
    {
        let (off, is_comment_char) = flags[i];
        if is_comment_char {
            if !is_in_comment_mode {
                start = off;
            }
            is_in_comment_mode = true;
        } else {
            if is_in_comment_mode {
                assert(flags@[i - 1].0 < off);
                let span = Span { start, end: off - 1 };
                comment_lst.push(span);
            }
            is_in_comment_mode = false;
        }
        i += 1;
    }
    if is_in_comment_mode {
        comment_lst.push(Span { start, end: text_len });
    }
    proof {
        assert(comment_lst@ =~= comment_spans(flags@, text_len));
    }
    comment_lst
}

/// The parts of `parts`, in order, with `sep` between each two of them.
pub open spec fn join_with(parts: Seq<Seq<char>>, sep: Seq<char>) -> Seq<char>
    decreases parts.len(),
{
    if parts.len() == 0 {
        Seq::empty()
    } else if parts.len() == 1 {
        parts[0]
    } else {
        parts[0] + sep + join_with(parts.drop_first(), sep)
    }
}

pub proof fn lemma_join_with_push(parts: Seq<Seq<char>>, sep: Seq<char>, x: Seq<char>)
    ensures
        join_with(parts.push(x), sep) == if parts.len() == 0 {
            x
        } else {
            join_with(parts, sep) + sep + x
        },
    decreases parts.len(),
{
    let pushed = parts.push(x);
    if parts.len() == 0 {
        assert(pushed.len() == 1);
        assert(pushed[0] == x);
    } else {
        lemma_join_with_push(parts.drop_first(), sep, x);
        assert(pushed.drop_first() =~= parts.drop_first().push(x));
        if parts.len() == 1 {
            assert(join_with(parts, sep) == parts[0]);
        }
    }
}

/// How one group of comment texts is rendered: nothing for an empty
/// group, otherwise each text on its own line behind the comment token,
/// the block opened by a newline and closed by one.  The scanner keeps
/// everything the author wrote after the token, blanks included, so
/// re-rendering an already canonical comment line reproduces it exactly.
pub open spec fn comments_block(cs: Seq<Seq<char>>) -> Seq<char> {
    if cs.len() == 0 {
        Seq::empty()
    } else {
        "\n%"@ + join_with(cs, "\n%"@) + "\n"@
    }
}

/// Renders one group of attached comment texts as a comment block.
pub fn make_comments(comments: &Vec<String>) -> (r: String)
    ensures
        r@ == comments_block(comments.deep_view()),
{
    if comments.len() == 0 {
        String::new()
    } else {
        let mut s = String::new();
        s.append("\n%");
        s.append(comments[0].as_str());
        let mut i: usize = 1;
        while i < comments.len()
            invariant
                1 <= i <= comments@.len(),
                comments@.len() >= 1,
                s@ == "\n%"@ + join_with(comments.deep_view().take(i as int), "\n%"@),
            decreases comments@.len() - i,
        {
            proof {
                assert(comments.deep_view().take(i as int + 1) =~= comments.deep_view().take(
                    i as int,
                ).push(comments.deep_view()[i as int]));
                lemma_join_with_push(
                    comments.deep_view().take(i as int),
                    "\n%"@,
                    comments.deep_view()[i as int],
                );
            }
            s.append("\n%");
            s.append(comments[i].as_str());
            i += 1;
        }
        s.append("\n");
        proof {
            assert(comments.deep_view().take(comments@.len() as int) =~= comments.deep_view());
        }
        s
    }
}

} // verus!

verus! {

proof fn lemma_scan_from_wf(
    flags: Seq<(usize, bool)>,
    i: int,
    in_mode: bool,
    start: usize,
    text_len: usize,
)
    requires
        0 <= i <= flags.len(),
        forall|k: int| 0 <= k < flags.len() ==> (#[trigger] flags[k]).0 < text_len,
        forall|k: int| 0 <= k < flags.len() - 1 ==> (#[trigger] flags[k]).0 < flags[k + 1].0,
        in_mode ==> i >= 1 && start <= flags[i - 1].0,
    ensures
        ({
            let r = scan_from(flags, i, in_mode, start, text_len);
            &&& forall|k: int| 0 <= k < r.len() ==> (#[trigger] r[k]).start <= r[k].end <= text_len
            &&& forall|k: int| 0 <= k < r.len() - 1 ==> (#[trigger] r[k]).end < r[k + 1].start
            &&& (r.len() > 0 && in_mode ==> r[0].start == start)
            &&& (r.len() > 0 && !in_mode && i < flags.len() ==> r[0].start >= flags[i].0)
        }),
    decreases flags.len() - i,
{
    let r = scan_from(flags, i, in_mode, start, text_len);
    if i >= flags.len() {
    } else {
        let off = flags[i].0;
        if flags[i].1 {
            if in_mode {
                lemma_scan_from_wf(flags, i + 1, true, start, text_len);
                assert(flags[i].0 >= flags[i - 1].0);
            } else {
                lemma_scan_from_wf(flags, i + 1, true, off, text_len);
            }
        } else {
            lemma_scan_from_wf(flags, i + 1, false, start, text_len);
            let rest = scan_from(flags, i + 1, false, start, text_len);
            if in_mode {
                let head = Span { start, end: (off - 1) as usize };
                assert(r == seq![head] + rest);
                assert(r[0] == head);
                assert(forall|k: int| 0 <= k < rest.len() ==> r[k + 1] == rest[k]);
                assert(start <= flags[i - 1].0 < off);
                if rest.len() > 0 {
                    assert(i + 1 < flags.len());
                    assert(rest[0].start >= flags[i + 1].0);
                    assert(flags[i].0 < flags[i + 1].0);
                }
            } else {
                if rest.len() > 0 && i + 1 < flags.len() {
                    assert(flags[i].0 < flags[i + 1].0);
                }
            }
        }
    }
}

/// The scanner's output satisfies the comment-list invariant: every span
/// lies inside the text with its lower end first, and the spans stand in
/// ascending order, mutually disjoint.
pub proof fn lemma_comment_spans_wf(flags: Seq<(usize, bool)>, text_len: usize)
    requires
        forall|k: int| 0 <= k < flags.len() ==> (#[trigger] flags[k]).0 < text_len,
        forall|k: int| 0 <= k < flags.len() - 1 ==> (#[trigger] flags[k]).0 < flags[k + 1].0,
    ensures
        forall|k: int|
            0 <= k < comment_spans(flags, text_len).len() ==> (#[trigger] comment_spans(
                flags,
                text_len,
            )[k]).start <= comment_spans(flags, text_len)[k].end <= text_len,
        forall|k: int|
            0 <= k < comment_spans(flags, text_len).len() - 1 ==> (#[trigger] comment_spans(
                flags,
                text_len,
            )[k]).end < comment_spans(flags, text_len)[k + 1].start,
{
    lemma_scan_from_wf(flags, 0, false, 0, text_len);
}

} // verus!
