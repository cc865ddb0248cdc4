//! The comment attacher and the tree-to-text renderer.
//!
//! The attacher partitions the ordered list of comment spans into one
//! leading group per sibling node, by strict containment in the gap
//! between the end of the previous sibling and the start of the current
//! one; the top-level variant also collects the comments standing after
//! the last sibling.  The renderer walks the tree and emits the canonical
//! text of every construct it has a policy for, and fails loudly on any
//! construct it has none for.

use vstd::prelude::*;
use crate::comments::comments_block;
use crate::comments::make_comments;
use crate::cst::Cst;
use crate::cst::CstView;
use crate::cst::Rule;
use crate::cst::Span;
use crate::cst::cst_view;
use crate::cst::cst_views;
use crate::cst::cst_spans_valid;
use crate::cst::lemma_cst_views_index;
use crate::cst::spans_valid;

verus! {

/// Why a render call failed; the whole call is abandoned when one arises.
#[derive(Debug, Clone, Copy, PartialEq, Eq, Hash, Structural)]
pub enum ToStringError {
    /// The renderer reached a rule it has no emission policy for.
    UnExpectedRule(Rule),
    /// A construct misses a child the renderer needs.
    NotFoundRule,
}

impl ToStringError {
    /// A short human-readable description of the error.
    pub fn message(&self) -> (r: String)
        ensures
            r@ == match *self {
                ToStringError::UnExpectedRule(_) => "unexpected rule"@,
                ToStringError::NotFoundRule => "not found rule"@,
            },
    {
        match *self {
            ToStringError::UnExpectedRule(_) => "unexpected rule".to_owned(),
            ToStringError::NotFoundRule => "not found rule".to_owned(),
        }
    }
}

/// The characters that a run of UTF-8 bytes decodes to.
pub uninterp spec fn utf8_chars(b: Seq<u8>) -> Seq<char>;

/// Relies on `String::from_utf8_lossy`: the result is a function of the
/// bytes alone.
#[verifier::external_body]
fn bytes_to_string(b: &[u8]) -> (r: String)
    ensures
        r@ == utf8_chars(b@),
{
    String::from_utf8_lossy(b).into_owned()
}

/// The text of the source span `sp`, as characters.
pub open spec fn span_chars(text: Seq<u8>, sp: Span) -> Seq<char> {
    utf8_chars(text.subrange(sp.start as int, sp.end as int))
}

/// Extracts the text a span covers, as the parser's span-to-text lookup
/// does: the half-open byte range `[start, end)` of the source.
pub fn get_text_from_span(text: &Vec<u8>, sp: Span) -> (r: String)
    requires
        sp.start <= sp.end <= text@.len(),
    ensures
        r@ == span_chars(text@, sp),
{
    let sl = vstd::slice::slice_subrange(text.as_slice(), sp.start, sp.end);
    bytes_to_string(sl)
}

/// Whether a comment span lies strictly inside the open gap `(s, e)`:
/// a comment touching either boundary is not absorbed, so it cannot be
/// claimed twice by adjacent siblings.
pub open spec fn in_gap(c: Span, s: int, e: int) -> bool {
    s < c.start && c.end < e
}

/// The comment spans of `all` that lie strictly inside the gap `(s, e)`,
/// in their original order.
pub open spec fn gap_comments(all: Seq<Span>, s: int, e: int) -> Seq<Span>
    decreases all.len(),
{
    if all.len() == 0 {
        Seq::empty()
    } else {
        (if in_gap(all[0], s, e) {
            seq![all[0]]
        } else {
            Seq::empty()
        }) + gap_comments(all.drop_first(), s, e)
    }
}

/// The comment spans of `all` that start at or after `cursor`, in order:
/// the comments trailing the last top-level construct.
pub open spec fn tail_comments(all: Seq<Span>, cursor: int) -> Seq<Span>
    decreases all.len(),
{
    if all.len() == 0 {
        Seq::empty()
    } else {
        (if all[0].start >= cursor {
            seq![all[0]]
        } else {
            Seq::empty()
        }) + tail_comments(all.drop_first(), cursor)
    }
}

proof fn lemma_gap_comments_push(all: Seq<Span>, x: Span, s: int, e: int)
    ensures
        gap_comments(all.push(x), s, e) == gap_comments(all, s, e) + (if in_gap(x, s, e) {
            seq![x]
        } else {
            Seq::<Span>::empty()
        }),
    decreases all.len(),
{
    let pushed = all.push(x);
    assert(pushed.len() == all.len() + 1);
    if all.len() == 0 {
        assert(pushed[0] == x);
        assert(pushed.drop_first() =~= Seq::<Span>::empty());
        assert(gap_comments(pushed.drop_first(), s, e) == Seq::<Span>::empty());
        assert(gap_comments(pushed, s, e) =~= gap_comments(all, s, e) + (if in_gap(x, s, e) {
            seq![x]
        } else {
            Seq::<Span>::empty()
        }));
    } else {
        assert(pushed[0] == all[0]);
        assert(pushed.drop_first() =~= all.drop_first().push(x));
        lemma_gap_comments_push(all.drop_first(), x, s, e);
        assert(gap_comments(pushed, s, e) =~= gap_comments(all, s, e) + (if in_gap(x, s, e) {
            seq![x]
        } else {
            Seq::<Span>::empty()
        }));
    }
}

proof fn lemma_tail_comments_push(all: Seq<Span>, x: Span, cursor: int)
    ensures
        tail_comments(all.push(x), cursor) == tail_comments(all, cursor) + (if x.start >= cursor {
            seq![x]
        } else {
            Seq::<Span>::empty()
        }),
    decreases all.len(),
{
    let pushed = all.push(x);
    assert(pushed.len() == all.len() + 1);
    if all.len() == 0 {
        assert(pushed[0] == x);
        assert(pushed.drop_first() =~= Seq::<Span>::empty());
        assert(tail_comments(pushed.drop_first(), cursor) == Seq::<Span>::empty());
        assert(tail_comments(pushed, cursor) =~= tail_comments(all, cursor) + (if x.start
            >= cursor {
            seq![x]
        } else {
            Seq::<Span>::empty()
        }));
    } else {
        assert(pushed[0] == all[0]);
        assert(pushed.drop_first() =~= all.drop_first().push(x));
        lemma_tail_comments_push(all.drop_first(), x, cursor);
        assert(tail_comments(pushed, cursor) =~= tail_comments(all, cursor) + (if x.start
            >= cursor {
            seq![x]
        } else {
            Seq::<Span>::empty()
        }));
    }
}

/// The texts of the comments attached to the gap `(s, e)`.
pub open spec fn gap_texts(text: Seq<u8>, all: Seq<Span>, s: int, e: int) -> Seq<Seq<char>> {
    gap_comments(all, s, e).map_values(|c: Span| span_chars(text, c))
}

/// The texts of the comments trailing the position `cursor`.
pub open spec fn tail_texts(text: Seq<u8>, all: Seq<Span>, cursor: int) -> Seq<Seq<char>> {
    tail_comments(all, cursor).map_values(|c: Span| span_chars(text, c))
}

/// Where the gap before sibling `i` begins: the enclosing start for the
/// first sibling, the end of the previous sibling after that.
pub open spec fn cursor_at(start: usize, inner: Seq<CstView>, i: int) -> int {
    if i == 0 {
        start as int
    } else {
        inner[i - 1].span.end as int
    }
}

/// Collects, for one gap, the texts of the comments strictly inside it.
fn gap_comment_texts(text: &Vec<u8>, all_comments_lst: &Vec<Span>, s: usize, e: usize) -> (r: Vec<
    String,
>)
    requires
        spans_valid(all_comments_lst@, text@.len()),
    ensures
        r.deep_view() == gap_texts(text@, all_comments_lst@, s as int, e as int),
{
    let mut r: Vec<String> = Vec::new();
    let mut j: usize = 0;
    while j < all_comments_lst.len()
        invariant
            j <= all_comments_lst@.len(),
            spans_valid(all_comments_lst@, text@.len()),
            r.deep_view() == gap_texts(text@, all_comments_lst@.take(j as int), s as int, e as int),
        decreases all_comments_lst@.len() - j,
    {
        let c = all_comments_lst[j];
        proof {
            assert(all_comments_lst@.take(j as int + 1) =~= all_comments_lst@.take(j as int).push(
                c,
            ));
            lemma_gap_comments_push(
                all_comments_lst@.take(j as int),
                c,
                s as int,
                e as int,
            );
        }
        let ghost old_dv = r.deep_view();
        if s < c.start && c.end < e {
            let t = get_text_from_span(text, c);
            let ghost tv = t@;
            r.push(t);
            proof {
                assert(r.deep_view() =~~= old_dv.push(tv));
                assert(gap_texts(text@, all_comments_lst@.take(j as int + 1), s as int, e as int)
                    =~~= old_dv.push(tv));
            }
        } else {
            proof {
                assert(gap_texts(text@, all_comments_lst@.take(j as int + 1), s as int, e as int)
                    =~~= old_dv);
            }
        }
        j += 1;
    }
    proof {
        assert(all_comments_lst@.take(all_comments_lst@.len() as int) =~= all_comments_lst@);
    }
    r
}

/// Binds every sibling to the comments standing in the gap before it.
///
/// The cursor starts at `start` and moves to each sibling's span end in
/// turn; sibling `i` receives the texts of the comment spans lying
/// strictly inside the gap between the cursor and its own span start.
pub fn separate_comments(
    text: &Vec<u8>,
    all_comments_lst: &Vec<Span>,
    start: usize,
    inner: &Vec<Cst>,
) -> (r: Result<Vec<(Vec<String>, Cst)>, ToStringError>)
    requires
        spans_valid(all_comments_lst@, text@.len()),
    ensures
        r is Ok,
        r->Ok_0@.len() == inner@.len(),
        forall|i: int|
            0 <= i < inner@.len() ==> (#[trigger] r->Ok_0@[i].1)@ == cst_view(inner@[i]),
        forall|i: int|
            0 <= i < inner@.len() ==> (#[trigger] r->Ok_0@[i].0).deep_view() == gap_texts(
                text@,
                all_comments_lst@,
                cursor_at(start, cst_views(inner@), i),
                inner@[i].span.start as int,
            ),
{
    let mut lst: Vec<(Vec<String>, Cst)> = Vec::new();
    let mut temporary_start = start;
    let mut i: usize = 0;
    proof {
        lemma_cst_views_index(inner@);
    }
    while i < inner.len()
        invariant
            i <= inner@.len(),
            spans_valid(all_comments_lst@, text@.len()),
            lst@.len() == i,
            cst_views(inner@).len() == inner@.len(),
            forall|k: int|
                0 <= k < inner@.len() ==> cst_views(inner@)[k] == cst_view(#[trigger] inner@[k]),
            temporary_start == if i == 0 {
                start
            } else {
                inner@[i - 1].span.end
            },
            forall|k: int| 0 <= k < i ==> (#[trigger] lst@[k].1)@ == cst_view(inner@[k]),
            forall|k: int|
                0 <= k < i ==> (#[trigger] lst@[k].0).deep_view() == gap_texts(
                    text@,
                    all_comments_lst@,
                    cursor_at(start, cst_views(inner@), k),
                    inner@[k].span.start as int,
                ),
        decreases inner@.len() - i,
    {
        let cst = &inner[i];
        let comments_lst = gap_comment_texts(text, all_comments_lst, temporary_start, cst.span.start);
        lst.push((comments_lst, cst.clone()));
        temporary_start = cst.span.end;
        i += 1;
    }
    Ok(lst)
}

/// Binds every top-level sibling to its leading comments, the cursor
/// starting at offset zero, and also returns the texts of the comments
/// standing at or after the end of the last sibling.
pub fn separate_comments_top_level(
    text: &Vec<u8>,
    all_comments_lst: &Vec<Span>,
    inner: &Vec<Cst>,
) -> (r: Result<(Vec<(Vec<String>, Cst)>, Vec<String>), ToStringError>)
    requires
        spans_valid(all_comments_lst@, text@.len()),
    ensures
        r is Ok,
        r->Ok_0.0@.len() == inner@.len(),
        forall|i: int|
            0 <= i < inner@.len() ==> (#[trigger] r->Ok_0.0@[i].1)@ == cst_view(inner@[i]),
        forall|i: int|
            0 <= i < inner@.len() ==> (#[trigger] r->Ok_0.0@[i].0).deep_view() == gap_texts(
                text@,
                all_comments_lst@,
                cursor_at(0, cst_views(inner@), i),
                inner@[i].span.start as int,
            ),
        r->Ok_0.1.deep_view() == tail_texts(
            text@,
            all_comments_lst@,
            if inner@.len() == 0 {
                0
            } else {
                inner@[inner@.len() - 1].span.end as int
            },
        ),
{
    let lst = match separate_comments(text, all_comments_lst, 0, inner) {
        Ok(lst) => lst,
        Err(e) => {
            return Err(e);
        },
    };
    let temporary_start: usize = if inner.len() == 0 {
        0
    } else {
        inner[inner.len() - 1].span.end
    };
    let mut comments_lst: Vec<String> = Vec::new();
    let mut j: usize = 0;
    while j < all_comments_lst.len()
        invariant
            j <= all_comments_lst@.len(),
            spans_valid(all_comments_lst@, text@.len()),
            comments_lst.deep_view() == tail_texts(
                text@,
                all_comments_lst@.take(j as int),
                temporary_start as int,
            ),
        decreases all_comments_lst@.len() - j,
    {
        let c = all_comments_lst[j];
        proof {
            assert(all_comments_lst@.take(j as int + 1) =~= all_comments_lst@.take(j as int).push(
                c,
            ));
            lemma_tail_comments_push(
                all_comments_lst@.take(j as int),
                c,
                temporary_start as int,
            );
        }
        let ghost old_dv = comments_lst.deep_view();
        if c.start >= temporary_start {
            let t = get_text_from_span(text, c);
            let ghost tv = t@;
            comments_lst.push(t);
            proof {
                assert(comments_lst.deep_view() =~~= old_dv.push(tv));
                assert(tail_texts(
                    text@,
                    all_comments_lst@.take(j as int + 1),
                    temporary_start as int,
                ) =~~= old_dv.push(tv));
            }
        } else {
            proof {
                assert(tail_texts(
                    text@,
                    all_comments_lst@.take(j as int + 1),
                    temporary_start as int,
                ) =~~= old_dv);
            }
        }
        j += 1;
    }
    proof {
        assert(all_comments_lst@.take(all_comments_lst@.len() as int) =~= all_comments_lst@);
    }
    Ok((lst, comments_lst))
}

} // verus!

verus! {

/// Prefixes an already-rendered piece to a render result, keeping an error.
pub open spec fn ok_concat(p: Seq<char>, r: Result<Seq<char>, ToStringError>) -> Result<
    Seq<char>,
    ToStringError,
> {
    match r {
        Ok(s) => Ok(p + s),
        Err(e) => Err(e),
    }
}

/// Where the cursor of the header section starts: at the end of the first
/// entry, so that a comment standing before the whole section is attached
/// by the top-level attacher alone and never twice.
pub open spec fn headers_start(entries: Seq<CstView>) -> int {
    if entries.len() == 0 {
        0
    } else {
        entries[0].span.end as int
    }
}

/// The canonical text of one header entry: its attached comment block,
/// then `@require: ` or `@import: `, the package name, and a newline.
/// An entry of any other kind, or one whose first child is not a package
/// name, is a fatal error; an entry without children misses the name.
pub open spec fn render_header_entry(
    text: Seq<u8>,
    all: Seq<Span>,
    cursor: int,
    e: CstView,
) -> Result<Seq<char>, ToStringError> {
    if e.rule == Rule::header_require || e.rule == Rule::header_import {
        if e.inner.len() == 0 {
            Err(ToStringError::NotFoundRule)
        } else if e.inner[0].rule != Rule::pkgname {
            Err(ToStringError::UnExpectedRule(e.inner[0].rule))
        } else {
            let kw = if e.rule == Rule::header_require {
                "@require: "@
            } else {
                "@import: "@
            };
            Ok(
                comments_block(gap_texts(text, all, cursor, e.span.start as int)) + kw
                    + span_chars(text, e.inner[0].span) + "\n"@,
            )
        }
    } else {
        Err(ToStringError::UnExpectedRule(e.rule))
    }
}

/// The canonical text of a run of header entries, the cursor moving to
/// each entry's end in turn; the first failing entry aborts the run.
pub open spec fn render_headers_from(
    text: Seq<u8>,
    all: Seq<Span>,
    cursor: int,
    entries: Seq<CstView>,
) -> Result<Seq<char>, ToStringError>
    decreases entries.len(),
{
    if entries.len() == 0 {
        Ok(Seq::empty())
    } else {
        match render_header_entry(text, all, cursor, entries[0]) {
            Ok(s) => ok_concat(
                s,
                render_headers_from(text, all, entries[0].span.end as int, entries.drop_first()),
            ),
            Err(e) => Err(e),
        }
    }
}

/// The canonical text of a whole header section.
pub open spec fn render_headers(text: Seq<u8>, all: Seq<Span>, entries: Seq<CstView>) -> Result<
    Seq<char>,
    ToStringError,
> {
    render_headers_from(text, all, headers_start(entries), entries)
}

/// The canonical text of the stage directive: its fixed token, then the
/// directive's source text taken verbatim, then a newline.
pub open spec fn render_stage(text: Seq<u8>, sp: Span) -> Seq<char> {
    "@stage: "@ + span_chars(text, sp) + "\n"@
}

/// The canonical text of one top-level construct, its attached comment
/// block in front.  A standalone document wraps the preamble with the
/// body-introducing keyword; a library file does not.  A construct of a
/// kind without a policy is a fatal error, never a silent omission.
pub open spec fn render_program_item(
    text: Seq<u8>,
    all: Seq<Span>,
    c: CstView,
    comments: Seq<Seq<char>>,
    is_saty: bool,
) -> Result<Seq<char>, ToStringError> {
    let main = if c.rule == Rule::stage {
        Ok(render_stage(text, c.span))
    } else if c.rule == Rule::headers {
        render_headers(text, all, c.inner)
    } else if c.rule == Rule::preamble {
        Ok(
            if is_saty {
                "\npreamble\nin\n"@
            } else {
                "\npreamble\n"@
            },
        )
    } else if c.rule == Rule::expr {
        Ok("\nexpr\n"@)
    } else {
        Err(ToStringError::UnExpectedRule(c.rule))
    };
    ok_concat(comments_block(comments), main)
}

/// The canonical text of the ordered top-level constructs, each with the
/// comments of the gap before it, the cursor starting at `cursor`.
pub open spec fn render_programs(
    text: Seq<u8>,
    all: Seq<Span>,
    items: Seq<CstView>,
    cursor: int,
    is_saty: bool,
) -> Result<Seq<char>, ToStringError>
    decreases items.len(),
{
    if items.len() == 0 {
        Ok(Seq::empty())
    } else {
        match render_program_item(
            text,
            all,
            items[0],
            gap_texts(text, all, cursor, items[0].span.start as int),
            is_saty,
        ) {
            Ok(s) => ok_concat(
                s,
                render_programs(text, all, items.drop_first(), items[0].span.end as int, is_saty),
            ),
            Err(e) => Err(e),
        }
    }
}

/// Where the trailing-comment region of a program begins: at the end of
/// the last top-level construct, or at the start of the file if there is
/// none.
pub open spec fn program_tail_cursor(items: Seq<CstView>) -> int {
    if items.len() == 0 {
        0
    } else {
        items[items.len() - 1].span.end as int
    }
}

/// The canonical text of a whole program: its top-level constructs in
/// order, then the block of comments trailing the last of them.  A root
/// of any kind other than the two program kinds is a fatal error.
pub open spec fn render_program(text: Seq<u8>, all: Seq<Span>, c: CstView) -> Result<
    Seq<char>,
    ToStringError,
> {
    if c.rule == Rule::program_saty || c.rule == Rule::program_satyh {
        match render_programs(text, all, c.inner, 0, c.rule == Rule::program_saty) {
            Ok(s) => Ok(s + comments_block(tail_texts(text, all, program_tail_cursor(c.inner)))),
            Err(e) => Err(e),
        }
    } else {
        Err(ToStringError::UnExpectedRule(c.rule))
    }
}

/// Whether an executable render result is the spec-level one.
pub open spec fn result_matches(r: Result<String, ToStringError>, s: Result<
    Seq<char>,
    ToStringError,
>) -> bool {
    match s {
        Ok(ss) => r is Ok && r->Ok_0@ == ss,
        Err(e) => r is Err && r->Err_0 == e,
    }
}

/// Renders the stage directive.
pub fn stage_to_string(span: &Span, text: &Vec<u8>) -> (r: String)
    requires
        span.start <= span.end <= text@.len(),
    ensures
        r@ == render_stage(text@, *span),
{
    let mut s = String::new();
    s.append("@stage: ");
    let stage_str = get_text_from_span(text, *span);
    s.append(stage_str.as_str());
    s.append("\n");
    s
}

} // verus!

verus! {

proof fn lemma_ok_concat_assoc(p: Seq<char>, s: Seq<char>, r: Result<Seq<char>, ToStringError>)
    ensures
        ok_concat(p, ok_concat(s, r)) == ok_concat(p + s, r),
{
    match r {
        Ok(t) => {
            assert(p + (s + t) =~= (p + s) + t);
        },
        Err(_) => {},
    }
}

/// Renders a header section: every entry as its comment block followed by
/// its `@require: `/`@import: ` line, in the entries' original order.
pub fn headers_to_string(
    header_cst_list: &Vec<Cst>,
    text: &Vec<u8>,
    all_comments_lst: &Vec<Span>,
) -> (r: Result<String, ToStringError>)
    requires
        spans_valid(all_comments_lst@, text@.len()),
        forall|i: int|
            0 <= i < header_cst_list@.len() ==> cst_spans_valid(
                cst_view(#[trigger] header_cst_list@[i]),
                text@.len(),
            ),
    ensures
        result_matches(r, render_headers(text@, all_comments_lst@, cst_views(header_cst_list@))),
{
    let ghost vs = cst_views(header_cst_list@);
    proof {
        lemma_cst_views_index(header_cst_list@);
    }
    let mut str = String::new();
    let start: usize = if header_cst_list.len() == 0 {
        0
    } else {
        header_cst_list[0].span.end
    };
    assert(start as int == headers_start(vs));
    let inner_with_comments = match separate_comments(text, all_comments_lst, start, header_cst_list) {
        Ok(v) => v,
        Err(e) => {
            return Err(e);
        },
    };
    let mut i: usize = 0;
    proof {
        assert(vs.skip(0) =~= vs);
        assert(str@ =~= Seq::<char>::empty());
        match render_headers_from(text@, all_comments_lst@, start as int, vs) {
            Ok(s) => {
                assert(Seq::<char>::empty() + s =~= s);
            },
            Err(_) => {},
        }
    }
    while i < inner_with_comments.len()
        invariant
            i <= inner_with_comments@.len(),
            inner_with_comments@.len() == header_cst_list@.len(),
            vs == cst_views(header_cst_list@),
            vs.len() == header_cst_list@.len(),
            spans_valid(all_comments_lst@, text@.len()),
            forall|k: int|
                0 <= k < header_cst_list@.len() ==> cst_spans_valid(
                    cst_view(#[trigger] header_cst_list@[k]),
                    text@.len(),
                ),
            forall|k: int|
                0 <= k < vs.len() ==> #[trigger] vs[k] == cst_view(header_cst_list@[k]),
            forall|k: int|
                0 <= k < vs.len() ==> (#[trigger] inner_with_comments@[k].1)@ == cst_view(
                    header_cst_list@[k],
                ),
            forall|k: int|
                0 <= k < vs.len() ==> (#[trigger] inner_with_comments@[k].0).deep_view()
                    == gap_texts(
                    text@,
                    all_comments_lst@,
                    cursor_at(start, vs, k),
                    header_cst_list@[k].span.start as int,
                ),
            render_headers(text@, all_comments_lst@, vs) == ok_concat(
                str@,
                render_headers_from(
                    text@,
                    all_comments_lst@,
                    cursor_at(start, vs, i as int),
                    vs.skip(i as int),
                ),
            ),
        decreases inner_with_comments@.len() - i,
    {
        let comments = &inner_with_comments[i].0;
        let cst = &inner_with_comments[i].1;
        proof {
            assert(vs.skip(i as int)[0] == vs[i as int]);
            assert(vs.skip(i as int).drop_first() =~= vs.skip(i as int + 1));
            assert(cst@ == vs[i as int]);
        }
        if cst.rule == Rule::header_require || cst.rule == Rule::header_import {
            if cst.inner.len() == 0 {
                return Err(ToStringError::NotFoundRule);
            }
            let pkgname_cst = &cst.inner[0];
            proof {
                lemma_cst_views_index(cst.inner@);
                assert(pkgname_cst@ == vs[i as int].inner[0]);
                assert(cst_spans_valid(vs[i as int], text@.len()));
                assert(cst_spans_valid(vs[i as int].inner[0], text@.len()));
            }
            if !(pkgname_cst.rule == Rule::pkgname) {
                return Err(ToStringError::UnExpectedRule(pkgname_cst.rule));
            }
            let ghost old_str = str@;
            let cb = make_comments(comments);
            str.append(cb.as_str());
            if cst.rule == Rule::header_require {
                str.append("@require: ");
            } else {
                str.append("@import: ");
            }
            let pkgname_str = get_text_from_span(text, pkgname_cst.span);
            str.append(pkgname_str.as_str());
            str.append("\n");
            proof {
                let cursor = cursor_at(start, vs, i as int);
                let kw: Seq<char> = if vs[i as int].rule == Rule::header_require {
                    "@require: "@
                } else {
                    "@import: "@
                };
                let chunk = comments_block(
                    gap_texts(
                        text@,
                        all_comments_lst@,
                        cursor,
                        vs[i as int].span.start as int,
                    ),
                ) + kw + span_chars(text@, vs[i as int].inner[0].span) + "\n"@;
                assert(render_header_entry(text@, all_comments_lst@, cursor, vs[i as int])
                    == Ok::<Seq<char>, ToStringError>(chunk));
                assert(str@ =~= old_str + chunk);
                assert(cursor_at(start, vs, i as int + 1) == vs[i as int].span.end as int);
                lemma_ok_concat_assoc(
                    old_str,
                    chunk,
                    render_headers_from(
                        text@,
                        all_comments_lst@,
                        vs[i as int].span.end as int,
                        vs.skip(i as int + 1),
                    ),
                );
            }
        } else {
            return Err(ToStringError::UnExpectedRule(cst.rule));
        }
        i += 1;
    }
    proof {
        assert(vs.skip(vs.len() as int) =~= Seq::<CstView>::empty());
        assert(str@ + Seq::<char>::empty() =~= str@);
    }
    Ok(str)
}

} // verus!

verus! {

/// Renders one top-level construct behind its attached comment block.
pub fn programs_to_string(
    cst: &Cst,
    comments: &Vec<String>,
    index: u64,
    text: &Vec<u8>,
    all_comments_lst: &Vec<Span>,
    is_saty: bool,
) -> (r: Result<String, ToStringError>)
    requires
        spans_valid(all_comments_lst@, text@.len()),
        cst_spans_valid(cst@, text@.len()),
    ensures
        result_matches(
            r,
            render_program_item(text@, all_comments_lst@, cst@, comments.deep_view(), is_saty),
        ),
{
    let comments_str = make_comments(comments);
    let main_str: String;
    if cst.rule == Rule::stage {
        main_str = stage_to_string(&cst.span, text);
    } else if cst.rule == Rule::headers {
        proof {
            lemma_cst_views_index(cst.inner@);
            assert forall|k: int| 0 <= k < cst.inner@.len() implies cst_spans_valid(
                cst_view(#[trigger] cst.inner@[k]),
                text@.len(),
            ) by {
                assert(cst_spans_valid(cst@.inner[k], text@.len()));
            }
        }
        main_str = match headers_to_string(&cst.inner, text, all_comments_lst) {
            Ok(s) => s,
            Err(e) => {
                return Err(e);
            },
        };
    } else if cst.rule == Rule::preamble {
        main_str = if is_saty {
            "\npreamble\nin\n".to_owned()
        } else {
            "\npreamble\n".to_owned()
        };
    } else if cst.rule == Rule::expr {
        main_str = "\nexpr\n".to_owned();
    } else {
        return Err(ToStringError::UnExpectedRule(cst.rule));
    }
    let mut out = comments_str;
    out.append(main_str.as_str());
    Ok(out)
}

/// Renders a whole program: its top-level constructs, each behind its
/// leading comments, then the comments trailing the last construct.
fn saty_or_satyh_to_string(
    cst: &Cst,
    index: u64,
    text: &Vec<u8>,
    all_comments_lst: &Vec<Span>,
) -> (r: Result<String, ToStringError>)
    requires
        spans_valid(all_comments_lst@, text@.len()),
        cst_spans_valid(cst@, text@.len()),
        index < u64::MAX,
    ensures
        result_matches(r, render_program(text@, all_comments_lst@, cst@)),
{
    let ghost vs = cst_views(cst.inner@);
    proof {
        lemma_cst_views_index(cst.inner@);
    }
    let pair = match separate_comments_top_level(text, all_comments_lst, &cst.inner) {
        Ok(p) => p,
        Err(e) => {
            return Err(e);
        },
    };
    let inner_with_comments = pair.0;
    let last_comments = pair.1;
    let is_saty: bool;
    if cst.rule == Rule::program_saty {
        is_saty = true;
    } else if cst.rule == Rule::program_satyh {
        is_saty = false;
    } else {
        return Err(ToStringError::UnExpectedRule(cst.rule));
    }
    let mut str = String::new();
    let mut i: usize = 0;
    proof {
        assert(vs.skip(0) =~= vs);
        assert(str@ =~= Seq::<char>::empty());
        match render_programs(text@, all_comments_lst@, vs, 0, is_saty) {
            Ok(s) => {
                assert(Seq::<char>::empty() + s =~= s);
            },
            Err(_) => {},
        }
    }
    while i < inner_with_comments.len()
        invariant
            i <= inner_with_comments@.len(),
            inner_with_comments@.len() == cst.inner@.len(),
            vs == cst_views(cst.inner@),
            vs == cst@.inner,
            vs.len() == cst.inner@.len(),
            spans_valid(all_comments_lst@, text@.len()),
            cst_spans_valid(cst@, text@.len()),
            cst@.rule == Rule::program_saty || cst@.rule == Rule::program_satyh,
            is_saty <==> cst@.rule == Rule::program_saty,
            index < u64::MAX,
            forall|k: int| 0 <= k < vs.len() ==> #[trigger] vs[k] == cst_view(cst.inner@[k]),
            forall|k: int|
                0 <= k < vs.len() ==> (#[trigger] inner_with_comments@[k].1)@ == cst_view(
                    cst.inner@[k],
                ),
            forall|k: int|
                0 <= k < vs.len() ==> (#[trigger] inner_with_comments@[k].0).deep_view()
                    == gap_texts(
                    text@,
                    all_comments_lst@,
                    cursor_at(0, vs, k),
                    cst.inner@[k].span.start as int,
                ),
            render_programs(text@, all_comments_lst@, vs, 0, is_saty) == ok_concat(
                str@,
                render_programs(
                    text@,
                    all_comments_lst@,
                    vs.skip(i as int),
                    cursor_at(0, vs, i as int),
                    is_saty,
                ),
            ),
        decreases inner_with_comments@.len() - i,
    {
        let group = &inner_with_comments[i].0;
        let item = &inner_with_comments[i].1;
        proof {
            assert(vs.skip(i as int)[0] == vs[i as int]);
            assert(vs.skip(i as int).drop_first() =~= vs.skip(i as int + 1));
            assert(item@ == vs[i as int]);
            assert(cst_spans_valid(cst@, text@.len()));
            assert(cst@.inner[i as int] == vs[i as int]);
            assert(cst_spans_valid(vs[i as int], text@.len()));
        }
        let ghost old_str = str@;
        let piece = match programs_to_string(item, group, index + 1, text, all_comments_lst, is_saty) {
            Ok(s) => s,
            Err(e) => {
                return Err(e);
            },
        };
        str.append(piece.as_str());
        proof {
            assert(cursor_at(0, vs, i as int + 1) == vs[i as int].span.end as int);
            lemma_ok_concat_assoc(
                old_str,
                piece@,
                render_programs(
                    text@,
                    all_comments_lst@,
                    vs.skip(i as int + 1),
                    vs[i as int].span.end as int,
                    is_saty,
                ),
            );
        }
        i += 1;
    }
    proof {
        assert(vs.skip(vs.len() as int) =~= Seq::<CstView>::empty());
        assert(str@ + Seq::<char>::empty() =~= str@);
    }
    let trailing = make_comments(&last_comments);
    str.append(trailing.as_str());
    Ok(str)
}

/// Renders a parsed file to its canonical text.
///
/// `cst` is the root node of the file's tree, `text` the raw bytes of the
/// original source, and `all_comments_lst` the ordered comment spans the
/// scanner found in it.
pub fn cst_to_string(
    cst: &Cst,
    index: u64,
    text: &Vec<u8>,
    all_comments_lst: &Vec<Span>,
) -> (r: Result<String, ToStringError>)
    requires
        spans_valid(all_comments_lst@, text@.len()),
        cst_spans_valid(cst@, text@.len()),
        index < u64::MAX,
    ensures
        result_matches(r, render_program(text@, all_comments_lst@, cst@)),
{
    saty_or_satyh_to_string(cst, index, text, all_comments_lst)
}

} // verus!

verus! {

/// A group holds precisely the comments of `all` that lie strictly
/// inside its gap, in their original order: nothing else enters it, and
/// no comment inside the gap is left out.
pub proof fn lemma_gap_comments_contains(all: Seq<Span>, s: int, e: int, c: Span)
    ensures
        gap_comments(all, s, e).contains(c) <==> (all.contains(c) && in_gap(c, s, e)),
    decreases all.len(),
{
    if all.len() == 0 {
        assert(!all.contains(c));
    } else {
        lemma_gap_comments_contains(all.drop_first(), s, e, c);
        let head: Seq<Span> = if in_gap(all[0], s, e) {
            seq![all[0]]
        } else {
            Seq::empty()
        };
        let g = gap_comments(all, s, e);
        assert(g == head + gap_comments(all.drop_first(), s, e));
        if all.contains(c) && in_gap(c, s, e) {
            let i = choose|i: int| 0 <= i < all.len() && all[i] == c;
            if i == 0 {
                assert(g[0] == c);
                assert(g.contains(c));
            } else {
                assert(all.drop_first()[i - 1] == c);
                assert(all.drop_first().contains(c));
                let k = choose|k: int|
                    0 <= k < gap_comments(all.drop_first(), s, e).len() && gap_comments(
                        all.drop_first(),
                        s,
                        e,
                    )[k] == c;
                assert(g[head.len() + k] == c);
                assert(g.contains(c));
            }
        }
        if g.contains(c) {
            let k = choose|k: int| 0 <= k < g.len() && g[k] == c;
            if k < head.len() {
                assert(c == all[0] && in_gap(c, s, e));
                assert(all.contains(c));
            } else {
                assert(gap_comments(all.drop_first(), s, e)[k - head.len()] == c);
                assert(gap_comments(all.drop_first(), s, e).contains(c));
                let i = choose|i: int|
                    0 <= i < all.drop_first().len() && all.drop_first()[i] == c;
                assert(all[i + 1] == c);
                assert(all.contains(c));
            }
        }
    }
}

/// The trailing group holds precisely the comments of `all` that start
/// at or after the cursor, in their original order.
pub proof fn lemma_tail_comments_contains(all: Seq<Span>, cursor: int, c: Span)
    ensures
        tail_comments(all, cursor).contains(c) <==> (all.contains(c) && c.start >= cursor),
    decreases all.len(),
{
    if all.len() == 0 {
        assert(!all.contains(c));
    } else {
        lemma_tail_comments_contains(all.drop_first(), cursor, c);
        let head: Seq<Span> = if all[0].start >= cursor {
            seq![all[0]]
        } else {
            Seq::empty()
        };
        let g = tail_comments(all, cursor);
        assert(g == head + tail_comments(all.drop_first(), cursor));
        if all.contains(c) && c.start >= cursor {
            let i = choose|i: int| 0 <= i < all.len() && all[i] == c;
            if i == 0 {
                assert(g[0] == c);
                assert(g.contains(c));
            } else {
                assert(all.drop_first()[i - 1] == c);
                assert(all.drop_first().contains(c));
                let k = choose|k: int|
                    0 <= k < tail_comments(all.drop_first(), cursor).len() && tail_comments(
                        all.drop_first(),
                        cursor,
                    )[k] == c;
                assert(g[head.len() + k] == c);
                assert(g.contains(c));
            }
        }
        if g.contains(c) {
            let k = choose|k: int| 0 <= k < g.len() && g[k] == c;
            if k < head.len() {
                assert(c == all[0] && c.start >= cursor);
                assert(all.contains(c));
            } else {
                assert(tail_comments(all.drop_first(), cursor)[k - head.len()] == c);
                assert(tail_comments(all.drop_first(), cursor).contains(c));
                let i = choose|i: int|
                    0 <= i < all.drop_first().len() && all.drop_first()[i] == c;
                assert(all[i + 1] == c);
                assert(all.contains(c));
            }
        }
    }
}

/// Siblings stand in positional order: each span is well formed, the
/// first starts at or after the enclosing start, and each one ends at or
/// before the next begins.
pub open spec fn siblings_ordered(start: usize, items: Seq<CstView>) -> bool {
    &&& forall|k: int|
        0 <= k < items.len() ==> (#[trigger] items[k]).span.start <= items[k].span.end
    &&& (items.len() > 0 ==> start <= items[0].span.start)
    &&& forall|k: int|
        0 <= k < items.len() - 1 ==> (#[trigger] items[k]).span.end <= items[k + 1].span.start
}

#[verifier::rlimit(30)]
proof fn lemma_cursor_monotone(start: usize, items: Seq<CstView>, k1: int, k2: int)
    requires
        siblings_ordered(start, items),
        0 <= k1 < k2 < items.len(),
    ensures
        items[k1].span.end <= cursor_at(start, items, k2),
    decreases k2 - k1,
{
    assert(cursor_at(start, items, k2) == items[k2 - 1].span.end as int);
    if k2 == k1 + 1 {
    } else {
        lemma_cursor_monotone(start, items, k1, k2 - 1);
        assert(cursor_at(start, items, k2 - 1) == items[k2 - 2].span.end as int);
        assert(items[k2 - 2].span.end <= items[k2 - 1].span.start);
        assert(items[k2 - 1].span.start <= items[k2 - 1].span.end);
    }
}

/// A comment lying in the gap before one sibling lies in the gap before
/// no other: with the siblings in order, the groups claim disjoint
/// regions, so no comment is ever attached twice.
pub proof fn lemma_comment_not_attached_twice(
    start: usize,
    items: Seq<CstView>,
    c: Span,
    k1: int,
    k2: int,
)
    requires
        siblings_ordered(start, items),
        c.start <= c.end,
        0 <= k1 < k2 < items.len(),
        in_gap(c, cursor_at(start, items, k1), items[k1].span.start as int),
    ensures
        !in_gap(c, cursor_at(start, items, k2), items[k2].span.start as int),
{
    lemma_cursor_monotone(start, items, k1, k2);
}

/// A comment lying in the gap before some sibling does not also stand in
/// the trailing region after the last sibling.
pub proof fn lemma_gap_and_trailing_disjoint(
    start: usize,
    items: Seq<CstView>,
    c: Span,
    k: int,
)
    requires
        siblings_ordered(start, items),
        c.start <= c.end,
        0 <= k < items.len(),
        in_gap(c, cursor_at(start, items, k), items[k].span.start as int),
    ensures
        !(c.start >= items[items.len() - 1].span.end),
{
    if k < items.len() - 1 {
        lemma_cursor_monotone(start, items, k, items.len() - 1);
    }
}

/// A rule kind the renderer has no policy for makes the whole render
/// fail with that kind's error: no output text exists for such a tree.
pub proof fn lemma_unknown_rule_is_fatal(text: Seq<u8>, all: Seq<Span>, c: CstView)
    requires
        c.rule != Rule::program_saty,
        c.rule != Rule::program_satyh,
    ensures
        render_program(text, all, c) == Err::<Seq<char>, ToStringError>(
            ToStringError::UnExpectedRule(c.rule),
        ),
{
}

/// The comments trailing the last top-level construct stand once, as one
/// block, at the very end of a successful render.
pub proof fn lemma_trailing_comments_at_end(text: Seq<u8>, all: Seq<Span>, c: CstView)
    requires
        render_program(text, all, c) is Ok,
    ensures
        render_program(text, all, c)->Ok_0 == render_programs(
            text,
            all,
            c.inner,
            0,
            c.rule == Rule::program_saty,
        )->Ok_0 + comments_block(tail_texts(text, all, program_tail_cursor(c.inner))),
{
}

/// Header entries render in their original order: the section's text is
/// the first entry's text followed by the text of the remaining entries.
pub proof fn lemma_headers_in_order(text: Seq<u8>, all: Seq<Span>, cursor: int, entries: Seq<CstView>)
    requires
        entries.len() > 0,
        render_headers_from(text, all, cursor, entries) is Ok,
    ensures
        render_header_entry(text, all, cursor, entries[0]) is Ok,
        render_headers_from(text, all, entries[0].span.end as int, entries.drop_first()) is Ok,
        render_headers_from(text, all, cursor, entries)->Ok_0 == render_header_entry(
            text,
            all,
            cursor,
            entries[0],
        )->Ok_0 + render_headers_from(
            text,
            all,
            entries[0].span.end as int,
            entries.drop_first(),
        )->Ok_0,
{
}

/// The comments attached to a header entry stand directly above that
/// entry's own rendered line, and nowhere else.
pub proof fn lemma_comments_stand_above_their_entry(
    text: Seq<u8>,
    all: Seq<Span>,
    cursor: int,
    e: CstView,
)
    requires
        render_header_entry(text, all, cursor, e) is Ok,
    ensures
        render_header_entry(text, all, cursor, e)->Ok_0 == comments_block(
            gap_texts(text, all, cursor, e.span.start as int),
        ) + (if e.rule == Rule::header_require {
            "@require: "@
        } else {
            "@import: "@
        }) + span_chars(text, e.inner[0].span) + "\n"@,
{
}

} // verus!

verus! {

/// Comment conservation.  With the siblings in positional order, a well
/// formed comment of the list is never lost and never duplicated by the
/// attacher: where it lies strictly inside the gap before a sibling, that
/// sibling's group holds it; where it starts at or after the end of the
/// last sibling, the trailing group holds it; and no comment satisfies
/// two of these conditions at once.  Together with the two lemmas above,
/// which state that a group holds nothing else, the groups carry exactly
/// the comments of the gaps, each exactly once.
#[verifier::rlimit(80)]
pub proof fn lemma_comment_conservation(all: Seq<Span>, start: usize, items: Seq<CstView>, j: int)
    requires
        siblings_ordered(start, items),
        items.len() > 0,
        0 <= j < all.len(),
        all[j].start <= all[j].end,
    ensures
        forall|k: int|
            0 <= k < items.len() && #[trigger] in_gap(
                all[j],
                cursor_at(start, items, k),
                items[k].span.start as int,
            ) ==> gap_comments(
                all,
                cursor_at(start, items, k),
                items[k].span.start as int,
            ).contains(all[j]),
        all[j].start >= items[items.len() - 1].span.end ==> tail_comments(
            all,
            items[items.len() - 1].span.end as int,
        ).contains(all[j]),
        forall|k1: int, k2: int|
            0 <= k1 < k2 < items.len() ==> !(#[trigger] in_gap(
                all[j],
                cursor_at(start, items, k1),
                items[k1].span.start as int,
            ) && #[trigger] in_gap(
                all[j],
                cursor_at(start, items, k2),
                items[k2].span.start as int,
            )),
        forall|k: int|
            0 <= k < items.len() && #[trigger] in_gap(
                all[j],
                cursor_at(start, items, k),
                items[k].span.start as int,
            ) ==> !(all[j].start >= items[items.len() - 1].span.end),
{
    let c = all[j];
    assert(all.contains(c)) by {
        assert(0 <= j < all.len() && all[j] == c);
    }
    assert forall|k: int|
        0 <= k < items.len() && #[trigger] in_gap(
            c,
            cursor_at(start, items, k),
            items[k].span.start as int,
        ) implies gap_comments(all, cursor_at(start, items, k), items[k].span.start as int).contains(
        c,
    ) by {
        lemma_gap_comments_contains(all, cursor_at(start, items, k), items[k].span.start as int, c);
    }
    if c.start >= items[items.len() - 1].span.end {
        lemma_tail_comments_contains(all, items[items.len() - 1].span.end as int, c);
    }
    assert forall|k1: int, k2: int| 0 <= k1 < k2 < items.len() implies !(#[trigger] in_gap(
        c,
        cursor_at(start, items, k1),
        items[k1].span.start as int,
    ) && #[trigger] in_gap(c, cursor_at(start, items, k2), items[k2].span.start as int)) by {
        if in_gap(c, cursor_at(start, items, k1), items[k1].span.start as int) {
            lemma_comment_not_attached_twice(start, items, c, k1, k2);
        }
    }
    assert forall|k: int|
        0 <= k < items.len() && #[trigger] in_gap(
            c,
            cursor_at(start, items, k),
            items[k].span.start as int,
        ) implies !(c.start >= items[items.len() - 1].span.end) by {
        lemma_gap_and_trailing_disjoint(start, items, c, k);
    }
}

} // verus!
