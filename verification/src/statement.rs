//! The binding-statement renderer.
//!
//! A let binding arrives as an ordered run of children: the bound pattern
//! first, the bound expression last, and any curried argument patterns in
//! between.  It renders as the binding keyword, the pattern, the
//! arguments and the canonical body form, in that order.

use vstd::prelude::*;
use crate::comments::join_with;
use crate::cst::Cst;
use crate::cst::CstView;
use crate::cst::Rule;
use crate::cst::Span;
use crate::cst::cst_view;
use crate::cst::cst_views;
use crate::cst::cst_spans_valid;
use crate::cst::lemma_cst_views_index;
use crate::cst2str::ToStringError;
use crate::cst2str::get_text_from_span;
use crate::cst2str::result_matches;
use crate::cst2str::span_chars;
use crate::pattern::ok_concat_items;
use crate::pattern::join_strings;
use crate::pattern::render_pattern;

verus! {

/// The canonical text of one curried argument: a pattern argument renders
/// as the pattern does, an optional argument as its verbatim name, and a
/// type annotation as its verbatim annotated form.
pub open spec fn render_arg(text: Seq<u8>, c: CstView) -> Result<Seq<char>, ToStringError> {
    if c.rule == Rule::arg {
        if c.inner.len() == 0 {
            Err(ToStringError::NotFoundRule)
        } else if c.inner[0].rule == Rule::pattern {
            render_pattern(text, c.inner[0])
        } else if c.inner[0].rule == Rule::var_ptn {
            Ok(span_chars(text, c.inner[0].span))
        } else {
            Err(ToStringError::UnExpectedRule(c.inner[0].rule))
        }
    } else if c.rule == Rule::type_expr {
        Ok(span_chars(text, c.span))
    } else {
        Err(ToStringError::UnExpectedRule(c.rule))
    }
}

/// The canonical texts of a run of curried arguments, the first error
/// aborting the run.
pub open spec fn render_args(text: Seq<u8>, items: Seq<CstView>) -> Result<
    Seq<Seq<char>>,
    ToStringError,
>
    decreases items.len(),
{
    if items.len() == 0 {
        Ok(Seq::empty())
    } else {
        match render_arg(text, items[0]) {
            Ok(s) => ok_concat_items(seq![s], render_args(text, items.drop_first())),
            Err(e) => Err(e),
        }
    }
}

/// The canonical text of a let binding: the keyword, the bound pattern,
/// the curried arguments separated by blanks, and the canonical body
/// form.  A run without both a pattern and a body misses a child.
pub open spec fn render_let_stmt(text: Seq<u8>, items: Seq<CstView>) -> Result<
    Seq<char>,
    ToStringError,
> {
    if items.len() < 2 {
        Err(ToStringError::NotFoundRule)
    } else {
        match render_pattern(text, items[0]) {
            Ok(p) => match render_args(text, items.subrange(1, items.len() - 1)) {
                Ok(args) => Ok(
                    "\nlet "@ + p + " "@ + join_with(args, " "@) + " = \"expr\""@,
                ),
                Err(e) => Err(e),
            },
            Err(e) => Err(e),
        }
    }
}

/// Renders one curried argument.
pub fn arg_to_string(cst: &Cst, text: &Vec<u8>) -> (r: Result<String, ToStringError>)
    requires
        cst_spans_valid(cst@, text@.len()),
    ensures
        result_matches(r, render_arg(text@, cst@)),
{
    proof {
        lemma_cst_views_index(cst.inner@);
    }
    if cst.rule == Rule::arg {
        if cst.inner.len() == 0 {
            return Err(ToStringError::NotFoundRule);
        }
        let head = &cst.inner[0];
        proof {
            assert(head@ == cst@.inner[0]);
            assert(cst_spans_valid(cst@.inner[0], text@.len()));
        }
        if head.rule == Rule::pattern {
            crate::pattern::to_string(head, text)
        } else if head.rule == Rule::var_ptn {
            Ok(get_text_from_span(text, head.span))
        } else {
            Err(ToStringError::UnExpectedRule(head.rule))
        }
    } else if cst.rule == Rule::type_expr {
        Ok(get_text_from_span(text, cst.span))
    } else {
        Err(ToStringError::UnExpectedRule(cst.rule))
    }
}

/// Renders a let binding from its ordered run of children: the bound
/// pattern, the curried arguments, and the bound expression last.
pub fn let_stmt_to_string(
    cst_lst: &[Cst],
    text: &Vec<u8>,
    all_comments_lst: &Vec<Span>,
    index: u64,
) -> (r: Result<String, ToStringError>)
    requires
        forall|k: int|
            0 <= k < cst_lst@.len() ==> cst_spans_valid(
                cst_view(#[trigger] cst_lst@[k]),
                text@.len(),
            ),
    ensures
        result_matches(r, render_let_stmt(text@, cst_views(cst_lst@))),
{
    let ghost vs = cst_views(cst_lst@);
    proof {
        lemma_cst_views_index(cst_lst@);
    }
    if cst_lst.len() < 2 {
        return Err(ToStringError::NotFoundRule);
    }
    let pat_cst = &cst_lst[0];
    proof {
        assert(pat_cst@ == vs[0]);
    }
    let pat_str = match crate::pattern::to_string(pat_cst, text) {
        Ok(s) => s,
        Err(e) => {
            return Err(e);
        },
    };
    let ghost sub = vs.subrange(1, vs.len() - 1);
    let mut acc: Vec<String> = Vec::new();
    let mut j: usize = 1;
    proof {
        assert(sub.skip(0) =~= sub);
        match render_args(text@, sub) {
            Ok(ss) => {
                assert(Seq::<Seq<char>>::empty() + ss =~= ss);
            },
            Err(_) => {},
        }
        assert(acc.deep_view() =~= Seq::<Seq<char>>::empty());
    }
    while j < cst_lst.len() - 1
        invariant
            1 <= j <= cst_lst@.len() - 1,
            cst_lst@.len() >= 2,
            vs == cst_views(cst_lst@),
            vs.len() == cst_lst@.len(),
            sub == vs.subrange(1, vs.len() - 1),
            render_pattern(text@, vs[0]) is Ok,
            forall|k: int| 0 <= k < vs.len() ==> #[trigger] vs[k] == cst_view(cst_lst@[k]),
            forall|k: int|
                0 <= k < cst_lst@.len() ==> cst_spans_valid(
                    cst_view(#[trigger] cst_lst@[k]),
                    text@.len(),
                ),
            render_args(text@, sub) == ok_concat_items(
                acc.deep_view(),
                render_args(text@, sub.skip(j - 1)),
            ),
        decreases cst_lst@.len() - 1 - j,
    {
        proof {
            assert(sub.skip(j - 1)[0] == sub[j - 1]);
            assert(sub[j - 1] == vs[j as int]);
            assert(sub.skip(j - 1).drop_first() =~= sub.skip(j as int));
        }
        let arg_cst = &cst_lst[j];
        proof {
            assert(arg_cst@ == vs[j as int]);
        }
        let piece = match arg_to_string(arg_cst, text) {
            Ok(s) => s,
            Err(e) => {
                return Err(e);
            },
        };
        let ghost old_acc = acc.deep_view();
        let ghost pv = piece@;
        acc.push(piece);
        proof {
            assert(acc.deep_view() =~~= old_acc.push(pv));
            assert(old_acc.push(pv) =~= old_acc + seq![pv]);
            match render_args(text@, sub.skip(j as int)) {
                Ok(rest) => {
                    assert((old_acc + seq![pv]) + rest =~= old_acc + (seq![pv] + rest));
                },
                Err(_) => {},
            }
        }
        j += 1;
    }
    proof {
        assert(sub.skip(sub.len() as int) =~= Seq::<CstView>::empty());
        assert(acc.deep_view() + Seq::<Seq<char>>::empty() =~= acc.deep_view());
    }
    let arg_str = join_strings(&acc, " ");
    let mut out = String::new();
    out.append("\nlet ");
    out.append(pat_str.as_str());
    out.append(" ");
    out.append(arg_str.as_str());
    out.append(" = \"expr\"");
    Ok(out)
}

} // verus!
