//! The binding-pattern renderer.
//!
//! A pattern node either holds no child at all, which renders as the
//! wildcard token, or its first child names the pattern's shape: a bare
//! variable or a literal constant renders as its verbatim source text,
//! the unit constant as its fixed empty-tuple token, and list, tuple and
//! as-patterns render structurally, recursing into their sub-patterns.
//! A shape without a policy is a fatal error, never a silent default.

use vstd::prelude::*;
use crate::comments::join_with;
use crate::cst::Cst;
use crate::cst::CstView;
use crate::cst::Rule;
use crate::cst::cst_view;
use crate::cst::cst_spans_valid;
use crate::cst::lemma_cst_views_index;
use crate::cst2str::ToStringError;
use crate::cst2str::get_text_from_span;
use crate::cst2str::span_chars;

verus! {

/// Joins a renderable run of results, keeping the first error.
pub open spec fn ok_concat_items(p: Seq<Seq<char>>, r: Result<Seq<Seq<char>>, ToStringError>) -> Result<
    Seq<Seq<char>>,
    ToStringError,
> {
    match r {
        Ok(s) => Ok(p + s),
        Err(e) => Err(e),
    }
}

/// The canonical text of a pattern node: dispatch on its first child.
pub open spec fn render_pattern(text: Seq<u8>, c: CstView) -> Result<Seq<char>, ToStringError>
    decreases c,
{
    if c.inner.len() == 0 {
        Ok("_"@)
    } else {
        let h = c.inner[0];
        if h.rule == Rule::pat_list {
            match render_pat_items(text, h.inner) {
                Ok(parts) => Ok("["@ + join_with(parts, "; "@) + "]"@),
                Err(e) => Err(e),
            }
        } else if h.rule == Rule::pat_tuple {
            match render_pat_items(text, h.inner) {
                Ok(parts) => Ok("("@ + join_with(parts, ", "@) + ")"@),
                Err(e) => Err(e),
            }
        } else if h.rule == Rule::pat_as {
            render_pat_as(text, h)
        } else if h.rule == Rule::var {
            Ok(span_chars(text, h.span))
        } else if h.rule == Rule::const_unit {
            Ok("()"@)
        } else if h.rule == Rule::const_bool || h.rule == Rule::const_int || h.rule
            == Rule::const_float || h.rule == Rule::const_length || h.rule == Rule::const_string {
            Ok(span_chars(text, h.span))
        } else {
            Err(ToStringError::UnExpectedRule(h.rule))
        }
    }
}

/// The canonical text of an as-pattern: its cons-pattern, then, when an
/// alias is present, the binder keyword and the alias name.
pub open spec fn render_pat_as(text: Seq<u8>, c: CstView) -> Result<Seq<char>, ToStringError>
    decreases c,
{
    if c.inner.len() == 0 {
        Err(ToStringError::NotFoundRule)
    } else if c.inner[0].rule != Rule::pat_cons {
        Err(ToStringError::UnExpectedRule(c.inner[0].rule))
    } else {
        match render_pat_cons(text, c.inner[0]) {
            Ok(s) => if c.inner.len() >= 2 {
                if c.inner[1].rule == Rule::var {
                    Ok(s + " as "@ + span_chars(text, c.inner[1].span))
                } else {
                    Err(ToStringError::UnExpectedRule(c.inner[1].rule))
                }
            } else {
                Ok(s)
            },
            Err(e) => Err(e),
        }
    }
}

/// The canonical text of a cons-pattern: a variant pattern, a plain
/// sub-pattern, or a head pattern consed onto a tail as-pattern.
pub open spec fn render_pat_cons(text: Seq<u8>, c: CstView) -> Result<Seq<char>, ToStringError>
    decreases c,
{
    if c.inner.len() == 0 {
        Err(ToStringError::NotFoundRule)
    } else if c.inner[0].rule == Rule::pat_variant {
        render_pat_variant(text, c.inner[0])
    } else if c.inner[0].rule != Rule::pattern {
        Err(ToStringError::UnExpectedRule(c.inner[0].rule))
    } else if c.inner.len() >= 2 {
        if c.inner[1].rule == Rule::pat_as {
            match render_pattern(text, c.inner[0]) {
                Ok(a) => match render_pat_as(text, c.inner[1]) {
                    Ok(b) => Ok(a + " :: "@ + b),
                    Err(e) => Err(e),
                },
                Err(e) => Err(e),
            }
        } else {
            Err(ToStringError::UnExpectedRule(c.inner[1].rule))
        }
    } else {
        render_pattern(text, c.inner[0])
    }
}

/// The canonical text of a variant pattern: the constructor's name, then
/// its argument pattern when it has one.
pub open spec fn render_pat_variant(text: Seq<u8>, c: CstView) -> Result<Seq<char>, ToStringError>
    decreases c,
{
    if c.inner.len() == 0 {
        Err(ToStringError::NotFoundRule)
    } else if c.inner[0].rule != Rule::variant_name {
        Err(ToStringError::UnExpectedRule(c.inner[0].rule))
    } else if c.inner.len() >= 2 {
        match render_pattern(text, c.inner[1]) {
            Ok(p) => Ok(span_chars(text, c.inner[0].span) + " "@ + p),
            Err(e) => Err(e),
        }
    } else {
        Ok(span_chars(text, c.inner[0].span))
    }
}

/// The canonical texts of a run of as-patterns, the first error aborting
/// the run.
pub open spec fn render_pat_items(text: Seq<u8>, items: Seq<CstView>) -> Result<
    Seq<Seq<char>>,
    ToStringError,
>
    decreases items,
{
    if items.len() == 0 {
        Ok(Seq::empty())
    } else {
        match render_pat_as(text, items[0]) {
            Ok(s) => ok_concat_items(seq![s], render_pat_items(text, items.drop_first())),
            Err(e) => Err(e),
        }
    }
}

/// Joins already-rendered parts with a separator.
pub fn join_strings(parts: &Vec<String>, sep: &str) -> (r: String)
    ensures
        r@ == join_with(parts.deep_view(), sep@),
{
    let mut s = String::new();
    if parts.len() == 0 {
        return s;
    }
    s.append(parts[0].as_str());
    let mut i: usize = 1;
    while i < parts.len()
        invariant
            1 <= i <= parts@.len(),
            parts@.len() >= 1,
            s@ == join_with(parts.deep_view().take(i as int), sep@),
        decreases parts@.len() - i,
    {
        proof {
            assert(parts.deep_view().take(i as int + 1) =~= parts.deep_view().take(i as int).push(
                parts.deep_view()[i as int],
            ));
            crate::comments::lemma_join_with_push(
                parts.deep_view().take(i as int),
                sep@,
                parts.deep_view()[i as int],
            );
        }
        s.append(sep);
        s.append(parts[i].as_str());
        i += 1;
    }
    proof {
        assert(parts.deep_view().take(parts@.len() as int) =~= parts.deep_view());
    }
    s
}

/// Renders the as-patterns that stand as the children of a list or tuple
/// pattern, one rendered text per child.
fn pat_items_to_strings(items: &Vec<Cst>, text: &Vec<u8>) -> (r: Result<Vec<String>, ToStringError>)
    requires
        forall|k: int|
            0 <= k < items@.len() ==> cst_spans_valid(cst_view(#[trigger] items@[k]), text@.len()),
    ensures
        match render_pat_items(text@, crate::cst::cst_views(items@)) {
            Ok(ss) => r is Ok && r->Ok_0.deep_view() == ss,
            Err(e) => r is Err && r->Err_0 == e,
        },
    decreases items@,
{
    let ghost vs = crate::cst::cst_views(items@);
    proof {
        lemma_cst_views_index(items@);
    }
    let mut acc: Vec<String> = Vec::new();
    let mut i: usize = 0;
    proof {
        assert(vs.skip(0) =~= vs);
        match render_pat_items(text@, vs) {
            Ok(ss) => {
                assert(Seq::<Seq<char>>::empty() + ss =~= ss);
            },
            Err(_) => {},
        }
        assert(acc.deep_view() =~= Seq::<Seq<char>>::empty());
    }
    while i < items.len()
        invariant
            i <= items@.len(),
            vs == crate::cst::cst_views(items@),
            vs.len() == items@.len(),
            forall|k: int| 0 <= k < vs.len() ==> #[trigger] vs[k] == cst_view(items@[k]),
            forall|k: int|
                0 <= k < items@.len() ==> cst_spans_valid(
                    cst_view(#[trigger] items@[k]),
                    text@.len(),
                ),
            render_pat_items(text@, vs) == ok_concat_items(
                acc.deep_view(),
                render_pat_items(text@, vs.skip(i as int)),
            ),
        decreases items@.len() - i,
    {
        proof {
            assert(vs.skip(i as int)[0] == vs[i as int]);
            assert(vs.skip(i as int).drop_first() =~= vs.skip(i as int + 1));
            assert(decreases_to!(items@ => items@[i as int]));
        }
        let piece = match pat_as_to_string(&items[i], text) {
            Ok(s) => s,
            Err(e) => {
                return Err(e);
            },
        };
        let ghost old_acc = acc.deep_view();
        let ghost pv = piece@;
        acc.push(piece);
        proof {
            assert(acc.deep_view() =~~= old_acc.push(pv));
            assert(old_acc.push(pv) =~= old_acc + seq![pv]);
            match render_pat_items(text@, vs.skip(i as int + 1)) {
                Ok(rest) => {
                    assert((old_acc + seq![pv]) + rest =~= old_acc + (seq![pv] + rest));
                },
                Err(_) => {},
            }
        }
        i += 1;
    }
    proof {
        assert(vs.skip(vs.len() as int) =~= Seq::<CstView>::empty());
        assert(acc.deep_view() + Seq::<Seq<char>>::empty() =~= acc.deep_view());
    }
    Ok(acc)
}

/// Renders one as-pattern.
fn pat_as_to_string(cst: &Cst, text: &Vec<u8>) -> (r: Result<String, ToStringError>)
    requires
        cst_spans_valid(cst@, text@.len()),
    ensures
        crate::cst2str::result_matches(r, render_pat_as(text@, cst@)),
    decreases *cst,
{
    proof {
        lemma_cst_views_index(cst.inner@);
    }
    if cst.inner.len() == 0 {
        return Err(ToStringError::NotFoundRule);
    }
    let head = &cst.inner[0];
    proof {
        assert(head@ == cst@.inner[0]);
        assert(cst_spans_valid(cst@.inner[0], text@.len()));
        assert(decreases_to!(*cst => cst.inner));
        assert(decreases_to!(cst.inner => cst.inner@[0]));
    }
    if !(head.rule == Rule::pat_cons) {
        return Err(ToStringError::UnExpectedRule(head.rule));
    }
    let mut s = match pat_cons_to_string(head, text) {
        Ok(s) => s,
        Err(e) => {
            return Err(e);
        },
    };
    if cst.inner.len() >= 2 {
        let alias = &cst.inner[1];
        proof {
            assert(alias@ == cst@.inner[1]);
            assert(cst_spans_valid(cst@.inner[1], text@.len()));
        }
        if !(alias.rule == Rule::var) {
            return Err(ToStringError::UnExpectedRule(alias.rule));
        }
        s.append(" as ");
        let name = get_text_from_span(text, alias.span);
        s.append(name.as_str());
    }
    Ok(s)
}

/// Renders one cons-pattern.
fn pat_cons_to_string(cst: &Cst, text: &Vec<u8>) -> (r: Result<String, ToStringError>)
    requires
        cst_spans_valid(cst@, text@.len()),
    ensures
        crate::cst2str::result_matches(r, render_pat_cons(text@, cst@)),
    decreases *cst,
{
    proof {
        lemma_cst_views_index(cst.inner@);
    }
    if cst.inner.len() == 0 {
        return Err(ToStringError::NotFoundRule);
    }
    let head = &cst.inner[0];
    proof {
        assert(head@ == cst@.inner[0]);
        assert(cst_spans_valid(cst@.inner[0], text@.len()));
        assert(decreases_to!(*cst => cst.inner));
        assert(decreases_to!(cst.inner => cst.inner@[0]));
    }
    if head.rule == Rule::pat_variant {
        return pat_variant_to_string(head, text);
    }
    if !(head.rule == Rule::pattern) {
        return Err(ToStringError::UnExpectedRule(head.rule));
    }
    if cst.inner.len() >= 2 {
        let tail = &cst.inner[1];
        proof {
            assert(tail@ == cst@.inner[1]);
            assert(cst_spans_valid(cst@.inner[1], text@.len()));
            assert(decreases_to!(cst.inner => cst.inner@[1]));
        }
        if !(tail.rule == Rule::pat_as) {
            return Err(ToStringError::UnExpectedRule(tail.rule));
        }
        let mut a = match to_string(head, text) {
            Ok(s) => s,
            Err(e) => {
                return Err(e);
            },
        };
        let b = match pat_as_to_string(tail, text) {
            Ok(s) => s,
            Err(e) => {
                return Err(e);
            },
        };
        a.append(" :: ");
        a.append(b.as_str());
        Ok(a)
    } else {
        to_string(head, text)
    }
}

/// Renders one variant pattern.
fn pat_variant_to_string(cst: &Cst, text: &Vec<u8>) -> (r: Result<String, ToStringError>)
    requires
        cst_spans_valid(cst@, text@.len()),
    ensures
        crate::cst2str::result_matches(r, render_pat_variant(text@, cst@)),
    decreases *cst,
{
    proof {
        lemma_cst_views_index(cst.inner@);
    }
    if cst.inner.len() == 0 {
        return Err(ToStringError::NotFoundRule);
    }
    let head = &cst.inner[0];
    proof {
        assert(head@ == cst@.inner[0]);
        assert(cst_spans_valid(cst@.inner[0], text@.len()));
    }
    if !(head.rule == Rule::variant_name) {
        return Err(ToStringError::UnExpectedRule(head.rule));
    }
    let mut s = get_text_from_span(text, head.span);
    if cst.inner.len() >= 2 {
        let arg = &cst.inner[1];
        proof {
            assert(arg@ == cst@.inner[1]);
            assert(cst_spans_valid(cst@.inner[1], text@.len()));
            assert(decreases_to!(*cst => cst.inner));
            assert(decreases_to!(cst.inner => cst.inner@[1]));
        }
        let p = match to_string(arg, text) {
            Ok(s) => s,
            Err(e) => {
                return Err(e);
            },
        };
        s.append(" ");
        s.append(p.as_str());
    }
    Ok(s)
}

/// Renders a pattern node to its canonical text.
pub fn to_string(cst: &Cst, text: &Vec<u8>) -> (r: Result<String, ToStringError>)
    requires
        cst_spans_valid(cst@, text@.len()),
    ensures
        crate::cst2str::result_matches(r, render_pattern(text@, cst@)),
    decreases *cst,
{
    proof {
        lemma_cst_views_index(cst.inner@);
    }
    if cst.inner.len() == 0 {
        return Ok("_".to_owned());
    }
    let head = &cst.inner[0];
    proof {
        assert(head@ == cst@.inner[0]);
        assert(cst_spans_valid(cst@.inner[0], text@.len()));
        assert(decreases_to!(*cst => cst.inner));
        assert(decreases_to!(cst.inner => cst.inner@[0]));
    }
    if head.rule == Rule::pat_list || head.rule == Rule::pat_tuple {
        proof {
            lemma_cst_views_index(head.inner@);
            assert forall|k: int| 0 <= k < head.inner@.len() implies cst_spans_valid(
                cst_view(#[trigger] head.inner@[k]),
                text@.len(),
            ) by {
                assert(cst_spans_valid(head@.inner[k], text@.len()));
            }
            assert(decreases_to!(cst.inner@[0] => cst.inner@[0].inner));
        }
        let parts = match pat_items_to_strings(&head.inner, text) {
            Ok(p) => p,
            Err(e) => {
                return Err(e);
            },
        };
        let mut s = String::new();
        if head.rule == Rule::pat_list {
            s.append("[");
            let joined = join_strings(&parts, "; ");
            s.append(joined.as_str());
            s.append("]");
        } else {
            s.append("(");
            let joined = join_strings(&parts, ", ");
            s.append(joined.as_str());
            s.append(")");
        }
        Ok(s)
    } else if head.rule == Rule::pat_as {
        pat_as_to_string(head, text)
    } else if head.rule == Rule::var {
        Ok(get_text_from_span(text, head.span))
    } else if head.rule == Rule::const_unit {
        Ok("()".to_owned())
    } else if head.rule == Rule::const_bool || head.rule == Rule::const_int || head.rule
        == Rule::const_float || head.rule == Rule::const_length || head.rule
        == Rule::const_string {
        Ok(get_text_from_span(text, head.span))
    } else {
        Err(ToStringError::UnExpectedRule(head.rule))
    }
}

} // verus!
