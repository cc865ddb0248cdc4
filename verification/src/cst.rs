//! The concrete syntax tree that the formatter walks.
//!
//! A `Cst` node carries a grammar-rule tag, the byte span it covers in the
//! original text, and its ordered children.  Spans are half-open byte
//! intervals `[start, end)` into the UTF-8 encoded source text.  The tree is
//! produced by an external parser; this crate only reads it.

use vstd::prelude::*;

verus! {

/// A byte-offset interval into the source text, half-open: `[start, end)`.
#[derive(Debug, Clone, Copy, PartialEq, Eq, Hash, Structural)]
pub struct Span {
    pub start: usize,
    pub end: usize,
}

/// The closed set of grammar rules a tree node can be tagged with.
#[derive(Debug, Clone, Copy, PartialEq, Eq, Hash, Structural)]
#[allow(non_camel_case_types)]
pub enum Rule {
    misc,
    program_saty,
    program_satyh,
    preamble,
    stage,
    headers,
    header_require,
    header_import,
    pkgname,
    let_stmt,
    let_rec_stmt,
    let_rec_inner,
    let_rec_matcharm,
    let_inline_stmt_ctx,
    let_inline_stmt_noctx,
    let_block_stmt_ctx,
    let_block_stmt_noctx,
    let_math_stmt,
    let_mutable_stmt,
    type_stmt,
    type_inner,
    type_variant,
    module_stmt,
    open_stmt,
    arg,
    sig_stmt,
    struct_stmt,
    sig_type_stmt,
    sig_val_stmt,
    sig_direct_stmt,
    type_expr,
    type_optional,
    type_prod,
    type_inline_cmd,
    type_block_cmd,
    type_math_cmd,
    type_list_unit_optional,
    type_application,
    ty_name,
    type_record,
    type_record_unit,
    type_param,
    constraint,
    pat_as,
    pat_cons,
    pattern,
    pat_variant,
    pat_list,
    pat_tuple,
    expr,
    match_expr,
    match_arm,
    match_guard,
    bind_stmt,
    ctrl_while,
    ctrl_if,
    lambda,
    assignment,
    dyadic_expr,
    unary_operator_expr,
    unary_operator,
    application,
    application_args_normal,
    application_args_optional,
    command_application,
    variant_constructor,
    unary,
    unary_prefix,
    block_text,
    horizontal_text,
    math_text,
    list,
    record,
    record_unit,
    tuple,
    bin_operator,
    expr_with_mod,
    var,
    var_ptn,
    modvar,
    mod_cmd_name,
    module_name,
    variant_name,
    cmd_name_ptn,
    cmd_expr_arg,
    cmd_expr_option,
    cmd_text_arg,
    inline_cmd,
    inline_cmd_name,
    block_cmd,
    block_cmd_name,
    math_cmd,
    math_cmd_name,
    math_cmd_expr_arg,
    math_cmd_expr_option,
    horizontal_single,
    horizontal_list,
    horizontal_bullet_list,
    horizontal_bullet,
    horizontal_bullet_star,
    regular_text,
    horizontal_escaped_char,
    inline_text_embedding,
    vertical,
    block_text_embedding,
    const_unit,
    const_bool,
    const_int,
    const_float,
    const_length,
    const_string,
    math_single,
    math_list,
    math_token,
    math_sup,
    math_sub,
    math_unary,
    math_embedding,
    dummy_header,
    dummy_sig_stmt,
    dummy_stmt,
    dummy_inline_cmd_incomplete,
    dummy_block_cmd_incomplete,
    dummy_modvar_incomplete,
}

/// One node of the concrete syntax tree.
#[derive(Debug, PartialEq, Eq)]
pub struct Cst {
    pub rule: Rule,
    pub span: Span,
    pub inner: Vec<Cst>,
}

/// The mathematical shape of a `Cst`: the same tree with a `Seq` of children.
#[verifier::ext_equal]
pub struct CstView {
    pub rule: Rule,
    pub span: Span,
    pub inner: Seq<CstView>,
}

/// The views of a sequence of nodes, element by element.
pub open spec fn cst_views(s: Seq<Cst>) -> Seq<CstView>
    decreases s,
{
    if s.len() == 0 {
        Seq::empty()
    } else {
        seq![cst_view(s[0])] + cst_views(s.drop_first())
    }
}

/// The view of one node.
pub open spec fn cst_view(c: Cst) -> CstView
    decreases c,
{
    CstView { rule: c.rule, span: c.span, inner: cst_views(c.inner@) }
}

impl View for Cst {
    type V = CstView;

    open spec fn view(&self) -> CstView {
        cst_view(*self)
    }
}

pub proof fn lemma_cst_views_index(s: Seq<Cst>)
    ensures
        cst_views(s).len() == s.len(),
        forall|i: int| 0 <= i < s.len() ==> cst_views(s)[i] == cst_view(s[i]),
    decreases s,
{
    if s.len() > 0 {
        lemma_cst_views_index(s.drop_first());
    }
}

impl Cst {
    /// Builds a node from a rule tag, a `(start, end)` range and its children.
    pub fn new(rule: Rule, range: (usize, usize), inner: Vec<Cst>) -> (r: Cst)
        ensures
            r@ == (CstView { rule, span: Span { start: range.0, end: range.1 }, inner: cst_views(inner@) }),
    {
        let r = Cst { rule, span: Span { start: range.0, end: range.1 }, inner };
        proof {
            assert(r@ =~= CstView { rule, span: r.span, inner: cst_views(r.inner@) });
        }
        r
    }
}

impl Clone for Cst {
    fn clone(&self) -> (res: Self)
        ensures
            res@ == self@,
        decreases *self,
    {
        let mut inner: Vec<Cst> = Vec::new();
        let mut i: usize = 0;
        while i < self.inner.len()
            invariant
                i <= self.inner.len(),
                inner@.len() == i,
                forall|j: int| 0 <= j < i ==> cst_view(#[trigger] inner@[j]) == cst_view(
                    self.inner@[j],
                ),
            decreases self.inner.len() - i,
        {
            proof {
                assert(decreases_to!(*self => self.inner));
                assert(decreases_to!(self.inner => self.inner@[i as int]));
            }
            inner.push(self.inner[i].clone());
            i += 1;
        }
        proof {
            lemma_cst_views_index(inner@);
            lemma_cst_views_index(self.inner@);
            assert(cst_views(inner@) =~= cst_views(self.inner@));
        }
        let res = Cst { rule: self.rule, span: self.span, inner };
        proof {
            assert(res@ =~= self@);
        }
        res
    }
}

/// All spans of a tree lie inside a text of the given length, lower end first.
pub open spec fn cst_spans_valid(c: CstView, len: nat) -> bool
    decreases c,
{
    &&& c.span.start <= c.span.end <= len
    &&& forall|i: int| 0 <= i < c.inner.len() ==> cst_spans_valid(#[trigger] c.inner[i], len)
}

/// Every span of the list lies inside a text of the given length.
pub open spec fn spans_valid(spans: Seq<Span>, len: nat) -> bool {
    forall|i: int| 0 <= i < spans.len() ==> (#[trigger] spans[i]).start <= spans[i].end <= len
}

} // verus!
