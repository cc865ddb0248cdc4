use satysfifmt::cst::Cst;
use satysfifmt::cst::Rule;
use satysfifmt::cst2str::ToStringError;
use satysfifmt::pattern;
use satysfifmt::statement;

fn pat(inner: Vec<Cst>, range: (usize, usize)) -> Cst {
    Cst::new(Rule::pattern, range, inner)
}

fn as_pat_of(c: Cst, range: (usize, usize)) -> Cst {
    Cst::new(Rule::pat_as, range, vec![Cst::new(Rule::pat_cons, range, vec![c])])
}

#[test]
fn wildcard_pattern_renders_underscore() {
    let bytes: Vec<u8> = Vec::new();
    let cst = pat(vec![], (0, 1));
    assert_eq!(pattern::to_string(&cst, &bytes).unwrap(), "_");
}

#[test]
fn variable_pattern_renders_verbatim() {
    let bytes: Vec<u8> = "xyz".as_bytes().to_vec();
    let cst = pat(vec![Cst::new(Rule::var, (0, 3), vec![])], (0, 3));
    assert_eq!(pattern::to_string(&cst, &bytes).unwrap(), "xyz");
}

#[test]
fn unit_constant_renders_fixed_token() {
    let bytes: Vec<u8> = "()".as_bytes().to_vec();
    let cst = pat(vec![Cst::new(Rule::const_unit, (0, 2), vec![])], (0, 2));
    assert_eq!(pattern::to_string(&cst, &bytes).unwrap(), "()");
}

#[test]
fn integer_constant_renders_verbatim() {
    let bytes: Vec<u8> = "42".as_bytes().to_vec();
    let cst = pat(vec![Cst::new(Rule::const_int, (0, 2), vec![])], (0, 2));
    assert_eq!(pattern::to_string(&cst, &bytes).unwrap(), "42");
}

#[test]
fn tuple_pattern_recurses_into_sub_patterns() {
    // "(a, 1)"
    let bytes: Vec<u8> = "(a, 1)".as_bytes().to_vec();
    let a = pat(vec![Cst::new(Rule::var, (1, 2), vec![])], (1, 2));
    let one = pat(vec![Cst::new(Rule::const_int, (4, 5), vec![])], (4, 5));
    let tuple = Cst::new(
        Rule::pat_tuple,
        (0, 6),
        vec![as_pat_of(a, (1, 2)), as_pat_of(one, (4, 5))],
    );
    let cst = pat(vec![tuple], (0, 6));
    assert_eq!(pattern::to_string(&cst, &bytes).unwrap(), "(a, 1)");
}

#[test]
fn list_pattern_recurses_into_sub_patterns() {
    // "[a; b]"
    let bytes: Vec<u8> = "[a; b]".as_bytes().to_vec();
    let a = pat(vec![Cst::new(Rule::var, (1, 2), vec![])], (1, 2));
    let b = pat(vec![Cst::new(Rule::var, (4, 5), vec![])], (4, 5));
    let list = Cst::new(
        Rule::pat_list,
        (0, 6),
        vec![as_pat_of(a, (1, 2)), as_pat_of(b, (4, 5))],
    );
    let cst = pat(vec![list], (0, 6));
    assert_eq!(pattern::to_string(&cst, &bytes).unwrap(), "[a; b]");
}

#[test]
fn empty_list_pattern_renders_brackets() {
    let bytes: Vec<u8> = "[]".as_bytes().to_vec();
    let list = Cst::new(Rule::pat_list, (0, 2), vec![]);
    let cst = pat(vec![list], (0, 2));
    assert_eq!(pattern::to_string(&cst, &bytes).unwrap(), "[]");
}

#[test]
fn as_pattern_renders_alias() {
    // "x as y"
    let bytes: Vec<u8> = "x as y".as_bytes().to_vec();
    let x = pat(vec![Cst::new(Rule::var, (0, 1), vec![])], (0, 1));
    let as_pat = Cst::new(
        Rule::pat_as,
        (0, 6),
        vec![
            Cst::new(Rule::pat_cons, (0, 1), vec![x]),
            Cst::new(Rule::var, (5, 6), vec![]),
        ],
    );
    let cst = pat(vec![as_pat], (0, 6));
    assert_eq!(pattern::to_string(&cst, &bytes).unwrap(), "x as y");
}

#[test]
fn unsupported_pattern_kind_is_fatal() {
    let bytes: Vec<u8> = "+".as_bytes().to_vec();
    let cst = pat(vec![Cst::new(Rule::bin_operator, (0, 1), vec![])], (0, 1));
    assert_eq!(
        pattern::to_string(&cst, &bytes),
        Err(ToStringError::UnExpectedRule(Rule::bin_operator))
    );
}

#[test]
fn let_stmt_composes_pattern_arguments_and_body() {
    // children of "let f x = ..." : pattern f, arg x, expr
    let bytes: Vec<u8> = "let f x = 1".as_bytes().to_vec();
    let f = pat(vec![Cst::new(Rule::var, (4, 5), vec![])], (4, 5));
    let x = pat(vec![Cst::new(Rule::var, (6, 7), vec![])], (6, 7));
    let arg = Cst::new(Rule::arg, (6, 7), vec![x]);
    let expr = Cst::new(Rule::expr, (10, 11), vec![]);
    let lst = vec![f, arg, expr];
    let out = statement::let_stmt_to_string(&lst, &bytes, &vec![], 0).unwrap();
    assert_eq!(out, "\nlet f x = \"expr\"");
}

#[test]
fn let_stmt_with_type_annotation_argument() {
    // children: pattern f, type_expr int, expr
    let bytes: Vec<u8> = "let f : int = 1".as_bytes().to_vec();
    let f = pat(vec![Cst::new(Rule::var, (4, 5), vec![])], (4, 5));
    let ann = Cst::new(Rule::type_expr, (8, 11), vec![]);
    let expr = Cst::new(Rule::expr, (14, 15), vec![]);
    let lst = vec![f, ann, expr];
    let out = statement::let_stmt_to_string(&lst, &bytes, &vec![], 0).unwrap();
    assert_eq!(out, "\nlet f int = \"expr\"");
}

#[test]
fn let_stmt_without_body_misses_a_child() {
    let bytes: Vec<u8> = Vec::new();
    let f = pat(vec![], (0, 0));
    let lst = vec![f];
    assert_eq!(
        statement::let_stmt_to_string(&lst, &bytes, &vec![], 0),
        Err(ToStringError::NotFoundRule)
    );
}

#[test]
fn cons_pattern_renders_head_and_tail() {
    // "a :: b"
    let bytes: Vec<u8> = "a :: b".as_bytes().to_vec();
    let a = pat(vec![Cst::new(Rule::var, (0, 1), vec![])], (0, 1));
    let b = pat(vec![Cst::new(Rule::var, (5, 6), vec![])], (5, 6));
    let tail = Cst::new(Rule::pat_as, (5, 6), vec![Cst::new(Rule::pat_cons, (5, 6), vec![b])]);
    let cons = Cst::new(Rule::pat_cons, (0, 6), vec![a, tail]);
    let as_pat = Cst::new(Rule::pat_as, (0, 6), vec![cons]);
    let cst = pat(vec![as_pat], (0, 6));
    assert_eq!(pattern::to_string(&cst, &bytes).unwrap(), "a :: b");
}

#[test]
fn variant_pattern_renders_name_and_argument() {
    // "Some x"
    let bytes: Vec<u8> = "Some x".as_bytes().to_vec();
    let name = Cst::new(Rule::variant_name, (0, 4), vec![]);
    let x = pat(vec![Cst::new(Rule::var, (5, 6), vec![])], (5, 6));
    let variant = Cst::new(Rule::pat_variant, (0, 6), vec![name, x]);
    let cons = Cst::new(Rule::pat_cons, (0, 6), vec![variant]);
    let as_pat = Cst::new(Rule::pat_as, (0, 6), vec![cons]);
    let cst = pat(vec![as_pat], (0, 6));
    assert_eq!(pattern::to_string(&cst, &bytes).unwrap(), "Some x");
}
