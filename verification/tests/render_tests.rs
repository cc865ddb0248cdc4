use satysfifmt::cst::Cst;
use satysfifmt::cst::Rule;
use satysfifmt::cst::Span;
use satysfifmt::cst2str::ToStringError;
use satysfifmt::cst2str::cst_to_string;
use satysfifmt::cst2str::separate_comments_top_level;
use satysfifmt::make_comment_lst;
use satysfifmt::make_comments;
use satysfifmt::message::make_error_message;
use satysfifmt::message::usize_to_string;

fn flags_for(text: &str, comment_offsets: &[usize]) -> Vec<(usize, bool)> {
    text.char_indices().map(|(i, _)| (i, comment_offsets.contains(&i))).collect()
}

#[test]
fn make_comments_empty_group_renders_nothing() {
    assert_eq!(make_comments(&vec![]), "");
}

#[test]
fn make_comments_renders_each_text_on_its_own_line() {
    let comments = vec![" a".to_string(), " b".to_string()];
    assert_eq!(make_comments(&comments), "\n% a\n% b\n");
}

#[test]
fn make_comment_lst_finds_maximal_runs() {
    // "x% a\ny" with comment characters at offsets 2..=4
    let text = "x% a\ny";
    let flags = flags_for(text, &[2, 3, 4]);
    let spans = make_comment_lst(&flags, text.len());
    assert_eq!(spans, vec![Span { start: 2, end: 4 }]);
}

#[test]
fn make_comment_lst_keeps_trailing_unterminated_comment() {
    // "x\n% c" ends inside a comment: the final run must not be lost.
    let text = "x\n% c";
    let flags = flags_for(text, &[3, 4]);
    let spans = make_comment_lst(&flags, text.len());
    assert_eq!(spans, vec![Span { start: 3, end: 5 }]);
}

#[test]
fn make_comment_lst_empty_text() {
    let spans = make_comment_lst(&vec![], 0);
    assert_eq!(spans, vec![]);
}

#[test]
fn comment_stays_above_its_require_line() {
    // "% a\n@require: foo\n@require: bar\n"
    let text = "% a\n@require: foo\n@require: bar\n";
    let bytes: Vec<u8> = text.as_bytes().to_vec();
    let flags = flags_for(text, &[1, 2, 3]);
    let comments = make_comment_lst(&flags, bytes.len());
    let cst = Cst::new(
        Rule::program_saty,
        (0, 32),
        vec![Cst::new(
            Rule::headers,
            (4, 32),
            vec![
                Cst::new(Rule::header_require, (4, 18), vec![Cst::new(Rule::pkgname, (14, 17), vec![])]),
                Cst::new(Rule::header_require, (18, 32), vec![Cst::new(Rule::pkgname, (28, 31), vec![])]),
            ],
        )],
    );
    let out = cst_to_string(&cst, 0, &bytes, &comments).unwrap();
    assert_eq!(out, "\n% a\n@require: foo\n@require: bar\n");
    // the comment is reproduced exactly once
    assert_eq!(out.matches("% a").count(), 1);
}

#[test]
fn comment_between_entries_attaches_to_the_following_line() {
    // "@require: foo\n% c\n@require: bar\n"
    let text = "@require: foo\n% c\n@require: bar\n";
    let bytes: Vec<u8> = text.as_bytes().to_vec();
    let flags = flags_for(text, &[15, 16, 17]);
    let comments = make_comment_lst(&flags, bytes.len());
    let cst = Cst::new(
        Rule::program_saty,
        (0, 32),
        vec![Cst::new(
            Rule::headers,
            (0, 32),
            vec![
                Cst::new(Rule::header_require, (0, 14), vec![Cst::new(Rule::pkgname, (10, 13), vec![])]),
                Cst::new(Rule::header_require, (18, 32), vec![Cst::new(Rule::pkgname, (28, 31), vec![])]),
            ],
        )],
    );
    let out = cst_to_string(&cst, 0, &bytes, &comments).unwrap();
    assert_eq!(out, "@require: foo\n\n% c\n@require: bar\n");
}

#[test]
fn trailing_comment_lands_at_end_of_output() {
    // "x\n% trailing\n" where x is the last top-level expression
    let text = "x\n% trailing\n";
    let bytes: Vec<u8> = text.as_bytes().to_vec();
    let offsets: Vec<usize> = (3..=12).collect();
    let flags = flags_for(text, &offsets);
    let comments = make_comment_lst(&flags, bytes.len());
    assert_eq!(comments, vec![Span { start: 3, end: 13 }]);
    let cst = Cst::new(
        Rule::program_saty,
        (0, 13),
        vec![Cst::new(Rule::expr, (0, 1), vec![])],
    );
    let out = cst_to_string(&cst, 0, &bytes, &comments).unwrap();
    assert_eq!(out, "\nexpr\n\n% trailing\n\n");
    assert!(out.trim_end_matches('\n').ends_with("% trailing"));
    assert_eq!(out.matches("% trailing").count(), 1);
}

#[test]
fn unknown_root_rule_is_fatal() {
    let bytes: Vec<u8> = Vec::new();
    let cst = Cst::new(Rule::expr, (0, 0), vec![]);
    let r = cst_to_string(&cst, 0, &bytes, &vec![]);
    assert_eq!(r, Err(ToStringError::UnExpectedRule(Rule::expr)));
}

#[test]
fn unknown_toplevel_child_rule_is_fatal() {
    let bytes: Vec<u8> = Vec::new();
    let cst = Cst::new(
        Rule::program_saty,
        (0, 0),
        vec![Cst::new(Rule::var, (0, 0), vec![])],
    );
    let r = cst_to_string(&cst, 0, &bytes, &vec![]);
    assert_eq!(r, Err(ToStringError::UnExpectedRule(Rule::var)));
}

#[test]
fn header_entry_without_package_name_is_fatal() {
    let bytes: Vec<u8> = Vec::new();
    let cst = Cst::new(
        Rule::program_saty,
        (0, 0),
        vec![Cst::new(
            Rule::headers,
            (0, 0),
            vec![Cst::new(Rule::header_require, (0, 0), vec![])],
        )],
    );
    let r = cst_to_string(&cst, 0, &bytes, &vec![]);
    assert_eq!(r, Err(ToStringError::NotFoundRule));
}

#[test]
fn stage_directive_is_copied_verbatim() {
    let text = "persistent";
    let bytes: Vec<u8> = text.as_bytes().to_vec();
    let cst = Cst::new(
        Rule::program_satyh,
        (0, 10),
        vec![Cst::new(Rule::stage, (0, 10), vec![])],
    );
    let out = cst_to_string(&cst, 0, &bytes, &vec![]).unwrap();
    assert_eq!(out, "@stage: persistent\n");
}

#[test]
fn satyh_preamble_has_no_in_keyword() {
    let bytes: Vec<u8> = Vec::new();
    let cst = Cst::new(
        Rule::program_satyh,
        (0, 0),
        vec![Cst::new(Rule::preamble, (0, 0), vec![])],
    );
    let out = cst_to_string(&cst, 0, &bytes, &vec![]).unwrap();
    assert_eq!(out, "\npreamble\n");
}

#[test]
fn toplevel_attacher_returns_trailing_comments() {
    // "y% t\nz": expression then a comment after it
    let text = "y% t\nz";
    let bytes: Vec<u8> = text.as_bytes().to_vec();
    let flags = flags_for(text, &[2, 3, 4]);
    let comments = make_comment_lst(&flags, bytes.len());
    let inner = vec![Cst::new(Rule::expr, (0, 1), vec![])];
    let (with_comments, trailing) =
        separate_comments_top_level(&bytes, &comments, &inner).unwrap();
    assert_eq!(with_comments.len(), 1);
    assert_eq!(with_comments[0].0, Vec::<String>::new());
    assert_eq!(trailing, vec![" t".to_string()]);
}

#[test]
fn error_messages_name_the_failure() {
    assert_eq!(ToStringError::NotFoundRule.message(), "not found rule");
    assert_eq!(ToStringError::UnExpectedRule(Rule::var).message(), "unexpected rule");
}

#[test]
fn numbers_render_in_decimal() {
    assert_eq!(usize_to_string(0), "0");
    assert_eq!(usize_to_string(7), "7");
    assert_eq!(usize_to_string(907), "907");
    assert_eq!(usize_to_string(120034), "120034");
}

#[test]
fn parse_error_message_names_position_and_tokens() {
    let expected = vec!["let".to_string(), "in".to_string()];
    assert_eq!(
        make_error_message(12, 3, &expected),
        "parse err:\n       line: 12, column: 3\n       expected of [let | in]"
    );
}

#[test]
fn parse_error_message_with_no_expected_tokens() {
    assert_eq!(
        make_error_message(1, 1, &vec![]),
        "parse err:\n       line: 1, column: 1\n       expected of []"
    );
}

#[test]
fn import_entry_renders_with_its_own_token() {
    let text = "@import: lib\n";
    let bytes: Vec<u8> = text.as_bytes().to_vec();
    let cst = Cst::new(
        Rule::program_satyh,
        (0, 13),
        vec![Cst::new(
            Rule::headers,
            (0, 13),
            vec![Cst::new(Rule::header_import, (0, 13), vec![Cst::new(Rule::pkgname, (9, 12), vec![])])],
        )],
    );
    let out = cst_to_string(&cst, 0, &bytes, &vec![]).unwrap();
    assert_eq!(out, "@import: lib\n");
}

#[test]
fn header_entry_with_wrong_child_is_fatal() {
    let bytes: Vec<u8> = Vec::new();
    let cst = Cst::new(
        Rule::program_saty,
        (0, 0),
        vec![Cst::new(
            Rule::headers,
            (0, 0),
            vec![Cst::new(Rule::header_require, (0, 0), vec![Cst::new(Rule::var, (0, 0), vec![])])],
        )],
    );
    let r = cst_to_string(&cst, 0, &bytes, &vec![]);
    assert_eq!(r, Err(ToStringError::UnExpectedRule(Rule::var)));
}
