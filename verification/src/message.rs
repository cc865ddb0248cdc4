//! The parse-failure message.
//!
//! When the external parser rejects a file it reports a position and the
//! set of tokens it expected there; this module builds the one
//! human-readable message the tool shows for that, digit by digit.

use vstd::prelude::*;
use crate::comments::join_with;

verus! {

/// The character of one decimal digit.
pub open spec fn digit_char(d: nat) -> char {
    if d == 0 {
        '0'
    } else if d == 1 {
        '1'
    } else if d == 2 {
        '2'
    } else if d == 3 {
        '3'
    } else if d == 4 {
        '4'
    } else if d == 5 {
        '5'
    } else if d == 6 {
        '6'
    } else if d == 7 {
        '7'
    } else if d == 8 {
        '8'
    } else {
        '9'
    }
}

/// The decimal notation of a number, most significant digit first.
pub open spec fn dec_chars(n: nat) -> Seq<char>
    decreases n,
{
    if n < 10 {
        seq![digit_char(n)]
    } else {
        dec_chars(n / 10).push(digit_char(n % 10))
    }
}

/// Appends the character of one decimal digit.
fn append_digit(s: &mut String, d: usize)
    requires
        d < 10,
    ensures
        final(s)@ == old(s)@ + seq![digit_char(d as nat)],
{
    if d == 0 {
        s.append("0");
        proof {
            reveal_strlit("0");
            assert(s@ =~= old(s)@ + seq![digit_char(d as nat)]);
        }
    } else if d == 1 {
        s.append("1");
        proof {
            reveal_strlit("1");
            assert(s@ =~= old(s)@ + seq![digit_char(d as nat)]);
        }
    } else if d == 2 {
        s.append("2");
        proof {
            reveal_strlit("2");
            assert(s@ =~= old(s)@ + seq![digit_char(d as nat)]);
        }
    } else if d == 3 {
        s.append("3");
        proof {
            reveal_strlit("3");
            assert(s@ =~= old(s)@ + seq![digit_char(d as nat)]);
        }
    } else if d == 4 {
        s.append("4");
        proof {
            reveal_strlit("4");
            assert(s@ =~= old(s)@ + seq![digit_char(d as nat)]);
        }
    } else if d == 5 {
        s.append("5");
        proof {
            reveal_strlit("5");
            assert(s@ =~= old(s)@ + seq![digit_char(d as nat)]);
        }
    } else if d == 6 {
        s.append("6");
        proof {
            reveal_strlit("6");
            assert(s@ =~= old(s)@ + seq![digit_char(d as nat)]);
        }
    } else if d == 7 {
        s.append("7");
        proof {
            reveal_strlit("7");
            assert(s@ =~= old(s)@ + seq![digit_char(d as nat)]);
        }
    } else if d == 8 {
        s.append("8");
        proof {
            reveal_strlit("8");
            assert(s@ =~= old(s)@ + seq![digit_char(d as nat)]);
        }
    } else {
        s.append("9");
        proof {
            reveal_strlit("9");
            assert(s@ =~= old(s)@ + seq![digit_char(d as nat)]);
        }
    }
}

/// Writes a number in decimal notation.
pub fn usize_to_string(n: usize) -> (r: String)
    ensures
        r@ == dec_chars(n as nat),
    decreases n,
{
    if n < 10 {
        let mut s = String::new();
        proof {
            assert(s@ =~= Seq::<char>::empty());
        }
        append_digit(&mut s, n);
        proof {
            assert(s@ =~= dec_chars(n as nat));
        }
        s
    } else {
        let mut s = usize_to_string(n / 10);
        append_digit(&mut s, n % 10);
        proof {
            assert(s@ =~= dec_chars(n as nat));
        }
        s
    }
}

/// The message shown when the parser rejects a file: the position it
/// reported, and the tokens it expected there, separated by bars.
pub open spec fn parse_error_text(line: nat, column: nat, expected: Seq<Seq<char>>) -> Seq<char> {
    "parse err:\n       line: "@ + dec_chars(line) + ", column: "@ + dec_chars(column)
        + "\n       expected of ["@ + join_with(expected, " | "@) + "]"@
}

/// Builds the parse-failure message from the reported position and the
/// expected tokens.
pub fn make_error_message(line: usize, column: usize, expected: &Vec<String>) -> (r: String)
    ensures
        r@ == parse_error_text(line as nat, column as nat, expected.deep_view()),
{
    let mut s = String::new();
    s.append("parse err:\n       line: ");
    let line_str = usize_to_string(line);
    s.append(line_str.as_str());
    s.append(", column: ");
    let column_str = usize_to_string(column);
    s.append(column_str.as_str());
    s.append("\n       expected of [");
    let joined = crate::pattern::join_strings(expected, " | ");
    s.append(joined.as_str());
    s.append("]");
    s
}

} // verus!
