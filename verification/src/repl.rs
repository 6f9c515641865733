//! The REPL's reading of a line of code: a line that begins with `{` and does not end with
//! `;` is an object literal, so it is wrapped in parentheses to be evaluated as an
//! expression rather than run as a block.

use vstd::prelude::*;
use vstd::string::{StrSliceExecFns, StringExecFns};

verus! {

/// Whether `c` is white space, as Unicode's `White_Space` property (which `char::is_whitespace`
/// and `str::trim` follow) has it.
pub open spec fn spec_is_whitespace(c: char) -> bool {
    ||| ('\u{9}' <= c && c <= '\u{d}')
    ||| c == ' '
    ||| c == '\u{85}'
    ||| c == '\u{a0}'
    ||| c == '\u{1680}'
    ||| ('\u{2000}' <= c && c <= '\u{200a}')
    ||| c == '\u{2028}'
    ||| c == '\u{2029}'
    ||| c == '\u{202f}'
    ||| c == '\u{205f}'
    ||| c == '\u{3000}'
}

/// Whether `c` is white space (see `spec_is_whitespace`).
fn is_whitespace(c: char) -> (r: bool)
    ensures
        r == spec_is_whitespace(c),
{
    ('\u{9}' <= c && c <= '\u{d}') || c == ' ' || c == '\u{85}' || c == '\u{a0}' || c == '\u{1680}'
        || ('\u{2000}' <= c && c <= '\u{200a}') || c == '\u{2028}' || c == '\u{2029}' || c == '\u{202f}'
        || c == '\u{205f}' || c == '\u{3000}'
}

/// Whether the code, without the white space at its start, begins with `{`.
pub open spec fn spec_opens_block(code: Seq<char>) -> bool {
    exists|i: int| 0 <= i < code.len() && code[i] == '{' && forall|j: int| 0 <= j < i ==> spec_is_whitespace(#[trigger] code[j])
}

/// Whether the code, without the white space at its end, ends with `;`.
pub open spec fn spec_closes_statement(code: Seq<char>) -> bool {
    exists|i: int| 0 <= i < code.len() && code[i] == ';' && forall|j: int| i < j < code.len() ==> spec_is_whitespace(#[trigger] code[j])
}

/// The expression that the REPL evaluates for `code`: the code in parentheses when it begins
/// with `{` and does not end with `;` (white space aside), and the code itself otherwise.
pub open spec fn spec_repl_expression(code: Seq<char>) -> Seq<char> {
    if spec_opens_block(code) && !spec_closes_statement(code) {
        seq!['('] + code + seq![')']
    } else {
        code
    }
}

/// Whether the code, white space aside, begins with `{` (see `spec_opens_block`).
fn opens_block(code: &str) -> (r: bool)
    ensures
        r == spec_opens_block(code@),
{
    let n = code.unicode_len();
    let mut i: usize = 0;
    while i < n
        invariant
            n == code@.len(),
            i <= n,
            forall|j: int| 0 <= j < i ==> spec_is_whitespace(#[trigger] code@[j]),
        decreases n - i,
    {
        let c = code.get_char(i);
        if !is_whitespace(c) {
            proof {
                if spec_opens_block(code@) {
                    let k = choose|k: int| 0 <= k < code@.len() && code@[k] == '{' && forall|j: int| 0 <= j < k ==> spec_is_whitespace(#[trigger] code@[j]);
                    if k > i {
                        assert(spec_is_whitespace(code@[i as int]));
                    }
                    if k < i {
                        assert(spec_is_whitespace(code@[k]));
                        assert(!spec_is_whitespace('{'));
                    }
                }
            }
            return c == '{';
        }
        i = i + 1;
    }
    proof {
        if spec_opens_block(code@) {
            let k = choose|k: int| 0 <= k < code@.len() && code@[k] == '{' && forall|j: int| 0 <= j < k ==> spec_is_whitespace(#[trigger] code@[j]);
            assert(spec_is_whitespace(code@[k]));
        }
    }
    false
}

/// Whether the code, white space aside, ends with `;` (see `spec_closes_statement`).
fn closes_statement(code: &str) -> (r: bool)
    ensures
        r == spec_closes_statement(code@),
{
    let n = code.unicode_len();
    let mut i: usize = n;
    while i > 0
        invariant
            n == code@.len(),
            i <= n,
            forall|j: int| i <= j < n ==> spec_is_whitespace(#[trigger] code@[j]),
        decreases i,
    {
        let c = code.get_char(i - 1);
        if !is_whitespace(c) {
            proof {
                if spec_closes_statement(code@) {
                    let k = choose|k: int| 0 <= k < code@.len() && code@[k] == ';' && forall|j: int| k < j < code@.len() ==> spec_is_whitespace(#[trigger] code@[j]);
                    if k < i - 1 {
                        assert(spec_is_whitespace(code@[i - 1]));
                    }
                    if k > i - 1 {
                        assert(spec_is_whitespace(code@[k]));
                        assert(!spec_is_whitespace(';'));
                    }
                }
            }
            return c == ';';
        }
        i = i - 1;
    }
    proof {
        if spec_closes_statement(code@) {
            let k = choose|k: int| 0 <= k < code@.len() && code@[k] == ';' && forall|j: int| k < j < code@.len() ==> spec_is_whitespace(#[trigger] code@[j]);
            assert(spec_is_whitespace(code@[k]));
        }
    }
    false
}

/// The expression that the REPL evaluates for `code` (see `spec_repl_expression`).
pub fn repl_expression(code: &str) -> (r: String)
    ensures
        r@ == spec_repl_expression(code@),
{
    if opens_block(code) && !closes_statement(code) {
        let r = "(".to_owned().concat(code).concat(")");
        proof {
            reveal_strlit("(");
            reveal_strlit(")");
            assert("("@ =~= seq!['(']);
            assert(")"@ =~= seq![')']);
        }
        r
    } else {
        code.to_owned()
    }
}

} // verus!
