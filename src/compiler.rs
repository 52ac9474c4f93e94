//! Front end of the compiler: the token stream of a source text.
use vstd::prelude::*;
use crate::scanner::{is_next_token, Scanner, Token, TokenType};

verus! {

/// Where scanning resumes after the first `k` tokens of `tokens`.
pub open spec fn resume_position(tokens: Seq<Token>, k: int) -> int {
    if k == 0 {
        0
    } else {
        tokens[k - 1].start + tokens[k - 1].length
    }
}

/// Scans `source` to its end and returns every token, the end-of-stream
/// token last. Each token is the one that scanning yields where the previous
/// one ended, so there are at most one more tokens than characters.
pub fn compile(source: &str) -> (r: Vec<Token>)
    requires
        source@.len() < usize::MAX,
    ensures
        1 <= r.len() <= source@.len() + 1,
        r@.last().ttype == TokenType::TokenEOF,
        forall|k: int| 0 <= k < r.len() - 1 ==> r@[k].ttype != TokenType::TokenEOF,
        forall|k: int|
            0 <= k < r.len() ==> is_next_token(source@, resume_position(r@, k), #[trigger] r@[k]),
        forall|k: int| 0 <= k < r.len() ==> #[trigger] r@[k].start + r@[k].length <= source@.len(),
{
    let mut scanner = Scanner::new(source);
    let mut tokens: Vec<Token> = Vec::new();
    let mut done = false;
    while !done
        invariant
            scanner.wf(),
            scanner.text() == source@,
            scanner.position() == resume_position(tokens@, tokens.len() as int),
            !done ==> tokens.len() <= scanner.position(),
            done ==> 1 <= tokens.len() <= source@.len() + 1,
            done ==> tokens@.last().ttype == TokenType::TokenEOF,
            forall|k: int|
                0 <= k < tokens.len() - (if done {
                    1int
                } else {
                    0int
                }) ==> tokens@[k].ttype != TokenType::TokenEOF,
            forall|k: int|
                0 <= k < tokens.len() ==> is_next_token(
                    source@,
                    resume_position(tokens@, k),
                    #[trigger] tokens@[k],
                ),
            forall|k: int|
                0 <= k < tokens.len() ==> #[trigger] tokens@[k].start + tokens@[k].length
                    <= source@.len(),
        decreases source@.len() - scanner.position() + if done {
            0int
        } else {
            1int
        },
    {
        let token = scanner.scan_token();
        done = token.ttype == TokenType::TokenEOF;
        let ghost before = tokens@;
        tokens.push(token);
        proof {
            assert forall|k: int| 0 <= k < tokens.len() implies resume_position(tokens@, k)
                == resume_position(before, k) || k == before.len() by {}
        }
    }
    tokens
}

} // verus!
