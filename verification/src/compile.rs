//! The compiler front end.  The expression and statement compiler is yet to
//! come: so far compiling a source text scans it into its full token
//! sequence, one token per scanner call, ending with the end-of-file token.

use vstd::prelude::*;

use crate::scanner::ScanResult;
use crate::scanner::Scanner;
use crate::scanner::Token;
use crate::scanner::TokenType;
use crate::scanner::lemma_scan_token_progress;
use crate::scanner::spec_scan_token;

verus! {

/// The token sequence scanning a whole source from the state
/// `(source, current, line)` yields: one result per `scan_token` call, up to
/// and including the first end-of-file token.
pub open spec fn scan_all(source: Seq<u8>, current: int, line: int) -> Seq<ScanResult>
    decreases source.len() - current,
    when 0 <= current <= source.len()
    via scan_all_decreases
{
    let res = spec_scan_token(source, current, line);
    if res.kind == TokenType::Eof {
        seq![res]
    } else {
        seq![res] + scan_all(res.source, res.current, res.line)
    }
}

#[via_fn]
proof fn scan_all_decreases(source: Seq<u8>, current: int, line: int) {
    lemma_scan_token_progress(source, current, line);
}

/// Scans a source text into its token sequence: exactly the tokens of
/// [`scan_all`] from the start of the source on line 1, the last of them the
/// end-of-file token.
pub fn compile<'a>(source: &'a [u8]) -> (tokens: Vec<Token<'a>>)
    requires
        source@.len() + 1 < usize::MAX,
    ensures
        tokens@.len() == scan_all(source@, 0, 1).len(),
        forall|k: int|
            0 <= k < tokens@.len() ==> {
                let res = #[trigger] scan_all(source@, 0, 1)[k];
                &&& tokens@[k].kind == res.kind
                &&& tokens@[k].slice@ == res.slice
                &&& tokens@[k].line as int == res.line
            },
{
    let ghost all = scan_all(source@, 0, 1);
    let mut scanner = Scanner::new(source);
    let mut tokens: Vec<Token<'a>> = Vec::new();
    loop
        invariant_except_break
            scan_all(scanner.spec_source(), scanner.spec_current(), scanner.spec_line())
                == all.skip(tokens@.len() as int),
        invariant
            scanner.wf(),
            all == scan_all(source@, 0, 1),
            tokens@.len() <= all.len(),
            forall|k: int|
                0 <= k < tokens@.len() ==> {
                    let res = #[trigger] all[k];
                    &&& tokens@[k].kind == res.kind
                    &&& tokens@[k].slice@ == res.slice
                    &&& tokens@[k].line as int == res.line
                },
        ensures
            tokens@.len() == all.len(),
            forall|k: int|
                0 <= k < tokens@.len() ==> {
                    let res = #[trigger] all[k];
                    &&& tokens@[k].kind == res.kind
                    &&& tokens@[k].slice@ == res.slice
                    &&& tokens@[k].line as int == res.line
                },
        decreases scanner.spec_source().len() - scanner.spec_current(),
    {
        let ghost n = tokens@.len() as int;
        let ghost state_source = scanner.spec_source();
        let ghost state_current = scanner.spec_current();
        let ghost state_line = scanner.spec_line();
        proof {
            lemma_scan_token_progress(state_source, state_current, state_line);
        }
        let token = scanner.scan_token();
        let ghost res = spec_scan_token(state_source, state_current, state_line);
        proof {
            assert(scan_all(state_source, state_current, state_line) == all.skip(n));
            if res.kind == TokenType::Eof {
                assert(scan_all(state_source, state_current, state_line) == seq![res]);
            } else {
                assert(scan_all(state_source, state_current, state_line) == seq![res] + scan_all(
                    res.source,
                    res.current,
                    res.line,
                ));
            }
            assert(all.skip(n).len() >= 1);
            assert(all[n] == all.skip(n)[0]);
            assert(all[n] == res);
        }
        let is_eof = token.kind == TokenType::Eof;
        tokens.push(token);
        if is_eof {
            proof {
                assert(all.skip(n) == seq![res]);
                assert(all.len() == n + 1);
            }
            break ;
        }
        proof {
            assert(scan_all(res.source, res.current, res.line) =~= all.skip(n + 1)) by {
                assert(scan_all(state_source, state_current, state_line) == seq![res] + scan_all(
                    res.source,
                    res.current,
                    res.line,
                ));
                assert(forall|i: int|
                    0 <= i < scan_all(res.source, res.current, res.line).len()
                        ==> scan_all(res.source, res.current, res.line)[i] == all.skip(n)[i + 1]);
            }
        }
    }
    tokens
}

} // verus!
