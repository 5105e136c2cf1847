//! The lexical scanner: turns ASCII source text into tokens, one call per
//! token.  It keeps no token storage of its own: each token borrows its text
//! from the source it was scanned from.

use vstd::prelude::*;
use vstd::string::StringSliceAdditionalSpecFns;

verus! {

/// Every kind of token the scanner can produce.
#[derive(Copy, Clone, Debug, PartialEq, Eq, Structural)]
pub enum TokenType {
    // Single-character tokens
    LeftParen,
    RightParen,
    LeftBrace,
    RightBrace,
    Comma,
    Dot,
    Minus,
    Plus,
    Semicolon,
    Slash,
    Star,
    // One or two character tokens
    Bang,
    BangEqual,
    Equal,
    EqualEqual,
    Greater,
    GreaterEqual,
    Less,
    LessEqual,
    // Literals
    Identifier,
    String,
    Number,
    // Keywords
    And,
    Class,
    Else,
    False,
    For,
    Fun,
    If,
    Nil,
    Or,
    Print,
    Return,
    Super,
    This,
    True,
    Var,
    While,
    Error,
    Eof,
}

/// Whitespace the scanner skips between tokens: space, carriage return, tab.
pub open spec fn is_ws(c: u8) -> bool {
    c == 32 || c == 13 || c == 9
}

/// An ASCII decimal digit.
pub open spec fn is_digit(c: u8) -> bool {
    48 <= c <= 57
}

/// A byte that can start an identifier: an ASCII letter or an underscore.
pub open spec fn is_alpha(c: u8) -> bool {
    (65 <= c <= 90) || (97 <= c <= 122) || c == 95
}

/// A byte that can continue an identifier.
pub open spec fn is_alnum(c: u8) -> bool {
    is_alpha(c) || is_digit(c)
}

/// Where skipping whitespace and line comments from position `i` ends, and
/// the line counter it leaves behind.  A `//` comment runs to the next
/// newline without consuming it; a newline advances the line counter.  The
/// `in_comment` flag carries the state between the two.
pub open spec fn skip_ws(s: Seq<u8>, i: int, line: int, in_comment: bool) -> (int, int)
    decreases s.len() - i, (if in_comment { 1int } else { 0int }),
{
    if !(0 <= i < s.len()) {
        (i, line)
    } else if in_comment {
        if s[i] == 10 {
            skip_ws(s, i, line, false)
        } else {
            skip_ws(s, i + 1, line, true)
        }
    } else {
        let c = s[i];
        if is_ws(c) {
            skip_ws(s, i + 1, line, false)
        } else if c == 10 {
            skip_ws(s, i + 1, line + 1, false)
        } else if c == 47 && i + 1 < s.len() && s[i + 1] == 47 {
            skip_ws(s, i + 2, line, true)
        } else {
            (i, line)
        }
    }
}

/// The first position at or after `i` that cannot continue an identifier.
pub open spec fn ident_end(s: Seq<u8>, i: int) -> int
    decreases s.len() - i,
{
    if 0 <= i < s.len() && is_alnum(s[i]) {
        ident_end(s, i + 1)
    } else {
        i
    }
}

/// The first position at or after `i` that is not a digit.
pub open spec fn digits_end(s: Seq<u8>, i: int) -> int
    decreases s.len() - i,
{
    if 0 <= i < s.len() && is_digit(s[i]) {
        digits_end(s, i + 1)
    } else {
        i
    }
}

/// Where a number token whose first digit sits before `i` ends: the digit
/// run, then a fractional part only when a dot is followed by a digit.
pub open spec fn number_end(s: Seq<u8>, i: int) -> int {
    let d = digits_end(s, i);
    if d < s.len() && s[d] == 46 && d + 1 < s.len() && is_digit(s[d + 1]) {
        digits_end(s, d + 1)
    } else {
        d
    }
}

/// Scans a string literal's body from `i`: the position of the closing
/// quote (or the end of the source when unterminated) and the line counter
/// after the newlines passed over.
pub open spec fn string_scan(s: Seq<u8>, i: int, line: int) -> (int, int)
    decreases s.len() - i,
{
    if !(0 <= i < s.len()) {
        (i, line)
    } else if s[i] == 34 {
        (i, line)
    } else {
        string_scan(s, i + 1, if s[i] == 10 {
            line + 1
        } else {
            line
        })
    }
}

/// Which keyword a whole identifier spells, or `Identifier` when it spells
/// none.
pub open spec fn keyword_of(t: Seq<u8>) -> TokenType {
    if t == seq![97u8, 110u8, 100u8] {
        TokenType::And
    } else if t == seq![99u8, 108u8, 97u8, 115u8, 115u8] {
        TokenType::Class
    } else if t == seq![101u8, 108u8, 115u8, 101u8] {
        TokenType::Else
    } else if t == seq![102u8, 97u8, 108u8, 115u8, 101u8] {
        TokenType::False
    } else if t == seq![102u8, 111u8, 114u8] {
        TokenType::For
    } else if t == seq![102u8, 117u8, 110u8] {
        TokenType::Fun
    } else if t == seq![105u8, 102u8] {
        TokenType::If
    } else if t == seq![110u8, 105u8, 108u8] {
        TokenType::Nil
    } else if t == seq![111u8, 114u8] {
        TokenType::Or
    } else if t == seq![112u8, 114u8, 105u8, 110u8, 116u8] {
        TokenType::Print
    } else if t == seq![114u8, 101u8, 116u8, 117u8, 114u8, 110u8] {
        TokenType::Return
    } else if t == seq![115u8, 117u8, 112u8, 101u8, 114u8] {
        TokenType::Super
    } else if t == seq![116u8, 104u8, 105u8, 115u8] {
        TokenType::This
    } else if t == seq![116u8, 114u8, 117u8, 101u8] {
        TokenType::True
    } else if t == seq![118u8, 97u8, 114u8] {
        TokenType::Var
    } else if t == seq![119u8, 104u8, 105u8, 108u8, 101u8] {
        TokenType::While
    } else {
        TokenType::Identifier
    }
}

/// The kind and length of a token that is not an identifier, number, string
/// or end marker, given the text starting at its first byte: the
/// single-character tokens, the four that may pair with `=`, and an
/// unexpected-character error of length one.
pub open spec fn simple_token(t: Seq<u8>) -> (TokenType, int) {
    let c = t[0];
    if c == 40 {
        (TokenType::LeftParen, 1)
    } else if c == 41 {
        (TokenType::RightParen, 1)
    } else if c == 123 {
        (TokenType::LeftBrace, 1)
    } else if c == 125 {
        (TokenType::RightBrace, 1)
    } else if c == 59 {
        (TokenType::Semicolon, 1)
    } else if c == 44 {
        (TokenType::Comma, 1)
    } else if c == 46 {
        (TokenType::Dot, 1)
    } else if c == 45 {
        (TokenType::Minus, 1)
    } else if c == 43 {
        (TokenType::Plus, 1)
    } else if c == 47 {
        (TokenType::Slash, 1)
    } else if c == 42 {
        (TokenType::Star, 1)
    } else if c == 33 {
        if t.len() > 1 && t[1] == 61 {
            (TokenType::BangEqual, 2)
        } else {
            (TokenType::Bang, 1)
        }
    } else if c == 61 {
        if t.len() > 1 && t[1] == 61 {
            (TokenType::EqualEqual, 2)
        } else {
            (TokenType::Equal, 1)
        }
    } else if c == 60 {
        if t.len() > 1 && t[1] == 61 {
            (TokenType::LessEqual, 2)
        } else {
            (TokenType::Less, 1)
        }
    } else if c == 62 {
        if t.len() > 1 && t[1] == 61 {
            (TokenType::GreaterEqual, 2)
        } else {
            (TokenType::Greater, 1)
        }
    } else {
        (TokenType::Error, 1)
    }
}

/// The message an unexpected character is reported with.
pub open spec fn msg_unexpected() -> Seq<u8> {
    "Unexpected character".spec_bytes()
}

/// The message an unterminated string is reported with.
pub open spec fn msg_unterminated() -> Seq<u8> {
    "Unterminated string".spec_bytes()
}

/// A scanner state after one token has been scanned, together with that
/// token: the source tail the scanner now holds (it starts at the token),
/// the cursor just past the token, the line counter, and the token's kind
/// and text.
pub struct ScanResult {
    pub source: Seq<u8>,
    pub current: int,
    pub line: int,
    pub kind: TokenType,
    pub slice: Seq<u8>,
}

/// What one `scan_token` call yields from the scanner state
/// `(source, current, line)`: whitespace and comments are skipped, the
/// consumed prefix is dropped from the held source, and one token is read
/// from what remains.
pub open spec fn spec_scan_token(source: Seq<u8>, current: int, line: int) -> ScanResult {
    let skipped = skip_ws(source, current, line, false);
    let t = source.skip(skipped.0);
    let l1 = skipped.1;
    if t.len() == 0 {
        ScanResult { source: t, current: 0, line: l1, kind: TokenType::Eof, slice: t }
    } else {
        let c = t[0];
        if is_alpha(c) {
            let e = ident_end(t, 1);
            ScanResult {
                source: t,
                current: e,
                line: l1,
                kind: keyword_of(t.take(e)),
                slice: t.take(e),
            }
        } else if is_digit(c) {
            let e = number_end(t, 1);
            ScanResult { source: t, current: e, line: l1, kind: TokenType::Number, slice: t.take(e) }
        } else if c == 34 {
            let scanned = string_scan(t, 1, l1);
            let close = scanned.0;
            let l2 = scanned.1;
            if close >= t.len() {
                ScanResult {
                    source: t,
                    current: t.len() as int,
                    line: l2,
                    kind: TokenType::Error,
                    slice: msg_unterminated(),
                }
            } else {
                ScanResult {
                    source: t,
                    current: close + 1,
                    line: l2,
                    kind: TokenType::String,
                    slice: t.take(close + 1),
                }
            }
        } else {
            let simple = simple_token(t);
            ScanResult {
                source: t,
                current: simple.1,
                line: l1,
                kind: simple.0,
                slice: if simple.0 == TokenType::Error {
                    msg_unexpected()
                } else {
                    t.take(simple.1)
                },
            }
        }
    }
}

/// One scanned token: its kind, the text it was scanned from (or an error
/// message), and the line it ended on.
#[derive(Copy, Clone, Debug)]
pub struct Token<'a> {
    pub kind: TokenType,
    pub slice: &'a [u8],
    pub line: usize,
}

/// The scanner: the source tail still to scan (tokens borrow from it), the
/// cursor into it, and the current source line.
#[derive(Debug)]
pub struct Scanner<'a> {
    source: &'a [u8],
    current: usize,
    line: usize,
}

impl<'a> Scanner<'a> {
    /// The source tail the scanner holds.
    pub closed spec fn spec_source(self) -> Seq<u8> {
        self.source@
    }

    /// The cursor: how far into the held source the scanner has read.
    pub closed spec fn spec_current(self) -> int {
        self.current as int
    }

    /// The current source line, starting at 1.
    pub closed spec fn spec_line(self) -> int {
        self.line as int
    }

    /// The scanner's validity: the cursor stays inside the held source, and
    /// the line counter has room to grow by at most one per remaining byte.
    pub open spec fn wf(self) -> bool {
        &&& 0 <= self.spec_current() <= self.spec_source().len()
        &&& self.spec_source().len() < usize::MAX
        &&& self.spec_line() + self.spec_source().len() - self.spec_current() < usize::MAX
        &&& 1 <= self.spec_line()
    }

    /// A scanner at the start of a source text, on line 1.
    pub fn new(source: &'a [u8]) -> (r: Scanner<'a>)
        requires
            source@.len() + 1 < usize::MAX,
        ensures
            r.spec_source() == source@,
            r.spec_current() == 0,
            r.spec_line() == 1,
            r.wf(),
    {
        Scanner { source, current: 0, line: 1 }
    }
}

impl<'a> Token<'a> {
    /// A token of the given kind whose text is everything the scanner has
    /// read of its held source, on the scanner's current line.
    pub fn new(scanner: &Scanner<'a>, kind: TokenType) -> (r: Token<'a>)
        requires
            scanner.wf(),
        ensures
            r.kind == kind,
            r.slice@ == scanner.spec_source().take(scanner.spec_current()),
            r.line as int == scanner.spec_line(),
    {
        let source: &'a [u8] = scanner.source;
        Token { kind, slice: &source[0..scanner.current], line: scanner.line }
    }

    /// An error token carrying a message instead of source text, on the
    /// scanner's current line.
    pub fn error(scanner: &Scanner<'a>, message: &'a [u8]) -> (r: Token<'a>)
        ensures
            r.kind == TokenType::Error,
            r.slice@ == message@,
            r.line as int == scanner.spec_line(),
    {
        Token { kind: TokenType::Error, slice: message, line: scanner.line }
    }
}

impl TokenType {
    /// Which keyword the identifier just scanned spells: dispatches on the
    /// token's first byte, then holds its remaining bytes and its length
    /// against the keyword.
    pub fn identifier(scanner: &Scanner<'_>) -> (r: TokenType)
        requires
            scanner.wf(),
            1 <= scanner.spec_current(),
        ensures
            r == keyword_of(scanner.spec_source().take(scanner.spec_current())),
    {
        let s = scanner.source;
        let n = scanner.current;
        let ghost t = scanner.spec_source().take(scanner.spec_current());
        proof {
            assert(t.len() == n);
            assert(forall|i: int| 0 <= i < t.len() ==> t[i] == s@[i]);
        }
        let r = match s[0] {
            97 => if n == 3 && s[1] == 110 && s[2] == 100 {
                TokenType::And
            } else {
                TokenType::Identifier
            },
            99 => if n == 5 && s[1] == 108 && s[2] == 97 && s[3] == 115 && s[4] == 115 {
                TokenType::Class
            } else {
                TokenType::Identifier
            },
            101 => if n == 4 && s[1] == 108 && s[2] == 115 && s[3] == 101 {
                TokenType::Else
            } else {
                TokenType::Identifier
            },
            102 => if n == 5 && s[1] == 97 && s[2] == 108 && s[3] == 115 && s[4] == 101 {
                TokenType::False
            } else if n == 3 && s[1] == 111 && s[2] == 114 {
                TokenType::For
            } else if n == 3 && s[1] == 117 && s[2] == 110 {
                TokenType::Fun
            } else {
                TokenType::Identifier
            },
            105 => if n == 2 && s[1] == 102 {
                TokenType::If
            } else {
                TokenType::Identifier
            },
            110 => if n == 3 && s[1] == 105 && s[2] == 108 {
                TokenType::Nil
            } else {
                TokenType::Identifier
            },
            111 => if n == 2 && s[1] == 114 {
                TokenType::Or
            } else {
                TokenType::Identifier
            },
            112 => if n == 5 && s[1] == 114 && s[2] == 105 && s[3] == 110 && s[4] == 116 {
                TokenType::Print
            } else {
                TokenType::Identifier
            },
            114 => if n == 6 && s[1] == 101 && s[2] == 116 && s[3] == 117 && s[4] == 114 && s[5]
                == 110 {
                TokenType::Return
            } else {
                TokenType::Identifier
            },
            115 => if n == 5 && s[1] == 117 && s[2] == 112 && s[3] == 101 && s[4] == 114 {
                TokenType::Super
            } else {
                TokenType::Identifier
            },
            116 => if n == 4 && s[1] == 104 && s[2] == 105 && s[3] == 115 {
                TokenType::This
            } else if n == 4 && s[1] == 114 && s[2] == 117 && s[3] == 101 {
                TokenType::True
            } else {
                TokenType::Identifier
            },
            118 => if n == 3 && s[1] == 97 && s[2] == 114 {
                TokenType::Var
            } else {
                TokenType::Identifier
            },
            119 => if n == 5 && s[1] == 104 && s[2] == 105 && s[3] == 108 && s[4] == 101 {
                TokenType::While
            } else {
                TokenType::Identifier
            },
            _ => TokenType::Identifier,
        };
        proof {
            if t.len() == 3 && t[0] == 97 && t[1] == 110 && t[2] == 100 {
                assert(t =~= seq![97u8, 110u8, 100u8]);
            }
            if t.len() == 5 && t[0] == 99 && t[1] == 108 && t[2] == 97 && t[3] == 115 && t[4]
                == 115 {
                assert(t =~= seq![99u8, 108u8, 97u8, 115u8, 115u8]);
            }
            if t.len() == 4 && t[0] == 101 && t[1] == 108 && t[2] == 115 && t[3] == 101 {
                assert(t =~= seq![101u8, 108u8, 115u8, 101u8]);
            }
            if t.len() == 5 && t[0] == 102 && t[1] == 97 && t[2] == 108 && t[3] == 115 && t[4]
                == 101 {
                assert(t =~= seq![102u8, 97u8, 108u8, 115u8, 101u8]);
            }
            if t.len() == 3 && t[0] == 102 && t[1] == 111 && t[2] == 114 {
                assert(t =~= seq![102u8, 111u8, 114u8]);
            }
            if t.len() == 3 && t[0] == 102 && t[1] == 117 && t[2] == 110 {
                assert(t =~= seq![102u8, 117u8, 110u8]);
            }
            if t.len() == 2 && t[0] == 105 && t[1] == 102 {
                assert(t =~= seq![105u8, 102u8]);
            }
            if t.len() == 3 && t[0] == 110 && t[1] == 105 && t[2] == 108 {
                assert(t =~= seq![110u8, 105u8, 108u8]);
            }
            if t.len() == 2 && t[0] == 111 && t[1] == 114 {
                assert(t =~= seq![111u8, 114u8]);
            }
            if t.len() == 5 && t[0] == 112 && t[1] == 114 && t[2] == 105 && t[3] == 110 && t[4]
                == 116 {
                assert(t =~= seq![112u8, 114u8, 105u8, 110u8, 116u8]);
            }
            if t.len() == 6 && t[0] == 114 && t[1] == 101 && t[2] == 116 && t[3] == 117 && t[4]
                == 114 && t[5] == 110 {
                assert(t =~= seq![114u8, 101u8, 116u8, 117u8, 114u8, 110u8]);
            }
            if t.len() == 5 && t[0] == 115 && t[1] == 117 && t[2] == 112 && t[3] == 101 && t[4]
                == 114 {
                assert(t =~= seq![115u8, 117u8, 112u8, 101u8, 114u8]);
            }
            if t.len() == 4 && t[0] == 116 && t[1] == 104 && t[2] == 105 && t[3] == 115 {
                assert(t =~= seq![116u8, 104u8, 105u8, 115u8]);
            }
            if t.len() == 4 && t[0] == 116 && t[1] == 114 && t[2] == 117 && t[3] == 101 {
                assert(t =~= seq![116u8, 114u8, 117u8, 101u8]);
            }
            if t.len() == 3 && t[0] == 118 && t[1] == 97 && t[2] == 114 {
                assert(t =~= seq![118u8, 97u8, 114u8]);
            }
            if t.len() == 5 && t[0] == 119 && t[1] == 104 && t[2] == 105 && t[3] == 108 && t[4]
                == 101 {
                assert(t =~= seq![119u8, 104u8, 105u8, 108u8, 101u8]);
            }
        }
        r
    }
}


/// The position skipping stops at never retreats, never leaves the source,
/// and advances the line counter by at most one per byte passed over.
proof fn lemma_skip_ws_bounds(s: Seq<u8>, i: int, line: int, in_comment: bool)
    requires
        0 <= i <= s.len(),
    ensures
        i <= skip_ws(s, i, line, in_comment).0 <= s.len(),
        line <= skip_ws(s, i, line, in_comment).1 <= line + (skip_ws(s, i, line, in_comment).0 - i),
    decreases s.len() - i, (if in_comment { 1int } else { 0int }),
{
    if !(0 <= i < s.len()) {
    } else if in_comment {
        if s[i] == 10 {
            lemma_skip_ws_bounds(s, i, line, false);
        } else {
            lemma_skip_ws_bounds(s, i + 1, line, true);
        }
    } else {
        let c = s[i];
        if is_ws(c) {
            lemma_skip_ws_bounds(s, i + 1, line, false);
        } else if c == 10 {
            lemma_skip_ws_bounds(s, i + 1, line + 1, false);
        } else if c == 47 && i + 1 < s.len() && s[i + 1] == 47 {
            lemma_skip_ws_bounds(s, i + 2, line, true);
        }
    }
}

/// An identifier's end never retreats and never leaves the source.
proof fn lemma_ident_end_bounds(s: Seq<u8>, i: int)
    requires
        0 <= i <= s.len(),
    ensures
        i <= ident_end(s, i) <= s.len(),
    decreases s.len() - i,
{
    if 0 <= i < s.len() && is_alnum(s[i]) {
        lemma_ident_end_bounds(s, i + 1);
    }
}

/// A digit run's end never retreats and never leaves the source.
proof fn lemma_digits_end_bounds(s: Seq<u8>, i: int)
    requires
        0 <= i <= s.len(),
    ensures
        i <= digits_end(s, i) <= s.len(),
    decreases s.len() - i,
{
    if 0 <= i < s.len() && is_digit(s[i]) {
        lemma_digits_end_bounds(s, i + 1);
    }
}

/// A string body's end never retreats, never leaves the source, and the
/// line counter grows by at most one per byte passed over.
proof fn lemma_string_scan_bounds(s: Seq<u8>, i: int, line: int)
    requires
        0 <= i <= s.len(),
    ensures
        i <= string_scan(s, i, line).0 <= s.len(),
        line <= string_scan(s, i, line).1 <= line + (string_scan(s, i, line).0 - i),
    decreases s.len() - i,
{
    if !(0 <= i < s.len()) {
    } else if s[i] == 34 {
    } else {
        lemma_string_scan_bounds(s, i + 1, if s[i] == 10 { line + 1 } else { line });
    }
}

impl<'a> Scanner<'a> {
    /// Whether the whole held source has been read.
    fn is_at_end(&self) -> (r: bool)
        ensures
            r == (self.spec_current() >= self.spec_source().len()),
    {
        self.source.len() == 0 || self.current >= self.source.len()
    }

    /// Reads the byte at the cursor and moves past it.
    fn advance(&mut self) -> (r: u8)
        requires
            old(self).wf(),
            old(self).spec_current() < old(self).spec_source().len(),
        ensures
            final(self).spec_source() == old(self).spec_source(),
            final(self).spec_line() == old(self).spec_line(),
            final(self).spec_current() == old(self).spec_current() + 1,
            r == old(self).spec_source()[old(self).spec_current()],
            final(self).wf(),
    {
        self.current = self.current + 1;
        self.source[self.current - 1]
    }

    /// The byte at the cursor, or 0 past the end.
    fn peek(&self) -> (r: u8)
        requires
            self.wf(),
        ensures
            r == (if self.spec_current() < self.spec_source().len() {
                self.spec_source()[self.spec_current()]
            } else {
                0u8
            }),
    {
        if self.current < self.source.len() {
            self.source[self.current]
        } else {
            0
        }
    }

    /// The byte after the cursor, or 0 past the end.
    fn peek_next(&self) -> (r: u8)
        requires
            self.wf(),
        ensures
            r == (if self.spec_current() + 1 < self.spec_source().len() {
                self.spec_source()[self.spec_current() + 1]
            } else {
                0u8
            }),
    {
        if self.current + 1 < self.source.len() {
            self.source[self.current + 1]
        } else {
            0
        }
    }

    /// Consumes the byte at the cursor only when it is the expected one.
    fn compare(&mut self, expected: u8) -> (r: bool)
        requires
            old(self).wf(),
        ensures
            final(self).spec_source() == old(self).spec_source(),
            final(self).spec_line() == old(self).spec_line(),
            ({
                let src = old(self).spec_source();
                let cur = old(self).spec_current();
                if cur < src.len() && src[cur] == expected {
                    r == true && final(self).spec_current() == cur + 1
                } else {
                    r == false && final(self).spec_current() == cur
                }
            }),
            final(self).wf(),
    {
        if self.is_at_end() {
            return false;
        }
        if self.source[self.current] != expected {
            return false;
        }
        self.current = self.current + 1;
        true
    }

    /// Moves the cursor past whitespace and line comments, counting the
    /// newlines passed over; stops exactly where [`skip_ws`] says.
    fn skip_whitespace(&mut self)
        requires
            old(self).wf(),
        ensures
            final(self).spec_source() == old(self).spec_source(),
            final(self).spec_current() == skip_ws(
                old(self).spec_source(),
                old(self).spec_current(),
                old(self).spec_line(),
                false,
            ).0,
            final(self).spec_line() == skip_ws(
                old(self).spec_source(),
                old(self).spec_current(),
                old(self).spec_line(),
                false,
            ).1,
            final(self).wf(),
    {
        let ghost s = old(self).spec_source();
        let ghost cur0 = old(self).spec_current();
        let ghost line0 = old(self).spec_line();
        loop
            invariant
                self.wf(),
                self.spec_source() == s,
                s == old(self).spec_source(),
                cur0 == old(self).spec_current(),
                line0 == old(self).spec_line(),
                skip_ws(s, self.spec_current(), self.spec_line(), false) == skip_ws(
                    s,
                    cur0,
                    line0,
                    false,
                ),
            decreases s.len() - self.spec_current(),
        {
            let c = self.peek();
            if c == 32 || c == 13 || c == 9 {
                let _skipped: u8 = self.advance();
            } else if c == 10 {
                let _skipped: u8 = self.advance();
                self.line = self.line + 1;
            } else if c == 47 {
                if self.peek_next() == 47 {
                    let ghost cur_at = self.spec_current();
                    let ghost line_at = self.spec_line();
                    proof {
                        assert(skip_ws(s, cur_at, line_at, false) == skip_ws(
                            s,
                            cur_at + 2,
                            line_at,
                            true,
                        ));
                    }
                    let _slash1: u8 = self.advance();
                    let _slash2: u8 = self.advance();
                    while self.peek() != 10 && !self.is_at_end()
                        invariant
                            self.wf(),
                            self.spec_source() == s,
                            s == old(self).spec_source(),
                            cur0 == old(self).spec_current(),
                            line0 == old(self).spec_line(),
                            self.spec_line() == line_at,
                            cur_at + 2 <= self.spec_current(),
                            skip_ws(s, self.spec_current(), self.spec_line(), true) == skip_ws(
                                s,
                                cur0,
                                line0,
                                false,
                            ),
                        decreases s.len() - self.spec_current(),
                    {
                        let _skipped: u8 = self.advance();
                    }
                    proof {
                        let cur = self.spec_current();
                        if cur < s.len() {
                            assert(s[cur] == 10);
                            assert(skip_ws(s, cur, self.spec_line(), true) == skip_ws(
                                s,
                                cur,
                                self.spec_line(),
                                false,
                            ));
                        }
                    }
                } else {
                    return ;
                }
            } else {
                return ;
            }
        }
    }

    /// Scans the rest of an identifier (its first byte is already behind the
    /// cursor), then classifies the whole token as a keyword or a plain
    /// identifier.
    fn identifier(&mut self) -> (r: Token<'a>)
        requires
            old(self).wf(),
            1 <= old(self).spec_current(),
        ensures
            final(self).spec_source() == old(self).spec_source(),
            final(self).spec_line() == old(self).spec_line(),
            final(self).spec_current() == ident_end(
                old(self).spec_source(),
                old(self).spec_current(),
            ),
            r.kind == keyword_of(old(self).spec_source().take(final(self).spec_current())),
            r.slice@ == old(self).spec_source().take(final(self).spec_current()),
            r.line as int == old(self).spec_line(),
            final(self).wf(),
    {
        let ghost s = old(self).spec_source();
        let ghost cur0 = old(self).spec_current();
        let ghost line0 = old(self).spec_line();
        loop
            invariant
                self.wf(),
                self.spec_source() == s,
                self.spec_line() == line0,
                1 <= cur0 <= self.spec_current(),
                ident_end(s, self.spec_current()) == ident_end(s, cur0),
            ensures
                self.wf(),
                self.spec_source() == s,
                self.spec_line() == line0,
                1 <= cur0 <= self.spec_current(),
                self.spec_current() == ident_end(s, cur0),
            decreases s.len() - self.spec_current(),
        {
            let c = self.peek();
            if (97 <= c && c <= 122) || (65 <= c && c <= 90) || c == 95 || (48 <= c && c <= 57) {
                let _consumed: u8 = self.advance();
            } else {
                proof {
                    assert(ident_end(s, self.spec_current()) == self.spec_current());
                }
                break ;
            }
        }
        let kind = TokenType::identifier(self);
        Token::new(self, kind)
    }

    /// Scans the rest of a number (its first digit is already behind the
    /// cursor): the digit run, then a fractional part only when a dot is
    /// followed by a digit.
    fn number(&mut self) -> (r: Token<'a>)
        requires
            old(self).wf(),
        ensures
            final(self).spec_source() == old(self).spec_source(),
            final(self).spec_line() == old(self).spec_line(),
            final(self).spec_current() == number_end(
                old(self).spec_source(),
                old(self).spec_current(),
            ),
            r.kind == TokenType::Number,
            r.slice@ == old(self).spec_source().take(final(self).spec_current()),
            r.line as int == old(self).spec_line(),
            final(self).wf(),
    {
        let ghost s = old(self).spec_source();
        let ghost cur0 = old(self).spec_current();
        let ghost line0 = old(self).spec_line();
        loop
            invariant
                self.wf(),
                self.spec_source() == s,
                self.spec_line() == line0,
                digits_end(s, self.spec_current()) == digits_end(s, cur0),
            ensures
                self.wf(),
                self.spec_source() == s,
                self.spec_line() == line0,
                self.spec_current() == digits_end(s, cur0),
            decreases s.len() - self.spec_current(),
        {
            let c = self.peek();
            if 48 <= c && c <= 57 {
                let _consumed: u8 = self.advance();
            } else {
                proof {
                    assert(digits_end(s, self.spec_current()) == self.spec_current());
                }
                break ;
            }
        }
        let ghost d = self.spec_current();
        let dot = self.peek();
        if dot == 46 {
            let after = self.peek_next();
            if 48 <= after && after <= 57 {
                let _dot: u8 = self.advance();
                loop
                    invariant
                        self.wf(),
                        self.spec_source() == s,
                        self.spec_line() == line0,
                        digits_end(s, self.spec_current()) == digits_end(s, d + 1),
                        number_end(s, cur0) == digits_end(s, d + 1),
                    ensures
                        self.wf(),
                        self.spec_source() == s,
                        self.spec_line() == line0,
                        self.spec_current() == number_end(s, cur0),
                    decreases s.len() - self.spec_current(),
                {
                    let c = self.peek();
                    if 48 <= c && c <= 57 {
                        let _consumed: u8 = self.advance();
                    } else {
                        proof {
                            assert(digits_end(s, self.spec_current()) == self.spec_current());
                        }
                        break ;
                    }
                }
            } else {
                proof {
                    assert(self.spec_current() == number_end(s, cur0));
                }
            }
        } else {
            proof {
                assert(self.spec_current() == number_end(s, cur0));
            }
        }
        Token::new(self, TokenType::Number)
    }

    /// Scans the rest of a string literal (its opening quote is already
    /// behind the cursor), counting the newlines inside it; an unterminated
    /// literal is reported as an error token.
    fn string(&mut self) -> (r: Token<'a>)
        requires
            old(self).wf(),
        ensures
            final(self).spec_source() == old(self).spec_source(),
            final(self).spec_line() == string_scan(
                old(self).spec_source(),
                old(self).spec_current(),
                old(self).spec_line(),
            ).1,
            r.line as int == final(self).spec_line(),
            ({
                let close = string_scan(
                    old(self).spec_source(),
                    old(self).spec_current(),
                    old(self).spec_line(),
                ).0;
                if close >= old(self).spec_source().len() {
                    &&& final(self).spec_current() == old(self).spec_source().len()
                    &&& r.kind == TokenType::Error
                    &&& r.slice@ == msg_unterminated()
                } else {
                    &&& final(self).spec_current() == close + 1
                    &&& r.kind == TokenType::String
                    &&& r.slice@ == old(self).spec_source().take(close + 1)
                }
            }),
            final(self).wf(),
    {
        let ghost s = old(self).spec_source();
        let ghost cur0 = old(self).spec_current();
        let ghost line0 = old(self).spec_line();
        loop
            invariant
                self.wf(),
                self.spec_source() == s,
                string_scan(s, self.spec_current(), self.spec_line()) == string_scan(
                    s,
                    cur0,
                    line0,
                ),
            ensures
                self.wf(),
                self.spec_source() == s,
                self.spec_current() == string_scan(s, cur0, line0).0 || (self.spec_current()
                    >= s.len() && string_scan(s, cur0, line0).0 >= s.len()),
                self.spec_line() == string_scan(s, cur0, line0).1,
            decreases s.len() - self.spec_current(),
        {
            let at_end = self.is_at_end();
            let c = self.peek();
            if c != 34 && !at_end {
                let _consumed: u8 = self.advance();
                if c == 10 {
                    self.line = self.line + 1;
                }
            } else {
                proof {
                    assert(string_scan(s, self.spec_current(), self.spec_line())
                        == (self.spec_current(), self.spec_line()));
                }
                break ;
            }
        }
        if self.is_at_end() {
            return Token::error(self, "Unterminated string".as_bytes());
        }
        let _quote: u8 = self.advance();
        Token::new(self, TokenType::String)
    }

    /// Skips to the next token and scans it.  The consumed prefix is dropped
    /// from the held source, so the returned token's text is a prefix of
    /// what the scanner now holds; the whole effect is exactly
    /// [`spec_scan_token`].  Every call but an end-of-file one shrinks what
    /// remains to scan, and end-of-file calls repeat forever.
    pub fn scan_token(&mut self) -> (r: Token<'a>)
        requires
            old(self).wf(),
        ensures
            ({
                let res = spec_scan_token(
                    old(self).spec_source(),
                    old(self).spec_current(),
                    old(self).spec_line(),
                );
                &&& final(self).spec_source() == res.source
                &&& final(self).spec_current() == res.current
                &&& final(self).spec_line() == res.line
                &&& r.kind == res.kind
                &&& r.slice@ == res.slice
                &&& r.line as int == res.line
                &&& (res.kind != TokenType::Eof ==> final(self).spec_source().len() - final(self).spec_current() < old(self).spec_source().len() - old(self).spec_current())
                &&& (res.kind == TokenType::Eof ==> final(self).spec_source().len() == final(self).spec_current())
            }),
            final(self).wf(),
    {
        let ghost s0 = old(self).spec_source();
        let ghost cur0 = old(self).spec_current();
        let ghost line0 = old(self).spec_line();
        self.skip_whitespace();
        proof {
            lemma_skip_ws_bounds(s0, cur0, line0, false);
        }
        let p = self.current;
        let source: &'a [u8] = self.source;
        self.source = &source[p..source.len()];
        self.current = 0;
        let ghost t = self.spec_source();
        proof {
            assert(t =~= s0.skip(skip_ws(s0, cur0, line0, false).0));
        }
        if self.is_at_end() {
            return Token::new(self, TokenType::Eof);
        }
        let c = self.advance();
        if (97 <= c && c <= 122) || (65 <= c && c <= 90) || c == 95 {
            let r = self.identifier();
            proof {
                lemma_ident_end_bounds(t, 1);
            }
            return r;
        }
        if 48 <= c && c <= 57 {
            let r = self.number();
            proof {
                lemma_digits_end_bounds(t, 1);
                let d = digits_end(t, 1);
                if d < t.len() && t[d] == 46 && d + 1 < t.len() && is_digit(t[d + 1]) {
                    lemma_digits_end_bounds(t, d + 1);
                }
            }
            return r;
        }
        match c {
            40 => Token::new(self, TokenType::LeftParen),
            41 => Token::new(self, TokenType::RightParen),
            123 => Token::new(self, TokenType::LeftBrace),
            125 => Token::new(self, TokenType::RightBrace),
            59 => Token::new(self, TokenType::Semicolon),
            44 => Token::new(self, TokenType::Comma),
            46 => Token::new(self, TokenType::Dot),
            45 => Token::new(self, TokenType::Minus),
            43 => Token::new(self, TokenType::Plus),
            47 => Token::new(self, TokenType::Slash),
            42 => Token::new(self, TokenType::Star),
            33 => {
                let kind = if self.compare(61) {
                    TokenType::BangEqual
                } else {
                    TokenType::Bang
                };
                Token::new(self, kind)
            },
            61 => {
                let kind = if self.compare(61) {
                    TokenType::EqualEqual
                } else {
                    TokenType::Equal
                };
                Token::new(self, kind)
            },
            60 => {
                let kind = if self.compare(61) {
                    TokenType::LessEqual
                } else {
                    TokenType::Less
                };
                Token::new(self, kind)
            },
            62 => {
                let kind = if self.compare(61) {
                    TokenType::GreaterEqual
                } else {
                    TokenType::Greater
                };
                Token::new(self, kind)
            },
            34 => {
                let r = self.string();
                proof {
                    lemma_string_scan_bounds(t, 1, skip_ws(s0, cur0, line0, false).1);
                }
                r
            },
            _ => Token::error(self, "Unexpected character".as_bytes()),
        }
    }
}


/// Law: scanning always makes progress.  One `scan_token` step from a valid
/// scanner state leaves a valid state; unless it produced the end-of-file
/// token, what remains to scan is strictly shorter, and the end-of-file
/// token comes exactly when nothing remains.
pub proof fn lemma_scan_token_progress(source: Seq<u8>, current: int, line: int)
    requires
        0 <= current <= source.len(),
    ensures
        ({
            let res = spec_scan_token(source, current, line);
            &&& 0 <= res.current <= res.source.len()
            &&& res.source.len() <= source.len() - current
            &&& (res.kind != TokenType::Eof ==> res.source.len() - res.current < source.len()
                - current)
            &&& (res.kind == TokenType::Eof ==> res.current == 0 && res.source.len() == 0)
        }),
{
    lemma_skip_ws_bounds(source, current, line, false);
    let p = skip_ws(source, current, line, false).0;
    let l1 = skip_ws(source, current, line, false).1;
    let t = source.skip(p);
    assert(t.len() == source.len() - p);
    if t.len() == 0 {
    } else {
        let c = t[0];
        if is_alpha(c) {
            lemma_ident_end_bounds(t, 1);
        } else if is_digit(c) {
            lemma_digits_end_bounds(t, 1);
            let d = digits_end(t, 1);
            if d < t.len() && t[d] == 46 && d + 1 < t.len() && is_digit(t[d + 1]) {
                lemma_digits_end_bounds(t, d + 1);
            }
        } else if c == 34 {
            lemma_string_scan_bounds(t, 1, l1);
        }
    }
}

} // verus!
