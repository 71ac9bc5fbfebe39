use vstd::prelude::*;

use crate::error::{error, SyntaxError};
use crate::token::{Token, TokenType, TokenV, WTSType};

verus! {

/// Space, tab, carriage return and newline separate tokens.
pub open spec fn is_blank(c: char) -> bool {
    c == ' ' || c == '\t' || c == '\r' || c == '\n'
}

/// Characters at which a bare word stops.
pub open spec fn ends_word(c: char) -> bool {
    is_blank(c) || c == '(' || c == ')' || c == '-' || c == ';' || c == '#' || c == '>' || c
        == '<' || c == '|'
}

/// First index at or after `i` that ends a bare word (or the end of `src`).
pub open spec fn word_end(src: Seq<char>, i: int) -> int
    decreases src.len() - i,
{
    if i >= src.len() || ends_word(src[i]) {
        i
    } else {
        word_end(src, i + 1)
    }
}

/// First index at or after `i` that holds `stop` (or the end of `src`).
pub open spec fn find_from(src: Seq<char>, i: int, stop: char) -> int
    decreases src.len() - i,
{
    if i >= src.len() || src[i] == stop {
        i
    } else {
        find_from(src, i + 1, stop)
    }
}

/// Number of newlines in `s`.
pub open spec fn newlines(s: Seq<char>) -> nat
    decreases s.len(),
{
    if s.len() == 0 {
        0
    } else {
        newlines(s.drop_last()) + if s.last() == '\n' {
            1nat
        } else {
            0nat
        }
    }
}

/// A token without a literal payload, spanning `src[i..j]`.
pub open spec fn plain(t: TokenType, src: Seq<char>, i: int, j: int, line: nat) -> TokenV {
    TokenV { t_type: t, literal: None, lexeme: src.subrange(i, j), line }
}

/// The tokens of `src` from index `i` on, at line `line`, appended to `acc`; or the line at
/// which an unterminated quoted string was found.
pub open spec fn scan_from(src: Seq<char>, i: int, line: nat, acc: Seq<TokenV>) -> Result<
    Seq<TokenV>,
    nat,
>
    decreases src.len() - i
    via scan_from_decreases
{
    if i < 0 || i >= src.len() {
        Ok(acc.push(TokenV { t_type: TokenType::EOF, literal: None, lexeme: Seq::empty(), line }))
    } else {
        let c = src[i];
        if c == '(' {
            scan_from(src, i + 1, line, acc.push(plain(TokenType::LeftParen, src, i, i + 1, line)))
        } else if c == ')' {
            scan_from(src, i + 1, line, acc.push(plain(TokenType::RightParen, src, i, i + 1, line)))
        } else if c == ';' {
            scan_from(src, i + 1, line, acc.push(plain(TokenType::Semicolon, src, i, i + 1, line)))
        } else if c == '|' {
            scan_from(src, i + 1, line, acc.push(plain(TokenType::Pipe, src, i, i + 1, line)))
        } else if c == '-' || c == '<' || c == '>' {
            let double = i + 1 < src.len() && src[i + 1] == c;
            let t = if c == '-' {
                if double { TokenType::LongFlag } else { TokenType::ShortFlag }
            } else if c == '<' {
                if double { TokenType::DoubleRedirLeft } else { TokenType::RedirLeft }
            } else {
                if double { TokenType::DoubleRedirRight } else { TokenType::RedirRight }
            };
            let j = if double { i + 2 } else { i + 1 };
            scan_from(src, j, line, acc.push(plain(t, src, i, j, line)))
        } else if c == '#' {
            if i + 1 < src.len() && src[i + 1] == '#' {
                scan_from(src, find_from(src, i + 2, '\n'), line, acc)
            } else {
                scan_from(src, i + 1, line, acc.push(plain(TokenType::Pound, src, i, i + 1, line)))
            }
        } else if c == '\n' {
            scan_from(src, i + 1, line + 1, acc)
        } else if is_blank(c) {
            scan_from(src, i + 1, line, acc)
        } else if c == '"' {
            let k = find_from(src, i + 1, '"');
            let l = line + newlines(src.subrange(i + 1, k));
            if k >= src.len() {
                Err(l)
            } else {
                let t = TokenV {
                    t_type: TokenType::String,
                    literal: Some(src.subrange(i + 1, k)),
                    lexeme: src.subrange(i, k + 1),
                    line: l,
                };
                scan_from(src, k + 1, l, acc.push(t))
            }
        } else {
            let j = word_end(src, i + 1);
            scan_from(src, j, line, acc.push(plain(TokenType::Word, src, i, j, line)))
        }
    }
}

#[via_fn]
proof fn scan_from_decreases(src: Seq<char>, i: int, line: nat, acc: Seq<TokenV>) {
    if 0 <= i < src.len() {
        lemma_find_from_bounds(src, i + 1, '"');
        lemma_word_end_bounds(src, i + 1);
        if i + 2 <= src.len() {
            lemma_find_from_bounds(src, i + 2, '\n');
        }
    }
}

/// The tokens of `src`, ending with the end-of-input token; or the line of an unterminated
/// quoted string.
pub open spec fn scan(src: Seq<char>) -> Result<Seq<TokenV>, nat> {
    scan_from(src, 0, 1, Seq::empty())
}

pub open spec fn view_tokens(ts: Seq<Token>) -> Seq<TokenV> {
    ts.map_values(|t: Token| t@)
}

/// Turns source text into tokens.
#[derive(Debug)]
pub struct Scanner {
    source: String,
    pub tokens: Vec<Token>,
    start: usize,
    current: usize,
    line: usize,
    len: usize,
}

proof fn lemma_find_from_bounds(src: Seq<char>, i: int, stop: char)
    requires
        0 <= i <= src.len(),
    ensures
        i <= find_from(src, i, stop) <= src.len(),
    decreases src.len() - i,
{
    if i < src.len() && src[i] != stop {
        lemma_find_from_bounds(src, i + 1, stop);
    }
}

proof fn lemma_word_end_bounds(src: Seq<char>, i: int)
    requires
        0 <= i <= src.len(),
    ensures
        i <= word_end(src, i) <= src.len(),
    decreases src.len() - i,
{
    if i < src.len() && !ends_word(src[i]) {
        lemma_word_end_bounds(src, i + 1);
    }
}

pub proof fn lemma_word_end_at(src: Seq<char>, i: int, j: int)
    requires
        0 <= i <= j <= src.len(),
        forall|k: int| i <= k < j ==> !ends_word(#[trigger] src[k]),
        j == src.len() || ends_word(src[j]),
    ensures
        word_end(src, i) == j,
    decreases j - i,
{
    if i < j {
        lemma_word_end_at(src, i + 1, j);
    }
}

pub proof fn lemma_find_from_at(src: Seq<char>, i: int, j: int, stop: char)
    requires
        0 <= i <= j <= src.len(),
        forall|k: int| i <= k < j ==> #[trigger] src[k] != stop,
        j == src.len() || src[j] == stop,
    ensures
        find_from(src, i, stop) == j,
    decreases j - i,
{
    if i < j {
        lemma_find_from_at(src, i + 1, j, stop);
    }
}

proof fn lemma_newlines_le_len(s: Seq<char>)
    ensures
        newlines(s) <= s.len(),
    decreases s.len(),
{
    if s.len() > 0 {
        lemma_newlines_le_len(s.drop_last());
    }
}

fn is_word_end(c: char) -> (r: bool)
    ensures
        r == ends_word(c),
{
    c == ' ' || c == '\t' || c == '\r' || c == '\n' || c == '(' || c == ')' || c == '-' || c == ';'
        || c == '#' || c == '>' || c == '<' || c == '|'
}

proof fn lemma_newlines_push(s: Seq<char>, c: char)
    ensures
        newlines(s.push(c)) == newlines(s) + if c == '\n' {
            1nat
        } else {
            0nat
        },
{
    assert(s.push(c).drop_last() =~= s);
}

impl Scanner {
    /// The source as characters.
    pub closed spec fn src(&self) -> Seq<char> {
        self.source@
    }

    /// The tokens produced so far.
    pub closed spec fn scanned(&self) -> Seq<TokenV> {
        view_tokens(self.tokens@)
    }

    /// The position of the next character to read.
    pub closed spec fn pos(&self) -> int {
        self.current as int
    }

    /// The line the next character stands on.
    pub closed spec fn cur_line(&self) -> nat {
        self.line as nat
    }

    /// The scanner's positions lie within its source.
    pub closed spec fn wf(&self) -> bool {
        &&& self.len == self.source@.len()
        &&& self.len < usize::MAX
        &&& self.start <= self.current <= self.len
        &&& 1 <= self.line <= self.current + 1
    }

    /// A scanner at the start of `source`, with no tokens yet.
    pub fn new(source: String) -> (r: Self)
        requires
            source@.len() < usize::MAX,
        ensures
            r.wf(),
            r.src() == source@,
            r.pos() == 0,
            r.cur_line() == 1,
            r.scanned().len() == 0,
    {
        let len = source.as_str().unicode_len();
        Scanner { source, tokens: Vec::new(), start: 0, current: 0, line: 1, len }
    }

    /// The tokens produced so far.
    pub fn tokens(&self) -> (r: &Vec<Token>)
        ensures
            view_tokens(r@) == self.scanned(),
    {
        &self.tokens
    }

    fn advance(&mut self) -> (r: char)
        requires
            old(self).wf(),
            old(self).current < old(self).len,
        ensures
            final(self).wf(),
            r == old(self).source@[old(self).current as int],
            *final(self) == (Scanner { current: (old(self).current + 1) as usize, ..*old(self) }),
    {
        let ret = self.source.as_str().get_char(self.current);
        self.current = self.current + 1;
        ret
    }

    fn lexeme(&self, from: usize, to: usize) -> (r: String)
        requires
            from <= to <= self.source@.len(),
        ensures
            r@ == self.source@.subrange(from as int, to as int),
    {
        self.source.as_str().substring_char(from, to).to_owned()
    }

    fn add_token(&mut self, t_type: TokenType)
        requires
            old(self).wf(),
        ensures
            final(self).wf(),
            final(self).source == old(self).source,
            final(self).current == old(self).current,
            final(self).start == old(self).start,
            final(self).line == old(self).line,
            final(self).len == old(self).len,
            view_tokens(final(self).tokens@) == view_tokens(old(self).tokens@).push(
                plain(
                    t_type,
                    old(self).source@,
                    old(self).start as int,
                    old(self).current as int,
                    old(self).line as nat,
                ),
            ),
    {
        let lexeme = self.lexeme(self.start, self.current);
        let tok = Token::new(t_type, WTSType::NONE, lexeme, self.line);
        self.tokens.push(tok);
        proof {
            old(self).tokens@.lemma_push_map_commute(|t: Token| t@, tok);
        }
    }

    fn match_next(&mut self, expected: char) -> (r: bool)
        requires
            old(self).wf(),
        ensures
            final(self).wf(),
            r == (old(self).current < old(self).len && old(self).source@[old(self).current as int]
                == expected),
            *final(self) == (Scanner {
                current: if r {
                    (old(self).current + 1) as usize
                } else {
                    old(self).current
                },
                ..*old(self)
            }),
    {
        if self.current >= self.len {
            return false;
        }
        if self.source.as_str().get_char(self.current) != expected {
            return false;
        }
        self.current = self.current + 1;
        true
    }

    fn peek(&self) -> (r: char)
        requires
            self.wf(),
        ensures
            self.current < self.len ==> r == self.source@[self.current as int],
    {
        if self.current >= self.len {
            return '\0';
        }
        self.source.as_str().get_char(self.current)
    }

    /// Scans a quoted string whose opening quote was just read.
    fn string(&mut self) -> (r: Result<(), SyntaxError>)
        requires
            old(self).wf(),
            old(self).start + 1 == old(self).current,
            old(self).source@[old(self).start as int] == '"',
        ensures
            final(self).wf(),
            final(self).source == old(self).source,
            final(self).len == old(self).len,
            final(self).current >= old(self).current,
            ({
                let src = old(self).source@;
                let i = old(self).start as int;
                let k = find_from(src, i + 1, '"');
                let l = (old(self).line + newlines(src.subrange(i + 1, k))) as nat;
                if k >= src.len() {
                    r is Err && r->Err_0.line == l && r->Err_0.message@ == "Unterminated String"@
                } else {
                    &&& r is Ok
                    &&& final(self).current == k + 1
                    &&& final(self).line == l
                    &&& final(self).scanned() == old(self).scanned().push(
                        TokenV {
                            t_type: TokenType::String,
                            literal: Some(src.subrange(i + 1, k)),
                            lexeme: src.subrange(i, k + 1),
                            line: l,
                        },
                    )
                }
            }),
    {
        let ghost src = self.source@;
        let ghost line0 = self.line;
        while self.current < self.len && self.peek() != '"'
            invariant
                self.wf(),
                self.source == old(self).source,
                self.source@ == src,
                self.len == old(self).len,
                self.start == old(self).start,
                self.tokens == old(self).tokens,
                self.start + 1 <= self.current <= self.len,
                find_from(src, self.current as int, '"') == find_from(
                    src,
                    self.start + 1,
                    '"',
                ),
                self.line == line0 + newlines(src.subrange(self.start + 1, self.current as int)),
            decreases self.len - self.current,
        {
            proof {
                lemma_newlines_push(
                    src.subrange(self.start + 1, self.current as int),
                    src[self.current as int],
                );
                assert(src.subrange(self.start + 1, self.current + 1) =~= src.subrange(
                    self.start + 1,
                    self.current as int,
                ).push(src[self.current as int]));
                lemma_newlines_le_len(src.subrange(self.start + 1, self.current as int));
            }
            let c = self.advance();
            if c == '\n' {
                self.line = self.line + 1;
            }
        }
        if self.current >= self.len {
            return Err(error(self.line, String::from_str("Unterminated String")));
        }
        self.advance();
        let lexeme = self.lexeme(self.start, self.current);
        let literal = self.lexeme(self.start + 1, self.current - 1);
        let tok = Token::new(TokenType::String, WTSType::String(literal), lexeme, self.line);
        self.tokens.push(tok);
        proof {
            old(self).tokens@.lemma_push_map_commute(|t: Token| t@, tok);
        }
        Ok(())
    }

    /// Scans a bare word whose first character was just read.
    fn identifier(&mut self)
        requires
            old(self).wf(),
            old(self).start + 1 == old(self).current,
        ensures
            final(self).wf(),
            final(self).source == old(self).source,
            final(self).len == old(self).len,
            final(self).line == old(self).line,
            final(self).current >= old(self).current,
            final(self).current == word_end(old(self).source@, old(self).current as int),
            final(self).scanned() == old(self).scanned().push(
                plain(
                    TokenType::Word,
                    old(self).source@,
                    old(self).start as int,
                    word_end(old(self).source@, old(self).current as int),
                    old(self).line as nat,
                ),
            ),
    {
        let ghost src = self.source@;
        while self.current < self.len && !is_word_end(self.peek())
            invariant
                self.wf(),
                self.source == old(self).source,
                self.source@ == src,
                self.len == old(self).len,
                self.start == old(self).start,
                self.line == old(self).line,
                self.tokens == old(self).tokens,
                old(self).current <= self.current,
                word_end(src, self.current as int) == word_end(src, old(self).current as int),
            decreases self.len - self.current,
        {
            self.advance();
        }
        self.add_token(TokenType::Word);
    }

    /// Scans the rest of the source, appending its tokens and the end-of-input token. Fails on
    /// a quoted string that is not closed.
    pub fn scan_tokens(&mut self) -> (r: Result<(), SyntaxError>)
        requires
            old(self).wf(),
        ensures
            final(self).wf(),
            final(self).src() == old(self).src(),
            match scan_from(old(self).src(), old(self).pos(), old(self).cur_line(), old(self).scanned()) {
                Ok(ts) => r is Ok && final(self).scanned() == ts,
                Err(l) => r is Err && r->Err_0.line == l && r->Err_0.message@
                    == "Unterminated String"@,
            },
    {
        let ghost src = self.source@;
        while self.current < self.len
            invariant
                self.wf(),
                self.source == old(self).source,
                self.source@ == src,
                self.len == old(self).len,
                scan_from(src, old(self).pos(), old(self).cur_line(), old(self).scanned())
                    == scan_from(src, self.current as int, self.line as nat, self.scanned()),
            decreases self.len - self.current,
        {
            self.start = self.current;
            let c = self.advance();
            if c == '(' {
                self.add_token(TokenType::LeftParen);
            } else if c == ')' {
                self.add_token(TokenType::RightParen);
            } else if c == ';' {
                self.add_token(TokenType::Semicolon);
            } else if c == '|' {
                self.add_token(TokenType::Pipe);
            } else if c == '-' {
                if self.match_next('-') {
                    self.add_token(TokenType::LongFlag);
                } else {
                    self.add_token(TokenType::ShortFlag);
                }
            } else if c == '<' {
                if self.match_next('<') {
                    self.add_token(TokenType::DoubleRedirLeft);
                } else {
                    self.add_token(TokenType::RedirLeft);
                }
            } else if c == '>' {
                if self.match_next('>') {
                    self.add_token(TokenType::DoubleRedirRight);
                } else {
                    self.add_token(TokenType::RedirRight);
                }
            } else if c == '#' {
                if self.match_next('#') {
                    let ghost from = self.current as int;
                    let ghost toks = self.tokens@;
                    let ghost line = self.line;
                    while self.current < self.len && self.peek() != '\n'
                        invariant
                            self.wf(),
                            self.source == old(self).source,
                            self.source@ == src,
                            self.len == old(self).len,
                            self.tokens@ == toks,
                            self.line == line,
                            from <= self.current,
                            find_from(src, self.current as int, '\n') == find_from(src, from, '\n'),
                        decreases self.len - self.current,
                    {
                        self.advance();
                    }
                } else {
                    self.add_token(TokenType::Pound);
                }
            } else if c == '\n' {
                self.line = self.line + 1;
            } else if c == ' ' || c == '\r' || c == '\t' {
            } else if c == '"' {
                match self.string() {
                    Ok(()) => {},
                    Err(e) => {
                        return Err(e);
                    },
                }
            } else {
                self.identifier();
            }
        }
        let tok = Token::new(TokenType::EOF, WTSType::NONE, String::new(), self.line);
        let ghost before = self.tokens@;
        self.tokens.push(tok);
        proof {
            before.lemma_push_map_commute(|t: Token| t@, tok);
            assert(tok@.lexeme =~= Seq::<char>::empty());
        }
        Ok(())
    }
}

} // verus!
