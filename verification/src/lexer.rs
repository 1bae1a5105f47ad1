//! Tokenization of PSL source text.
use vstd::prelude::*;
use crate::error::{ErrorV, PslError};
use crate::text::{
    char_is_numeric, char_is_whitespace, push_str, spec_is_numeric, spec_is_whitespace, string_push,
    to_chars,
};

verus! {

/// A token of PSL source.
#[derive(Debug, Clone, PartialEq)]
pub enum Token {
    LBracket,
    RBracket,
    Colon,
    Comma,
    Atom(String),
    Plus,
    Minus,
    Star,
    Slash,
    Gt,
    Lt,
    GtEq,
    LtEq,
    EqEq,
    NotEq,
    Eof,
}

/// The mathematical value of a `Token`.
pub enum TokenV {
    LBracket,
    RBracket,
    Colon,
    Comma,
    Atom(Seq<char>),
    Plus,
    Minus,
    Star,
    Slash,
    Gt,
    Lt,
    GtEq,
    LtEq,
    EqEq,
    NotEq,
    Eof,
}

impl View for Token {
    type V = TokenV;

    open spec fn view(&self) -> TokenV {
        match self {
            Token::LBracket => TokenV::LBracket,
            Token::RBracket => TokenV::RBracket,
            Token::Colon => TokenV::Colon,
            Token::Comma => TokenV::Comma,
            Token::Atom(s) => TokenV::Atom(s@),
            Token::Plus => TokenV::Plus,
            Token::Minus => TokenV::Minus,
            Token::Star => TokenV::Star,
            Token::Slash => TokenV::Slash,
            Token::Gt => TokenV::Gt,
            Token::Lt => TokenV::Lt,
            Token::GtEq => TokenV::GtEq,
            Token::LtEq => TokenV::LtEq,
            Token::EqEq => TokenV::EqEq,
            Token::NotEq => TokenV::NotEq,
            Token::Eof => TokenV::Eof,
        }
    }
}

/// The values of a sequence of tokens.
pub open spec fn tokens_view(ts: Seq<Token>) -> Seq<TokenV> {
    ts.map_values(|t: Token| t@)
}

impl Token {
    /// A copy of the token.
    pub fn duplicate(&self) -> (r: Token)
        ensures
            r@ == self@,
    {
        match self {
            Token::LBracket => Token::LBracket,
            Token::RBracket => Token::RBracket,
            Token::Colon => Token::Colon,
            Token::Comma => Token::Comma,
            Token::Atom(s) => Token::Atom(s.clone()),
            Token::Plus => Token::Plus,
            Token::Minus => Token::Minus,
            Token::Star => Token::Star,
            Token::Slash => Token::Slash,
            Token::Gt => Token::Gt,
            Token::Lt => Token::Lt,
            Token::GtEq => Token::GtEq,
            Token::LtEq => Token::LtEq,
            Token::EqEq => Token::EqEq,
            Token::NotEq => Token::NotEq,
            Token::Eof => Token::Eof,
        }
    }

    /// Whether the token marks the end of the input.
    pub fn is_eof(&self) -> (r: bool)
        ensures
            r == (self@ == TokenV::Eof),
    {
        match self {
            Token::Eof => true,
            _ => false,
        }
    }
}

// ---------------------------------------------------------------------------
// The model of lexing
// ---------------------------------------------------------------------------

/// Number of line breaks in `s`.
pub open spec fn newlines_in(s: Seq<char>) -> nat
    decreases s.len(),
{
    if s.len() == 0 {
        0
    } else {
        newlines_in(s.drop_last()) + if s.last() == '\n' { 1nat } else { 0nat }
    }
}

/// Number of characters of `s` after its last line break.
pub open spec fn column_offset(s: Seq<char>) -> nat
    decreases s.len(),
{
    if s.len() == 0 {
        0
    } else if s.last() == '\n' {
        0
    } else {
        column_offset(s.drop_last()) + 1
    }
}

/// The line (from 1) of position `p` of `s`.
pub open spec fn line_at(s: Seq<char>, p: nat) -> nat {
    1 + newlines_in(s.take(p as int))
}

/// The column (from 1) of position `p` of `s`.
pub open spec fn col_at(s: Seq<char>, p: nat) -> nat {
    1 + column_offset(s.take(p as int))
}

/// Characters with a meaning of their own in PSL: brackets, separators and
/// operators.
pub open spec fn is_syntax_char(c: char) -> bool {
    c == '[' || c == ']' || c == ':' || c == ',' || c == '+' || c == '-' || c == '*' || c == '/'
        || c == '>' || c == '<' || c == '=' || c == '!'
}

/// Control characters (below the space, and delete).
pub open spec fn is_control_char(c: char) -> bool {
    (c as u32) < 32 || c == '\u{7f}'
}

/// Characters that start an atom: words, numbers and the punctuation of
/// story text (`Go?`, `begins...`), anything visible without a meaning of
/// its own.
pub open spec fn starts_atom(c: char) -> bool {
    !spec_is_whitespace(c) && !is_syntax_char(c) && !is_control_char(c)
}

/// Characters that continue an atom: those that start one, and `-` and `!`
/// (`well-known`, `Welcome!`); a `!` before `=` is `!=` instead
/// (`continues_atom`).
pub open spec fn is_atom_char(c: char) -> bool {
    starts_atom(c) || c == '-' || c == '!'
}

fn syntax_char_exec(c: char) -> (r: bool)
    ensures
        r == is_syntax_char(c),
{
    c == '[' || c == ']' || c == ':' || c == ',' || c == '+' || c == '-' || c == '*' || c == '/'
        || c == '>' || c == '<' || c == '=' || c == '!'
}

fn starts_atom_exec(c: char) -> (r: bool)
    ensures
        r == starts_atom(c),
{
    !char_is_whitespace(c) && !syntax_char_exec(c) && !((c as u32) < 32 || c == '\u{7f}')
}

fn atom_char_exec(c: char) -> (r: bool)
    ensures
        r == is_atom_char(c),
{
    starts_atom_exec(c) || c == '-' || c == '!'
}

/// Whether the character at `p` continues an atom: an atom character, but
/// not a `!` that starts `!=`.
pub open spec fn continues_atom(s: Seq<char>, p: nat) -> bool {
    p < s.len() && is_atom_char(s[p as int]) && !(s[p as int] == '!' && p + 1 < s.len() && s[(p
        + 1) as int] == '=')
}

/// The end of the run of atom characters that starts at `p`.
pub open spec fn atom_end(s: Seq<char>, p: nat) -> nat
    decreases s.len() - p,
{
    if continues_atom(s, p) {
        atom_end(s, p + 1)
    } else {
        p
    }
}

/// The position of the line break that ends a comment whose text starts at
/// `p`, or the end of `s`.
pub open spec fn comment_end(s: Seq<char>, p: nat) -> nat
    decreases s.len() - p,
{
    if p < s.len() && s[p as int] != '\n' {
        comment_end(s, p + 1)
    } else {
        p
    }
}

pub proof fn lemma_comment_end_bounds(s: Seq<char>, p: nat)
    ensures
        p <= comment_end(s, p),
        p <= s.len() ==> comment_end(s, p) <= s.len(),
    decreases s.len() - p,
{
    if p < s.len() && s[p as int] != '\n' {
        lemma_comment_end_bounds(s, p + 1);
    }
}

pub proof fn lemma_atom_end_bounds(s: Seq<char>, p: nat)
    ensures
        p <= atom_end(s, p),
        p <= s.len() ==> atom_end(s, p) <= s.len(),
        forall|i: int| p <= i < atom_end(s, p) ==> is_atom_char(#[trigger] s[i]),
    decreases s.len() - p,
{
    if continues_atom(s, p) {
        lemma_atom_end_bounds(s, p + 1);
    }
}

/// The first position at or after `p` that starts neither white space nor a
/// `//` comment.
pub open spec fn skip_trivia(s: Seq<char>, p: nat) -> nat
    decreases s.len() - p,
{
    if p < s.len() && spec_is_whitespace(s[p as int]) {
        skip_trivia(s, p + 1)
    } else if p + 1 < s.len() && s[p as int] == '/' && s[(p + 1) as int] == '/' {
        proof {
            lemma_comment_end_bounds(s, p + 2);
        }
        skip_trivia(s, comment_end(s, p + 2))
    } else {
        p
    }
}

pub proof fn lemma_skip_trivia_bounds(s: Seq<char>, p: nat)
    ensures
        p <= skip_trivia(s, p),
        p <= s.len() ==> skip_trivia(s, p) <= s.len(),
    decreases s.len() - p,
{
    if p < s.len() && spec_is_whitespace(s[p as int]) {
        lemma_skip_trivia_bounds(s, p + 1);
    } else if p + 1 < s.len() && s[p as int] == '/' && s[(p + 1) as int] == '/' {
        lemma_comment_end_bounds(s, p + 2);
        lemma_skip_trivia_bounds(s, comment_end(s, p + 2));
    }
}

/// A lexing error at position `p`.
pub open spec fn lex_error(s: Seq<char>, p: nat, message: Seq<char>) -> ErrorV {
    ErrorV::Lex { line: line_at(s, p), col: col_at(s, p), message }
}

/// The token that starts exactly at `q`, and the position after it.
pub open spec fn token_at(s: Seq<char>, q: nat) -> (Result<TokenV, ErrorV>, nat) {
    if q >= s.len() {
        (Ok(TokenV::Eof), q)
    } else {
        let c = s[q as int];
        let next_is = |d: char| q + 1 < s.len() && s[(q + 1) as int] == d;
        if c == '[' {
            (Ok(TokenV::LBracket), q + 1)
        } else if c == ']' {
            (Ok(TokenV::RBracket), q + 1)
        } else if c == ':' {
            (Ok(TokenV::Colon), q + 1)
        } else if c == ',' {
            (Ok(TokenV::Comma), q + 1)
        } else if c == '+' {
            (Ok(TokenV::Plus), q + 1)
        } else if c == '-' {
            if q + 1 < s.len() && spec_is_numeric(s[(q + 1) as int]) {
                (Ok(TokenV::Atom(s.subrange(q as int, atom_end(s, q) as int))), atom_end(s, q))
            } else {
                (Ok(TokenV::Minus), q + 1)
            }
        } else if c == '*' {
            (Ok(TokenV::Star), q + 1)
        } else if c == '/' {
            (Ok(TokenV::Slash), q + 1)
        } else if c == '>' {
            if next_is('=') { (Ok(TokenV::GtEq), q + 2) } else { (Ok(TokenV::Gt), q + 1) }
        } else if c == '<' {
            if next_is('=') { (Ok(TokenV::LtEq), q + 2) } else { (Ok(TokenV::Lt), q + 1) }
        } else if c == '=' {
            if next_is('=') {
                (Ok(TokenV::EqEq), q + 2)
            } else {
                (Err(lex_error(s, q + 1, "Unexpected '='. Did you mean '=='?"@)), q + 1)
            }
        } else if c == '!' {
            if next_is('=') {
                (Ok(TokenV::NotEq), q + 2)
            } else {
                (Err(lex_error(s, q + 1, "Unexpected '!'. Did you mean '!='?"@)), q + 1)
            }
        } else if starts_atom(c) {
            (Ok(TokenV::Atom(s.subrange(q as int, atom_end(s, q) as int))), atom_end(s, q))
        } else {
            (Err(lex_error(s, q, "Unexpected character: '"@ + seq![c] + "'"@)), q)
        }
    }
}

/// The next token of `s` from position `p` on, after white space and
/// comments, and the position after it.
pub open spec fn next_token_at(s: Seq<char>, p: nat) -> (Result<TokenV, ErrorV>, nat) {
    token_at(s, skip_trivia(s, p))
}

/// Each token but the end marker consumes input.
pub proof fn lemma_next_token_progress(s: Seq<char>, p: nat)
    ensures
        ({
            let (r, np) = next_token_at(s, p);
            r matches Ok(t) && t != TokenV::Eof ==> p < np <= s.len()
        }),
{
    let q = skip_trivia(s, p);
    lemma_skip_trivia_bounds(s, p);
    if q < s.len() {
        lemma_atom_end_bounds(s, q);
        if q + 1 < s.len() {
            lemma_atom_end_bounds(s, q + 1);
        }
    }
}

/// Prefixes the tokens of a successful result.
pub open spec fn prepend_tokens(ts: Seq<TokenV>, r: Result<Seq<TokenV>, ErrorV>) -> Result<
    Seq<TokenV>,
    ErrorV,
> {
    match r {
        Ok(rest) => Ok(ts + rest),
        Err(e) => Err(e),
    }
}

/// The tokens of `s` from position `p` on, ending with `Eof`, or the first
/// error.
pub open spec fn tokenize_from(s: Seq<char>, p: nat) -> Result<Seq<TokenV>, ErrorV>
    decreases s.len() - p,
{
    let (r, np) = next_token_at(s, p);
    match r {
        Err(e) => Err(e),
        Ok(t) => if t == TokenV::Eof {
            Ok(seq![TokenV::Eof])
        } else {
            proof {
                lemma_next_token_progress(s, p);
            }
            prepend_tokens(seq![t], tokenize_from(s, np))
        },
    }
}

/// The tokens of `s`, ending with `Eof`, or the first error.
pub open spec fn spec_tokenize(s: Seq<char>) -> Result<Seq<TokenV>, ErrorV> {
    tokenize_from(s, 0)
}

/// Whether `ts` ends with the end marker and holds it nowhere else.
pub open spec fn ends_with_single_eof(ts: Seq<TokenV>) -> bool {
    &&& ts.len() > 0
    &&& ts.last() == TokenV::Eof
    &&& forall|i: int| 0 <= i < ts.len() - 1 ==> ts[i] != TokenV::Eof
}

proof fn lemma_tokenize_from_eof(s: Seq<char>, p: nat)
    ensures
        tokenize_from(s, p) matches Ok(ts) ==> ends_with_single_eof(ts),
    decreases s.len() - p,
{
    let (r, np) = next_token_at(s, p);
    if let Ok(t) = r {
        if t != TokenV::Eof {
            lemma_next_token_progress(s, p);
            lemma_tokenize_from_eof(s, np);
            if let Ok(rest) = tokenize_from(s, np) {
                let ts = seq![t] + rest;
                assert forall|i: int| 0 <= i < ts.len() - 1 implies ts[i] != TokenV::Eof by {
                    if i > 0 {
                        assert(ts[i] == rest[i - 1]);
                    }
                }
            }
        }
    }
}

/// Tokenizing ends with exactly one end marker: whenever the source
/// tokenizes, the last token is `Eof` and no other token is.
pub proof fn law_tokens_end_with_single_eof(s: Seq<char>)
    ensures
        spec_tokenize(s) matches Ok(ts) ==> ends_with_single_eof(ts),
{
    lemma_tokenize_from_eof(s, 0);
}


proof fn lemma_tokenize_from_count(s: Seq<char>, p: nat)
    requires
        p <= s.len(),
    ensures
        tokenize_from(s, p) matches Ok(ts) ==> ts.len() <= s.len() - p + 1,
    decreases s.len() - p,
{
    let (r, np) = next_token_at(s, p);
    if let Ok(t) = r {
        if t != TokenV::Eof {
            lemma_next_token_progress(s, p);
            lemma_tokenize_from_count(s, np);
        }
    }
}

/// Every token but the end marker consumes input: a source of `n`
/// characters gives at most `n + 1` tokens.
pub proof fn law_token_count_bounded(s: Seq<char>)
    ensures
        spec_tokenize(s) matches Ok(ts) ==> ts.len() <= s.len() + 1,
{
    lemma_tokenize_from_count(s, 0);
}

/// Tokenizing is reading one token after another: from any position, the
/// tokens are the next token followed by the tokens after it, up to and
/// including the end marker, and the first error stops it.
pub proof fn law_tokenize_is_next_token_repeated(s: Seq<char>, p: nat)
    ensures
        tokenize_from(s, p) == match next_token_at(s, p).0 {
            Err(e) => Err(e),
            Ok(t) => if t == TokenV::Eof {
                Ok(seq![TokenV::Eof])
            } else {
                prepend_tokens(seq![t], tokenize_from(s, next_token_at(s, p).1))
            },
        },
{
}

// ---------------------------------------------------------------------------
// The lexer
// ---------------------------------------------------------------------------

/// Reads tokens from PSL source, one at a time.
pub struct Lexer {
    input: Vec<char>,
    pos: usize,
    line: usize,
    col: usize,
}

/// The state of a lexer: its input, position, and the line and column of
/// that position.
pub struct LexerV {
    pub input: Seq<char>,
    pub pos: nat,
    pub line: nat,
    pub col: nat,
}

impl View for Lexer {
    type V = LexerV;

    closed spec fn view(&self) -> LexerV {
        LexerV {
            input: self.input@,
            pos: self.pos as nat,
            line: self.line as nat,
            col: self.col as nat,
        }
    }
}

proof fn lemma_newlines_bound(s: Seq<char>)
    ensures
        newlines_in(s) <= s.len(),
        column_offset(s) <= s.len(),
    decreases s.len(),
{
    if s.len() > 0 {
        lemma_newlines_bound(s.drop_last());
    }
}

impl Lexer {
    /// The lexer's state is coherent: its position lies in the input and its
    /// line and column are those of that position.
    pub open spec fn wf(&self) -> bool {
        &&& self@.pos <= self@.input.len()
        &&& self@.input.len() < usize::MAX
        &&& self@.line == line_at(self@.input, self@.pos)
        &&& self@.col == col_at(self@.input, self@.pos)
    }

    /// A lexer at the start of `input`.
    pub fn new(input: &str) -> (r: Lexer)
        requires
            input@.len() < usize::MAX,
        ensures
            r.wf(),
            r@.input == input@,
            r@.pos == 0,
    {
        let chars = to_chars(input);
        let r = Lexer { input: chars, pos: 0, line: 1, col: 1 };
        assert(r@.input.take(0) =~= Seq::<char>::empty());
        r
    }

    fn current_char(&self) -> (r: Option<char>)
        requires
            self.wf(),
        ensures
            self@.pos < self@.input.len() ==> r == Some(self@.input[self@.pos as int]),
            self@.pos >= self@.input.len() ==> r is None,
    {
        if self.pos < self.input.len() {
            Some(self.input[self.pos])
        } else {
            None
        }
    }

    fn peek_char(&self) -> (r: Option<char>)
        requires
            self.wf(),
        ensures
            self@.pos + 1 < self@.input.len() ==> r == Some(self@.input[(self@.pos + 1) as int]),
            self@.pos + 1 >= self@.input.len() ==> r is None,
    {
        if self.pos + 1 < self.input.len() {
            Some(self.input[self.pos + 1])
        } else {
            None
        }
    }

    fn advance(&mut self)
        requires
            old(self).wf(),
        ensures
            final(self).wf(),
            final(self)@.input == old(self)@.input,
            final(self)@.pos == if old(self)@.pos < old(self)@.input.len() {
                old(self)@.pos + 1
            } else {
                old(self)@.pos
            },
    {
        if let Some(ch) = self.current_char() {
            proof {
                let s = self@.input;
                let p = self@.pos;
                assert(s.take((p + 1) as int).drop_last() =~= s.take(p as int));
                assert(s.take((p + 1) as int).last() == s[p as int]);
                lemma_newlines_bound(s.take(p as int));
            }
            self.pos += 1;
            if ch == '\n' {
                self.line += 1;
                self.col = 1;
            } else {
                self.col += 1;
            }
        }
    }

    fn skip_whitespace(&mut self)
        requires
            old(self).wf(),
        ensures
            final(self).wf(),
            final(self)@.input == old(self)@.input,
            old(self)@.pos <= final(self)@.pos,
            skip_trivia(final(self)@.input, final(self)@.pos) == skip_trivia(
                old(self)@.input,
                old(self)@.pos,
            ),
            !(final(self)@.pos < final(self)@.input.len() && spec_is_whitespace(
                final(self)@.input[final(self)@.pos as int],
            )),
    {
        let ghost s = self@.input;
        let ghost p0 = self@.pos;
        loop
            invariant
                self.wf(),
                self@.input == s,
                p0 <= self@.pos,
                skip_trivia(s, self@.pos) == skip_trivia(s, p0),
            ensures
                !(self@.pos < s.len() && spec_is_whitespace(s[self@.pos as int])),
            decreases s.len() - self@.pos,
        {
            match self.current_char() {
                Some(ch) => {
                    if char_is_whitespace(ch) {
                        self.advance();
                    } else {
                        break;
                    }
                },
                None => break,
            }
        }
    }

    fn skip_comment(&mut self)
        requires
            old(self).wf(),
        ensures
            final(self).wf(),
            final(self)@.input == old(self)@.input,
            final(self)@.pos == if old(self)@.pos + 1 < old(self)@.input.len()
                && old(self)@.input[old(self)@.pos as int] == '/' && old(self)@.input[(old(self)@.pos + 1) as int] == '/' {
                comment_end(old(self)@.input, old(self)@.pos + 2)
            } else {
                old(self)@.pos
            },
    {
        let ghost s = self@.input;
        if self.current_char() == Some('/') && self.peek_char() == Some('/') {
            self.advance();
            self.advance();
            loop
                invariant
                    self.wf(),
                    self@.input == s,
                    comment_end(s, self@.pos) == comment_end(s, old(self)@.pos + 2),
                ensures
                    self@.pos == comment_end(s, old(self)@.pos + 2),
                decreases s.len() - self@.pos,
            {
                match self.current_char() {
                    Some(ch) => {
                        if ch == '\n' {
                            break;
                        }
                        self.advance();
                    },
                    None => break,
                }
            }
        }
    }

    fn read_atom(&mut self) -> (atom: String)
        requires
            old(self).wf(),
        ensures
            final(self).wf(),
            final(self)@.input == old(self)@.input,
            final(self)@.pos == atom_end(old(self)@.input, old(self)@.pos),
            atom@ == old(self)@.input.subrange(
                old(self)@.pos as int,
                atom_end(old(self)@.input, old(self)@.pos) as int,
            ),
    {
        let ghost s = self@.input;
        let ghost p0 = self@.pos;
        let mut atom = String::new();
        loop
            invariant
                self.wf(),
                self@.input == s,
                p0 <= self@.pos,
                atom_end(s, self@.pos) == atom_end(s, p0),
                atom@ == s.subrange(p0 as int, self@.pos as int),
            ensures
                self@.pos == atom_end(s, p0),
            decreases s.len() - self@.pos,
        {
            let ch = match self.current_char() {
                Some(ch) => ch,
                None => break,
            };
            let before_ne = ch == '!' && match self.peek_char() {
                Some(d) => d == '=',
                None => false,
            };
            if atom_char_exec(ch) && !before_ne {
                string_push(&mut atom, ch);
                proof {
                    assert(s.subrange(p0 as int, (self@.pos + 1) as int) =~= s.subrange(
                        p0 as int,
                        self@.pos as int,
                    ).push(ch));
                }
                self.advance();
            } else {
                break;
            }
        }
        atom
    }

    fn error_here(&self, message: String) -> (e: PslError)
        requires
            self.wf(),
        ensures
            e@ == lex_error(self@.input, self@.pos, message@),
    {
        PslError::LexError { line: self.line, col: self.col, message }
    }

    /// Reads the next token after white space and comments, or reports the
    /// first character that starts no token.
    pub fn next_token(&mut self) -> (r: Result<Token, PslError>)
        requires
            old(self).wf(),
        ensures
            final(self).wf(),
            final(self)@.input == old(self)@.input,
            final(self)@.pos == next_token_at(old(self)@.input, old(self)@.pos).1,
            match r {
                Ok(t) => next_token_at(old(self)@.input, old(self)@.pos).0 == Ok::<
                    TokenV,
                    ErrorV,
                >(t@),
                Err(e) => next_token_at(old(self)@.input, old(self)@.pos).0 == Err::<
                    TokenV,
                    ErrorV,
                >(e@),
            },
    {
        let ghost s = self@.input;
        let ghost p0 = self@.pos;
        loop
            invariant
                self.wf(),
                self@.input == s,
                s == old(self)@.input,
                p0 == old(self)@.pos,
                skip_trivia(s, self@.pos) == skip_trivia(s, p0),
            decreases s.len() - self@.pos,
        {
            let ghost p_start = self@.pos;
            self.skip_whitespace();
            let ghost p1 = self@.pos;
            self.skip_comment();
            proof {
                if p1 + 1 < s.len() && s[p1 as int] == '/' && s[(p1 + 1) as int] == '/' {
                    lemma_comment_end_bounds(s, (p1 + 2) as nat);
                }
            }
            self.skip_whitespace();
            let ghost q = self@.pos;
            proof {
                lemma_newlines_bound(s);
            }
            match self.current_char() {
                None => {
                    assert(skip_trivia(s, q) == q);
                    return Ok(Token::Eof);
                },
                Some('[') => {
                    self.advance();
                    return Ok(Token::LBracket);
                },
                Some(']') => {
                    self.advance();
                    return Ok(Token::RBracket);
                },
                Some(':') => {
                    self.advance();
                    return Ok(Token::Colon);
                },
                Some(',') => {
                    self.advance();
                    return Ok(Token::Comma);
                },
                Some('+') => {
                    self.advance();
                    return Ok(Token::Plus);
                },
                Some('-') => {
                    let numeric_next = match self.peek_char() {
                        Some(c) => char_is_numeric(c),
                        None => false,
                    };
                    if numeric_next {
                        let atom = self.read_atom();
                        return Ok(Token::Atom(atom));
                    } else {
                        self.advance();
                        return Ok(Token::Minus);
                    }
                },
                Some('*') => {
                    self.advance();
                    return Ok(Token::Star);
                },
                Some('/') => {
                    if self.peek_char() == Some('/') {
                        self.skip_comment();
                        proof {
                            lemma_comment_end_bounds(s, (q + 2) as nat);
                        }
                        continue ;
                    } else {
                        self.advance();
                        return Ok(Token::Slash);
                    }
                },
                Some('>') => {
                    self.advance();
                    if self.current_char() == Some('=') {
                        self.advance();
                        return Ok(Token::GtEq);
                    }
                    return Ok(Token::Gt);
                },
                Some('<') => {
                    self.advance();
                    if self.current_char() == Some('=') {
                        self.advance();
                        return Ok(Token::LtEq);
                    }
                    return Ok(Token::Lt);
                },
                Some('=') => {
                    self.advance();
                    if self.current_char() == Some('=') {
                        self.advance();
                        return Ok(Token::EqEq);
                    }
                    return Err(
                        self.error_here(String::from_str("Unexpected '='. Did you mean '=='?")),
                    );
                },
                Some('!') => {
                    self.advance();
                    if self.current_char() == Some('=') {
                        self.advance();
                        return Ok(Token::NotEq);
                    }
                    return Err(
                        self.error_here(String::from_str("Unexpected '!'. Did you mean '!='?")),
                    );
                },
                Some(ch) => {
                    if starts_atom_exec(ch) {
                        let atom = self.read_atom();
                        return Ok(Token::Atom(atom));
                    }
                    let mut message = String::from_str("Unexpected character: '");
                    string_push(&mut message, ch);
                    push_str(&mut message, "'");
                    proof {
                        assert(message@ =~= "Unexpected character: '"@ + seq![ch] + "'"@);
                    }
                    return Err(self.error_here(message));
                },
            }
        }
    }
}

/// Splits PSL source into tokens ending with `Eof`, or reports the first
/// lexing error.
pub fn tokenize(input: &str) -> (r: Result<Vec<Token>, PslError>)
    requires
        input@.len() < usize::MAX,
    ensures
        match r {
            Ok(ts) => spec_tokenize(input@) == Ok::<Seq<TokenV>, ErrorV>(tokens_view(ts@)),
            Err(e) => spec_tokenize(input@) == Err::<Seq<TokenV>, ErrorV>(e@),
        },
        r matches Ok(ts) ==> ends_with_single_eof(tokens_view(ts@)) && ts@.len() <= input@.len() + 1,
{
    let mut lexer = Lexer::new(input);
    let mut tokens: Vec<Token> = Vec::new();
    let ghost s = input@;
    proof {
        law_tokens_end_with_single_eof(s);
        law_token_count_bounded(s);
    }
    loop
        invariant
            spec_tokenize(s) matches Ok(ts) ==> ends_with_single_eof(ts) && ts.len() <= s.len() + 1,
            lexer.wf(),
            lexer@.input == s,
            s == input@,
            spec_tokenize(s) == prepend_tokens(tokens_view(tokens@), tokenize_from(s, lexer@.pos)),
        decreases s.len() - lexer@.pos,
    {
        let ghost p = lexer@.pos;
        proof {
            lemma_next_token_progress(s, p);
        }
        let ghost before = tokens_view(tokens@);
        let token = match lexer.next_token() {
            Ok(t) => t,
            Err(e) => {
                assert(tokenize_from(s, p) == Err::<Seq<TokenV>, ErrorV>(e@));
                return Err(e);
            },
        };
        let ghost t = token@;
        let is_end = token.is_eof();
        tokens.push(token);
        proof {
            assert(tokens_view(tokens@) =~= before + seq![t]);
        }
        if is_end {
            assert(tokenize_from(s, p) == Ok::<Seq<TokenV>, ErrorV>(seq![TokenV::Eof]));
            return Ok(tokens);
        }
        proof {
            assert(tokenize_from(s, p) == prepend_tokens(seq![t], tokenize_from(s, lexer@.pos)));
            match tokenize_from(s, lexer@.pos) {
                Ok(rest) => {
                    assert(before + (seq![t] + rest) =~= tokens_view(tokens@) + rest);
                },
                Err(_) => {},
            }
        }
    }
}

} // verus!
