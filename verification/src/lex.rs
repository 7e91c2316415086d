//! Tokens and the lexer: turns source text into identifiers, numbers and
//! punctuation, tracking 1-based row and column positions.

use vstd::prelude::*;
use vstd::slice::slice_to_vec;

use crate::diag::{Loc, LocV};

verus! {

/// The Unicode alphabetic class, as `char::is_alphabetic` decides it.
pub uninterp spec fn is_alphabetic_char(c: char) -> bool;

/// The Unicode numeric class, as `char::is_numeric` decides it.
pub uninterp spec fn is_numeric_char(c: char) -> bool;

/// The Unicode whitespace class, as `char::is_whitespace` decides it.
pub uninterp spec fn is_whitespace_char(c: char) -> bool;

/// Relies on char::is_alphabetic: the result depends on the character alone.
#[verifier::external_body]
fn char_is_alphabetic(c: char) -> (r: bool)
    ensures
        r == is_alphabetic_char(c),
{
    c.is_alphabetic()
}

/// Relies on char::is_numeric: the result depends on the character alone.
#[verifier::external_body]
fn char_is_numeric(c: char) -> (r: bool)
    ensures
        r == is_numeric_char(c),
{
    c.is_numeric()
}

/// Relies on char::is_whitespace: the result depends on the character alone.
#[verifier::external_body]
fn char_is_whitespace(c: char) -> (r: bool)
    ensures
        r == is_whitespace_char(c),
{
    c.is_whitespace()
}

/// Relies on char::is_alphanumeric, which std documents as satisfying
/// either `is_alphabetic` or `is_numeric`.
#[verifier::external_body]
fn char_is_alphanumeric(c: char) -> (r: bool)
    ensures
        r == (is_alphabetic_char(c) || is_numeric_char(c)),
{
    c.is_alphanumeric()
}

/// Relies on String::push: appends the one character to the string.
#[verifier::external_body]
fn push_char(s: &mut String, c: char)
    ensures
        final(s)@ == old(s)@.push(c),
{
    s.push(c)
}

/// The kinds of token the language knows.
#[derive(Clone, Copy, PartialEq, Eq, Structural, Debug)]
pub enum TokenKind {
    Ident,
    Number,
    Equals,
    Plus,
    Minus,
    SemiColon,
    OpenParen,
    ClosedParen,
    Colon,
    End,
    Unknown,
}

impl View for TokenKind {
    type V = TokenKind;

    open spec fn view(&self) -> TokenKind {
        *self
    }
}

impl DeepView for TokenKind {
    type V = TokenKind;

    open spec fn deep_view(&self) -> TokenKind {
        *self
    }
}

/// The word naming each token kind in messages to the user.
pub open spec fn spec_kind_name(k: TokenKind) -> Seq<char> {
    match k {
        TokenKind::Ident => "identifier"@,
        TokenKind::Number => "number"@,
        TokenKind::Equals => "equals"@,
        TokenKind::Plus => "plus"@,
        TokenKind::Minus => "minus"@,
        TokenKind::SemiColon => "semi-colon"@,
        TokenKind::OpenParen => "open paren"@,
        TokenKind::ClosedParen => "closed paren"@,
        TokenKind::Colon => "colon"@,
        TokenKind::End => "end of input"@,
        TokenKind::Unknown => "unknown token"@,
    }
}

impl TokenKind {
    /// A human-readable name for the kind.
    pub fn human(&self) -> (r: &'static str)
        ensures
            r@ == spec_kind_name(*self),
    {
        match self {
            TokenKind::Ident => "identifier",
            TokenKind::Number => "number",
            TokenKind::Equals => "equals",
            TokenKind::Plus => "plus",
            TokenKind::Minus => "minus",
            TokenKind::SemiColon => "semi-colon",
            TokenKind::OpenParen => "open paren",
            TokenKind::ClosedParen => "closed paren",
            TokenKind::Colon => "colon",
            TokenKind::End => "end of input",
            TokenKind::Unknown => "unknown token",
        }
    }
}

/// One token: its kind, its text as written, and where it starts.
#[derive(Debug)]
pub struct Token {
    pub kind: TokenKind,
    pub text: String,
    pub loc: Loc,
}

/// Mathematical image of a [`Token`].
#[verifier::ext_equal]
pub ghost struct TokenV {
    pub kind: TokenKind,
    pub text: Seq<char>,
    pub loc: LocV,
}

impl View for Token {
    type V = TokenV;

    open spec fn view(&self) -> TokenV {
        TokenV { kind: self.kind, text: self.text@, loc: self.loc@ }
    }
}

impl DeepView for Token {
    type V = TokenV;

    open spec fn deep_view(&self) -> TokenV {
        self.view()
    }
}

/// A failure raised while lexing or parsing source text.
#[derive(Debug)]
pub enum ParseError {
    /// The next token was none of the expected kinds.
    UnexpectedToken { expected: Vec<TokenKind>, actual: Token },
    /// A number literal does not fit the compiler's integer type or holds a
    /// digit it cannot read.
    InvalidNumber(Token),
    /// A parameter names a type the language does not know.
    UnknownType(Token),
    /// A function name was already defined at `prior`.
    FuncRedefinition { name: Token, prior: Loc },
    /// A parameter name was already bound at `prior`.
    ParamRedefinition { name: Token, prior: Loc },
}

/// Mathematical image of a [`ParseError`].
#[verifier::ext_equal]
pub ghost enum PErrV {
    UnexpectedToken { expected: Seq<TokenKind>, actual: TokenV },
    InvalidNumber(TokenV),
    UnknownType(TokenV),
    FuncRedefinition { name: TokenV, prior: LocV },
    ParamRedefinition { name: TokenV, prior: LocV },
}

impl View for ParseError {
    type V = PErrV;

    open spec fn view(&self) -> PErrV {
        match self {
            ParseError::UnexpectedToken { expected, actual } => PErrV::UnexpectedToken {
                expected: expected.deep_view(),
                actual: actual@,
            },
            ParseError::InvalidNumber(t) => PErrV::InvalidNumber(t@),
            ParseError::UnknownType(t) => PErrV::UnknownType(t@),
            ParseError::FuncRedefinition { name, prior } => PErrV::FuncRedefinition {
                name: name@,
                prior: prior@,
            },
            ParseError::ParamRedefinition { name, prior } => PErrV::ParamRedefinition {
                name: name@,
                prior: prior@,
            },
        }
    }
}

impl DeepView for ParseError {
    type V = PErrV;

    open spec fn deep_view(&self) -> PErrV {
        self.view()
    }
}

/// Mathematical image of a [`Lexer`]: the text, the file name, and the
/// cursor — absolute position, beginning of the current line, and 0-based
/// row.
#[verifier::ext_equal]
pub ghost struct LexerV {
    pub content: Seq<char>,
    pub file_path: Seq<char>,
    pub pos: int,
    pub bol: int,
    pub row: int,
}

/// The cursor always sits between the start of its line and the end of the
/// text, and cannot have passed more line breaks than characters.
pub open spec fn lexer_wf(lv: LexerV) -> bool {
    0 <= lv.bol <= lv.pos <= lv.content.len() < usize::MAX && 0 <= lv.row <= lv.pos
}

/// The state after consuming one character, tracking line starts.
pub open spec fn spec_chop(lv: LexerV) -> LexerV {
    if lv.pos < lv.content.len() {
        if lv.content[lv.pos] == '\n' {
            LexerV { pos: lv.pos + 1, bol: lv.pos + 1, row: lv.row + 1, ..lv }
        } else {
            LexerV { pos: lv.pos + 1, ..lv }
        }
    } else {
        lv
    }
}

/// The state after consuming `n` characters.
pub open spec fn spec_chop_n(lv: LexerV, n: nat) -> LexerV
    decreases n,
{
    if n == 0 {
        lv
    } else {
        spec_chop_n(spec_chop(lv), (n - 1) as nat)
    }
}

/// The state after skipping the whitespace run at the cursor.
pub open spec fn spec_trim_ws(lv: LexerV) -> LexerV
    decreases lv.content.len() - lv.pos,
{
    if lv.pos < lv.content.len() && is_whitespace_char(lv.content[lv.pos]) {
        spec_trim_ws(spec_chop(lv))
    } else {
        lv
    }
}

/// The state after consuming the rest of the line, line break included.
pub open spec fn spec_drop_line(lv: LexerV) -> LexerV
    decreases lv.content.len() - lv.pos,
{
    if lv.pos < lv.content.len() {
        if lv.content[lv.pos] == '\n' {
            spec_chop(lv)
        } else {
            spec_drop_line(spec_chop(lv))
        }
    } else {
        lv
    }
}

/// Consuming a character preserves the text, the file name and
/// well-formedness, and never moves backward.
pub proof fn lemma_chop(lv: LexerV)
    ensures
        spec_chop(lv).content == lv.content,
        spec_chop(lv).file_path == lv.file_path,
        lv.pos <= spec_chop(lv).pos <= lv.pos + 1,
        lv.pos < lv.content.len() ==> spec_chop(lv).pos == lv.pos + 1,
        lexer_wf(lv) ==> lexer_wf(spec_chop(lv)),
{
}

/// Skipping whitespace preserves the text, the file name and
/// well-formedness, and never moves backward nor past the end.
pub proof fn lemma_trim_ws(lv: LexerV)
    ensures
        spec_trim_ws(lv).content == lv.content,
        spec_trim_ws(lv).file_path == lv.file_path,
        lv.pos <= spec_trim_ws(lv).pos,
        lv.pos <= lv.content.len() ==> spec_trim_ws(lv).pos <= lv.content.len(),
        lexer_wf(lv) ==> lexer_wf(spec_trim_ws(lv)),
    decreases lv.content.len() - lv.pos,
{
    if lv.pos < lv.content.len() && is_whitespace_char(lv.content[lv.pos]) {
        lemma_chop(lv);
        lemma_trim_ws(spec_chop(lv));
    }
}

/// Skipping whitespace twice skips it once.
pub proof fn lemma_trim_ws_idempotent(lv: LexerV)
    ensures
        spec_trim_ws(spec_trim_ws(lv)) == spec_trim_ws(lv),
    decreases lv.content.len() - lv.pos,
{
    if lv.pos < lv.content.len() && is_whitespace_char(lv.content[lv.pos]) {
        lemma_chop(lv);
        lemma_trim_ws_idempotent(spec_chop(lv));
    }
}

/// Dropping a line preserves the text, the file name and well-formedness,
/// strictly advances whenever characters remain, and never passes the end.
pub proof fn lemma_drop_line(lv: LexerV)
    ensures
        spec_drop_line(lv).content == lv.content,
        spec_drop_line(lv).file_path == lv.file_path,
        lv.pos <= spec_drop_line(lv).pos,
        lv.pos < lv.content.len() ==> spec_drop_line(lv).pos > lv.pos,
        lv.pos <= lv.content.len() ==> spec_drop_line(lv).pos <= lv.content.len(),
        lexer_wf(lv) ==> lexer_wf(spec_drop_line(lv)),
    decreases lv.content.len() - lv.pos,
{
    if lv.pos < lv.content.len() {
        lemma_chop(lv);
        if lv.content[lv.pos] != '\n' {
            lemma_drop_line(spec_chop(lv));
        }
    }
}

/// Whether a line comment begins at the cursor.
pub open spec fn at_comment(lv: LexerV) -> bool {
    lv.pos + 2 <= lv.content.len() && lv.content[lv.pos] == '/' && lv.content[lv.pos + 1] == '/'
}

/// The state after skipping all whitespace and line comments at the cursor.
pub open spec fn spec_skip_trivia(lv: LexerV) -> LexerV
    decreases lv.content.len() - lv.pos,
        via skip_trivia_decreases
{
    let a = spec_trim_ws(lv);
    if at_comment(a) {
        spec_skip_trivia(spec_drop_line(a))
    } else {
        a
    }
}

#[via_fn]
proof fn skip_trivia_decreases(lv: LexerV) {
    let a = spec_trim_ws(lv);
    lemma_trim_ws(lv);
    if at_comment(a) {
        lemma_drop_line(a);
    }
}

/// Skipping trivia preserves the text, the file name and well-formedness,
/// and never moves backward nor past the end.
pub proof fn lemma_skip_trivia(lv: LexerV)
    ensures
        spec_skip_trivia(lv).content == lv.content,
        spec_skip_trivia(lv).file_path == lv.file_path,
        lv.pos <= spec_skip_trivia(lv).pos,
        lv.pos <= lv.content.len() ==> spec_skip_trivia(lv).pos <= lv.content.len(),
        lexer_wf(lv) ==> lexer_wf(spec_skip_trivia(lv)),
    decreases lv.content.len() - lv.pos,
{
    let a = spec_trim_ws(lv);
    lemma_trim_ws(lv);
    if at_comment(a) {
        lemma_drop_line(a);
        lemma_skip_trivia(spec_drop_line(a));
    }
}

/// The identifier run at the cursor — the maximal stretch of alphanumeric
/// characters — and the state after it.
pub open spec fn spec_lex_ident(lv: LexerV) -> (Seq<char>, LexerV)
    decreases lv.content.len() - lv.pos,
{
    if lv.pos < lv.content.len() && (is_alphabetic_char(lv.content[lv.pos]) || is_numeric_char(
        lv.content[lv.pos],
    )) {
        let (t, lv2) = spec_lex_ident(spec_chop(lv));
        (seq![lv.content[lv.pos]] + t, lv2)
    } else {
        (Seq::<char>::empty(), lv)
    }
}

/// The number run at the cursor — the maximal stretch of numeric characters
/// — and the state after it.
pub open spec fn spec_lex_number(lv: LexerV) -> (Seq<char>, LexerV)
    decreases lv.content.len() - lv.pos,
{
    if lv.pos < lv.content.len() && is_numeric_char(lv.content[lv.pos]) {
        let (t, lv2) = spec_lex_number(spec_chop(lv));
        (seq![lv.content[lv.pos]] + t, lv2)
    } else {
        (Seq::<char>::empty(), lv)
    }
}

/// A run preserves the text, the file name and well-formedness, and never
/// moves backward nor past the end.
pub proof fn lemma_lex_runs(lv: LexerV)
    ensures
        spec_lex_ident(lv).1.content == lv.content,
        spec_lex_ident(lv).1.file_path == lv.file_path,
        lv.pos <= spec_lex_ident(lv).1.pos,
        lv.pos <= lv.content.len() ==> spec_lex_ident(lv).1.pos <= lv.content.len(),
        lexer_wf(lv) ==> lexer_wf(spec_lex_ident(lv).1),
        spec_lex_number(lv).1.content == lv.content,
        spec_lex_number(lv).1.file_path == lv.file_path,
        lv.pos <= spec_lex_number(lv).1.pos,
        lv.pos <= lv.content.len() ==> spec_lex_number(lv).1.pos <= lv.content.len(),
        lexer_wf(lv) ==> lexer_wf(spec_lex_number(lv).1),
    decreases lv.content.len() - lv.pos,
{
    lemma_chop(lv);
    if lv.pos < lv.content.len() {
        lemma_lex_runs(spec_chop(lv));
    }
}

/// The location a token starting at the cursor carries: 1-based row and
/// column.
pub open spec fn spec_loc(lv: LexerV) -> LocV {
    LocV { file_path: lv.file_path, row: lv.row + 1, col: lv.pos - lv.bol + 1 }
}

/// The next token of the text and the state after it.  Trivia is skipped
/// first; then the end of input, an alphabetic start, a numeric start, one
/// of the fixed punctuation marks, or an unknown character decides the kind.
pub open spec fn spec_next_token(lv: LexerV) -> (TokenV, LexerV) {
    let a = spec_skip_trivia(lv);
    let loc = spec_loc(a);
    if a.pos >= a.content.len() {
        (TokenV { kind: TokenKind::End, text: Seq::<char>::empty(), loc }, a)
    } else {
        let c = a.content[a.pos];
        if is_alphabetic_char(c) {
            let (t, b) = spec_lex_ident(a);
            (TokenV { kind: TokenKind::Ident, text: t, loc }, b)
        } else if is_numeric_char(c) {
            let (t, b) = spec_lex_number(a);
            (TokenV { kind: TokenKind::Number, text: t, loc }, b)
        } else {
            let kind = if c == '=' {
                TokenKind::Equals
            } else if c == '+' {
                TokenKind::Plus
            } else if c == '-' {
                TokenKind::Minus
            } else if c == ';' {
                TokenKind::SemiColon
            } else if c == ':' {
                TokenKind::Colon
            } else if c == '(' {
                TokenKind::OpenParen
            } else if c == ')' {
                TokenKind::ClosedParen
            } else {
                TokenKind::Unknown
            };
            (TokenV { kind, text: seq![c], loc }, spec_chop(a))
        }
    }
}

/// The next token never moves the cursor backward; any token but the end of
/// input consumes at least one character.
pub proof fn lemma_next_token_advances(lv: LexerV)
    ensures
        ({
            let (t, lv2) = spec_next_token(lv);
            &&& lv2.content == lv.content
            &&& lv2.file_path == lv.file_path
            &&& lv.pos <= lv2.pos
            &&& t.kind != TokenKind::End ==> lv2.pos > lv.pos && lv2.pos <= lv.content.len()
            &&& lexer_wf(lv) ==> lexer_wf(lv2)
        }),
{
    let a = spec_skip_trivia(lv);
    lemma_skip_trivia(lv);
    if a.pos < a.content.len() {
        lemma_chop(a);
        lemma_lex_runs(spec_chop(a));
    }
}

/// The source lexer: the text as characters, the file it came from, and the
/// cursor.
pub struct Lexer {
    content: Vec<char>,
    file_path: String,
    pos: usize,
    bol: usize,
    row: usize,
}

impl View for Lexer {
    type V = LexerV;

    closed spec fn view(&self) -> LexerV {
        LexerV {
            content: self.content.deep_view(),
            file_path: self.file_path@,
            pos: self.pos as int,
            bol: self.bol as int,
            row: self.row as int,
        }
    }
}

impl Lexer {
    /// A lexer at the start of `content`.
    pub fn new(content: Vec<char>, file_path: String) -> (r: Self)
        requires
            content@.len() < usize::MAX,
        ensures
            r@ == (LexerV {
                content: content@,
                file_path: file_path@,
                pos: 0,
                bol: 0,
                row: 0,
            }),
            lexer_wf(r@),
    {
        let r = Lexer { content, file_path, pos: 0, bol: 0, row: 0 };
        proof {
            assert(r@.content =~= r@.content);
        }
        r
    }

    /// The character at the cursor, if any.
    fn current_char(&self) -> (r: Option<char>)
        ensures
            match r {
                Some(c) => self@.pos < self@.content.len() && c == self@.content[self@.pos],
                None => self@.pos >= self@.content.len(),
            },
    {
        if self.pos < self.content.len() {
            Some(self.content[self.pos])
        } else {
            None
        }
    }

    /// Consumes one character, updating the line bookkeeping.
    fn chop_char(&mut self)
        requires
            lexer_wf(old(self)@),
        ensures
            final(self)@ == spec_chop(old(self)@),
            lexer_wf(final(self)@),
    {
        if self.pos < self.content.len() {
            let x = self.content[self.pos];
            self.pos += 1;
            if x == '\n' {
                self.row += 1;
                self.bol = self.pos;
            }
        }
        proof {
            lemma_chop(old(self)@);
        }
    }

    /// Consumes `n` characters.
    fn chop_chars(&mut self, n: usize)
        requires
            lexer_wf(old(self)@),
        ensures
            final(self)@ == spec_chop_n(old(self)@, n as nat),
            lexer_wf(final(self)@),
    {
        let mut i: usize = 0;
        while i < n
            invariant
                0 <= i <= n,
                lexer_wf(self@),
                spec_chop_n(old(self)@, n as nat) == spec_chop_n(self@, (n - i) as nat),
            decreases n - i,
        {
            proof {
                lemma_chop(self@);
                assert(spec_chop_n(self@, (n - i) as nat) == spec_chop_n(
                    spec_chop(self@),
                    (n - i - 1) as nat,
                ));
            }
            self.chop_char();
            i += 1;
        }
    }

    /// Whether the text at the cursor starts with `prefix`.
    fn starts_with(&self, prefix: &[char]) -> (r: bool)
        requires
            lexer_wf(self@),
        ensures
            r == (self@.pos + prefix@.len() <= self@.content.len() && self@.content.subrange(
                self@.pos,
                self@.pos + prefix@.len(),
            ) =~= prefix@),
    {
        let n = prefix.len();
        if n > self.content.len() || self.pos > self.content.len() - n {
            proof {
                assert(self@.pos + prefix@.len() > self@.content.len());
            }
            return false;
        }
        let mut i: usize = 0;
        while i < n
            invariant
                n == prefix@.len(),
                self@.pos + n <= self@.content.len(),
                0 <= i <= n,
                forall|j: int|
                    0 <= j < i ==> self@.content[self@.pos + j] == prefix@[j],
                lexer_wf(self@),
            decreases n - i,
        {
            if self.content[self.pos + i] != prefix[i] {
                proof {
                    assert(self@.content.subrange(self@.pos, self@.pos + prefix@.len())[i as int]
                        != prefix@[i as int]);
                }
                return false;
            }
            i += 1;
        }
        proof {
            assert(self@.content.subrange(self@.pos, self@.pos + prefix@.len()) =~= prefix@);
        }
        true
    }

    /// Consumes the whitespace run at the cursor.
    fn trim_whitespaces(&mut self)
        requires
            lexer_wf(old(self)@),
        ensures
            final(self)@ == spec_trim_ws(old(self)@),
            lexer_wf(final(self)@),
    {
        loop
            invariant
                lexer_wf(self@),
                spec_trim_ws(old(self)@) == spec_trim_ws(self@),
            ensures
                lexer_wf(self@),
                self@ == spec_trim_ws(old(self)@),
            decreases self@.content.len() - self@.pos,
        {
            let stop = match self.current_char() {
                Some(x) => !char_is_whitespace(x),
                None => true,
            };
            if stop {
                proof {
                    assert(spec_trim_ws(self@) == self@);
                }
                break ;
            }
            self.chop_char();
        }
    }

    /// Consumes the rest of the current line, line break included.
    fn drop_line(&mut self)
        requires
            lexer_wf(old(self)@),
        ensures
            final(self)@ == spec_drop_line(old(self)@),
            lexer_wf(final(self)@),
    {
        loop
            invariant_except_break
                spec_drop_line(old(self)@) == spec_drop_line(self@),
            invariant
                lexer_wf(self@),
            ensures
                self@ == spec_drop_line(old(self)@),
            decreases self@.content.len() - self@.pos,
        {
            match self.current_char() {
                Some(x) => {
                    proof {
                        if x == '\n' {
                            assert(spec_drop_line(self@) == spec_chop(self@));
                        } else {
                            assert(spec_drop_line(self@) == spec_drop_line(spec_chop(self@)));
                        }
                    }
                    self.chop_char();
                    if x == '\n' {
                        break ;
                    }
                },
                None => {
                    proof {
                        assert(spec_drop_line(self@) == self@);
                    }
                    break ;
                },
            }
        }
    }

    /// Consumes and returns the identifier run at the cursor.
    fn lex_ident(&mut self) -> (text: String)
        requires
            lexer_wf(old(self)@),
        ensures
            (text@, final(self)@) == spec_lex_ident(old(self)@),
            lexer_wf(final(self)@),
    {
        let mut text = String::new();
        loop
            invariant
                lexer_wf(self@),
                spec_lex_ident(old(self)@).0 == text@ + spec_lex_ident(self@).0,
                spec_lex_ident(old(self)@).1 == spec_lex_ident(self@).1,
            ensures
                lexer_wf(self@),
                text@ == spec_lex_ident(old(self)@).0,
                self@ == spec_lex_ident(old(self)@).1,
            decreases self@.content.len() - self@.pos,
        {
            let x = match self.current_char() {
                Some(x) => x,
                None => {
                    proof {
                        assert(spec_lex_ident(self@).0 =~= Seq::<char>::empty());
                        assert(text@ + spec_lex_ident(self@).0 =~= text@);
                    }
                    break ;
                },
            };
            if char_is_alphanumeric(x) {
                let ghost tp = text@;
                let ghost rest = spec_lex_ident(spec_chop(self@)).0;
                proof {
                    assert(spec_lex_ident(self@).0 == seq![x] + rest);
                    assert(spec_lex_ident(self@).1 == spec_lex_ident(spec_chop(self@)).1);
                }
                self.chop_char();
                push_char(&mut text, x);
                proof {
                    assert(tp + (seq![x] + rest) =~= text@ + rest);
                }
            } else {
                proof {
                    assert(spec_lex_ident(self@).0 =~= Seq::<char>::empty());
                    assert(text@ + spec_lex_ident(self@).0 =~= text@);
                }
                break ;
            }
        }
        text
    }

    /// Consumes and returns the number run at the cursor.
    fn lex_number(&mut self) -> (text: String)
        requires
            lexer_wf(old(self)@),
        ensures
            (text@, final(self)@) == spec_lex_number(old(self)@),
            lexer_wf(final(self)@),
    {
        let mut text = String::new();
        loop
            invariant
                lexer_wf(self@),
                spec_lex_number(old(self)@).0 == text@ + spec_lex_number(self@).0,
                spec_lex_number(old(self)@).1 == spec_lex_number(self@).1,
            ensures
                lexer_wf(self@),
                text@ == spec_lex_number(old(self)@).0,
                self@ == spec_lex_number(old(self)@).1,
            decreases self@.content.len() - self@.pos,
        {
            let x = match self.current_char() {
                Some(x) => x,
                None => {
                    proof {
                        assert(spec_lex_number(self@).0 =~= Seq::<char>::empty());
                        assert(text@ + spec_lex_number(self@).0 =~= text@);
                    }
                    break ;
                },
            };
            if char_is_numeric(x) {
                let ghost tp = text@;
                let ghost rest = spec_lex_number(spec_chop(self@)).0;
                proof {
                    assert(spec_lex_number(self@).0 == seq![x] + rest);
                    assert(spec_lex_number(self@).1 == spec_lex_number(spec_chop(self@)).1);
                }
                self.chop_char();
                push_char(&mut text, x);
                proof {
                    assert(tp + (seq![x] + rest) =~= text@ + rest);
                }
            } else {
                proof {
                    assert(spec_lex_number(self@).0 =~= Seq::<char>::empty());
                    assert(text@ + spec_lex_number(self@).0 =~= text@);
                }
                break ;
            }
        }
        text
    }

    /// Lexes and returns the next token.
    pub fn next_token(&mut self) -> (r: Token)
        requires
            lexer_wf(old(self)@),
        ensures
            (r@, final(self)@) == spec_next_token(old(self)@),
            lexer_wf(final(self)@),
    {
        loop
            invariant
                lexer_wf(self@),
                spec_skip_trivia(old(self)@) == spec_skip_trivia(self@),
            ensures
                lexer_wf(self@),
                self@ == spec_skip_trivia(old(self)@),
            decreases self@.content.len() - self@.pos,
        {
            let ghost at_head = self@;
            self.trim_whitespaces();
            proof {
                lemma_trim_ws_idempotent(at_head);
                lemma_trim_ws(at_head);
            }
            if self.starts_with(&['/', '/']) {
                proof {
                    assert(self@.content.subrange(self@.pos, self@.pos + 2)[0]
                        == self@.content[self@.pos]);
                    assert(self@.content.subrange(self@.pos, self@.pos + 2)[1]
                        == self@.content[self@.pos + 1]);
                    assert(at_comment(self@));
                    assert(spec_trim_ws(self@) == self@);
                    assert(spec_skip_trivia(self@) == spec_skip_trivia(spec_drop_line(self@)));
                    lemma_drop_line(self@);
                }
                self.drop_line();
            } else {
                proof {
                    assert(!at_comment(self@));
                    assert(spec_trim_ws(self@) == self@);
                    assert(spec_skip_trivia(self@) == self@);
                }
                break ;
            }
        }
        let loc = Loc {
            file_path: self.file_path.clone(),
            row: self.row + 1,
            col: self.pos - self.bol + 1,
        };
        proof {
            assert(loc@ == spec_loc(self@));
        }
        let x = match self.current_char() {
            Some(x) => x,
            None => {
                return Token { kind: TokenKind::End, text: String::new(), loc };
            },
        };
        if char_is_alphabetic(x) {
            let text = self.lex_ident();
            return Token { kind: TokenKind::Ident, text, loc };
        }
        if char_is_numeric(x) {
            let text = self.lex_number();
            return Token { kind: TokenKind::Number, text, loc };
        }
        let kind = match x {
            '=' => TokenKind::Equals,
            '+' => TokenKind::Plus,
            '-' => TokenKind::Minus,
            ';' => TokenKind::SemiColon,
            ':' => TokenKind::Colon,
            '(' => TokenKind::OpenParen,
            ')' => TokenKind::ClosedParen,
            _ => TokenKind::Unknown,
        };
        let mut text = String::new();
        push_char(&mut text, x);
        let ghost a = self@;
        self.chop_chars(1);
        proof {
            assert(text@ =~= seq![x]);
            assert(spec_chop_n(a, 1) == spec_chop_n(spec_chop(a), 0));
            assert(spec_chop_n(spec_chop(a), 0) == spec_chop(a));
        }
        Token { kind, text, loc }
    }

    /// What [`Lexer::expect_tokens`] returns: the next token when its kind
    /// is among the expected ones, else that token wrapped in the error.
    pub open spec fn spec_expect(lv: LexerV, expected: Seq<TokenKind>) -> Result<
        (TokenV, LexerV),
        PErrV,
    > {
        let (t, lv2) = spec_next_token(lv);
        if expected.contains(t.kind) {
            Ok((t, lv2))
        } else {
            Err(PErrV::UnexpectedToken { expected, actual: t })
        }
    }

    /// Lexes the next token and hands it back when its kind is among
    /// `expected_kinds`; otherwise reports it as unexpected.
    pub fn expect_tokens(&mut self, expected_kinds: &[TokenKind]) -> (r: Result<Token, ParseError>)
        requires
            lexer_wf(old(self)@),
        ensures
            lexer_wf(final(self)@),
            match Lexer::spec_expect(old(self)@, expected_kinds.deep_view()) {
                Ok((t, lv2)) => r matches Ok(tok) && tok@ == t && final(self)@ == lv2,
                Err(e) => (r matches Err(err) && err@ == e) && final(self)@
                    == spec_next_token(old(self)@).1,
            },
    {
        let token = self.next_token();
        let n = expected_kinds.len();
        let mut i: usize = 0;
        while i < n
            invariant
                n == expected_kinds@.len(),
                0 <= i <= n,
                forall|j: int| 0 <= j < i ==> expected_kinds@[j] != token@.kind,
                lexer_wf(self@),
                (token@, self@) == spec_next_token(old(self)@),
            decreases n - i,
        {
            if token.kind == expected_kinds[i] {
                proof {
                    assert(expected_kinds.deep_view() =~= expected_kinds@);
                    assert(expected_kinds.deep_view().contains(token@.kind));
                }
                return Ok(token);
            }
            i += 1;
        }
        proof {
            assert(expected_kinds.deep_view() =~= expected_kinds@);
            assert(!expected_kinds.deep_view().contains(token@.kind));
        }
        let expected = slice_to_vec(expected_kinds);
        proof {
            assert(expected.deep_view() =~= expected_kinds.deep_view());
        }
        Err(ParseError::UnexpectedToken { expected, actual: token })
    }
}

} // verus!
