//! The scanner: from source text to tokens.
//!
//! `lex` says, as a function of the source text alone, which tokens and which
//! errors a scan yields; `Scanner::scan` computes it in one forward pass.
//!
//! A scan leaves a `Number` token without literal: its lexeme is the
//! numeral. `numerals` hands the numerals out to be decoded, and `attach`
//! gives the tokens the numbers that came of them.

use vstd::prelude::*;
use crate::err::{error_models, ErrorModel, LoxError};
use crate::model::{token_models, TokenModel, Value};
use crate::number::Number;
use crate::text::{chars_of, text_of};
use crate::token::Token;
use crate::token_type::TokenType;

verus! {

/// Whether `c` has the Unicode property `Alphabetic`, as `char::is_alphabetic`
/// decides it.
pub uninterp spec fn alphabetic(c: char) -> bool;

/// Whether `c` is numeric in Unicode's sense (of the general categories Nd,
/// Nl or No), as `char::is_numeric` decides it.
pub uninterp spec fn numeric(c: char) -> bool;

/// `char::is_alphabetic` is a function of the character alone.
pub assume_specification[ char::is_alphabetic ](c: char) -> (r: bool)
    ensures
        r == alphabetic(c),
;

/// `char::is_alphanumeric` holds of the characters of which
/// `char::is_alphabetic` or `char::is_numeric` holds.
pub assume_specification[ char::is_alphanumeric ](c: char) -> (r: bool)
    ensures
        r == (alphabetic(c) || numeric(c)),
;

/// Whether `c` is one of the ten ASCII digits.
pub open spec fn is_digit(c: char) -> bool {
    '0' <= c && c <= '9'
}

/// Whether an identifier or keyword may begin with `c`.
pub open spec fn starts_name(c: char) -> bool {
    alphabetic(c) || c == '_' || c == '-'
}

/// Whether an identifier or keyword may go on with `c`.
pub open spec fn continues_name(c: char) -> bool {
    alphabetic(c) || numeric(c) || c == '_' || c == '-'
}

/// A stretch of characters that the scanner reads in one go.
#[derive(Clone, Copy, Debug)]
pub enum Run {
    /// Decimal digits.
    Digits,
    /// The rest of an identifier or keyword.
    Name,
    /// The rest of a line comment: everything but a line feed.
    Comment,
    /// The inside of a string literal: everything but a double quote.
    Text,
}

/// Whether `c` belongs to a run of the given kind.
pub open spec fn in_run(run: Run, c: char) -> bool {
    match run {
        Run::Digits => is_digit(c),
        Run::Name => continues_name(c),
        Run::Comment => c != '\n',
        Run::Text => c != '"',
    }
}

/// Where the run that starts at `pos` ends: the first position from `pos` on
/// whose character is outside the run, or the end of the text.
pub open spec fn run_end(run: Run, src: Seq<char>, pos: int) -> int
    decreases src.len() - pos,
{
    if 0 <= pos < src.len() && in_run(run, src[pos]) {
        run_end(run, src, pos + 1)
    } else {
        pos
    }
}

/// How many line feeds `src[from..to]` holds.
pub open spec fn newlines(src: Seq<char>, from: int, to: int) -> nat
    decreases to - from,
{
    if from >= to {
        0
    } else {
        newlines(src, from, to - 1) + if src[to - 1] == '\n' {
            1nat
        } else {
            0nat
        }
    }
}

/// The line counter after `n` more line feeds. It stops at the largest line
/// number a token can carry.
pub open spec fn advance_line(line: int, n: nat) -> int {
    if line + n > i32::MAX {
        i32::MAX as int
    } else {
        line + n
    }
}

/// The keyword that `word` spells, if it spells one.
pub open spec fn keyword(word: Seq<char>) -> Option<TokenType> {
    if word == "and"@ {
        Some(TokenType::And)
    } else if word == "class"@ {
        Some(TokenType::Class)
    } else if word == "else"@ {
        Some(TokenType::Else)
    } else if word == "false"@ {
        Some(TokenType::False)
    } else if word == "for"@ {
        Some(TokenType::For)
    } else if word == "fun"@ {
        Some(TokenType::Fun)
    } else if word == "if"@ {
        Some(TokenType::If)
    } else if word == "nil"@ {
        Some(TokenType::Nil)
    } else if word == "or"@ {
        Some(TokenType::Or)
    } else if word == "return"@ {
        Some(TokenType::Return)
    } else if word == "super"@ {
        Some(TokenType::Super)
    } else if word == "this"@ {
        Some(TokenType::This)
    } else if word == "true"@ {
        Some(TokenType::True)
    } else if word == "var"@ {
        Some(TokenType::Var)
    } else if word == "while"@ {
        Some(TokenType::While)
    } else if word == "import"@ {
        Some(TokenType::Import)
    } else {
        None
    }
}

/// What scanning one lexeme yields: where the next one starts, the line
/// counter there, and the token or the error, if any.
pub struct Step {
    pub next: int,
    pub line: int,
    pub token: Option<TokenModel>,
    pub error: Option<ErrorModel>,
}

/// A token without a literal, read from `src[from..to]`.
pub open spec fn plain(src: Seq<char>, from: int, to: int, line: int, kind: TokenType) -> Step {
    Step {
        next: to,
        line,
        token: Some(TokenModel { kind, lexeme: src.subrange(from, to), line, literal: None }),
        error: None,
    }
}

/// Nothing but progress to `next`.
pub open spec fn skipped(next: int, line: int) -> Step {
    Step { next, line, token: None, error: None }
}

/// An operator of one character that `=` may follow to make another.
pub open spec fn with_equal(
    src: Seq<char>,
    pos: int,
    line: int,
    long: TokenType,
    short: TokenType,
) -> Step {
    if pos + 1 < src.len() && src[pos + 1] == '=' {
        plain(src, pos, pos + 2, line, long)
    } else {
        plain(src, pos, pos + 1, line, short)
    }
}

/// A string literal that opens at `pos`. It may span lines; the token and
/// the error for a missing closing quote carry the line on which the scan of
/// the literal ended.
pub open spec fn string_step(src: Seq<char>, pos: int, line: int) -> Step {
    let close = run_end(Run::Text, src, pos + 1);
    let last = advance_line(line, newlines(src, pos + 1, close));
    if close >= src.len() {
        Step {
            next: close,
            line: last,
            token: None,
            error: Some(ErrorModel { message: "Unterminated string"@, line: last }),
        }
    } else {
        Step {
            next: close + 1,
            line: last,
            token: Some(
                TokenModel {
                    kind: TokenType::String,
                    lexeme: src.subrange(pos, close + 1),
                    line: last,
                    literal: Some(Value::Text(src.subrange(pos + 1, close))),
                },
            ),
            error: None,
        }
    }
}

/// Where the numeral that starts at `pos` ends: digits, then at most one
/// point that digits follow.
pub open spec fn number_end(src: Seq<char>, pos: int) -> int {
    let whole = run_end(Run::Digits, src, pos + 1);
    if whole + 1 < src.len() && src[whole] == '.' && is_digit(src[whole + 1]) {
        run_end(Run::Digits, src, whole + 1)
    } else {
        whole
    }
}

/// An identifier or keyword that starts at `pos`.
pub open spec fn name_step(src: Seq<char>, pos: int, line: int) -> Step {
    let end = run_end(Run::Name, src, pos + 1);
    let kind = match keyword(src.subrange(pos, end)) {
        Some(k) => k,
        None => TokenType::Identifier,
    };
    plain(src, pos, end, line, kind)
}

/// The lexeme that starts at `pos`, with the line counter at `line`.
pub open spec fn scan_step(src: Seq<char>, pos: int, line: int) -> Step
    recommends
        0 <= pos < src.len(),
{
    let c = src[pos];
    if c == '(' {
        plain(src, pos, pos + 1, line, TokenType::LeftParenthesis)
    } else if c == ')' {
        plain(src, pos, pos + 1, line, TokenType::RightParenthesis)
    } else if c == '{' {
        plain(src, pos, pos + 1, line, TokenType::LeftBrace)
    } else if c == '}' {
        plain(src, pos, pos + 1, line, TokenType::RightBrace)
    } else if c == ',' {
        plain(src, pos, pos + 1, line, TokenType::Comma)
    } else if c == '.' {
        plain(src, pos, pos + 1, line, TokenType::Dot)
    } else if c == '-' {
        plain(src, pos, pos + 1, line, TokenType::Minus)
    } else if c == '+' {
        plain(src, pos, pos + 1, line, TokenType::Plus)
    } else if c == ';' {
        plain(src, pos, pos + 1, line, TokenType::Semicolon)
    } else if c == '*' {
        plain(src, pos, pos + 1, line, TokenType::Star)
    } else if c == '!' {
        with_equal(src, pos, line, TokenType::BangEqual, TokenType::Bang)
    } else if c == '=' {
        with_equal(src, pos, line, TokenType::EqualEqual, TokenType::Equal)
    } else if c == '<' {
        with_equal(src, pos, line, TokenType::LessEqual, TokenType::Less)
    } else if c == '>' {
        with_equal(src, pos, line, TokenType::GreaterEqual, TokenType::Greater)
    } else if c == '/' {
        if pos + 1 < src.len() && src[pos + 1] == '/' {
            skipped(run_end(Run::Comment, src, pos + 2), line)
        } else {
            plain(src, pos, pos + 1, line, TokenType::Slash)
        }
    } else if c == '"' {
        string_step(src, pos, line)
    } else if c == '\n' {
        skipped(pos + 1, advance_line(line, 1))
    } else if c == ' ' || c == '\r' || c == '\t' {
        skipped(pos + 1, line)
    } else if is_digit(c) {
        plain(src, pos, number_end(src, pos), line, TokenType::Number)
    } else if starts_name(c) {
        name_step(src, pos, line)
    } else {
        Step {
            next: pos + 1,
            line,
            token: None,
            error: Some(ErrorModel { message: "Unexpected character"@, line }),
        }
    }
}

/// The token that ends every token sequence.
pub open spec fn end_of_input(line: int) -> TokenModel {
    TokenModel { kind: TokenType::EOF, lexeme: Seq::empty(), line, literal: None }
}

/// The tokens and the errors of a scan.
pub struct Lexed {
    pub tokens: Seq<TokenModel>,
    pub errors: Seq<ErrorModel>,
}

/// The sequence that holds `item`, or nothing.
pub open spec fn optional<T>(item: Option<T>) -> Seq<T> {
    match item {
        Some(x) => seq![x],
        None => Seq::empty(),
    }
}

/// The scan of `src` from `pos` on, with the line counter at `line`: lexeme
/// after lexeme, then the end-of-input token. An error does not stop it.
pub open spec fn lex_from(src: Seq<char>, pos: int, line: int) -> Lexed
    decreases src.len() - pos,
    via lex_from_terminates
{
    if 0 <= pos < src.len() {
        let step = scan_step(src, pos, line);
        let rest = lex_from(src, step.next, step.line);
        Lexed {
            tokens: optional(step.token) + rest.tokens,
            errors: optional(step.error) + rest.errors,
        }
    } else {
        Lexed { tokens: seq![end_of_input(line)], errors: Seq::empty() }
    }
}

#[via_fn]
proof fn lex_from_terminates(src: Seq<char>, pos: int, line: int) {
    if 0 <= pos < src.len() {
        lemma_step_advances(src, pos, line);
    }
}

/// The scan of a whole source text.
pub open spec fn lex(src: Seq<char>) -> Lexed {
    lex_from(src, 0, 0)
}

/// A run ends within the text, at or after its start.
pub proof fn lemma_run_end_bounds(run: Run, src: Seq<char>, pos: int)
    requires
        0 <= pos <= src.len(),
    ensures
        pos <= run_end(run, src, pos) <= src.len(),
    decreases src.len() - pos,
{
    if pos < src.len() && in_run(run, src[pos]) {
        lemma_run_end_bounds(run, src, pos + 1);
    }
}

/// Every lexeme takes at least one character, and none reaches past the end.
pub proof fn lemma_step_advances(src: Seq<char>, pos: int, line: int)
    requires
        0 <= pos < src.len(),
    ensures
        pos < scan_step(src, pos, line).next <= src.len(),
{
    lemma_run_end_bounds(Run::Comment, src, pos + 1);
    if pos + 2 <= src.len() {
        lemma_run_end_bounds(Run::Comment, src, pos + 2);
    }
    lemma_run_end_bounds(Run::Text, src, pos + 1);
    lemma_run_end_bounds(Run::Name, src, pos + 1);
    lemma_run_end_bounds(Run::Digits, src, pos + 1);
    let whole = run_end(Run::Digits, src, pos + 1);
    if whole + 1 < src.len() {
        lemma_run_end_bounds(Run::Digits, src, whole + 1);
    }
}

/// No lexeme is the end-of-input token.
pub proof fn lemma_step_is_not_end(src: Seq<char>, pos: int, line: int)
    requires
        0 <= pos < src.len(),
    ensures
        scan_step(src, pos, line).token matches Some(t) ==> t.kind != TokenType::EOF,
{
}

/// From any position, a scan ends with the end-of-input token and holds no
/// other.
pub proof fn lemma_end_of_input_from(src: Seq<char>, pos: int, line: int)
    requires
        0 <= pos <= src.len(),
    ensures
        lex_from(src, pos, line).tokens.len() > 0,
        lex_from(src, pos, line).tokens.last().kind == TokenType::EOF,
        forall|i: int|
            0 <= i < lex_from(src, pos, line).tokens.len() - 1 ==> (#[trigger] lex_from(
                src,
                pos,
                line,
            ).tokens[i]).kind != TokenType::EOF,
    decreases src.len() - pos,
{
    if pos < src.len() {
        let step = scan_step(src, pos, line);
        lemma_step_advances(src, pos, line);
        lemma_step_is_not_end(src, pos, line);
        lemma_end_of_input_from(src, step.next, step.line);
    }
}

/// In the tokens of any source text the end-of-input token is the last one,
/// and only the last one.
pub proof fn lemma_end_of_input_last(src: Seq<char>)
    ensures
        lex(src).tokens.len() > 0,
        lex(src).tokens.last().kind == TokenType::EOF,
        forall|i: int|
            0 <= i < lex(src).tokens.len() - 1 ==> (#[trigger] lex(src).tokens[i]).kind
                != TokenType::EOF,
{
    lemma_end_of_input_from(src, 0, 0);
}

/// The lexeme of a token is the stretch of the source text that the scan
/// of the token took, and it is not empty: nothing is made of whitespace.
pub proof fn lemma_lexeme_is_read(src: Seq<char>, pos: int, line: int)
    requires
        0 <= pos < src.len(),
    ensures
        scan_step(src, pos, line).token matches Some(t) ==> t.lexeme == src.subrange(
            pos,
            scan_step(src, pos, line).next,
        ) && t.lexeme.len() > 0,
{
    lemma_step_advances(src, pos, line);
}

/// The line counter never goes back.
pub proof fn lemma_lines_go_on(src: Seq<char>, pos: int, line: int)
    requires
        0 <= pos < src.len(),
        0 <= line <= i32::MAX,
    ensures
        line <= scan_step(src, pos, line).line <= i32::MAX,
{
}

/// A text without a double quote is one run of the inside of a string.
pub proof fn lemma_unquoted_run(src: Seq<char>, pos: int)
    requires
        0 <= pos <= src.len(),
        forall|i: int| pos <= i < src.len() ==> src[i] != '"',
    ensures
        run_end(Run::Text, src, pos) == src.len(),
    decreases src.len() - pos,
{
    if pos < src.len() {
        lemma_unquoted_run(src, pos + 1);
    }
}

/// A source text that is one string literal without its closing quote
/// yields one error and no token but the end of input. The line of both is
/// the line on which the scan ended: the number of line feeds in the text,
/// lines being counted from zero.
pub proof fn lemma_unterminated_string(src: Seq<char>)
    requires
        src.len() > 0,
        src[0] == '"',
        forall|i: int| 1 <= i < src.len() ==> src[i] != '"',
    ensures
        lex(src).errors == seq![
            ErrorModel {
                message: "Unterminated string"@,
                line: advance_line(0, newlines(src, 1, src.len() as int)),
            },
        ],
        lex(src).tokens == seq![end_of_input(advance_line(0, newlines(src, 1, src.len() as int)))],
{
    lemma_unquoted_run(src, 1);
    let last = advance_line(0, newlines(src, 1, src.len() as int));
    let step = scan_step(src, 0, 0);
    assert(step == string_step(src, 0, 0));
    assert(step.next == src.len());
    assert(step.line == last);
    let rest = lex_from(src, step.next, step.line);
    assert(rest.tokens == seq![end_of_input(last)]);
    assert(rest.errors == Seq::<ErrorModel>::empty());
    assert(lex(src).errors == optional(step.error) + rest.errors);
    assert(lex(src).tokens == optional(step.token) + rest.tokens);
}

/// Whether two texts are the same.
pub fn same_text(a: &str, b: &str) -> (r: bool)
    ensures
        r == (a@ == b@),
{
    let x = a.to_owned();
    let y = b.to_owned();
    x == y
}

/// The keyword that `word` spells, if it spells one.
pub fn keyword_of(word: &str) -> (r: Option<TokenType>)
    ensures
        r == keyword(word@),
{
    if same_text(word, "and") {
        Some(TokenType::And)
    } else if same_text(word, "class") {
        Some(TokenType::Class)
    } else if same_text(word, "else") {
        Some(TokenType::Else)
    } else if same_text(word, "false") {
        Some(TokenType::False)
    } else if same_text(word, "for") {
        Some(TokenType::For)
    } else if same_text(word, "fun") {
        Some(TokenType::Fun)
    } else if same_text(word, "if") {
        Some(TokenType::If)
    } else if same_text(word, "nil") {
        Some(TokenType::Nil)
    } else if same_text(word, "or") {
        Some(TokenType::Or)
    } else if same_text(word, "return") {
        Some(TokenType::Return)
    } else if same_text(word, "super") {
        Some(TokenType::Super)
    } else if same_text(word, "this") {
        Some(TokenType::This)
    } else if same_text(word, "true") {
        Some(TokenType::True)
    } else if same_text(word, "var") {
        Some(TokenType::Var)
    } else if same_text(word, "while") {
        Some(TokenType::While)
    } else if same_text(word, "import") {
        Some(TokenType::Import)
    } else {
        None
    }
}

fn belongs(run: Run, c: char) -> (r: bool)
    ensures
        r == in_run(run, c),
{
    match run {
        Run::Digits => '0' <= c && c <= '9',
        Run::Name => c.is_alphanumeric() || c == '_' || c == '-',
        Run::Comment => c != '\n',
        Run::Text => c != '"',
    }
}

/// A scanner over one source text.
///
/// `scan` starts from the beginning whatever the cursor fields hold; they
/// are its working state.
pub struct Scanner {
    /// The characters of the source text.
    pub source: Vec<char>,
    /// The tokens of the last scan.
    pub tokens: Vec<Token>,
    /// The position of the next character to read.
    pub current: usize,
    /// The number of line feeds read.
    pub line: i32,
    /// Where the lexeme that is being read starts.
    pub start: usize,
}

impl Scanner {
    /// The source text.
    pub open spec fn text(&self) -> Seq<char> {
        self.source@
    }

    /// The tokens of the last scan.
    pub open spec fn produced(&self) -> Seq<Token> {
        self.tokens@
    }

    /// The state between two lexemes.
    spec fn ready(&self) -> bool {
        &&& self.start <= self.current <= self.source.len()
        &&& 0 <= self.line
    }

    /// Whether `other` differs from `self` in its tokens at most.
    spec fn same_place(&self, other: &Scanner) -> bool {
        &&& self.source == other.source
        &&& self.current == other.current
        &&& self.line == other.line
        &&& self.start == other.start
    }

    /// A scanner for `s`, with no tokens yet.
    pub fn new(s: std::string::String) -> (r: Scanner)
        ensures
            r.text() == s@,
            r.produced().len() == 0,
    {
        Scanner { source: chars_of(s.as_str()), tokens: Vec::new(), current: 0, line: 0, start: 0 }
    }

    /// Scans the source text from its beginning.
    ///
    /// Without a lexical error the tokens are left in `tokens`, the
    /// end-of-input token last and nowhere else. Otherwise every error comes
    /// back, in the order met, and `tokens` is left empty.
    pub fn scan(&mut self) -> (r: Result<(), Vec<LoxError>>)
        ensures
            final(self).text() == old(self).text(),
            final(self).tokens@ == final(self).produced(),
            r is Ok <==> lex(old(self).text()).errors.len() == 0,
            r is Ok ==> token_models(final(self).produced()) == lex(old(self).text()).tokens,
            r is Ok ==> final(self).produced().len() > 0 && final(self).produced().last().token
                == TokenType::EOF && forall|i: int|
                0 <= i < final(self).produced().len() - 1 ==> (#[trigger] final(self).produced()[i]).token != TokenType::EOF,
            r matches Err(errors) ==> error_models(errors@) == lex(old(self).text()).errors
                && final(self).produced().len() == 0,
    {
        let ghost src = self.source@;
        self.tokens = Vec::new();
        self.current = 0;
        self.start = 0;
        self.line = 0;
        let mut errors: Vec<LoxError> = Vec::new();
        assert(token_models(self.tokens@) + lex_from(src, 0, 0).tokens == lex(src).tokens);
        assert(error_models(errors@) + lex_from(src, 0, 0).errors == lex(src).errors);
        while !self.is_end()
            invariant
                self.source@ == src,
                self.ready(),
                token_models(self.tokens@) + lex_from(
                    src,
                    self.current as int,
                    self.line as int,
                ).tokens == lex(src).tokens,
                error_models(errors@) + lex_from(src, self.current as int, self.line as int).errors
                    == lex(src).errors,
            decreases src.len() - self.current,
        {
            self.start = self.current;
            let ghost before = token_models(self.tokens@);
            let ghost failed = error_models(errors@);
            let ghost step = scan_step(src, self.current as int, self.line as int);
            let ghost rest = lex_from(src, step.next, step.line);
            match self.scan_token() {
                Ok(()) => {
                    assert(error_models(errors@) + (optional(step.error) + rest.errors) == failed
                        + rest.errors);
                },
                Err(e) => {
                    errors.push(e);
                    assert(error_models(errors@) == failed.push(e@));
                    assert(failed.push(e@) + rest.errors == failed + (optional(step.error)
                        + rest.errors));
                },
            }
            assert(token_models(self.tokens@) + rest.tokens == before + (optional(step.token)
                + rest.tokens));
        }
        let end = Token {
            token: TokenType::EOF,
            lexeme: std::string::String::new(),
            line: self.line,
            literal: None,
        };
        let ghost before = token_models(self.tokens@);
        self.tokens.push(end);
        assert(token_models(self.tokens@) == before.push(end_of_input(self.line as int)));
        assert(before.push(end_of_input(self.line as int)) == before + seq![
            end_of_input(self.line as int),
        ]);
        if errors.len() > 0 {
            self.tokens = Vec::new();
            Err(errors)
        } else {
            proof {
                lemma_end_of_input_last(src);
                assert forall|i: int| 0 <= i < self.tokens@.len() implies (
                #[trigger] self.tokens@[i]).token == lex(src).tokens[i].kind by {
                    assert(token_models(self.tokens@)[i] == self.tokens@[i]@);
                }
            }
            Ok(())
        }
    }

    /// Hands the tokens out.
    pub fn into_tokens(self) -> (r: Vec<Token>)
        ensures
            r@ == self.produced(),
    {
        self.tokens
    }

    /// Reads the lexeme at the cursor.
    fn scan_token(&mut self) -> (r: Result<(), LoxError>)
        requires
            old(self).ready(),
            old(self).start == old(self).current,
            old(self).current < old(self).source.len(),
        ensures
            final(self).source == old(self).source,
            final(self).ready(),
            final(self).current > old(self).current,
            ({
                let step = scan_step(
                    old(self).source@,
                    old(self).current as int,
                    old(self).line as int,
                );
                &&& final(self).current == step.next
                &&& final(self).line == step.line
                &&& token_models(final(self).tokens@) == token_models(old(self).tokens@) + optional(
                    step.token,
                )
                &&& match r {
                    Ok(()) => step.error is None,
                    Err(e) => step.error == Some(e@),
                }
            }),
    {
        let ghost before = token_models(self.tokens@);
        proof {
            lemma_step_advances(self.source@, self.current as int, self.line as int);
            assert(before + Seq::<TokenModel>::empty() == before);
        }
        let c = self.advance();
        match c {
            '(' => {
                self.add(TokenType::LeftParenthesis);
            },
            ')' => {
                self.add(TokenType::RightParenthesis);
            },
            '{' => {
                self.add(TokenType::LeftBrace);
            },
            '}' => {
                self.add(TokenType::RightBrace);
            },
            ',' => {
                self.add(TokenType::Comma);
            },
            '.' => {
                self.add(TokenType::Dot);
            },
            '-' => {
                self.add(TokenType::Minus);
            },
            '+' => {
                self.add(TokenType::Plus);
            },
            ';' => {
                self.add(TokenType::Semicolon);
            },
            '*' => {
                self.add(TokenType::Star);
            },
            '!' => {
                self.add_match('=', TokenType::BangEqual, TokenType::Bang);
            },
            '=' => {
                self.add_match('=', TokenType::EqualEqual, TokenType::Equal);
            },
            '<' => {
                self.add_match('=', TokenType::LessEqual, TokenType::Less);
            },
            '>' => {
                self.add_match('=', TokenType::GreaterEqual, TokenType::Greater);
            },
            '/' => {
                if self.match_c('/') {
                    self.skip(Run::Comment);
                } else {
                    self.add(TokenType::Slash);
                }
            },
            '"' => {
                return self.string();
            },
            '\n' => {
                self.next_line();
            },
            ' ' => {},
            '\r' => {},
            '\t' => {},
            _ => {
                if '0' <= c && c <= '9' {
                    self.number();
                } else if c.is_alphabetic() || c == '_' || c == '-' {
                    self.identifier();
                } else {
                    return Err(LoxError::new("Unexpected character".to_owned(), self.line));
                }
            },
        }
        Ok(())
    }

    /// Counts one line feed.
    fn next_line(&mut self)
        requires
            0 <= old(self).line,
        ensures
            final(self).source == old(self).source,
            final(self).tokens == old(self).tokens,
            final(self).current == old(self).current,
            final(self).start == old(self).start,
            final(self).line == advance_line(old(self).line as int, 1),
    {
        if self.line < i32::MAX {
            self.line += 1;
        }
    }

    /// Takes the character at the cursor.
    fn advance(&mut self) -> (c: char)
        requires
            old(self).current < old(self).source.len(),
        ensures
            final(self).source == old(self).source,
            final(self).tokens == old(self).tokens,
            final(self).line == old(self).line,
            final(self).start == old(self).start,
            final(self).current == old(self).current + 1,
            c == old(self).source@[old(self).current as int],
    {
        self.current += 1;
        self.source[self.current - 1]
    }

    /// Adds a token without a literal for the lexeme read.
    fn add(&mut self, t: TokenType)
        requires
            old(self).ready(),
        ensures
            final(self).same_place(old(self)),
            token_models(final(self).tokens@) == token_models(old(self).tokens@) + optional(
                plain(
                    old(self).source@,
                    old(self).start as int,
                    old(self).current as int,
                    old(self).line as int,
                    t,
                ).token,
            ),
    {
        let lexeme = text_of(&self.source, self.start, self.current);
        let token = Token { token: t, lexeme, line: self.line, literal: None };
        let ghost before = token_models(self.tokens@);
        self.tokens.push(token);
        assert(token_models(self.tokens@) == before + seq![token@]);
    }

    /// Adds a token with a text literal for the lexeme read.
    fn add_token(&mut self, t: TokenType, l: std::string::String)
        requires
            old(self).ready(),
        ensures
            final(self).same_place(old(self)),
            token_models(final(self).tokens@) == token_models(old(self).tokens@) + seq![
                TokenModel {
                    kind: t,
                    lexeme: old(self).source@.subrange(
                        old(self).start as int,
                        old(self).current as int,
                    ),
                    line: old(self).line as int,
                    literal: Some(Value::Text(l@)),
                },
            ],
    {
        let lexeme = text_of(&self.source, self.start, self.current);
        let token = Token {
            token: t,
            lexeme,
            line: self.line,
            literal: Some(crate::lox_type::LoxType::String(l)),
        };
        let ghost before = token_models(self.tokens@);
        self.tokens.push(token);
        assert(token_models(self.tokens@) == before + seq![token@]);
    }

    /// Adds `first` when `expected` follows and is taken, `last` when not.
    fn add_match(&mut self, expected: char, first: TokenType, last: TokenType)
        requires
            old(self).ready(),
            old(self).current == old(self).start + 1,
            expected == '=',
        ensures
            final(self).source == old(self).source,
            final(self).line == old(self).line,
            final(self).ready(),
            ({
                let step = with_equal(
                    old(self).source@,
                    old(self).start as int,
                    old(self).line as int,
                    first,
                    last,
                );
                &&& final(self).current == step.next
                &&& token_models(final(self).tokens@) == token_models(old(self).tokens@) + optional(
                    step.token,
                )
            }),
    {
        if self.match_c(expected) {
            self.add(first);
        } else {
            self.add(last);
        }
    }

    /// Takes the character at the cursor if it is `expected`.
    fn match_c(&mut self, expected: char) -> (r: bool)
        requires
            old(self).ready(),
        ensures
            final(self).source == old(self).source,
            final(self).tokens == old(self).tokens,
            final(self).line == old(self).line,
            final(self).start == old(self).start,
            r == (old(self).current < old(self).source.len() && old(self).source@[old(self).current as int] == expected),
            final(self).current == if r {
                old(self).current + 1
            } else {
                old(self).current as int
            },
    {
        if self.is_end() {
            return false;
        }
        if self.source[self.current] != expected {
            return false;
        }
        self.current += 1;
        true
    }

    /// The character at the cursor, if there is one.
    fn peek(&self) -> (r: Option<char>)
        requires
            self.current <= self.source.len(),
        ensures
            r == if self.current < self.source.len() {
                Some(self.source@[self.current as int])
            } else {
                None
            },
    {
        if self.is_end() {
            None
        } else {
            Some(self.source[self.current])
        }
    }

    /// The character after the one at the cursor, if there is one.
    fn peek_next(&self) -> (r: Option<char>)
        requires
            self.current <= self.source.len(),
        ensures
            r == if self.current + 1 < self.source.len() {
                Some(self.source@[self.current + 1])
            } else {
                None
            },
    {
        if self.source.len() - self.current <= 1 {
            None
        } else {
            Some(self.source[self.current + 1])
        }
    }

    /// Moves the cursor to the end of the run that starts at it.
    fn skip(&mut self, run: Run)
        requires
            old(self).ready(),
        ensures
            final(self).source == old(self).source,
            final(self).tokens == old(self).tokens,
            final(self).line == old(self).line,
            final(self).start == old(self).start,
            final(self).ready(),
            final(self).current == run_end(run, old(self).source@, old(self).current as int),
    {
        let ghost from = self.current;
        loop
            invariant
                self.source == old(self).source,
                self.tokens == old(self).tokens,
                self.line == old(self).line,
                self.start == old(self).start,
                self.ready(),
                run_end(run, self.source@, self.current as int) == run_end(
                    run,
                    self.source@,
                    from as int,
                ),
            ensures
                self.current == run_end(run, self.source@, from as int),
            decreases self.source.len() - self.current,
        {
            match self.peek() {
                Some(c) => {
                    if !belongs(run, c) {
                        break;
                    }
                },
                None => {
                    break;
                },
            }
            self.current += 1;
        }
    }

    /// Reads the rest of a string literal, the opening quote taken.
    fn string(&mut self) -> (r: Result<(), LoxError>)
        requires
            old(self).ready(),
            old(self).current == old(self).start + 1,
        ensures
            final(self).source == old(self).source,
            final(self).ready(),
            ({
                let step = string_step(
                    old(self).source@,
                    old(self).start as int,
                    old(self).line as int,
                );
                &&& final(self).current == step.next
                &&& final(self).line == step.line
                &&& token_models(final(self).tokens@) == token_models(old(self).tokens@) + optional(
                    step.token,
                )
                &&& match r {
                    Ok(()) => step.error is None,
                    Err(e) => step.error == Some(e@),
                }
            }),
    {
        let ghost from = self.current;
        let ghost line = self.line;
        let ghost before = token_models(self.tokens@);
        loop
            invariant
                self.source == old(self).source,
                self.tokens == old(self).tokens,
                self.start == old(self).start,
                self.ready(),
                from == self.start + 1,
                from <= self.current,
                0 <= line,
                run_end(Run::Text, self.source@, self.current as int) == run_end(
                    Run::Text,
                    self.source@,
                    from as int,
                ),
                self.line == advance_line(
                    line as int,
                    newlines(self.source@, from as int, self.current as int),
                ),
            ensures
                self.current == run_end(Run::Text, self.source@, from as int),
            decreases self.source.len() - self.current,
        {
            match self.peek() {
                Some(c) => {
                    if c == '"' {
                        break;
                    }
                    if c == '\n' {
                        self.next_line();
                    }
                },
                None => {
                    break;
                },
            }
            self.current += 1;
        }
        if self.is_end() {
            proof {
                assert(before + Seq::<TokenModel>::empty() == before);
            }
            return Err(LoxError::new("Unterminated string".to_owned(), self.line));
        }
        self.current += 1;
        let s = text_of(&self.source, self.start + 1, self.current - 1);
        self.add_token(TokenType::String, s);
        Ok(())
    }

    /// Reads the rest of a numeral, its first digit taken.
    fn number(&mut self)
        requires
            old(self).ready(),
            old(self).current == old(self).start + 1,
        ensures
            final(self).source == old(self).source,
            final(self).line == old(self).line,
            final(self).ready(),
            ({
                let step = plain(
                    old(self).source@,
                    old(self).start as int,
                    number_end(old(self).source@, old(self).start as int),
                    old(self).line as int,
                    TokenType::Number,
                );
                &&& final(self).current == step.next
                &&& token_models(final(self).tokens@) == token_models(old(self).tokens@) + optional(
                    step.token,
                )
            }),
    {
        self.skip(Run::Digits);
        let point = match self.peek() {
            Some(c) => c == '.',
            None => false,
        };
        let digit = match self.peek_next() {
            Some(c) => '0' <= c && c <= '9',
            None => false,
        };
        if point && digit {
            self.current += 1;
            self.skip(Run::Digits);
        }
        self.add(TokenType::Number);
    }

    /// Reads the rest of an identifier or keyword, its first character taken.
    fn identifier(&mut self)
        requires
            old(self).ready(),
            old(self).current == old(self).start + 1,
        ensures
            final(self).source == old(self).source,
            final(self).line == old(self).line,
            final(self).ready(),
            ({
                let step = name_step(
                    old(self).source@,
                    old(self).start as int,
                    old(self).line as int,
                );
                &&& final(self).current == step.next
                &&& token_models(final(self).tokens@) == token_models(old(self).tokens@) + optional(
                    step.token,
                )
            }),
    {
        self.skip(Run::Name);
        let s = text_of(&self.source, self.start, self.current);
        match keyword_of(s.as_str()) {
            Some(t) => {
                self.add(t);
            },
            None => {
                self.add(TokenType::Identifier);
            },
        }
    }

    /// Whether the cursor is past the last character.
    fn is_end(&self) -> (r: bool)
        ensures
            r == (self.current >= self.source.len()),
    {
        self.current >= self.source.len()
    }
}

/// How many of the first `i` tokens are number tokens.
pub open spec fn numbers_before(ts: Seq<TokenModel>, i: int) -> nat
    decreases i,
{
    if i <= 0 {
        0
    } else {
        numbers_before(ts, i - 1) + if ts[i - 1].kind == TokenType::Number {
            1nat
        } else {
            0nat
        }
    }
}

/// The numerals of the first `i` tokens: the lexemes of the number tokens
/// among them, in order.
pub open spec fn numerals_before(ts: Seq<TokenModel>, i: int) -> Seq<Seq<char>>
    decreases i,
{
    if i <= 0 {
        Seq::empty()
    } else if ts[i - 1].kind == TokenType::Number {
        numerals_before(ts, i - 1).push(ts[i - 1].lexeme)
    } else {
        numerals_before(ts, i - 1)
    }
}

/// The token with the number `n` for its literal.
pub open spec fn with_number(t: TokenModel, n: u64) -> TokenModel {
    TokenModel { literal: Some(Value::Number(n)), ..t }
}

/// The tokens with the numbers attached: the number tokens get the numbers
/// for their literals, the first the first, and so on; a number token for
/// which no number is left, and every other token, stays as it is.
pub open spec fn attached(ts: Seq<TokenModel>, numbers: Seq<u64>) -> Seq<TokenModel> {
    Seq::new(
        ts.len(),
        |i: int|
            if 0 <= i < ts.len() && ts[i].kind == TokenType::Number && numbers_before(ts, i)
                < numbers.len() {
                with_number(ts[i], numbers[numbers_before(ts, i) as int])
            } else {
                ts[i]
            },
    )
}

/// The bit patterns of a vector of numbers, in order.
pub open spec fn bits_of(numbers: Seq<Number>) -> Seq<u64> {
    Seq::new(numbers.len(), |i: int| numbers[i].bits)
}

/// The views of a vector of texts, in order.
pub open spec fn texts_of(items: Seq<std::string::String>) -> Seq<Seq<char>> {
    Seq::new(items.len(), |i: int| items[i]@)
}

/// The numerals of `tokens`: the lexemes of the number tokens, in order.
/// They are what is to be decoded, one number for each.
pub fn numerals(tokens: &Vec<Token>) -> (r: Vec<std::string::String>)
    ensures
        texts_of(r@) == numerals_before(token_models(tokens@), tokens@.len() as int),
        r@.len() == numbers_before(token_models(tokens@), tokens@.len() as int),
{
    let ghost ts = token_models(tokens@);
    let mut out: Vec<std::string::String> = Vec::new();
    let mut i: usize = 0;
    assert(texts_of(out@) =~= numerals_before(ts, 0));
    while i < tokens.len()
        invariant
            i <= tokens.len(),
            ts == token_models(tokens@),
            texts_of(out@) == numerals_before(ts, i as int),
            out@.len() == numbers_before(ts, i as int),
        decreases tokens.len() - i,
    {
        let ghost before = texts_of(out@);
        assert(ts[i as int] == tokens@[i as int]@);
        if tokens[i].token == TokenType::Number {
            out.push(tokens[i].lexeme.clone());
            assert(texts_of(out@) =~= before.push(tokens@[i as int].lexeme@));
        }
        i += 1;
    }
    out
}

/// Attaches decoded numbers to the number tokens of `tokens`, in order.
pub fn attach(tokens: &Vec<Token>, numbers: &Vec<Number>) -> (r: Vec<Token>)
    ensures
        token_models(r@) == attached(token_models(tokens@), bits_of(numbers@)),
{
    let ghost ts = token_models(tokens@);
    let ghost ns = bits_of(numbers@);
    let mut out: Vec<Token> = Vec::new();
    let mut i: usize = 0;
    let mut k: usize = 0;
    assert(token_models(out@) =~= attached(ts, ns).take(0));
    while i < tokens.len()
        invariant
            i <= tokens.len(),
            k <= numbers.len(),
            ts == token_models(tokens@),
            ns == bits_of(numbers@),
            k == numbers_before(ts, i as int) || (k == numbers.len() && numbers_before(
                ts,
                i as int,
            ) >= k),
            token_models(out@) == attached(ts, ns).take(i as int),
        decreases tokens.len() - i,
    {
        let ghost before = token_models(out@);
        assert(ts[i as int] == tokens@[i as int]@);
        let mut token = tokens[i].clone();
        if token.token == TokenType::Number {
            if k < numbers.len() {
                let value = crate::lox_type::LoxType::Number(numbers[k]);
                assert(value@ == Value::Number(numbers@[k as int].bits));
                token.literal = Some(value);
                assert(token@ == with_number(ts[i as int], ns[k as int]));
                k += 1;
            }
        }
        out.push(token);
        i += 1;
        assert(token_models(out@) =~= before.push(attached(ts, ns)[i - 1]));
        assert(attached(ts, ns).take(i as int) =~= attached(ts, ns).take(i - 1).push(
            attached(ts, ns)[i - 1],
        ));
    }
    assert(attached(ts, ns).take(tokens.len() as int) =~= attached(ts, ns));
    out
}

} // verus!
