//! The lexical grammar as mathematics: where each lexeme ends, what it is,
//! and the tokens and diagnostics that a whole source text gives.

use vstd::prelude::*;
use crate::errors::ErrorView;
use crate::token::{LiteralView, TokenView};
use crate::token_type::TokenType;

verus! {

pub open spec fn is_digit(c: char) -> bool {
    '0' <= c <= '9'
}

pub open spec fn is_alpha(c: char) -> bool {
    'a' <= c <= 'z' || 'A' <= c <= 'Z' || c == '_'
}

pub open spec fn is_alpha_numeric(c: char) -> bool {
    is_alpha(c) || is_digit(c)
}

/// The number of newline characters in `text`.
pub open spec fn newline_count(text: Seq<char>) -> nat
    decreases text.len(),
{
    if text.len() == 0 {
        0
    } else {
        newline_count(text.drop_last()) + if text.last() == '\n' {
            1nat
        } else {
            0nat
        }
    }
}

/// The 1-based number of the line that holds position `pos` of `src`.
pub open spec fn line_at(src: Seq<char>, pos: int) -> nat {
    1 + newline_count(src.take(pos))
}

/// What ends a run of characters.
pub enum Stop {
    /// The first character that is no digit.
    NonDigit,
    /// The first character that is neither a letter, a digit nor an underscore.
    NonWord,
    /// The first newline.
    Newline,
    /// The first double quote.
    Quote,
}

pub open spec fn stops(stop: Stop, c: char) -> bool {
    match stop {
        Stop::NonDigit => !is_digit(c),
        Stop::NonWord => !is_alpha_numeric(c),
        Stop::Newline => c == '\n',
        Stop::Quote => c == '"',
    }
}

/// The first position at or after `from` whose character `stop` names, or the
/// end of `src` where there is none.
pub open spec fn run_end(src: Seq<char>, from: int, stop: Stop) -> int
    decreases src.len() - from,
{
    if from < 0 || from >= src.len() || stops(stop, src[from]) {
        from
    } else {
        run_end(src, from + 1, stop)
    }
}

/// Where the block comment that is open at `from` closes: the position just
/// behind its closing `*/`, or `None` where the input ends first. `depth`
/// counts the comments that enclose it and are still open.
pub open spec fn block_comment_end(src: Seq<char>, from: int, depth: nat) -> Option<int>
    decreases src.len() - from,
{
    if from < 0 || from >= src.len() {
        None
    } else if src[from] == '*' && from + 1 < src.len() && src[from + 1] == '/' {
        if depth == 0 {
            Some(from + 2)
        } else {
            block_comment_end(src, from + 2, (depth - 1) as nat)
        }
    } else if src[from] == '/' && from + 1 < src.len() && src[from + 1] == '*' {
        block_comment_end(src, from + 2, depth + 1)
    } else {
        block_comment_end(src, from + 1, depth)
    }
}

/// The reserved word that `word` spells, if any.
pub open spec fn keyword(word: Seq<char>) -> Option<TokenType> {
    if word == "and"@ {
        Some(TokenType::And)
    } else if word == "class"@ {
        Some(TokenType::Class)
    } else if word == "else"@ {
        Some(TokenType::Else)
    } else if word == "false"@ {
        Some(TokenType::False)
    } else if word == "for"@ {
        Some(TokenType::For)
    } else if word == "fun"@ {
        Some(TokenType::Fun)
    } else if word == "nil"@ {
        Some(TokenType::Nil)
    } else if word == "if"@ {
        Some(TokenType::If)
    } else if word == "or"@ {
        Some(TokenType::Or)
    } else if word == "print"@ {
        Some(TokenType::Print)
    } else if word == "return"@ {
        Some(TokenType::Return)
    } else if word == "super"@ {
        Some(TokenType::Super)
    } else if word == "this"@ {
        Some(TokenType::This)
    } else if word == "true"@ {
        Some(TokenType::True)
    } else if word == "var"@ {
        Some(TokenType::Var)
    } else if word == "while"@ {
        Some(TokenType::While)
    } else {
        None
    }
}

/// The reserved words with their kinds, in the order in which [`keyword`]
/// tries them.
pub open spec fn reserved_words() -> Seq<(Seq<char>, TokenType)> {
    seq![
        ("and"@, TokenType::And),
        ("class"@, TokenType::Class),
        ("else"@, TokenType::Else),
        ("false"@, TokenType::False),
        ("for"@, TokenType::For),
        ("fun"@, TokenType::Fun),
        ("nil"@, TokenType::Nil),
        ("if"@, TokenType::If),
        ("or"@, TokenType::Or),
        ("print"@, TokenType::Print),
        ("return"@, TokenType::Return),
        ("super"@, TokenType::Super),
        ("this"@, TokenType::This),
        ("true"@, TokenType::True),
        ("var"@, TokenType::Var),
        ("while"@, TokenType::While),
    ]
}

/// A word is reserved exactly where the table of reserved words holds it,
/// and its kind is that of the first entry that spells it.
pub proof fn lemma_keyword_lookup(word: Seq<char>, tried: int)
    requires
        0 <= tried <= reserved_words().len(),
        forall|j: int| 0 <= j < tried ==> (#[trigger] reserved_words()[j]).0 != word,
    ensures
        reserved_words().len() == 16,
        tried < 16 && reserved_words()[tried].0 == word ==> keyword(word) == Some(
            reserved_words()[tried].1,
        ),
        tried == 16 ==> keyword(word) is None,
{
    let table = reserved_words();
    assert(table[0].0 == "and"@ && table[1].0 == "class"@ && table[2].0 == "else"@ && table[3].0
        == "false"@);
    assert(table[4].0 == "for"@ && table[5].0 == "fun"@ && table[6].0 == "nil"@ && table[7].0
        == "if"@);
    assert(table[8].0 == "or"@ && table[9].0 == "print"@ && table[10].0 == "return"@
        && table[11].0 == "super"@);
    assert(table[12].0 == "this"@ && table[13].0 == "true"@ && table[14].0 == "var"@
        && table[15].0 == "while"@);
}

/// The kind of a word: its reserved kind, or `Identifier`.
pub open spec fn word_kind(word: Seq<char>) -> TokenType {
    match keyword(word) {
        Some(kind) => kind,
        None => TokenType::Identifier,
    }
}

/// The kind of the punctuation mark `c` that is a token by itself whatever
/// follows it.
pub open spec fn punctuation(c: char) -> Option<TokenType> {
    if c == '(' {
        Some(TokenType::LeftParen)
    } else if c == ')' {
        Some(TokenType::RightParen)
    } else if c == '{' {
        Some(TokenType::LeftBrace)
    } else if c == '}' {
        Some(TokenType::RightBrace)
    } else if c == ';' {
        Some(TokenType::Semicolon)
    } else if c == ',' {
        Some(TokenType::Comma)
    } else if c == '.' {
        Some(TokenType::Dot)
    } else if c == '+' {
        Some(TokenType::Plus)
    } else if c == '-' {
        Some(TokenType::Minus)
    } else if c == '*' {
        Some(TokenType::Star)
    } else {
        None
    }
}

/// The kind of the operator that `c` begins, alone or with `=` behind it.
pub open spec fn operator(c: char, with_equal: bool) -> Option<TokenType> {
    if c == '!' {
        Some(if with_equal { TokenType::BangEqual } else { TokenType::Bang })
    } else if c == '=' {
        Some(if with_equal { TokenType::EqualEqual } else { TokenType::Equal })
    } else if c == '<' {
        Some(if with_equal { TokenType::LessEqual } else { TokenType::Less })
    } else if c == '>' {
        Some(if with_equal { TokenType::GreaterEqual } else { TokenType::Greater })
    } else {
        None
    }
}

/// Whether the character at `pos` of `src` exists and is `c`.
pub open spec fn has_char(src: Seq<char>, pos: int, c: char) -> bool {
    0 <= pos < src.len() && src[pos] == c
}

/// The values of a run of digit characters.
pub open spec fn digit_values(text: Seq<char>) -> Seq<u8> {
    Seq::new(text.len(), |i: int| (text[i] as u8 - 48) as u8)
}

/// The three ways in which a lexeme can be malformed.
#[derive(Debug, PartialEq, Eq, Clone, Copy, Structural)]
pub enum Fault {
    /// A character that begins no lexeme.
    UnexpectedToken,
    /// A `"` with no closing `"` before the end of the input.
    UnterminatedString,
    /// A `/*` with no matching `*/` before the end of the input.
    UnterminatedComment,
}

impl Fault {
    /// The message that reports this fault.
    pub fn message(self) -> (message: &'static str)
        ensures
            message@ == fault_message(self),
    {
        match self {
            Fault::UnexpectedToken => "Unexpected Token",
            Fault::UnterminatedString => "Unterminated String",
            Fault::UnterminatedComment => "Unterminated comment",
        }
    }
}

/// The message that reports a fault.
pub open spec fn fault_message(fault: Fault) -> Seq<char> {
    match fault {
        Fault::UnexpectedToken => "Unexpected Token"@,
        Fault::UnterminatedString => "Unterminated String"@,
        Fault::UnterminatedComment => "Unterminated comment"@,
    }
}

/// One scan step's share of the source: the text from `start` up to `end`,
/// with what the step makes of it. A piece without a `kind` is skipped
/// (whitespace or a comment); a piece with a `fault` is reported and emitted
/// as an `Invalid` token.
pub struct Piece {
    pub start: int,
    pub end: int,
    pub kind: Option<TokenType>,
    pub literal: Option<LiteralView>,
    pub fault: Option<Fault>,
}

pub open spec fn skipped(start: int, end: int) -> Piece {
    Piece { start, end, kind: None, literal: None, fault: None }
}

pub open spec fn plain(start: int, end: int, kind: TokenType) -> Piece {
    Piece { start, end, kind: Some(kind), literal: None, fault: None }
}

pub open spec fn malformed(start: int, end: int, fault: Fault) -> Piece {
    Piece { start, end, kind: Some(TokenType::Invalid), literal: None, fault: Some(fault) }
}

/// The piece that begins with `/` at `start`: a line comment, a block
/// comment, or a slash.
pub open spec fn slash_piece(src: Seq<char>, start: int) -> Piece {
    if has_char(src, start + 1, '/') {
        skipped(start, run_end(src, start + 2, Stop::Newline))
    } else if has_char(src, start + 1, '*') {
        match block_comment_end(src, start + 2, 0) {
            Some(end) => skipped(start, end),
            None => malformed(start, src.len() as int, Fault::UnterminatedComment),
        }
    } else {
        plain(start, start + 1, TokenType::Slash)
    }
}

/// The piece that begins with `"` at `start`: a string literal whose value is
/// the text between the quotes, or a fault where no closing quote follows.
pub open spec fn string_piece(src: Seq<char>, start: int) -> Piece {
    let quote = run_end(src, start + 1, Stop::Quote);
    if quote < src.len() {
        Piece {
            start,
            end: quote + 1,
            kind: Some(TokenType::String),
            literal: Some(LiteralView::String(src.subrange(start + 1, quote))),
            fault: None,
        }
    } else {
        malformed(start, src.len() as int, Fault::UnterminatedString)
    }
}

/// The piece that begins with a digit at `start`: the longest run of digits,
/// and behind it a point and a further run where a digit follows the point.
pub open spec fn number_piece(src: Seq<char>, start: int) -> Piece {
    let whole_end = run_end(src, start + 1, Stop::NonDigit);
    let whole = src.subrange(start, whole_end);
    if has_char(src, whole_end, '.') && whole_end + 1 < src.len() && is_digit(src[whole_end + 1]) {
        let end = run_end(src, whole_end + 1, Stop::NonDigit);
        let fraction = src.subrange(whole_end + 1, end);
        Piece {
            start,
            end,
            kind: Some(TokenType::Number),
            literal: Some(
                LiteralView::Number {
                    digits: digit_values(whole + fraction),
                    scale: fraction.len(),
                },
            ),
            fault: None,
        }
    } else {
        Piece {
            start,
            end: whole_end,
            kind: Some(TokenType::Number),
            literal: Some(LiteralView::Number { digits: digit_values(whole), scale: 0 }),
            fault: None,
        }
    }
}

/// The piece that begins with a letter or an underscore at `start`: the
/// longest run of letters, digits and underscores.
pub open spec fn word_piece(src: Seq<char>, start: int) -> Piece {
    let end = run_end(src, start + 1, Stop::NonWord);
    plain(start, end, word_kind(src.subrange(start, end)))
}

/// The piece that begins at `start`, for `0 <= start < src.len()`.
pub open spec fn piece_at(src: Seq<char>, start: int) -> Piece {
    let c = src[start];
    if c == ' ' || c == '\r' || c == '\t' || c == '\n' {
        skipped(start, start + 1)
    } else if punctuation(c) is Some {
        plain(start, start + 1, punctuation(c)->0)
    } else if c == '/' {
        slash_piece(src, start)
    } else if operator(c, false) is Some {
        if has_char(src, start + 1, '=') {
            plain(start, start + 2, operator(c, true)->0)
        } else {
            plain(start, start + 1, operator(c, false)->0)
        }
    } else if c == '"' {
        string_piece(src, start)
    } else if is_digit(c) {
        number_piece(src, start)
    } else if is_alpha(c) {
        word_piece(src, start)
    } else {
        malformed(start, start + 1, Fault::UnexpectedToken)
    }
}

/// The token that a piece with a kind is emitted as.
pub open spec fn piece_token(src: Seq<char>, piece: Piece) -> TokenView {
    TokenView {
        token_type: piece.kind->0,
        lexeme: src.subrange(piece.start, piece.end),
        literal: piece.literal,
        line: line_at(src, piece.start),
    }
}

/// The diagnostic that a piece with a fault is reported as.
pub open spec fn piece_error(src: Seq<char>, piece: Piece) -> ErrorView {
    ErrorView { line: line_at(src, piece.start), message: fault_message(piece.fault->0) }
}

/// The tokens that one piece gives: none or one.
pub open spec fn piece_tokens(src: Seq<char>, piece: Piece) -> Seq<TokenView> {
    if piece.kind is Some {
        seq![piece_token(src, piece)]
    } else {
        Seq::empty()
    }
}

/// The diagnostics that one piece gives: none or one.
pub open spec fn piece_errors(src: Seq<char>, piece: Piece) -> Seq<ErrorView> {
    if piece.fault is Some {
        seq![piece_error(src, piece)]
    } else {
        Seq::empty()
    }
}

/// The pieces of `src` from `start` to its end, in source order.
pub open spec fn pieces_from(src: Seq<char>, start: int) -> Seq<Piece>
    decreases src.len() - start,
    via pieces_from_decreases
{
    if 0 <= start < src.len() {
        seq![piece_at(src, start)] + pieces_from(src, piece_at(src, start).end)
    } else {
        Seq::empty()
    }
}

#[via_fn]
proof fn pieces_from_decreases(src: Seq<char>, start: int) {
    if 0 <= start < src.len() {
        lemma_piece_bounds(src, start);
    }
}

/// The tokens that the pieces of `src` from `start` on give, in order.
pub open spec fn tokens_from(src: Seq<char>, start: int) -> Seq<TokenView>
    decreases src.len() - start,
    via tokens_from_decreases
{
    if 0 <= start < src.len() {
        piece_tokens(src, piece_at(src, start)) + tokens_from(src, piece_at(src, start).end)
    } else {
        Seq::empty()
    }
}

#[via_fn]
proof fn tokens_from_decreases(src: Seq<char>, start: int) {
    if 0 <= start < src.len() {
        lemma_piece_bounds(src, start);
    }
}

/// The diagnostics that the pieces of `src` from `start` on give, in order.
pub open spec fn errors_from(src: Seq<char>, start: int) -> Seq<ErrorView>
    decreases src.len() - start,
    via errors_from_decreases
{
    if 0 <= start < src.len() {
        piece_errors(src, piece_at(src, start)) + errors_from(src, piece_at(src, start).end)
    } else {
        Seq::empty()
    }
}

#[via_fn]
proof fn errors_from_decreases(src: Seq<char>, start: int) {
    if 0 <= start < src.len() {
        lemma_piece_bounds(src, start);
    }
}

/// The positions at which the tokens of `src` from `start` on begin, in order.
pub open spec fn token_starts_from(src: Seq<char>, start: int) -> Seq<int>
    decreases src.len() - start,
    via token_starts_from_decreases
{
    if 0 <= start < src.len() {
        if piece_at(src, start).kind is Some {
            seq![start] + token_starts_from(src, piece_at(src, start).end)
        } else {
            token_starts_from(src, piece_at(src, start).end)
        }
    } else {
        Seq::empty()
    }
}

#[via_fn]
proof fn token_starts_from_decreases(src: Seq<char>, start: int) {
    if 0 <= start < src.len() {
        lemma_piece_bounds(src, start);
    }
}

/// The tokens of a whole source text.
pub open spec fn scan_tokens_of(src: Seq<char>) -> Seq<TokenView> {
    tokens_from(src, 0)
}

/// The diagnostics of a whole source text.
pub open spec fn scan_errors_of(src: Seq<char>) -> Seq<ErrorView> {
    errors_from(src, 0)
}

/// A run ends at or after the place it starts from, and within the text.
pub proof fn lemma_run_end_bounds(src: Seq<char>, from: int, stop: Stop)
    requires
        0 <= from <= src.len(),
    ensures
        from <= run_end(src, from, stop) <= src.len(),
    decreases src.len() - from,
{
    if from < src.len() && !stops(stop, src[from]) {
        lemma_run_end_bounds(src, from + 1, stop);
    }
}

/// A run ends at `at` where nothing before `at` stops it and `at` does.
pub proof fn lemma_run_end_is(src: Seq<char>, from: int, stop: Stop, at: int)
    requires
        0 <= from <= at <= src.len(),
        forall|j: int| from <= j < at ==> !stops(stop, #[trigger] src[j]),
        at < src.len() ==> stops(stop, src[at]),
    ensures
        run_end(src, from, stop) == at,
    decreases at - from,
{
    if from < at {
        lemma_run_end_is(src, from + 1, stop, at);
    }
}

/// Nothing within a run stops it, and what follows it does.
pub proof fn lemma_run_end_holds(src: Seq<char>, from: int, stop: Stop)
    requires
        0 <= from <= src.len(),
    ensures
        forall|j: int| from <= j < run_end(src, from, stop) ==> !stops(stop, #[trigger] src[j]),
        run_end(src, from, stop) < src.len() ==> stops(stop, src[run_end(src, from, stop)]),
    decreases src.len() - from,
{
    if from < src.len() && !stops(stop, src[from]) {
        lemma_run_end_holds(src, from + 1, stop);
    }
}

/// A block comment closes behind the place it was scanned from, and within
/// the text.
pub proof fn lemma_block_comment_end_bounds(src: Seq<char>, from: int, depth: nat)
    requires
        0 <= from <= src.len(),
    ensures
        block_comment_end(src, from, depth) is Some ==> from < block_comment_end(
            src,
            from,
            depth,
        )->0 <= src.len(),
    decreases src.len() - from,
{
    if from < src.len() {
        if src[from] == '*' && from + 1 < src.len() && src[from + 1] == '/' {
            if depth > 0 {
                lemma_block_comment_end_bounds(src, from + 2, (depth - 1) as nat);
            }
        } else if src[from] == '/' && from + 1 < src.len() && src[from + 1] == '*' {
            lemma_block_comment_end_bounds(src, from + 2, depth + 1);
        } else {
            lemma_block_comment_end_bounds(src, from + 1, depth);
        }
    }
}

/// Every piece holds at least one character and ends within the text.
pub proof fn lemma_piece_bounds(src: Seq<char>, start: int)
    requires
        0 <= start < src.len(),
    ensures
        piece_at(src, start).start == start,
        start < piece_at(src, start).end <= src.len(),
{
    lemma_run_end_bounds(src, start + 1, Stop::NonDigit);
    lemma_run_end_bounds(src, start + 1, Stop::NonWord);
    lemma_run_end_bounds(src, start + 1, Stop::Quote);
    if start + 2 <= src.len() {
        lemma_run_end_bounds(src, start + 2, Stop::Newline);
        lemma_block_comment_end_bounds(src, start + 2, 0);
    }
    let whole_end = run_end(src, start + 1, Stop::NonDigit);
    if whole_end + 1 <= src.len() {
        lemma_run_end_bounds(src, whole_end + 1, Stop::NonDigit);
    }
}

/// A text holds no more newlines than characters.
pub proof fn lemma_newline_count_bound(text: Seq<char>)
    ensures
        newline_count(text) <= text.len(),
    decreases text.len(),
{
    if text.len() > 0 {
        lemma_newline_count_bound(text.drop_last());
    }
}

/// The line number grows by one behind a newline and by nothing behind any
/// other character.
pub proof fn lemma_line_step(src: Seq<char>, pos: int)
    requires
        0 <= pos < src.len(),
    ensures
        line_at(src, pos + 1) == line_at(src, pos) + if src[pos] == '\n' {
            1nat
        } else {
            0nat
        },
        line_at(src, pos) <= pos + 1,
{
    assert(src.take(pos + 1).drop_last() =~= src.take(pos));
    lemma_newline_count_bound(src.take(pos));
}

} // verus!
