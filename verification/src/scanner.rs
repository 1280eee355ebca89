//! The scanner: one stateful pass over the source text that recognises
//! lexemes, classifies them, tracks the line and collects diagnostics.

use vstd::prelude::*;
use vstd::string::{StrSliceExecFns, StringExecFns};
use vstd::utf8::is_ascii_chars;
use crate::errors::{error_views, Error, ErrorView};
use crate::grammar::{
    block_comment_end, digit_values, errors_from, has_char, is_alpha, is_alpha_numeric, is_digit,
    lemma_keyword_lookup, lemma_line_step, lemma_piece_bounds, lemma_run_end_holds,
    lemma_run_end_is, line_at, malformed, number_piece, piece_at, piece_errors, piece_tokens,
    plain, reserved_words, run_end, skipped, stops, string_piece, tokens_from, word_kind,
    word_piece, Fault, Piece, Stop,
};
use crate::token::{literal_view, token_views, Decimal, Literal, Token, TokenView};
use crate::token_type::TokenType;

verus! {

/// The line counter's value at position `pos`: the line number there, held at
/// the largest representable number where it would pass it.
spec fn line_counter(src: Seq<char>, pos: int) -> int {
    if line_at(src, pos) <= usize::MAX {
        line_at(src, pos) as int
    } else {
        usize::MAX as int
    }
}

/// The state of one scan: the source, the cursor (`start`, `current`, `line`)
/// and what has been emitted so far.
pub struct Scanner {
    source: String,
    source_as_bytes: Vec<u8>,
    tokens: Vec<Token>,
    start: usize,
    current: usize,
    line: usize,
    start_line: usize,
    keywords: Vec<(String, TokenType)>,
    /// The diagnostics collected so far, in the order in which they arose.
    pub errors: Vec<Error>,
}

impl Scanner {
    /// The source text that is being scanned.
    pub closed spec fn source_view(&self) -> Seq<char> {
        self.source@
    }

    /// The tokens emitted so far.
    pub closed spec fn tokens_view(&self) -> Seq<TokenView> {
        token_views(self.tokens@)
    }

    /// The diagnostics collected so far.
    pub closed spec fn errors_view(&self) -> Seq<ErrorView> {
        error_views(self.errors@)
    }

    /// The position of the next unconsumed character.
    pub closed spec fn position(&self) -> int {
        self.current as int
    }

    /// The cursor lies within an ASCII source, and both line counters agree
    /// with the newlines before the positions they belong to.
    spec fn inv(&self) -> bool {
        &&& is_ascii_chars(self.source@)
        &&& self.source_as_bytes@.len() == self.source@.len() <= usize::MAX
        &&& forall|i: int|
            0 <= i < self.source@.len() ==> #[trigger] self.source_as_bytes@[i]
                == self.source@[i] as u8
        &&& self.start <= self.current <= self.source@.len()
        &&& self.line == line_counter(self.source@, self.current as int)
        &&& self.start_line == line_counter(self.source@, self.start as int)
    }

    /// The scanner stands between two lexemes.
    pub closed spec fn wf(&self) -> bool {
        self.inv() && self.start == self.current
    }

    /// This scanner with its cursor moved to `to`.
    spec fn moved_to(self, to: int) -> Scanner {
        Scanner { current: to as usize, line: line_counter(self.source@, to) as usize, ..self }
    }

    /// `post` is `pre` after the lexeme `piece` was consumed and what it
    /// gives was appended.
    spec fn emitted(pre: Scanner, post: Scanner, piece: Piece) -> bool {
        &&& post.source == pre.source
        &&& post.source_as_bytes == pre.source_as_bytes
        &&& post.keywords == pre.keywords
        &&& post.start == pre.start
        &&& post.start_line == pre.start_line
        &&& post.current == piece.end
        &&& post.line == line_counter(pre.source@, piece.end)
        &&& token_views(post.tokens@) == token_views(pre.tokens@) + piece_tokens(
            pre.source@,
            piece,
        )
        &&& error_views(post.errors@) == error_views(pre.errors@) + piece_errors(
            pre.source@,
            piece,
        )
    }

    /// A scanner at the beginning of `source`, with nothing emitted.
    pub fn new(source: &str) -> (scanner: Self)
        requires
            source.is_ascii(),
        ensures
            scanner.wf(),
            scanner.source_view() == source@,
            scanner.position() == 0,
            scanner.tokens_view() == Seq::<TokenView>::empty(),
            scanner.errors_view() == Seq::<ErrorView>::empty(),
    {
        broadcast use vstd::string::is_ascii_spec_bytes;

        let source_as_bytes = source.as_bytes_vec();
        assert(source_as_bytes@.len() == source_as_bytes.len() <= usize::MAX);
        let scanner = Scanner {
            source: String::from_str(source),
            source_as_bytes,
            errors: Vec::new(),
            start: 0,
            current: 0,
            line: 1,
            start_line: 1,
            keywords: Vec::new(),
            tokens: Vec::new(),
        };
        proof {
            assert(scanner.source@.take(0) =~= Seq::<char>::empty());
            assert(token_views(scanner.tokens@) =~= Seq::<TokenView>::empty());
            assert(error_views(scanner.errors@) =~= Seq::<ErrorView>::empty());
        }
        scanner
    }

    /// Scans the rest of the source: appends the tokens and the diagnostics
    /// of every lexeme from the cursor to the end, in source order, and hands
    /// out all tokens emitted so far.
    pub fn scan_tokens(&mut self) -> (tokens: &Vec<Token>)
        requires
            old(self).wf(),
        ensures
            final(self).wf(),
            final(self).source_view() == old(self).source_view(),
            final(self).position() == old(self).source_view().len(),
            final(self).tokens_view() == old(self).tokens_view() + tokens_from(
                old(self).source_view(),
                old(self).position(),
            ),
            final(self).errors_view() == old(self).errors_view() + errors_from(
                old(self).source_view(),
                old(self).position(),
            ),
            token_views(tokens@) == final(self).tokens_view(),
    {
        self.init_keywords();
        while !self.is_eof()
            invariant
                self.wf(),
                self.keywords_ready(),
                self.source == old(self).source,
                token_views(self.tokens@) + tokens_from(self.source@, self.current as int)
                    == token_views(old(self).tokens@) + tokens_from(
                    self.source@,
                    old(self).current as int,
                ),
                error_views(self.errors@) + errors_from(self.source@, self.current as int)
                    == error_views(old(self).errors@) + errors_from(
                    self.source@,
                    old(self).current as int,
                ),
            decreases self.source@.len() - self.current,
        {
            let ghost before = *self;
            self.scan_token();
            self.start = self.current;
            self.start_line = self.line;
            proof {
                let src = self.source@;
                assert(token_views(self.tokens@) + tokens_from(src, self.current as int)
                    =~= token_views(before.tokens@) + tokens_from(src, before.current as int));
                assert(error_views(self.errors@) + errors_from(src, self.current as int)
                    =~= error_views(before.errors@) + errors_from(src, before.current as int));
            }
        }
        proof {
            let src = self.source@;
            assert(token_views(self.tokens@) =~= token_views(self.tokens@) + tokens_from(
                src,
                self.current as int,
            ));
            assert(error_views(self.errors@) =~= error_views(self.errors@) + errors_from(
                src,
                self.current as int,
            ));
        }
        &self.tokens
    }

    /// Ends the scan and hands its tokens and diagnostics over to the caller.
    pub fn into_output(self) -> (output: (Vec<Token>, Vec<Error>))
        ensures
            token_views(output.0@) == self.tokens_view(),
            error_views(output.1@) == self.errors_view(),
    {
        (self.tokens, self.errors)
    }

    /// Recognises the one lexeme that begins at the cursor.
    fn scan_token(&mut self)
        requires
            old(self).wf(),
            old(self).keywords_ready(),
            old(self).current < old(self).source@.len(),
        ensures
            Self::emitted(
                *old(self),
                *final(self),
                piece_at(old(self).source@, old(self).start as int),
            ),
            old(self).current < final(self).current,
            final(self).inv(),
    {
        proof {
            lemma_piece_bounds(self.source@, self.start as int);
            old(self).lemma_moved_skips(self.start + 1);
        }
        let current_character = self.advance();
        match current_character {
            ' ' | '\r' | '\t' | '\n' => {},
            '(' => self.add_token_without_literal(TokenType::LeftParen),
            ')' => self.add_token_without_literal(TokenType::RightParen),
            '{' => self.add_token_without_literal(TokenType::LeftBrace),
            '}' => self.add_token_without_literal(TokenType::RightBrace),
            ';' => self.add_token_without_literal(TokenType::Semicolon),
            ',' => self.add_token_without_literal(TokenType::Comma),
            '.' => self.add_token_without_literal(TokenType::Dot),
            '+' => self.add_token_without_literal(TokenType::Plus),
            '-' => self.add_token_without_literal(TokenType::Minus),
            '*' => self.add_token_without_literal(TokenType::Star),
            '/' => {
                if self.is_match('/') {
                    self.comment();
                    proof {
                        old(self).lemma_moved_skips(self.current as int);
                    }
                } else if self.is_match('*') {
                    self.multiline_comment();
                } else {
                    self.add_token_without_literal(TokenType::Slash);
                }
            },
            '!' => {
                if self.is_match('=') {
                    self.add_token_without_literal(TokenType::BangEqual);
                } else {
                    self.add_token_without_literal(TokenType::Bang);
                }
            },
            '=' => {
                if self.is_match('=') {
                    self.add_token_without_literal(TokenType::EqualEqual);
                } else {
                    self.add_token_without_literal(TokenType::Equal);
                }
            },
            '<' => {
                if self.is_match('=') {
                    self.add_token_without_literal(TokenType::LessEqual);
                } else {
                    self.add_token_without_literal(TokenType::Less);
                }
            },
            '>' => {
                if self.is_match('=') {
                    self.add_token_without_literal(TokenType::GreaterEqual);
                } else {
                    self.add_token_without_literal(TokenType::Greater);
                }
            },
            '"' => self.make_string(),
            _ => {
                if self.is_digit(current_character) {
                    self.make_number();
                } else if self.is_alpha(current_character) {
                    self.make_identifier();
                } else {
                    self.reject(Fault::UnexpectedToken);
                }
            },
        }
    }

    fn is_eof(&self) -> (eof: bool)
        requires
            self.inv(),
        ensures
            eof == (self.current >= self.source@.len()),
    {
        self.current >= self.source_as_bytes.len()
    }

    /// Consumes one character, counting it where it is a newline.
    fn advance(&mut self) -> (c: char)
        requires
            old(self).inv(),
            old(self).current < old(self).source@.len(),
        ensures
            c == old(self).source@[old(self).current as int],
            *final(self) == old(self).moved_to(old(self).current + 1),
            final(self).inv(),
    {
        let c = self.source_as_bytes[self.current] as char;
        proof {
            lemma_line_step(self.source@, self.current as int);
        }
        self.current += 1;
        if c == '\n' && self.line < usize::MAX {
            self.line += 1;
        }
        c
    }

    fn peek(&self) -> (c: char)
        requires
            self.inv(),
        ensures
            c == if self.current < self.source@.len() {
                self.source@[self.current as int]
            } else {
                '\0'
            },
    {
        if self.is_eof() {
            return '\0';
        }
        self.source_as_bytes[self.current] as char
    }

    fn peek_next(&self) -> (c: char)
        requires
            self.inv(),
        ensures
            c == if self.current + 1 < self.source@.len() {
                self.source@[self.current + 1]
            } else {
                '\0'
            },
    {
        if self.is_eof() || self.current + 1 >= self.source_as_bytes.len() {
            return '\0';
        }
        self.source_as_bytes[self.current + 1] as char
    }

    /// Consumes the next character where it is `expected`.
    fn is_match(&mut self, expected: char) -> (matched: bool)
        requires
            old(self).inv(),
        ensures
            matched == has_char(old(self).source@, old(self).current as int, expected),
            *final(self) == if matched {
                old(self).moved_to(old(self).current + 1)
            } else {
                *old(self)
            },
            final(self).inv(),
    {
        if self.is_eof() {
            return false;
        }
        if self.peek() != expected {
            return false;
        }
        self.advance();
        true
    }

    fn is_digit(&self, character: char) -> (digit: bool)
        ensures
            digit == is_digit(character),
    {
        character >= '0' && character <= '9'
    }

    fn is_alpha(&self, character: char) -> (alpha: bool)
        ensures
            alpha == is_alpha(character),
    {
        character >= 'a' && character <= 'z' || character >= 'A' && character <= 'Z' || character
            == '_'
    }

    fn is_alpha_numeric(&self, character: char) -> (alpha_numeric: bool)
        ensures
            alpha_numeric == is_alpha_numeric(character),
    {
        self.is_alpha(character) || self.is_digit(character)
    }

    /// Appends a token for the text from `start` up to `current`, on the line
    /// where that text began.
    fn add_token(&mut self, token_type: TokenType, literal: Option<Literal>)
        requires
            old(self).inv(),
            old(self).start < old(self).current,
        ensures
            *final(self) == (Scanner { tokens: final(self).tokens, ..*old(self) }),
            token_views(final(self).tokens@) == token_views(old(self).tokens@).push(
                TokenView {
                    token_type,
                    lexeme: old(self).source@.subrange(
                        old(self).start as int,
                        old(self).current as int,
                    ),
                    literal: literal_view(literal),
                    line: line_at(old(self).source@, old(self).start as int),
                },
            ),
            final(self).inv(),
    {
        let lexeme = String::from_str(
            self.source.as_str().substring_ascii(self.start, self.current),
        );
        proof {
            lemma_line_step(self.source@, self.start as int);
        }
        let token = Token::new(token_type, lexeme, literal, self.start_line);
        let ghost before = self.tokens@;
        self.tokens.push(token);
        proof {
            assert(token_views(self.tokens@) =~= token_views(before).push(token@));
        }
    }

    fn add_token_without_literal(&mut self, token_type: TokenType)
        requires
            old(self).inv(),
            old(self).start < old(self).current,
        ensures
            Self::emitted(
                *old(self),
                *final(self),
                plain(old(self).start as int, old(self).current as int, token_type),
            ),
            final(self).inv(),
    {
        self.add_token(token_type, None);
        proof {
            let piece = plain(old(self).start as int, old(self).current as int, token_type);
            assert(token_views(self.tokens@) =~= token_views(old(self).tokens@) + piece_tokens(
                self.source@,
                piece,
            ));
            assert(error_views(self.errors@) =~= error_views(old(self).errors@) + piece_errors(
                self.source@,
                piece,
            ));
        }
    }

    /// Appends a diagnostic on the line where the current lexeme began.
    fn add_error(&mut self, message: &str)
        requires
            old(self).inv(),
            old(self).start < old(self).current,
        ensures
            *final(self) == (Scanner { errors: final(self).errors, ..*old(self) }),
            error_views(final(self).errors@) == error_views(old(self).errors@).push(
                ErrorView {
                    line: line_at(old(self).source@, old(self).start as int),
                    message: message@,
                },
            ),
            final(self).inv(),
    {
        proof {
            lemma_line_step(self.source@, self.start as int);
        }
        let error = Error::new(self.start_line, message);
        let ghost before = self.errors@;
        self.errors.push(error);
        proof {
            assert(error_views(self.errors@) =~= error_views(before).push(error@));
        }
    }

    /// Consumes the characters up to the first one that `stop` names.
    fn skip_run(&mut self, stop: Stop)
        requires
            old(self).inv(),
        ensures
            old(self).current <= final(self).current == run_end(
                old(self).source@,
                old(self).current as int,
                stop,
            ),
            *final(self) == old(self).moved_to(
                run_end(old(self).source@, old(self).current as int, stop),
            ),
            final(self).inv(),
    {
        let ghost from = self.current as int;
        loop
            invariant
                old(self).inv(),
                self.inv(),
                from == old(self).current,
                from <= self.current,
                *self == old(self).moved_to(self.current as int),
                forall|j: int| from <= j < self.current ==> !stops(stop, #[trigger] self.source@[j]),
            ensures
                self.inv(),
                from <= self.current == run_end(old(self).source@, from, stop),
                *self == old(self).moved_to(run_end(old(self).source@, from, stop)),
            decreases self.source@.len() - self.current,
        {
            let c = self.peek();
            let stopped = self.is_eof() || match stop {
                Stop::NonDigit => !self.is_digit(c),
                Stop::NonWord => !self.is_alpha_numeric(c),
                Stop::Newline => c == '\n',
                Stop::Quote => c == '"',
            };
            if stopped {
                proof {
                    lemma_run_end_is(self.source@, from, stop, self.current as int);
                }
                break;
            }
            self.advance();
        }
    }

    /// Consumes a line comment up to the newline that ends it.
    fn comment(&mut self)
        requires
            old(self).inv(),
        ensures
            *final(self) == old(self).moved_to(
                run_end(old(self).source@, old(self).current as int, Stop::Newline),
            ),
            final(self).inv(),
    {
        self.skip_run(Stop::Newline);
    }

    /// Moving the cursor emits nothing: it skips the text it passes.
    proof fn lemma_moved_skips(self, to: int)
        requires
            self.inv(),
            self.start <= to <= self.source@.len(),
        ensures
            Self::emitted(self, self.moved_to(to), skipped(self.start as int, to)),
            self.moved_to(to).inv(),
    {
        let piece = skipped(self.start as int, to);
        assert(token_views(self.tokens@) + piece_tokens(self.source@, piece) =~= token_views(
            self.tokens@,
        ));
        assert(error_views(self.errors@) + piece_errors(self.source@, piece) =~= error_views(
            self.errors@,
        ));
    }

    /// Reports the text from `start` up to `current` as malformed and emits it
    /// as an `Invalid` token.
    fn reject(&mut self, fault: Fault)
        requires
            old(self).inv(),
            old(self).start < old(self).current,
        ensures
            Self::emitted(
                *old(self),
                *final(self),
                malformed(old(self).start as int, old(self).current as int, fault),
            ),
            final(self).inv(),
    {
        self.add_error(fault.message());
        self.add_token_without_literal(TokenType::Invalid);
        proof {
            let piece = malformed(old(self).start as int, old(self).current as int, fault);
            assert(token_views(self.tokens@) =~= token_views(old(self).tokens@) + piece_tokens(
                self.source@,
                piece,
            ));
            assert(error_views(self.errors@) =~= error_views(old(self).errors@) + piece_errors(
                self.source@,
                piece,
            ));
        }
    }

    /// The piece that a block comment opened at `start` and scanned from
    /// `from` on gives.
    spec fn block_comment_piece(src: Seq<char>, start: int, from: int) -> Piece {
        match block_comment_end(src, from, 0) {
            Some(end) => skipped(start, end),
            None => malformed(start, src.len() as int, Fault::UnterminatedComment),
        }
    }

    /// Consumes a block comment, with the comments nested in it, up to its
    /// closing mark; reports it where the input ends first.
    fn multiline_comment(&mut self)
        requires
            old(self).inv(),
            old(self).start < old(self).current,
        ensures
            Self::emitted(
                *old(self),
                *final(self),
                Self::block_comment_piece(
                    old(self).source@,
                    old(self).start as int,
                    old(self).current as int,
                ),
            ),
            final(self).inv(),
    {
        let ghost from = self.current as int;
        let mut depth: usize = 0;
        loop
            invariant
                old(self).inv(),
                old(self).start < old(self).current,
                self.inv(),
                from == old(self).current,
                from <= self.current,
                depth <= self.current,
                *self == old(self).moved_to(self.current as int),
                block_comment_end(self.source@, self.current as int, depth as nat)
                    == block_comment_end(self.source@, from, 0),
            decreases self.source@.len() - self.current,
        {
            if self.is_eof() {
                self.reject(Fault::UnterminatedComment);
                return ;
            }
            let c = self.advance();
            if c == '*' {
                if self.is_match('/') {
                    if depth == 0 {
                        proof {
                            old(self).lemma_moved_skips(self.current as int);
                        }
                        return ;
                    }
                    depth -= 1;
                }
            } else if c == '/' {
                if self.is_match('*') {
                    depth += 1;
                }
            }
        }
    }

    /// Scans a string literal whose opening quote has been consumed.
    fn make_string(&mut self)
        requires
            old(self).inv(),
            old(self).current == old(self).start + 1,
        ensures
            Self::emitted(
                *old(self),
                *final(self),
                string_piece(old(self).source@, old(self).start as int),
            ),
            final(self).inv(),
    {
        self.skip_run(Stop::Quote);
        if self.is_eof() {
            self.reject(Fault::UnterminatedString);
            return ;
        }
        self.advance();
        let text = String::from_str(
            self.source.as_str().substring_ascii(self.start + 1, self.current - 1),
        );
        self.add_token(TokenType::String, Some(Literal::String(text)));
        proof {
            let piece = string_piece(old(self).source@, old(self).start as int);
            assert(token_views(self.tokens@) =~= token_views(old(self).tokens@) + piece_tokens(
                self.source@,
                piece,
            ));
            assert(error_views(self.errors@) =~= error_views(old(self).errors@) + piece_errors(
                self.source@,
                piece,
            ));
        }
    }

    /// Appends to `digits` the values of the digits from `from` up to `to`.
    fn push_digits(&self, digits: &mut Vec<u8>, from: usize, to: usize)
        requires
            self.inv(),
            from <= to <= self.source@.len(),
            forall|j: int| from <= j < to ==> is_digit(#[trigger] self.source@[j]),
        ensures
            final(digits)@ == old(digits)@ + digit_values(
                self.source@.subrange(from as int, to as int),
            ),
    {
        let mut i: usize = from;
        while i < to
            invariant
                self.inv(),
                from <= i <= to <= self.source@.len(),
                forall|j: int| from <= j < to ==> is_digit(#[trigger] self.source@[j]),
                digits@ == old(digits)@ + digit_values(self.source@.subrange(from as int, i as int)),
            decreases to - i,
        {
            assert(is_digit(self.source@[i as int]));
            digits.push(self.source_as_bytes[i] - 48);
            i += 1;
            proof {
                assert(digits@ =~= old(digits)@ + digit_values(
                    self.source@.subrange(from as int, i as int),
                ));
            }
        }
    }

    /// Scans a number whose first digit has been consumed.
    fn make_number(&mut self)
        requires
            old(self).inv(),
            old(self).current == old(self).start + 1,
            is_digit(old(self).source@[old(self).start as int]),
        ensures
            Self::emitted(
                *old(self),
                *final(self),
                number_piece(old(self).source@, old(self).start as int),
            ),
            final(self).inv(),
    {
        proof {
            lemma_run_end_holds(self.source@, self.current as int, Stop::NonDigit);
        }
        self.skip_run(Stop::NonDigit);
        let whole_end: usize = self.current;
        let mut digits: Vec<u8> = Vec::new();
        self.push_digits(&mut digits, self.start, whole_end);
        let mut scale: usize = 0;
        if self.peek() == '.' && self.is_digit(self.peek_next()) {
            self.advance();
            proof {
                lemma_run_end_holds(self.source@, self.current as int, Stop::NonDigit);
            }
            self.skip_run(Stop::NonDigit);
            self.push_digits(&mut digits, whole_end + 1, self.current);
            scale = self.current - (whole_end + 1);
        }
        proof {
            let src = self.source@;
            let whole = src.subrange(self.start as int, whole_end as int);
            let fraction = src.subrange(whole_end + 1, self.current as int);
            assert(digits@ =~= if scale == 0 {
                digit_values(whole)
            } else {
                digit_values(whole + fraction)
            });
        }
        self.add_token(TokenType::Number, Some(Literal::Number(Decimal { digits, scale })));
        proof {
            let piece = number_piece(old(self).source@, old(self).start as int);
            assert(token_views(self.tokens@) =~= token_views(old(self).tokens@) + piece_tokens(
                self.source@,
                piece,
            ));
            assert(error_views(self.errors@) =~= error_views(old(self).errors@) + piece_errors(
                self.source@,
                piece,
            ));
        }
    }

    /// The table of reserved words has been built.
    spec fn keywords_ready(&self) -> bool {
        &&& self.keywords@.len() == reserved_words().len()
        &&& forall|i: int|
            0 <= i < self.keywords@.len() ==> (#[trigger] self.keywords@[i]).0@
                == reserved_words()[i].0 && self.keywords@[i].1 == reserved_words()[i].1
    }

    /// Builds the table of reserved words.
    fn init_keywords(&mut self)
        ensures
            *final(self) == (Scanner { keywords: final(self).keywords, ..*old(self) }),
            final(self).keywords_ready(),
    {
        let mut keywords: Vec<(String, TokenType)> = Vec::new();
        keywords.push((String::from_str("and"), TokenType::And));
        keywords.push((String::from_str("class"), TokenType::Class));
        keywords.push((String::from_str("else"), TokenType::Else));
        keywords.push((String::from_str("false"), TokenType::False));
        keywords.push((String::from_str("for"), TokenType::For));
        keywords.push((String::from_str("fun"), TokenType::Fun));
        keywords.push((String::from_str("nil"), TokenType::Nil));
        keywords.push((String::from_str("if"), TokenType::If));
        keywords.push((String::from_str("or"), TokenType::Or));
        keywords.push((String::from_str("print"), TokenType::Print));
        keywords.push((String::from_str("return"), TokenType::Return));
        keywords.push((String::from_str("super"), TokenType::Super));
        keywords.push((String::from_str("this"), TokenType::This));
        keywords.push((String::from_str("true"), TokenType::True));
        keywords.push((String::from_str("var"), TokenType::Var));
        keywords.push((String::from_str("while"), TokenType::While));
        self.keywords = keywords;
    }

    /// The kind of the word from `start` up to `current`.
    fn lexeme_kind(&self) -> (kind: TokenType)
        requires
            self.inv(),
            self.keywords_ready(),
        ensures
            kind == word_kind(self.source@.subrange(self.start as int, self.current as int)),
    {
        let word = String::from_str(
            self.source.as_str().substring_ascii(self.start, self.current),
        );
        let mut i: usize = 0;
        while i < self.keywords.len()
            invariant
                self.keywords_ready(),
                0 <= i <= self.keywords@.len(),
                word@ == self.source@.subrange(self.start as int, self.current as int),
                forall|j: int| 0 <= j < i ==> (#[trigger] reserved_words()[j]).0 != word@,
            decreases self.keywords@.len() - i,
        {
            if self.keywords[i].0 == word {
                proof {
                    lemma_keyword_lookup(word@, i as int);
                }
                return self.keywords[i].1;
            }
            i += 1;
        }
        proof {
            lemma_keyword_lookup(word@, i as int);
        }
        TokenType::Identifier
    }

    /// Scans a word whose first character has been consumed.
    fn make_identifier(&mut self)
        requires
            old(self).inv(),
            old(self).keywords_ready(),
            old(self).current == old(self).start + 1,
        ensures
            Self::emitted(
                *old(self),
                *final(self),
                word_piece(old(self).source@, old(self).start as int),
            ),
            final(self).inv(),
    {
        self.skip_run(Stop::NonWord);
        let kind = self.lexeme_kind();
        self.add_token_without_literal(kind);
    }
}

} // verus!
