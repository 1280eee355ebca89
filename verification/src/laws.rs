//! What holds of the scan of every source text.

use vstd::prelude::*;
use crate::errors::ErrorView;
use crate::grammar::{
    block_comment_end, errors_from, has_char, is_digit, lemma_piece_bounds, lemma_run_end_bounds,
    lemma_run_end_holds, newline_count, operator, piece_at, piece_errors, piece_token,
    piece_tokens, pieces_from, plain, punctuation, run_end, scan_errors_of, scan_tokens_of,
    token_starts_from, tokens_from, word_kind, Piece, Stop,
};
use crate::token::{LiteralView, TokenView};
use crate::token_type::TokenType;

verus! {

/// The texts of `pieces`, one behind the other.
pub open spec fn joined(src: Seq<char>, pieces: Seq<Piece>) -> Seq<char>
    decreases pieces.len(),
{
    if pieces.len() == 0 {
        Seq::empty()
    } else {
        src.subrange(pieces[0].start, pieces[0].end) + joined(src, pieces.drop_first())
    }
}

/// The tokens that `pieces` give, in order: one for each piece with a kind.
pub open spec fn emitted_tokens(src: Seq<char>, pieces: Seq<Piece>) -> Seq<TokenView>
    decreases pieces.len(),
{
    if pieces.len() == 0 {
        Seq::empty()
    } else {
        piece_tokens(src, pieces[0]) + emitted_tokens(src, pieces.drop_first())
    }
}

/// The diagnostics that `pieces` give, in order: one for each piece with a
/// fault.
pub open spec fn emitted_errors(src: Seq<char>, pieces: Seq<Piece>) -> Seq<ErrorView>
    decreases pieces.len(),
{
    if pieces.len() == 0 {
        Seq::empty()
    } else {
        piece_errors(src, pieces[0]) + emitted_errors(src, pieces.drop_first())
    }
}

/// The number of `Invalid` tokens among `tokens`.
pub open spec fn invalid_count(tokens: Seq<TokenView>) -> nat
    decreases tokens.len(),
{
    if tokens.len() == 0 {
        0
    } else {
        invalid_count(tokens.drop_last()) + if tokens.last().token_type == TokenType::Invalid {
            1nat
        } else {
            0nat
        }
    }
}

proof fn lemma_pieces_unfold(src: Seq<char>, start: int)
    requires
        0 <= start < src.len(),
    ensures
        pieces_from(src, start).len() > 0,
        pieces_from(src, start)[0] == piece_at(src, start),
        pieces_from(src, start).drop_first() == pieces_from(src, piece_at(src, start).end),
{
    lemma_piece_bounds(src, start);
    assert(pieces_from(src, start).drop_first() =~= pieces_from(src, piece_at(src, start).end));
}

proof fn lemma_coverage_from(src: Seq<char>, start: int)
    requires
        0 <= start <= src.len(),
    ensures
        joined(src, pieces_from(src, start)) == src.subrange(start, src.len() as int),
        emitted_tokens(src, pieces_from(src, start)) == tokens_from(src, start),
        emitted_errors(src, pieces_from(src, start)) == errors_from(src, start),
    decreases src.len() - start,
{
    if start < src.len() {
        let end = piece_at(src, start).end;
        lemma_piece_bounds(src, start);
        lemma_pieces_unfold(src, start);
        lemma_coverage_from(src, end);
        assert(src.subrange(start, end) + src.subrange(end, src.len() as int) =~= src.subrange(
            start,
            src.len() as int,
        ));
    } else {
        assert(src.subrange(start, src.len() as int) =~= Seq::<char>::empty());
    }
}

/// Lossless coverage. The scan cuts the source into pieces, each a token's
/// lexeme or a skipped span of whitespace or comment. Their texts, put one
/// behind the other in order, give the source back exactly; and the tokens and
/// diagnostics of the scan are those of the pieces, in the same order.
pub proof fn law_lossless_coverage(src: Seq<char>)
    ensures
        joined(src, pieces_from(src, 0)) == src,
        emitted_tokens(src, pieces_from(src, 0)) == scan_tokens_of(src),
        emitted_errors(src, pieces_from(src, 0)) == scan_errors_of(src),
{
    lemma_coverage_from(src, 0);
    assert(src.subrange(0, src.len() as int) =~= src);
}

proof fn lemma_tiling_from(src: Seq<char>, start: int, k: int)
    requires
        0 <= start <= src.len(),
        0 <= k < pieces_from(src, start).len(),
    ensures
        pieces_from(src, start)[0].start == start,
        pieces_from(src, start)[k] == piece_at(src, pieces_from(src, start)[k].start),
        start <= pieces_from(src, start)[k].start < pieces_from(src, start)[k].end <= src.len(),
        k + 1 < pieces_from(src, start).len() ==> pieces_from(src, start)[k + 1].start
            == pieces_from(src, start)[k].end,
        k + 1 == pieces_from(src, start).len() ==> pieces_from(src, start)[k].end == src.len(),
    decreases k,
{
    let end = piece_at(src, start).end;
    lemma_piece_bounds(src, start);
    lemma_pieces_unfold(src, start);
    let rest = pieces_from(src, end);
    assert(forall|j: int| 0 <= j < rest.len() ==> rest[j] == pieces_from(src, start)[j + 1]);
    if k > 0 {
        lemma_tiling_from(src, end, k - 1);
    } else if end < src.len() {
        lemma_pieces_unfold(src, end);
        lemma_piece_bounds(src, end);
    }
}

/// The pieces tile the source: the first begins at its beginning, each holds
/// at least one character and ends where the next begins, and the last ends at
/// its end. Each is the piece that the grammar finds at its own beginning.
pub proof fn law_pieces_tile(src: Seq<char>, k: int)
    requires
        0 <= k < pieces_from(src, 0).len(),
    ensures
        pieces_from(src, 0)[0].start == 0,
        pieces_from(src, 0)[k] == piece_at(src, pieces_from(src, 0)[k].start),
        0 <= pieces_from(src, 0)[k].start < pieces_from(src, 0)[k].end <= src.len(),
        k + 1 < pieces_from(src, 0).len() ==> pieces_from(src, 0)[k + 1].start == pieces_from(
            src,
            0,
        )[k].end,
        k + 1 == pieces_from(src, 0).len() ==> pieces_from(src, 0)[k].end == src.len(),
{
    lemma_tiling_from(src, 0, k);
}

/// What the scan skips is blank: a piece that gives no token is one
/// whitespace character, a line comment up to its newline, or a block comment
/// with its closing mark.
pub proof fn law_skipped_pieces_are_blank(src: Seq<char>, start: int)
    requires
        0 <= start < src.len(),
        piece_at(src, start).kind is None,
    ensures
        piece_at(src, start).fault is None,
        ({
            ||| piece_at(src, start).end == start + 1 && (src[start] == ' ' || src[start] == '\r'
                || src[start] == '\t' || src[start] == '\n')
            ||| src[start] == '/' && has_char(src, start + 1, '/') && piece_at(src, start).end
                == run_end(src, start + 2, Stop::Newline)
            ||| src[start] == '/' && has_char(src, start + 1, '*') && block_comment_end(
                src,
                start + 2,
                0,
            ) == Some(piece_at(src, start).end)
        }),
{
}

proof fn lemma_token_starts_len(src: Seq<char>, start: int)
    requires
        0 <= start <= src.len(),
    ensures
        token_starts_from(src, start).len() == tokens_from(src, start).len(),
    decreases src.len() - start,
{
    if start < src.len() {
        lemma_piece_bounds(src, start);
        lemma_token_starts_len(src, piece_at(src, start).end);
    }
}

proof fn lemma_token_starts(src: Seq<char>, start: int, i: int)
    requires
        0 <= start <= src.len(),
        0 <= i < tokens_from(src, start).len(),
    ensures
        token_starts_from(src, start).len() == tokens_from(src, start).len(),
        start <= token_starts_from(src, start)[i] < src.len(),
        piece_at(src, token_starts_from(src, start)[i]).kind is Some,
        tokens_from(src, start)[i] == piece_token(
            src,
            piece_at(src, token_starts_from(src, start)[i]),
        ),
        i > 0 ==> token_starts_from(src, start)[i - 1] < token_starts_from(src, start)[i],
    decreases src.len() - start,
{
    lemma_token_starts_len(src, start);
    let piece = piece_at(src, start);
    lemma_piece_bounds(src, start);
    lemma_token_starts_len(src, piece.end);
    if piece.kind is Some {
        if i > 0 {
            lemma_token_starts(src, piece.end, i - 1);
        }
    } else {
        assert(tokens_from(src, start) =~= tokens_from(src, piece.end));
        lemma_token_starts(src, piece.end, i);
    }
}

/// Start-line numbering. Each token of a scan has a place in the source where
/// it begins; the places come in source order. The token's lexeme is the text
/// that stands there, it is not empty, and the token's line is one more than
/// the number of newlines before that place, whatever newlines the lexeme
/// itself holds.
pub proof fn law_token_lines(src: Seq<char>, i: int)
    requires
        0 <= i < scan_tokens_of(src).len(),
    ensures
        token_starts_from(src, 0).len() == scan_tokens_of(src).len(),
        0 <= token_starts_from(src, 0)[i] < src.len(),
        i > 0 ==> token_starts_from(src, 0)[i - 1] < token_starts_from(src, 0)[i],
        scan_tokens_of(src)[i].lexeme.len() > 0,
        token_starts_from(src, 0)[i] + scan_tokens_of(src)[i].lexeme.len() <= src.len(),
        scan_tokens_of(src)[i].lexeme == src.subrange(
            token_starts_from(src, 0)[i],
            token_starts_from(src, 0)[i] + scan_tokens_of(src)[i].lexeme.len(),
        ),
        scan_tokens_of(src)[i].line == 1 + newline_count(src.take(token_starts_from(src, 0)[i])),
{
    lemma_token_starts(src, 0, i);
    lemma_piece_bounds(src, token_starts_from(src, 0)[i]);
}

proof fn lemma_invalid_count_concat(a: Seq<TokenView>, b: Seq<TokenView>)
    ensures
        invalid_count(a + b) == invalid_count(a) + invalid_count(b),
    decreases b.len(),
{
    if b.len() == 0 {
        assert(a + b =~= a);
    } else {
        assert((a + b).drop_last() =~= a + b.drop_last());
        lemma_invalid_count_concat(a, b.drop_last());
    }
}

proof fn lemma_errors_match_from(src: Seq<char>, start: int)
    requires
        0 <= start <= src.len(),
    ensures
        errors_from(src, start).len() == invalid_count(tokens_from(src, start)),
    decreases src.len() - start,
{
    if start < src.len() {
        let piece = piece_at(src, start);
        lemma_piece_bounds(src, start);
        lemma_run_end_bounds(src, start + 1, Stop::NonWord);
        lemma_word_kind_valid(src.subrange(start, run_end(src, start + 1, Stop::NonWord)));
        lemma_errors_match_from(src, piece.end);
        lemma_invalid_count_concat(piece_tokens(src, piece), tokens_from(src, piece.end));
        let one = piece_tokens(src, piece);
        if piece.kind is Some {
            assert(one.drop_last() =~= Seq::<TokenView>::empty());
            assert(invalid_count(one.drop_last()) == 0);
        }
    }
}

/// No word is of the kind `Invalid`.
proof fn lemma_word_kind_valid(word: Seq<char>)
    ensures
        word_kind(word) != TokenType::Invalid,
{
}

/// Every diagnostic comes with one `Invalid` token and every `Invalid` token
/// with one diagnostic: a scan gives as many of the one as of the other, so it
/// is free of diagnostics exactly where it is free of `Invalid` tokens.
pub proof fn law_errors_match_invalid_tokens(src: Seq<char>)
    ensures
        scan_errors_of(src).len() == invalid_count(scan_tokens_of(src)),
{
    lemma_errors_match_from(src, 0);
}

/// One character of lookahead decides an operator. Where `!`, `=`, `<` or `>`
/// stands before `=`, the two are one token of the compound kind. Before any
/// other character, or at the end of the source, it is a token of the simple
/// kind by itself, and the next piece begins with the character behind it.
pub proof fn law_operator_lookahead(src: Seq<char>, start: int)
    requires
        0 <= start < src.len(),
        operator(src[start], false) is Some,
    ensures
        has_char(src, start + 1, '=') ==> piece_at(src, start) == plain(
            start,
            start + 2,
            operator(src[start], true)->0,
        ),
        !has_char(src, start + 1, '=') ==> piece_at(src, start) == plain(
            start,
            start + 1,
            operator(src[start], false)->0,
        ),
        pieces_from(src, start) == seq![piece_at(src, start)] + pieces_from(
            src,
            piece_at(src, start).end,
        ),
{
}

/// A punctuation mark is a token by itself, without a literal, whatever
/// stands around it.
pub proof fn law_punctuation_stands_alone(src: Seq<char>, start: int)
    requires
        0 <= start < src.len(),
        punctuation(src[start]) is Some,
    ensures
        piece_at(src, start) == plain(start, start + 1, punctuation(src[start])->0),
        piece_token(src, piece_at(src, start)).literal is None,
{
}

/// A number literal holds one digit value, below ten, for each digit of its
/// lexeme, and no more digits behind the point than it has digits.
pub proof fn law_number_literal(src: Seq<char>, start: int)
    requires
        0 <= start < src.len(),
        is_digit(src[start]),
    ensures
        piece_at(src, start).kind == Some(TokenType::Number),
        piece_at(src, start).literal matches Some(LiteralView::Number { digits, scale }) && {
            &&& scale <= digits.len()
            &&& digits.len() + (if scale > 0 { 1int } else { 0int })
                == piece_at(src, start).end - start
            &&& forall|i: int| 0 <= i < digits.len() ==> #[trigger] digits[i] < 10
        },
{
    let whole_end = run_end(src, start + 1, Stop::NonDigit);
    lemma_run_end_bounds(src, start + 1, Stop::NonDigit);
    lemma_run_end_holds(src, start + 1, Stop::NonDigit);
    if whole_end + 1 <= src.len() {
        lemma_run_end_bounds(src, whole_end + 1, Stop::NonDigit);
        lemma_run_end_holds(src, whole_end + 1, Stop::NonDigit);
    }
}

} // verus!
