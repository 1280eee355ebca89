use vstd::prelude::*;
use crate::token_type::TokenType;

verus! {

/// The number that a sequence of decimal digit values denotes, most
/// significant digit first.
pub open spec fn digits_value(digits: Seq<u8>) -> nat
    decreases digits.len(),
{
    if digits.len() == 0 {
        0
    } else {
        digits_value(digits.drop_last()) * 10 + digits.last() as nat
    }
}

/// An exact decimal number: the digits of its mantissa, most significant
/// first, and the count of those digits that stand behind the decimal point.
/// It denotes `digits_value(digits) / 10^scale`.
#[derive(Debug, Clone, PartialEq, Eq)]
pub struct Decimal {
    pub digits: Vec<u8>,
    pub scale: usize,
}

impl Decimal {
    /// The mantissa as a natural number.
    pub open spec fn mantissa_value(&self) -> nat {
        digits_value(self.digits@)
    }

    /// The mantissa, where it fits into 64 bits.
    pub fn mantissa(&self) -> (m: Option<u64>)
        ensures
            m is Some <==> self.mantissa_value() <= u64::MAX,
            m is Some ==> m->0 == self.mantissa_value(),
    {
        let mut acc: u64 = 0;
        let mut i: usize = 0;
        while i < self.digits.len()
            invariant
                i <= self.digits@.len(),
                acc == digits_value(self.digits@.take(i as int)),
            decreases self.digits@.len() - i,
        {
            let d: u64 = self.digits[i] as u64;
            proof {
                assert(self.digits@.take(i + 1).drop_last() =~= self.digits@.take(i as int));
                lemma_digits_value_prefix(self.digits@, i + 1);
            }
            if acc > (u64::MAX - d) / 10 {
                return None;
            }
            acc = acc * 10 + d;
            i += 1;
        }
        proof {
            assert(self.digits@.take(i as int) =~= self.digits@);
        }
        Some(acc)
    }
}

/// A prefix of a digit sequence never denotes more than the whole.
pub proof fn lemma_digits_value_prefix(digits: Seq<u8>, n: int)
    requires
        0 <= n <= digits.len(),
    ensures
        digits_value(digits.take(n)) <= digits_value(digits),
    decreases digits.len(),
{
    if n == digits.len() {
        assert(digits.take(n) =~= digits);
    } else {
        assert(digits.drop_last().take(n) =~= digits.take(n));
        lemma_digits_value_prefix(digits.drop_last(), n);
    }
}

/// What a [`Literal`] stands for in contracts.
pub enum LiteralView {
    String(Seq<char>),
    Identifier(Seq<char>),
    Number { digits: Seq<u8>, scale: nat },
}

/// The decoded value that a literal token carries.
#[derive(Debug, Clone, PartialEq, Eq)]
pub enum Literal {
    String(String),
    Identifier(String),
    Number(Decimal),
}

impl View for Literal {
    type V = LiteralView;

    open spec fn view(&self) -> LiteralView {
        match self {
            Literal::String(s) => LiteralView::String(s@),
            Literal::Identifier(s) => LiteralView::Identifier(s@),
            Literal::Number(d) => LiteralView::Number { digits: d.digits@, scale: d.scale as nat },
        }
    }
}

/// The view of an optional literal.
pub open spec fn literal_view(literal: Option<Literal>) -> Option<LiteralView> {
    match literal {
        Some(l) => Some(l@),
        None => None,
    }
}

/// What a [`Token`] stands for in contracts.
pub struct TokenView {
    pub token_type: TokenType,
    pub lexeme: Seq<char>,
    pub literal: Option<LiteralView>,
    pub line: nat,
}

/// One classified lexeme: its kind, the source text it was read from, its
/// decoded value where it has one, and the line on which it began.
#[derive(Debug, Clone, PartialEq, Eq)]
pub struct Token {
    pub token_type: TokenType,
    pub lexeme: String,
    pub literal: Option<Literal>,
    pub line: usize,
}

impl View for Token {
    type V = TokenView;

    open spec fn view(&self) -> TokenView {
        TokenView {
            token_type: self.token_type,
            lexeme: self.lexeme@,
            literal: literal_view(self.literal),
            line: self.line as nat,
        }
    }
}

impl Token {
    pub fn new(token_type: TokenType, lexeme: String, literal: Option<Literal>, line: usize) -> (token: Self)
        ensures
            token.token_type == token_type,
            token.lexeme == lexeme,
            token.literal == literal,
            token.line == line,
    {
        Token { token_type, lexeme, literal, line }
    }
}

/// The views of a sequence of tokens, in order.
pub open spec fn token_views(tokens: Seq<Token>) -> Seq<TokenView> {
    tokens.map_values(|t: Token| t@)
}

} // verus!
