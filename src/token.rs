use vstd::prelude::*;

verus! {

#[derive(Debug, PartialEq)]
/// A numeric literal as written: the digits before the decimal point and the
/// digits after it, each digit held as its value 0 to 9.
pub struct Decimal {
    pub whole: Vec<u8>,
    pub frac: Vec<u8>,
}

/// The integer that a sequence of digit values denotes in base ten.
pub open spec fn digits_value(ds: Seq<u8>) -> nat
    decreases ds.len(),
{
    if ds.len() == 0 {
        0
    } else {
        digits_value(ds.drop_last()) * 10 + ds.last() as nat
    }
}

/// The mathematical model of a `Decimal`.
pub struct DecimalModel {
    pub whole: Seq<u8>,
    pub frac: Seq<u8>,
}

impl View for Decimal {
    type V = DecimalModel;

    open spec fn view(&self) -> DecimalModel {
        DecimalModel { whole: self.whole@, frac: self.frac@ }
    }
}

/// One lexical unit of a line.
#[derive(Debug, PartialEq)]
pub enum Token {
    Number(Decimal),
    Identifier(String),
    Add,
    Sub,
    Mul,
    Div,
    Pow,
}

/// The mathematical model of a `Token`.
pub enum TokenModel {
    Number(DecimalModel),
    Identifier(Seq<char>),
    Add,
    Sub,
    Mul,
    Div,
    Pow,
}

impl Decimal {
    /// A copy of this literal.
    pub fn duplicate(&self) -> (r: Decimal)
        ensures
            r@ == self@,
    {
        let whole = self.whole.clone();
        let frac = self.frac.clone();
        assert(whole@ =~= self.whole@);
        assert(frac@ =~= self.frac@);
        Decimal { whole, frac }
    }
}

impl Token {
    /// A copy of this token.
    pub fn duplicate(&self) -> (r: Token)
        ensures
            r@ == self@,
    {
        match self {
            Token::Number(d) => Token::Number(d.duplicate()),
            Token::Identifier(s) => Token::Identifier(s.clone()),
            Token::Add => Token::Add,
            Token::Sub => Token::Sub,
            Token::Mul => Token::Mul,
            Token::Div => Token::Div,
            Token::Pow => Token::Pow,
        }
    }
}

impl View for Token {
    type V = TokenModel;

    open spec fn view(&self) -> TokenModel {
        match self {
            Token::Number(d) => TokenModel::Number(d@),
            Token::Identifier(s) => TokenModel::Identifier(s@),
            Token::Add => TokenModel::Add,
            Token::Sub => TokenModel::Sub,
            Token::Mul => TokenModel::Mul,
            Token::Div => TokenModel::Div,
            Token::Pow => TokenModel::Pow,
        }
    }
}

} // verus!

verus! {

/// The models of a sequence of tokens.
pub open spec fn tokens_view(ts: Seq<Token>) -> Seq<TokenModel> {
    ts.map_values(|t: Token| t@)
}

} // verus!
