use vstd::prelude::*;
use crate::token::{Decimal, DecimalModel, Token, TokenModel, tokens_view};

verus! {

/// A binary operator.
#[derive(Clone, Copy, Debug, PartialEq, Eq, Structural)]
pub enum Op {
    Add,
    Sub,
    Mul,
    Div,
    Pow,
}

/// A value-producing token: a literal, or a variable's name.
#[derive(Debug, PartialEq)]
pub enum Operand {
    Number(Decimal),
    Identifier(String),
}

/// The mathematical model of an `Operand`.
pub enum OperandModel {
    Number(DecimalModel),
    Identifier(Seq<char>),
}

impl View for Operand {
    type V = OperandModel;

    open spec fn view(&self) -> OperandModel {
        match self {
            Operand::Number(d) => OperandModel::Number(d@),
            Operand::Identifier(s) => OperandModel::Identifier(s@),
        }
    }
}

/// One link of the chain: the accumulated value is combined with the operand
/// by the operator.
#[derive(Debug, PartialEq)]
pub struct Step {
    pub op: Op,
    pub operand: Operand,
}

pub struct StepModel {
    pub op: Op,
    pub operand: OperandModel,
}

impl View for Step {
    type V = StepModel;

    open spec fn view(&self) -> StepModel {
        StepModel { op: self.op, operand: self.operand@ }
    }
}

/// A well-formed expression, in the order in which it is evaluated: the
/// starting operand (none stands for zero), then each step, strictly left to
/// right, with no precedence between operators.
#[derive(Debug, PartialEq)]
pub struct Chain {
    pub start: Option<Operand>,
    pub steps: Vec<Step>,
}

/// The model of an optional operand.
pub open spec fn option_view(o: Option<Operand>) -> Option<OperandModel> {
    match o {
        Some(x) => Some(x@),
        None => None,
    }
}

pub struct ChainModel {
    pub start: Option<OperandModel>,
    pub steps: Seq<StepModel>,
}

impl View for Chain {
    type V = ChainModel;

    open spec fn view(&self) -> ChainModel {
        ChainModel {
            start: option_view(self.start),
            steps: self.steps@.map_values(|s: Step| s@),
        }
    }
}

/// Why a token sequence is not a well-formed expression.
#[derive(Debug, PartialEq)]
pub enum EvalError {
    /// An operator was expected; a number or a name stood there.
    ExpectedOperator(Token),
    /// An operand was expected; an operator stood there, or the tokens ended.
    ExpectedExpr(Option<Token>),
}

pub enum EvalErrorModel {
    ExpectedOperator(TokenModel),
    ExpectedExpr(Option<TokenModel>),
}

impl View for EvalError {
    type V = EvalErrorModel;

    open spec fn view(&self) -> EvalErrorModel {
        match self {
            EvalError::ExpectedOperator(t) => EvalErrorModel::ExpectedOperator(t@),
            EvalError::ExpectedExpr(Some(t)) => EvalErrorModel::ExpectedExpr(Some(t@)),
            EvalError::ExpectedExpr(None) => EvalErrorModel::ExpectedExpr(None),
        }
    }
}

/// The operand that a token stands for, if it is a number or a name.
pub open spec fn operand_of(t: TokenModel) -> Option<OperandModel> {
    match t {
        TokenModel::Number(d) => Some(OperandModel::Number(d)),
        TokenModel::Identifier(n) => Some(OperandModel::Identifier(n)),
        _ => None,
    }
}

/// The operator that a token stands for, if it is one.
pub open spec fn op_of(t: TokenModel) -> Option<Op> {
    match t {
        TokenModel::Add => Some(Op::Add),
        TokenModel::Sub => Some(Op::Sub),
        TokenModel::Mul => Some(Op::Mul),
        TokenModel::Div => Some(Op::Div),
        TokenModel::Pow => Some(Op::Pow),
        _ => None,
    }
}

/// `s` in front of the steps of `r`, if `r` succeeded.
pub open spec fn prefix_steps(p: Seq<StepModel>, r: Result<Seq<StepModel>, EvalErrorModel>) -> Result<
    Seq<StepModel>,
    EvalErrorModel,
> {
    match r {
        Ok(ss) => Ok(p + ss),
        Err(e) => Err(e),
    }
}

/// The steps read from position `p` on, expecting an operator there: each
/// operator must be followed by an operand; the first mismatch is the error.
pub open spec fn steps_from(ts: Seq<TokenModel>, p: int) -> Result<Seq<StepModel>, EvalErrorModel>
    decreases ts.len() - p,
{
    if p < 0 || p >= ts.len() {
        Ok(Seq::empty())
    } else {
        match op_of(ts[p]) {
            None => Err(EvalErrorModel::ExpectedOperator(ts[p])),
            Some(op) => if p + 1 >= ts.len() {
                Err(EvalErrorModel::ExpectedExpr(None))
            } else {
                match operand_of(ts[p + 1]) {
                    None => Err(EvalErrorModel::ExpectedExpr(Some(ts[p + 1]))),
                    Some(x) => prefix_steps(
                        seq![StepModel { op, operand: x }],
                        steps_from(ts, p + 2),
                    ),
                }
            },
        }
    }
}

/// The chain of a token sequence: a leading operand if there is one (else
/// the start is zero and nothing is consumed), then the steps.
pub open spec fn chain_of(ts: Seq<TokenModel>) -> Result<ChainModel, EvalErrorModel> {
    let lead = if ts.len() > 0 {
        operand_of(ts[0])
    } else {
        None
    };
    let p: int = if lead is Some {
        1
    } else {
        0
    };
    match steps_from(ts, p) {
        Ok(steps) => Ok(ChainModel { start: lead, steps }),
        Err(e) => Err(e),
    }
}

/// Reading a token sequence as an expression is a function of the tokens
/// alone: the same tokens always give the same chain or the same error.
pub proof fn lemma_chain_is_pure(a: Seq<TokenModel>, b: Seq<TokenModel>)
    requires
        a == b,
    ensures
        chain_of(a) == chain_of(b),
{
}

proof fn lemma_prefix_steps(p: Seq<StepModel>, s: StepModel, r: Result<Seq<StepModel>, EvalErrorModel>)
    ensures
        prefix_steps(p, prefix_steps(seq![s], r)) == prefix_steps(p.push(s), r),
{
    if let Ok(ss) = r {
        assert(p + (seq![s] + ss) =~= p.push(s) + ss);
    }
}

/// The operand that the token at `p` stands for, if it is a number or a name.
fn operand_at(tokens: &Vec<Token>, p: usize) -> (r: Option<Operand>)
    requires
        p < tokens.len(),
    ensures
        match r {
            Some(x) => operand_of(tokens@[p as int]@) == Some(x@),
            None => operand_of(tokens@[p as int]@) is None,
        },
{
    match &tokens[p] {
        Token::Number(d) => Some(Operand::Number(d.duplicate())),
        Token::Identifier(n) => Some(Operand::Identifier(n.clone())),
        _ => None,
    }
}

/// The operator that the token at `p` stands for, if it is one.
fn op_at(tokens: &Vec<Token>, p: usize) -> (r: Option<Op>)
    requires
        p < tokens.len(),
    ensures
        r == op_of(tokens@[p as int]@),
{
    match &tokens[p] {
        Token::Add => Some(Op::Add),
        Token::Sub => Some(Op::Sub),
        Token::Mul => Some(Op::Mul),
        Token::Div => Some(Op::Div),
        Token::Pow => Some(Op::Pow),
        _ => None,
    }
}

/// Reads a token sequence as an expression: operand, then operator and
/// operand in turn, left to right. A missing leading operand counts as zero.
/// Fails at the first place where an operator was due and a number or name
/// stood, or where an operand was due and an operator stood or the tokens
/// ended.
pub fn chain(tokens: &Vec<Token>) -> (r: Result<Chain, EvalError>)
    ensures
        match r {
            Ok(c) => chain_of(tokens_view(tokens@)) == Ok::<ChainModel, EvalErrorModel>(c@),
            Err(e) => chain_of(tokens_view(tokens@)) == Err::<ChainModel, EvalErrorModel>(e@),
        },
{
    let ghost ts = tokens_view(tokens@);
    let n = tokens.len();
    let start = if n > 0 {
        operand_at(tokens, 0)
    } else {
        None
    };
    let mut p: usize = if start.is_some() {
        1
    } else {
        0
    };
    let mut steps: Vec<Step> = Vec::new();
    assert(ts.len() == n);
    assert(n > 0 ==> ts[0] == tokens@[0]@);
    proof {
        if let Ok(ss) = steps_from(ts, p as int) {
            assert(Seq::<StepModel>::empty() + ss =~= ss);
        }
    }
    while p < n
        invariant
            ts == tokens_view(tokens@),
            ts.len() == n,
            n == tokens.len(),
            chain_of(ts) == match steps_from(ts, if start is Some { 1int } else { 0int }) {
                Ok(ss) => Ok::<ChainModel, EvalErrorModel>(
                    ChainModel { start: option_view(start), steps: ss },
                ),
                Err(e) => Err(e),
            },
            p <= n,
            steps_from(ts, if start is Some { 1int } else { 0int }) == prefix_steps(
                steps@.map_values(|s: Step| s@),
                steps_from(ts, p as int),
            ),
        decreases n - p,
    {
        let ghost before = steps@.map_values(|s: Step| s@);
        match op_at(tokens, p) {
            None => {
                assert(ts[p as int] == tokens@[p as int]@);
                return Err(EvalError::ExpectedOperator(tokens[p].duplicate()));
            },
            Some(op) => {
                if p + 1 >= n {
                    return Err(EvalError::ExpectedExpr(None));
                }
                match operand_at(tokens, p + 1) {
                    None => {
                        assert(ts[p + 1] == tokens@[p + 1]@);
                        return Err(EvalError::ExpectedExpr(Some(tokens[p + 1].duplicate())));
                    },
                    Some(x) => {
                        let s = Step { op, operand: x };
                        proof {
                            lemma_prefix_steps(before, s@, steps_from(ts, p + 2));
                        }
                        steps.push(s);
                        assert(steps@.map_values(|s: Step| s@) =~= before.push(s@));
                        p = p + 2;
                    },
                }
            },
        }
    }
    assert(steps@.map_values(|s: Step| s@) + Seq::<StepModel>::empty() =~= steps@.map_values(
        |s: Step| s@,
    ));
    Ok(Chain { start, steps })
}

} // verus!
