use std::collections::HashMap;

use linecalc::eval::{chain, Chain, EvalError, Op, Operand, Step};
use linecalc::lexer::tokenize;
use linecalc::token::{Decimal, Token};

fn literal(d: &Decimal) -> f64 {
    let mut v = 0.0;
    for &x in &d.whole {
        v = v * 10.0 + x as f64;
    }
    let mut w = 0.1;
    for &x in &d.frac {
        v += x as f64 * w;
        w /= 10.0;
    }
    v
}

fn value(o: &Operand, vars: &HashMap<String, f64>) -> f64 {
    match o {
        Operand::Number(d) => literal(d),
        Operand::Identifier(n) => *vars.get(n).unwrap_or(&0.0),
    }
}

fn run(line: &str, vars: &HashMap<String, f64>) -> Result<f64, EvalError> {
    let tokens = tokenize(line).unwrap();
    let c = chain(&tokens)?;
    let mut acc = c.start.as_ref().map(|o| value(o, vars)).unwrap_or(0.0);
    for s in &c.steps {
        let n = value(&s.operand, vars);
        acc = match s.op {
            Op::Add => acc + n,
            Op::Sub => acc - n,
            Op::Mul => acc * n,
            Op::Div => acc / n,
            Op::Pow => acc.powf(n),
        };
    }
    Ok(acc)
}

fn n(whole: &[u8]) -> Operand {
    Operand::Number(Decimal { whole: whole.to_vec(), frac: vec![] })
}

#[test]
fn no_precedence_chain_shape() {
    let tokens = tokenize("2+3*4").unwrap();
    assert_eq!(
        chain(&tokens),
        Ok(Chain {
            start: Some(n(&[2])),
            steps: vec![Step { op: Op::Add, operand: n(&[3]) }, Step { op: Op::Mul, operand: n(&[4]) }],
        })
    );
}

#[test]
fn no_precedence_value() {
    assert_eq!(run("2+3*4", &HashMap::new()), Ok(20.0));
}

#[test]
fn absent_variable_is_zero() {
    assert_eq!(run("unknown+5", &HashMap::new()), Ok(5.0));
}

#[test]
fn present_variable_is_read() {
    let vars = HashMap::from([("ans".to_string(), 4.0)]);
    assert_eq!(run("ans*ans", &vars), Ok(16.0));
}

#[test]
fn empty_expression_is_zero() {
    let tokens = tokenize("").unwrap();
    assert_eq!(chain(&tokens), Ok(Chain { start: None, steps: vec![] }));
    assert_eq!(run("", &HashMap::new()), Ok(0.0));
}

#[test]
fn trailing_operator_fails() {
    assert_eq!(run("2+", &HashMap::new()), Err(EvalError::ExpectedExpr(None)));
}

#[test]
fn two_operands_without_operator_fail() {
    assert_eq!(
        run("2 3", &HashMap::new()),
        Err(EvalError::ExpectedOperator(Token::Number(Decimal { whole: vec![3], frac: vec![] })))
    );
}

#[test]
fn operand_after_name_without_operator_fails() {
    assert_eq!(
        run("x y", &HashMap::new()),
        Err(EvalError::ExpectedOperator(Token::Identifier("y".to_string())))
    );
}

#[test]
fn doubled_operator_fails_on_the_second() {
    assert_eq!(run("2++3", &HashMap::new()), Err(EvalError::ExpectedExpr(Some(Token::Add))));
}

#[test]
fn power_operator() {
    assert_eq!(run("2^10", &HashMap::new()), Ok(1024.0));
}

#[test]
fn leading_operator_starts_from_zero() {
    let tokens = tokenize("-5").unwrap();
    assert_eq!(
        chain(&tokens),
        Ok(Chain { start: None, steps: vec![Step { op: Op::Sub, operand: n(&[5]) }] })
    );
    assert_eq!(run("-5", &HashMap::new()), Ok(-5.0));
}

#[test]
fn lone_operator_fails() {
    assert_eq!(run("*", &HashMap::new()), Err(EvalError::ExpectedExpr(None)));
}

#[test]
fn division_by_zero_is_infinite() {
    assert_eq!(run("1/0", &HashMap::new()), Ok(f64::INFINITY));
}

#[test]
fn decimal_literal_value() {
    assert_eq!(run("2.5*2", &HashMap::new()), Ok(5.0));
}

#[test]
fn chaining_is_left_to_right() {
    assert_eq!(run("10-4-3", &HashMap::new()), Ok(3.0));
    assert_eq!(run("2^3^2", &HashMap::new()), Ok(64.0));
}

#[test]
fn same_tokens_give_same_result() {
    let tokens = tokenize("x*2+y/4").unwrap();
    assert_eq!(chain(&tokens), chain(&tokens));
    let vars = HashMap::from([("x".to_string(), 3.0), ("y".to_string(), 8.0)]);
    let first = run("x*2+y/4", &vars);
    assert_eq!(first, run("x*2+y/4", &vars));
    assert_eq!(first, Ok(3.5));
}
