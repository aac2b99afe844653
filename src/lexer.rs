use vstd::prelude::*;
use vstd::string::*;
use crate::token::{Decimal, DecimalModel, digits_value, Token, TokenModel, tokens_view};

verus! {

/// Why a line could not be split into tokens.
#[derive(Clone, Copy, Debug, PartialEq, Eq, Structural)]
pub enum LexError {
    /// A character that starts no token, or a second decimal point in a number.
    UnexpectedToken(char),
}

/// What `char::is_whitespace` returns for a character.
pub uninterp spec fn whitespace(c: char) -> bool;

/// What `char::is_alphabetic` returns for a character.
pub uninterp spec fn alphabetic(c: char) -> bool;

/// Relies on `char::is_whitespace`: whether `c` has Unicode's White_Space property.
#[verifier::external_body]
fn is_space(c: char) -> (r: bool)
    ensures
        r == whitespace(c),
{
    c.is_whitespace()
}

/// Relies on `char::is_alphabetic`: whether `c` has Unicode's Alphabetic property.
#[verifier::external_body]
fn is_letter(c: char) -> (r: bool)
    ensures
        r == alphabetic(c),
{
    c.is_alphabetic()
}

pub open spec fn is_digit(c: char) -> bool {
    '0' <= c && c <= '9'
}

pub open spec fn digit_value(c: char) -> u8 {
    (c as u32 - '0' as u32) as u8
}

/// The digit values of a run of decimal digits.
pub open spec fn digits(s: Seq<char>) -> Seq<u8> {
    s.map_values(|c: char| digit_value(c))
}

/// The number of consecutive decimal digits of `s` from position `i`.
pub open spec fn digit_run(s: Seq<char>, i: int) -> nat
    decreases s.len() - i,
{
    if 0 <= i < s.len() && is_digit(s[i]) {
        1 + digit_run(s, i + 1)
    } else {
        0
    }
}

/// The number of consecutive alphabetic characters of `s` from position `i`.
pub open spec fn alpha_run(s: Seq<char>, i: int) -> nat
    decreases s.len() - i,
{
    if 0 <= i < s.len() && alphabetic(s[i]) {
        1 + alpha_run(s, i + 1)
    } else {
        0
    }
}

/// The numeric literal that starts at position `i`, and the position after it:
/// digits, then optionally a point and more digits. A second point right
/// after that is an error.
pub open spec fn number_at(s: Seq<char>, i: int) -> Result<(DecimalModel, int), LexError> {
    let j = i + digit_run(s, i);
    let whole = digits(s.subrange(i, j));
    if j < s.len() && s[j] == '.' {
        let k = j + 1 + digit_run(s, j + 1);
        if k < s.len() && s[k] == '.' {
            Err(LexError::UnexpectedToken('.'))
        } else {
            Ok((DecimalModel { whole, frac: digits(s.subrange(j + 1, k)) }, k))
        }
    } else {
        Ok((DecimalModel { whole, frac: Seq::empty() }, j))
    }
}

/// `t` in front of the tokens of `r`, if `r` succeeded.
pub open spec fn cons(t: TokenModel, r: Result<Seq<TokenModel>, LexError>) -> Result<
    Seq<TokenModel>,
    LexError,
> {
    match r {
        Ok(ts) => Ok(seq![t] + ts),
        Err(e) => Err(e),
    }
}

/// `p` in front of the tokens of `r`, if `r` succeeded.
pub open spec fn prefix(p: Seq<TokenModel>, r: Result<Seq<TokenModel>, LexError>) -> Result<
    Seq<TokenModel>,
    LexError,
> {
    match r {
        Ok(ts) => Ok(p + ts),
        Err(e) => Err(e),
    }
}

/// The operator token that `c` stands for, if any.
pub open spec fn operator_of(c: char) -> Option<TokenModel> {
    if c == '+' {
        Some(TokenModel::Add)
    } else if c == '-' {
        Some(TokenModel::Sub)
    } else if c == '*' {
        Some(TokenModel::Mul)
    } else if c == '/' {
        Some(TokenModel::Div)
    } else if c == '^' {
        Some(TokenModel::Pow)
    } else {
        None
    }
}

/// The tokens of `s` from position `i` on. (A literal or a name always ends
/// after its start and within `s`: the guards on the end positions only make
/// the recursion's measure plain.)
pub open spec fn lex_from(s: Seq<char>, i: int) -> Result<Seq<TokenModel>, LexError>
    decreases s.len() - i,
{
    if i < 0 || i >= s.len() {
        Ok(Seq::empty())
    } else {
        let c = s[i];
        if is_digit(c) {
            match number_at(s, i) {
                Ok((d, k)) => if i < k <= s.len() {
                    cons(TokenModel::Number(d), lex_from(s, k))
                } else {
                    Ok(Seq::empty())
                },
                Err(e) => Err(e),
            }
        } else if whitespace(c) {
            lex_from(s, i + 1)
        } else if alphabetic(c) {
            let j = i + alpha_run(s, i);
            if i < j <= s.len() {
                cons(TokenModel::Identifier(s.subrange(i, j)), lex_from(s, j))
            } else {
                Ok(Seq::empty())
            }
        } else {
            match operator_of(c) {
                Some(t) => cons(t, lex_from(s, i + 1)),
                None => Err(LexError::UnexpectedToken(c)),
            }
        }
    }
}

/// The tokens of a whole line.
pub open spec fn lex(s: Seq<char>) -> Result<Seq<TokenModel>, LexError> {
    lex_from(s, 0)
}

/// The integer that a string of decimal digits denotes.
pub open spec fn numeral(s: Seq<char>) -> nat
    decreases s.len(),
{
    if s.len() == 0 {
        0
    } else {
        numeral(s.drop_last()) * 10 + digit_value(s.last()) as nat
    }
}

proof fn lemma_digits_value(s: Seq<char>)
    requires
        forall|k: int| 0 <= k < s.len() ==> is_digit(#[trigger] s[k]),
    ensures
        digits_value(digits(s)) == numeral(s),
    decreases s.len(),
{
    if s.len() > 0 {
        assert(digits(s).drop_last() =~= digits(s.drop_last()));
        lemma_digits_value(s.drop_last());
    }
}

/// A line of decimal digits alone is one numeric literal, with no fractional
/// digits, whose digits denote the integer that the line writes.
pub proof fn lemma_digits_lex_to_integer(s: Seq<char>)
    requires
        s.len() > 0,
        forall|k: int| 0 <= k < s.len() ==> is_digit(#[trigger] s[k]),
    ensures
        lex(s) == Ok::<Seq<TokenModel>, LexError>(
            seq![TokenModel::Number(DecimalModel { whole: digits(s), frac: Seq::empty() })],
        ),
        digits_value(digits(s)) == numeral(s),
{
    lemma_digit_run(s, 0, s.len() as int);
    assert(s.subrange(0, s.len() as int) =~= s);
    lemma_digits_value(s);
    let d = DecimalModel { whole: digits(s), frac: Seq::empty() };
    assert(number_at(s, 0) == Ok::<(DecimalModel, int), LexError>((d, s.len() as int)));
    assert(lex_from(s, s.len() as int) == Ok::<Seq<TokenModel>, LexError>(Seq::empty()));
    assert(seq![TokenModel::Number(d)] + Seq::<TokenModel>::empty() =~= seq![TokenModel::Number(d)]);
}

/// A name is the longest run of alphabetic characters from where it starts:
/// the first character that is not alphabetic (a digit, say) ends it, and
/// what follows is read as further tokens. (The name's first character is
/// taken to be neither a decimal digit nor whitespace, as no letter is.)
pub proof fn lemma_identifier_stops_at_non_letter(s: Seq<char>, i: int, j: int)
    requires
        0 <= i < j <= s.len(),
        forall|k: int| i <= k < j ==> alphabetic(#[trigger] s[k]),
        j == s.len() || !alphabetic(s[j]),
        !is_digit(s[i]),
        !whitespace(s[i]),
    ensures
        lex_from(s, i) == cons(TokenModel::Identifier(s.subrange(i, j)), lex_from(s, j)),
{
    lemma_alpha_run(s, i, j);
}

/// The characters of `s`, in order.
fn chars_of(s: &str) -> (r: Vec<char>)
    ensures
        r@ == s@,
{
    let mut out: Vec<char> = Vec::new();
    for c in it: s.chars()
        invariant
            out@ == it.history(),
    {
        out.push(c);
    }
    out
}

proof fn lemma_digit_run(s: Seq<char>, i: int, j: int)
    requires
        0 <= i <= j <= s.len(),
        forall|k: int| i <= k < j ==> is_digit(#[trigger] s[k]),
        j == s.len() || !is_digit(s[j]),
    ensures
        digit_run(s, i) == j - i,
    decreases j - i,
{
    if i < j {
        lemma_digit_run(s, i + 1, j);
    }
}

proof fn lemma_alpha_run(s: Seq<char>, i: int, j: int)
    requires
        0 <= i <= j <= s.len(),
        forall|k: int| i <= k < j ==> alphabetic(#[trigger] s[k]),
        j == s.len() || !alphabetic(s[j]),
    ensures
        alpha_run(s, i) == j - i,
    decreases j - i,
{
    if i < j {
        lemma_alpha_run(s, i + 1, j);
    }
}

proof fn lemma_prefix_cons(p: Seq<TokenModel>, t: TokenModel, r: Result<Seq<TokenModel>, LexError>)
    ensures
        prefix(p, cons(t, r)) == prefix(p.push(t), r),
{
    if let Ok(ts) = r {
        assert(p + (seq![t] + ts) =~= p.push(t) + ts);
    }
}

/// The run of decimal digits of `cs` from `start`: their values, and the
/// position after the run.
fn scan_digits(cs: &Vec<char>, start: usize) -> (r: (Vec<u8>, usize))
    requires
        start <= cs.len(),
    ensures
        r.1 == start + digit_run(cs@, start as int),
        r.1 <= cs.len(),
        r.0@ == digits(cs@.subrange(start as int, r.1 as int)),
{
    let n = cs.len();
    let mut ds: Vec<u8> = Vec::new();
    let mut j: usize = start;
    while j < n && '0' <= cs[j] && cs[j] <= '9'
        invariant
            n == cs.len(),
            start <= j <= n,
            forall|k: int| start <= k < j ==> is_digit(#[trigger] cs@[k]),
            ds@ == digits(cs@.subrange(start as int, j as int)),
        decreases n - j,
    {
        let d = (cs[j] as u32 - '0' as u32) as u8;
        assert(ds@.push(d) =~= digits(cs@.subrange(start as int, j + 1)));
        ds.push(d);
        j = j + 1;
    }
    proof {
        lemma_digit_run(cs@, start as int, j as int);
    }
    (ds, j)
}

/// The numeric literal that starts at `start`, and the position after it.
fn scan_number(cs: &Vec<char>, start: usize) -> (r: Result<(Decimal, usize), LexError>)
    requires
        start < cs.len(),
        is_digit(cs@[start as int]),
    ensures
        match r {
            Ok((d, k)) => number_at(cs@, start as int) == Ok::<(DecimalModel, int), LexError>(
                (d@, k as int),
            ) && start < k <= cs.len(),
            Err(e) => number_at(cs@, start as int) == Err::<(DecimalModel, int), LexError>(e),
        },
{
    let n = cs.len();
    let (whole, j) = scan_digits(cs, start);
    if j < n && cs[j] == '.' {
        let (frac, k) = scan_digits(cs, j + 1);
        if k < n && cs[k] == '.' {
            Err(LexError::UnexpectedToken('.'))
        } else {
            Ok((Decimal { whole, frac }, k))
        }
    } else {
        let frac: Vec<u8> = Vec::new();
        assert(frac@ =~= Seq::<u8>::empty());
        Ok((Decimal { whole, frac }, j))
    }
}

/// The position after the run of alphabetic characters of `cs` from `start`.
fn scan_name(cs: &Vec<char>, start: usize) -> (r: usize)
    requires
        start <= cs.len(),
    ensures
        r == start + alpha_run(cs@, start as int),
        r <= cs.len(),
{
    let n = cs.len();
    let mut j: usize = start;
    while j < n && is_letter(cs[j])
        invariant
            n == cs.len(),
            start <= j <= n,
            forall|k: int| start <= k < j ==> alphabetic(#[trigger] cs@[k]),
        decreases n - j,
    {
        j = j + 1;
    }
    proof {
        lemma_alpha_run(cs@, start as int, j as int);
    }
    j
}

/// Splits a line into tokens, left to right: whitespace is skipped, a digit
/// starts a numeric literal, a letter starts a name, and each of `+ - * / ^`
/// is an operator. Any other character, or a second decimal point in a
/// literal, is an error.
pub fn tokenize(input: &str) -> (r: Result<Vec<Token>, LexError>)
    ensures
        match r {
            Ok(ts) => lex(input@) == Ok::<Seq<TokenModel>, LexError>(tokens_view(ts@)),
            Err(e) => lex(input@) == Err::<Seq<TokenModel>, LexError>(e),
        },
{
    let cs = chars_of(input);
    let n = cs.len();
    let mut out: Vec<Token> = Vec::new();
    let mut i: usize = 0;
    assert(tokens_view(out@) =~= Seq::<TokenModel>::empty());
    proof {
        if let Ok(ts) = lex_from(input@, 0) {
            assert(Seq::<TokenModel>::empty() + ts =~= ts);
        }
    }
    while i < n
        invariant
            cs@ == input@,
            n == cs.len(),
            i <= n,
            lex(input@) == prefix(tokens_view(out@), lex_from(input@, i as int)),
        decreases n - i,
    {
        let ghost before = out@;
        let c = cs[i];
        if '0' <= c && c <= '9' {
            match scan_number(&cs, i) {
                Ok((d, k)) => {
                    let t = Token::Number(d);
                    proof {
                        lemma_prefix_cons(tokens_view(before), t@, lex_from(input@, k as int));
                    }
                    out.push(t);
                    assert(tokens_view(out@) =~= tokens_view(before).push(t@));
                    i = k;
                },
                Err(e) => {
                    return Err(e);
                },
            }
        } else if is_space(c) {
            i = i + 1;
        } else if is_letter(c) {
            let j = scan_name(&cs, i);
            let name = String::from_str(input.substring_char(i, j));
            let t = Token::Identifier(name);
            proof {
                lemma_prefix_cons(tokens_view(before), t@, lex_from(input@, j as int));
            }
            out.push(t);
            assert(tokens_view(out@) =~= tokens_view(before).push(t@));
            i = j;
        } else {
            let t = if c == '+' {
                Token::Add
            } else if c == '-' {
                Token::Sub
            } else if c == '*' {
                Token::Mul
            } else if c == '/' {
                Token::Div
            } else if c == '^' {
                Token::Pow
            } else {
                return Err(LexError::UnexpectedToken(c));
            };
            proof {
                lemma_prefix_cons(tokens_view(before), t@, lex_from(input@, i + 1));
            }
            out.push(t);
            assert(tokens_view(out@) =~= tokens_view(before).push(t@));
            i = i + 1;
        }
    }
    assert(tokens_view(out@) + Seq::<TokenModel>::empty() =~= tokens_view(out@));
    Ok(out)
}

} // verus!
