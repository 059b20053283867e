use vstd::prelude::*;

use crate::error::EngineError;
use crate::expr::{
    operator_in, operator_of, tokens_model, lemma_tokens_model_push, ConstModel, Constant,
    IdentModel, Identifier, Operator, Token, TokenModel,
};
use crate::text::{is_digit, is_letter, letter_of, strip_blanks, string_of, without_blanks};

verus! {

/// How many digits follow one another from position `i` of `cs`.
pub open spec fn digit_run(cs: Seq<char>, i: int) -> nat
    decreases cs.len() - i,
{
    if 0 <= i < cs.len() && is_digit(cs[i]) {
        1 + digit_run(cs, i + 1)
    } else {
        0
    }
}

/// How many letters follow one another from position `i`, `ls` marking the letters of `cs`.
pub open spec fn letter_run(cs: Seq<char>, ls: Seq<bool>, i: int) -> nat
    decreases cs.len() - i,
{
    if 0 <= i < cs.len() && i < ls.len() && ls[i] {
        1 + letter_run(cs, ls, i + 1)
    } else {
        0
    }
}

/// How many characters other than a double quote follow one another from position `i`.
pub open spec fn text_run(cs: Seq<char>, i: int) -> nat
    decreases cs.len() - i,
{
    if 0 <= i < cs.len() && cs[i] != '"' {
        1 + text_run(cs, i + 1)
    } else {
        0
    }
}

/// The decimal value of a run of digits.
pub open spec fn digits_value(ds: Seq<char>) -> int
    decreases ds.len(),
{
    if ds.len() == 0 {
        0
    } else {
        digits_value(ds.drop_last()) * 10 + (ds.last() as int - '0' as int)
    }
}

/// The token that starts at position `i` of `cs`, with how many characters
/// it takes beyond its first one.
pub open spec fn lex_step(cs: Seq<char>, ls: Seq<bool>, i: int) -> Result<(TokenModel, nat), EngineError> {
    let c = cs[i];
    if is_digit(c) {
        let n = digit_run(cs, i + 1);
        let v = digits_value(cs.subrange(i, i + 1 + n));
        if v <= i32::MAX {
            Ok((TokenModel::Operand(IdentModel::Constant(ConstModel::Number(v as i32))), n))
        } else {
            Err(EngineError::NumberOutOfRange { position: i as usize })
        }
    } else if c == '"' {
        let n = text_run(cs, i + 1);
        if i + 1 + n < cs.len() {
            Ok((TokenModel::Operand(IdentModel::Constant(ConstModel::Str(cs.subrange(i + 1, i + 1 + n)))), n + 1))
        } else {
            Err(EngineError::UnterminatedString { position: i as usize })
        }
    } else if i < ls.len() && ls[i] {
        let n = letter_run(cs, ls, i + 1);
        Ok((TokenModel::Operand(IdentModel::Variable(cs.subrange(i, i + 1 + n))), n))
    } else if c == '(' || c == ')' {
        Ok((TokenModel::Parenthesis(c), 0))
    } else if operator_of(cs.subrange(i, i + 1)) is Some {
        Ok((TokenModel::Operation(operator_of(cs.subrange(i, i + 1))->0), 0))
    } else if i + 2 <= cs.len() && operator_of(cs.subrange(i, i + 2)) is Some {
        Ok((TokenModel::Operation(operator_of(cs.subrange(i, i + 2))->0), 1))
    } else {
        Err(EngineError::UnknownOperator { position: i as usize })
    }
}

/// Tokens `acc` followed by those read from position `i` on.
pub open spec fn lex_run(cs: Seq<char>, ls: Seq<bool>, i: int, acc: Seq<TokenModel>) -> Result<Seq<TokenModel>, EngineError>
    decreases if i <= cs.len() { cs.len() - i } else { 0 },
{
    if i < 0 || i >= cs.len() {
        Ok(acc)
    } else {
        let step = lex_step(cs, ls, i);
        if step is Ok {
            lex_run(cs, ls, i + 1 + step->Ok_0.1, acc.push(step->Ok_0.0))
        } else {
            Err(step->Err_0)
        }
    }
}

/// The tokens of the blank-free characters `cs`, where `ls` marks the letters.
pub open spec fn lex(cs: Seq<char>, ls: Seq<bool>) -> Result<Seq<TokenModel>, EngineError> {
    lex_run(cs, ls, 0, Seq::empty())
}

/// Which characters of `cs` are letters.
pub open spec fn letters_of(cs: Seq<char>) -> Seq<bool> {
    Seq::new(cs.len(), |k: int| letter_of(cs[k]))
}

/// The tokens of expression text `s`, before unary minus is told apart.
pub open spec fn tokenize_raw(s: Seq<char>) -> Result<Seq<TokenModel>, EngineError> {
    lex(strip_blanks(s), letters_of(strip_blanks(s)))
}

/// `ts` with each `-` that follows no operand turned into unary minus.
pub open spec fn mark_unary(ts: Seq<TokenModel>) -> Seq<TokenModel> {
    Seq::new(
        ts.len(),
        |k: int|
            if ts[k] == TokenModel::Operation(Operator::Substraction) && (k == 0 || !(ts[k - 1] is Operand)) {
                TokenModel::Operation(Operator::UnaryMinus)
            } else {
                ts[k]
            },
    )
}

/// The tokens of expression text `s`.
pub open spec fn tokenize(s: Seq<char>) -> Result<Seq<TokenModel>, EngineError> {
    match tokenize_raw(s) {
        Ok(ts) => Ok(mark_unary(ts)),
        Err(e) => Err(e),
    }
}

/// The model of a tokenizing result.
pub open spec fn tokens_result(r: Result<Vec<Token>, EngineError>) -> Result<Seq<TokenModel>, EngineError> {
    match r {
        Ok(v) => Ok(tokens_model(v@)),
        Err(e) => Err(e),
    }
}

/// Reads the digit run starting at `i`: its end, and its value where that fits in 32 bits.
fn scan_number(cs: &Vec<char>, i: usize) -> (r: (Option<i32>, usize))
    requires
        i < cs.len(),
        is_digit(cs@[i as int]),
    ensures
        r.1 == i + 1 + digit_run(cs@, i + 1),
        r.1 <= cs.len(),
        r.0 is Some <==> digits_value(cs@.subrange(i as int, r.1 as int)) <= i32::MAX,
        r.0 is Some ==> r.0->0 == digits_value(cs@.subrange(i as int, r.1 as int)),
{
    let mut j: usize = i + 1;
    let mut acc: i64 = (cs[i] as u32 - '0' as u32) as i64;
    assert(cs@.subrange(i as int, j as int).drop_last() =~= Seq::<char>::empty());
    assert(digits_value(Seq::<char>::empty()) == 0);
    while j < cs.len() && '0' <= cs[j] && cs[j] <= '9'
        invariant
            i < j <= cs.len(),
            digit_run(cs@, i + 1) == (j - (i + 1)) + digit_run(cs@, j as int),
            0 <= acc <= i32::MAX + 1,
            acc == (if digits_value(cs@.subrange(i as int, j as int)) <= i32::MAX {
                digits_value(cs@.subrange(i as int, j as int))
            } else {
                i32::MAX + 1
            }),
        decreases cs.len() - j,
    {
        let d = (cs[j] as u32 - '0' as u32) as i64;
        assert(cs@.subrange(i as int, j + 1).drop_last() =~= cs@.subrange(i as int, j as int));
        if acc <= i32::MAX as i64 {
            acc = acc * 10 + d;
            if acc > i32::MAX as i64 {
                acc = i32::MAX as i64 + 1;
            }
        }
        j += 1;
    }
    if acc <= i32::MAX as i64 {
        (Some(acc as i32), j)
    } else {
        (None, j)
    }
}

/// The end of the letter run starting at `i`.
fn scan_letters(cs: &Vec<char>, ls: &Vec<bool>, i: usize) -> (r: usize)
    requires
        i <= cs.len(),
    ensures
        r == i + letter_run(cs@, ls@, i as int),
        r <= cs.len(),
{
    let mut j: usize = i;
    while j < cs.len() && j < ls.len() && ls[j]
        invariant
            i <= j <= cs.len(),
            letter_run(cs@, ls@, i as int) == (j - i) + letter_run(cs@, ls@, j as int),
        decreases cs.len() - j,
    {
        j += 1;
    }
    j
}

/// The position of the first double quote at or after `i`, or the length of `cs`.
fn scan_text(cs: &Vec<char>, i: usize) -> (r: usize)
    requires
        i <= cs.len(),
    ensures
        r == i + text_run(cs@, i as int),
        r <= cs.len(),
{
    let mut j: usize = i;
    while j < cs.len() && cs[j] != '"'
        invariant
            i <= j <= cs.len(),
            text_run(cs@, i as int) == (j - i) + text_run(cs@, j as int),
        decreases cs.len() - j,
    {
        j += 1;
    }
    j
}

/// Rewrites, in place, each `-` that follows no operand into unary minus.
pub fn mark_unary_minus(tokens: &mut Vec<Token>)
    ensures
        tokens_model(final(tokens)@) == mark_unary(tokens_model(old(tokens)@)),
{
    let ghost before = tokens_model(tokens@);
    let mut i: usize = 0;
    assert(forall|k: int| 0 <= k < tokens.len() ==> #[trigger] tokens@[k]@ == before[k]);
    while i < tokens.len()
        invariant
            i <= tokens.len(),
            before.len() == tokens.len(),
            forall|k: int| 0 <= k < i ==> #[trigger] tokens@[k]@ == mark_unary(before)[k],
            forall|k: int| i <= k < tokens.len() ==> #[trigger] tokens@[k]@ == before[k],
            forall|k: int| 0 <= k < tokens.len() ==> (tokens@[k] is Operand <==> before[k] is Operand),
        decreases tokens.len() - i,
    {
        assert(tokens@[i as int]@ == before[i as int]);
        let is_minus = match &tokens[i] {
            Token::Operation(Operator::Substraction) => true,
            _ => false,
        };
        assert(is_minus <==> before[i as int] == TokenModel::Operation(Operator::Substraction));
        if is_minus {
            let after_operand = i > 0 && tokens[i - 1].is_operand();
            assert(after_operand <==> (i > 0 && before[i - 1] is Operand));
            if !after_operand {
                tokens.set(i, Token::Operation(Operator::UnaryMinus));
            }
        }
        assert(tokens@[i as int]@ == mark_unary(before)[i as int]);
        i += 1;
    }
    assert(tokens_model(tokens@) =~= mark_unary(before));
}

impl Token {
    /// The tokens of the blank-free characters `chars`, where `letters` marks
    /// which of them are letters (a character without a mark is none);
    /// unary minus is not yet told apart.
    pub fn parse_classified(chars: &Vec<char>, letters: &Vec<bool>) -> (r: Result<Vec<Token>, EngineError>)
        ensures
            tokens_result(r) == lex(chars@, letters@),
    {
        let n = chars.len();
        let mut tokens: Vec<Token> = Vec::new();
        let mut i: usize = 0;
        assert(tokens_model(tokens@) =~= Seq::<TokenModel>::empty());
        while i < n
            invariant
                i <= n,
                n == chars.len(),
                lex(chars@, letters@) == lex_run(chars@, letters@, i as int, tokens_model(tokens@)),
            decreases n - i,
        {
            let c = chars[i];
            let token: Token;
            let next: usize;
            if '0' <= c && c <= '9' {
                let (value, end) = scan_number(chars, i);
                match value {
                    Some(v) => {
                        token = Token::Operand(Identifier::Constant(Constant::Number(v)));
                        next = end;
                    },
                    None => {
                        return Err(EngineError::NumberOutOfRange { position: i });
                    },
                }
            } else if c == '"' {
                let end = scan_text(chars, i + 1);
                if end < n {
                    token = Token::Operand(Identifier::Constant(Constant::String(string_of(chars, i + 1, end))));
                    next = end + 1;
                } else {
                    return Err(EngineError::UnterminatedString { position: i });
                }
            } else if i < letters.len() && letters[i] {
                let end = scan_letters(chars, letters, i + 1);
                token = Token::Operand(Identifier::Variable { name: string_of(chars, i, end) });
                next = end;
            } else if c == '(' || c == ')' {
                token = Token::Parenthesis(c);
                next = i + 1;
            } else {
                match operator_in(chars, i, i + 1) {
                    Some(op) => {
                        token = Token::Operation(op);
                        next = i + 1;
                    },
                    None => {
                        if i + 1 < n {
                            match operator_in(chars, i, i + 2) {
                                Some(op) => {
                                    token = Token::Operation(op);
                                    next = i + 2;
                                },
                                None => {
                                    return Err(EngineError::UnknownOperator { position: i });
                                },
                            }
                        } else {
                            return Err(EngineError::UnknownOperator { position: i });
                        }
                    },
                }
            }
            proof {
                lemma_tokens_model_push(tokens@, token);
                assert(lex_step(chars@, letters@, i as int) == Ok::<(TokenModel, nat), EngineError>(
                    (token@, (next - i - 1) as nat),
                ));
            }
            tokens.push(token);
            i = next;
        }
        Ok(tokens)
    }

    /// The tokens of expression text `expr`, before unary minus is told apart.
    pub fn parse(expr: &str) -> (r: Result<Vec<Token>, EngineError>)
        ensures
            tokens_result(r) == tokenize_raw(expr@),
    {
        let chars = without_blanks(expr);
        let mut letters: Vec<bool> = Vec::new();
        let mut k: usize = 0;
        while k < chars.len()
            invariant
                k <= chars.len(),
                letters@ == letters_of(chars@).subrange(0, k as int),
            decreases chars.len() - k,
        {
            letters.push(is_letter(chars[k]));
            assert(letters_of(chars@).subrange(0, k + 1) =~= letters_of(chars@).subrange(0, k as int).push(
                letter_of(chars@[k as int]),
            ));
            k += 1;
        }
        assert(letters@ =~= letters_of(chars@));
        Token::parse_classified(&chars, &letters)
    }

    /// The tokens of the blank-free characters `chars`, where `letters` marks
    /// which of them are letters.
    pub fn from_classified(chars: &Vec<char>, letters: &Vec<bool>) -> (r: Result<Vec<Token>, EngineError>)
        ensures
            tokens_result(r) == (match lex(chars@, letters@) {
                Ok(ts) => Ok(mark_unary(ts)),
                Err(e) => Err(e),
            }),
    {
        match Token::parse_classified(chars, letters) {
            Ok(tokens) => {
                let mut tokens = tokens;
                mark_unary_minus(&mut tokens);
                Ok(tokens)
            },
            Err(e) => Err(e),
        }
    }

    /// The tokens of expression text `expr`.
    pub fn from_string(expr: &str) -> (r: Result<Vec<Token>, EngineError>)
        ensures
            tokens_result(r) == tokenize(expr@),
    {
        match Token::parse(expr) {
            Ok(tokens) => {
                let mut tokens = tokens;
                mark_unary_minus(&mut tokens);
                Ok(tokens)
            },
            Err(e) => Err(e),
        }
    }

    /// Whether this token is an operand.
    pub fn is_operand(&self) -> (r: bool)
        ensures
            r == (self is Operand),
    {
        match self {
            Token::Operand(_) => true,
            _ => false,
        }
    }
}

} // verus!
