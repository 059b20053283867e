use vstd::prelude::*;

use crate::error::EngineError;
use crate::expr::{
    lemma_tokens_model_drop_last, lemma_tokens_model_push, precedence, tokens_model, ConstModel,
    EvaluableExpr, IdentModel, Identifier, Token, TokenModel,
};
use crate::lexer::tokens_result;
use crate::text::chars_of;

verus! {

/// The boolean that the word `w` names, if it is `true` or `false`.
pub open spec fn bool_word(w: Seq<char>) -> Option<bool> {
    if w.len() == 4 && w[0] == 't' && w[1] == 'r' && w[2] == 'u' && w[3] == 'e' {
        Some(true)
    } else if w.len() == 5 && w[0] == 'f' && w[1] == 'a' && w[2] == 'l' && w[3] == 's' && w[4] == 'e' {
        Some(false)
    } else {
        None
    }
}

/// An operand with the reserved words `true` and `false` read as booleans.
pub open spec fn literal_operand(id: IdentModel) -> IdentModel {
    match id {
        IdentModel::Variable(n) => match bool_word(n) {
            Some(b) => IdentModel::Constant(ConstModel::Bool(b)),
            None => id,
        },
        _ => id,
    }
}

/// Moves to the output every operator on top of the stack that binds at
/// least as tightly as priority `p`.
pub open spec fn pop_binding(out: Seq<TokenModel>, stack: Seq<TokenModel>, p: i32) -> (Seq<TokenModel>, Seq<TokenModel>)
    decreases stack.len(),
{
    if stack.len() > 0 && stack.last() is Operation && precedence(stack.last()->Operation_0) >= p {
        pop_binding(out.push(stack.last()), stack.drop_last(), p)
    } else {
        (out, stack)
    }
}

/// Moves to the output every token above the topmost `(`, then drops that
/// `(`; none if the stack holds no `(`.
pub open spec fn pop_to_open(out: Seq<TokenModel>, stack: Seq<TokenModel>) -> Option<(Seq<TokenModel>, Seq<TokenModel>)>
    decreases stack.len(),
{
    if stack.len() == 0 {
        None
    } else if stack.last() == TokenModel::Parenthesis('(') {
        Some((out, stack.drop_last()))
    } else {
        pop_to_open(out.push(stack.last()), stack.drop_last())
    }
}

/// The output followed by the stack from top to bottom.
pub open spec fn flush(out: Seq<TokenModel>, stack: Seq<TokenModel>) -> Seq<TokenModel>
    decreases stack.len(),
{
    if stack.len() == 0 {
        out
    } else {
        flush(out.push(stack.last()), stack.drop_last())
    }
}

/// The postfix form of infix tokens `ts` from position `i` on, given the
/// output and the operator stack so far.
pub open spec fn rpn_run(ts: Seq<TokenModel>, i: int, out: Seq<TokenModel>, stack: Seq<TokenModel>) -> Result<Seq<TokenModel>, EngineError>
    decreases ts.len() - i,
{
    if i < 0 || i >= ts.len() {
        Ok(flush(out, stack))
    } else {
        match ts[i] {
            TokenModel::Operand(id) => rpn_run(ts, i + 1, out.push(TokenModel::Operand(literal_operand(id))), stack),
            TokenModel::Operation(op) => {
                let (o, s) = pop_binding(out, stack, precedence(op));
                rpn_run(ts, i + 1, o, s.push(TokenModel::Operation(op)))
            },
            TokenModel::Parenthesis(c) => if c == '(' {
                rpn_run(ts, i + 1, out, stack.push(ts[i]))
            } else if c == ')' {
                match pop_to_open(out, stack) {
                    Some((o, s)) => rpn_run(ts, i + 1, o, s),
                    None => Err(EngineError::UnmatchedParenthesis { position: i as usize }),
                }
            } else {
                Err(EngineError::UnmatchedParenthesis { position: i as usize })
            },
        }
    }
}

/// The postfix form of infix tokens `ts`.
pub open spec fn to_postfix(ts: Seq<TokenModel>) -> Result<Seq<TokenModel>, EngineError> {
    rpn_run(ts, 0, Seq::empty(), Seq::empty())
}

/// The boolean that `name` spells, if it is `true` or `false`.
fn bool_word_of(name: &String) -> (r: Option<bool>)
    ensures
        r == bool_word(name@),
{
    let w = chars_of(name.as_str());
    if w.len() == 4 && w[0] == 't' && w[1] == 'r' && w[2] == 'u' && w[3] == 'e' {
        Some(true)
    } else if w.len() == 5 && w[0] == 'f' && w[1] == 'a' && w[2] == 'l' && w[3] == 's' && w[4] == 'e' {
        Some(false)
    } else {
        None
    }
}

/// Whether the top of `stack` is an operator binding at least as tightly as `p`.
fn top_binds(stack: &Vec<Token>, p: i32) -> (r: bool)
    ensures
        r == {
            let s = tokens_model(stack@);
            s.len() > 0 && s.last() is Operation && precedence(s.last()->Operation_0) >= p
        },
{
    if stack.len() == 0 {
        return false;
    }
    proof {
        lemma_tokens_model_drop_last(stack@);
    }
    match &stack[stack.len() - 1] {
        Token::Operation(op) => op.priority() >= p,
        _ => false,
    }
}

/// Whether `stack` is non-empty with something other than `(` on top.
fn top_is_not_open(stack: &Vec<Token>) -> (r: bool)
    ensures
        r == {
            let s = tokens_model(stack@);
            s.len() > 0 && s.last() != TokenModel::Parenthesis('(')
        },
{
    if stack.len() == 0 {
        return false;
    }
    proof {
        lemma_tokens_model_drop_last(stack@);
    }
    match &stack[stack.len() - 1] {
        Token::Parenthesis(c) => *c != '(',
        _ => true,
    }
}

/// Moves one token from the top of `stack` to the end of `output`.
fn move_top(output: &mut Vec<Token>, stack: &mut Vec<Token>)
    requires
        old(stack).len() > 0,
    ensures
        tokens_model(final(output)@) == tokens_model(old(output)@).push(tokens_model(old(stack)@).last()),
        tokens_model(final(stack)@) == tokens_model(old(stack)@).drop_last(),
        final(stack).len() == old(stack).len() - 1,
{
    proof {
        lemma_tokens_model_drop_last(stack@);
    }
    let t = stack.pop().unwrap();
    proof {
        lemma_tokens_model_push(output@, t);
    }
    output.push(t);
}

/// Rewrites infix tokens into postfix order, honouring priorities, left
/// associativity and parentheses; `true` and `false` become booleans.
pub fn expr_tokens_to_rpn(tokens: Vec<Token>) -> (r: Result<EvaluableExpr, EngineError>)
    ensures
        tokens_result(r) == to_postfix(tokens_model(tokens@)),
{
    let ghost ts = tokens_model(tokens@);
    let mut output: Vec<Token> = Vec::new();
    let mut stack: Vec<Token> = Vec::new();
    let mut i: usize = 0;
    assert(tokens_model(output@) =~= Seq::<TokenModel>::empty());
    assert(tokens_model(stack@) =~= Seq::<TokenModel>::empty());
    while i < tokens.len()
        invariant
            i <= tokens.len(),
            ts == tokens_model(tokens@),
            to_postfix(ts) == rpn_run(ts, i as int, tokens_model(output@), tokens_model(stack@)),
        decreases tokens.len() - i,
    {
        let ghost t = ts[i as int];
        assert(t == tokens@[i as int]@);
        match &tokens[i] {
            Token::Operand(id) => {
                let operand = match id {
                    Identifier::Variable { name } => match bool_word_of(name) {
                        Some(b) => Identifier::const_bool(b),
                        None => id.duplicate(),
                    },
                    _ => id.duplicate(),
                };
                let tok = Token::Operand(operand);
                proof {
                    lemma_tokens_model_push(output@, tok);
                }
                output.push(tok);
            },
            Token::Operation(op) => {
                let p = op.priority();
                let ghost out0 = tokens_model(output@);
                let ghost stack0 = tokens_model(stack@);
                while top_binds(&stack, p)
                    invariant
                        pop_binding(tokens_model(output@), tokens_model(stack@), p)
                            == pop_binding(out0, stack0, p),
                    decreases stack.len(),
                {
                    move_top(&mut output, &mut stack);
                }
                let tok = Token::Operation(*op);
                proof {
                    lemma_tokens_model_push(stack@, tok);
                }
                stack.push(tok);
            },
            Token::Parenthesis(c) => {
                if *c == '(' {
                    let tok = Token::Parenthesis('(');
                    proof {
                        lemma_tokens_model_push(stack@, tok);
                    }
                    stack.push(tok);
                } else if *c == ')' {
                    let ghost out0 = tokens_model(output@);
                    let ghost stack0 = tokens_model(stack@);
                    while top_is_not_open(&stack)
                        invariant
                            pop_to_open(tokens_model(output@), tokens_model(stack@))
                                == pop_to_open(out0, stack0),
                        decreases stack.len(),
                    {
                        move_top(&mut output, &mut stack);
                    }
                    if stack.len() == 0 {
                        return Err(EngineError::UnmatchedParenthesis { position: i });
                    }
                    proof {
                        lemma_tokens_model_drop_last(stack@);
                    }
                    stack.pop();
                } else {
                    return Err(EngineError::UnmatchedParenthesis { position: i });
                }
            },
        }
        i += 1;
    }
    while stack.len() > 0
        invariant
            to_postfix(ts) == Ok::<Seq<TokenModel>, EngineError>(flush(tokens_model(output@), tokens_model(stack@))),
        decreases stack.len(),
    {
        move_top(&mut output, &mut stack);
    }
    Ok(output)
}

} // verus!
