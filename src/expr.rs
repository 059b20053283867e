use vstd::prelude::*;

use crate::text::chars_of;

verus! {

/// The three primitive kinds of value that expressions compute with.
#[derive(Debug, PartialEq, Eq, Structural, Copy, Clone)]
pub enum VariableType {
    Bool,
    Number,
    String,
}

/// A value: a boolean, a 32-bit signed number or a piece of text.
#[derive(Debug, PartialEq, Eq, Clone)]
pub enum Constant {
    Bool(bool),
    Number(i32),
    String(String),
}

/// An operand: a literal value, or a name to be looked up when it is used.
#[derive(Debug, PartialEq, Eq, Clone)]
pub enum Identifier {
    Constant(Constant),
    Variable { name: String },
}

/// The closed set of operators of the expression language.
#[derive(Debug, PartialEq, Eq, Structural, Copy, Clone)]
pub enum Operator {
    Addition,
    Substraction,
    Multiplication,
    Division,
    UnaryMinus,
    Equals,
    Not,
    And,
    Or,
}

/// How many operands an operator takes, and of which kinds.
#[derive(Debug, PartialEq, Eq, Structural, Copy, Clone)]
pub enum ArityAndTypes {
    Unary(VariableType),
    Binary(VariableType, VariableType),
}

/// One lexical unit of an expression.
#[derive(Debug, PartialEq, Eq, Clone)]
pub enum Token {
    Parenthesis(char),
    Operand(Identifier),
    Operation(Operator),
}

/// A sequence of tokens in postfix order, ready for evaluation.
pub type EvaluableExpr = Vec<Token>;

/// Mathematical value of a `Constant`.
pub enum ConstModel {
    Bool(bool),
    Number(i32),
    Str(Seq<char>),
}

/// Mathematical value of an `Identifier`.
pub enum IdentModel {
    Constant(ConstModel),
    Variable(Seq<char>),
}

/// Mathematical value of a `Token`.
pub enum TokenModel {
    Parenthesis(char),
    Operand(IdentModel),
    Operation(Operator),
}

impl View for Constant {
    type V = ConstModel;

    open spec fn view(&self) -> ConstModel {
        match self {
            Constant::Bool(b) => ConstModel::Bool(*b),
            Constant::Number(n) => ConstModel::Number(*n),
            Constant::String(s) => ConstModel::Str(s@),
        }
    }
}

impl View for Identifier {
    type V = IdentModel;

    open spec fn view(&self) -> IdentModel {
        match self {
            Identifier::Constant(c) => IdentModel::Constant(c@),
            Identifier::Variable { name } => IdentModel::Variable(name@),
        }
    }
}

impl View for Token {
    type V = TokenModel;

    open spec fn view(&self) -> TokenModel {
        match self {
            Token::Parenthesis(c) => TokenModel::Parenthesis(*c),
            Token::Operand(id) => TokenModel::Operand(id@),
            Token::Operation(op) => TokenModel::Operation(*op),
        }
    }
}

/// The models of a sequence of tokens.
pub open spec fn tokens_model(ts: Seq<Token>) -> Seq<TokenModel> {
    ts.map_values(|t: Token| t@)
}

pub proof fn lemma_tokens_model_push(ts: Seq<Token>, t: Token)
    ensures
        tokens_model(ts.push(t)) == tokens_model(ts).push(t@),
{
    assert(tokens_model(ts.push(t)) =~= tokens_model(ts).push(t@));
}

impl Constant {
    /// An identical copy of this value.
    pub fn duplicate(&self) -> (r: Constant)
        ensures
            r@ == self@,
    {
        match self {
            Constant::Bool(b) => Constant::Bool(*b),
            Constant::Number(n) => Constant::Number(*n),
            Constant::String(s) => Constant::String(s.clone()),
        }
    }
}

impl Identifier {
    /// An identical copy of this operand.
    pub fn duplicate(&self) -> (r: Identifier)
        ensures
            r@ == self@,
    {
        match self {
            Identifier::Constant(c) => Identifier::Constant(c.duplicate()),
            Identifier::Variable { name } => Identifier::Variable { name: name.clone() },
        }
    }

    /// A variable operand with the given name.
    pub fn var(name: &str) -> (r: Identifier)
        ensures
            r@ == IdentModel::Variable(name@),
    {
        Identifier::Variable { name: String::from_str(name) }
    }

    /// A boolean literal.
    pub fn const_bool(b: bool) -> (r: Identifier)
        ensures
            r@ == IdentModel::Constant(ConstModel::Bool(b)),
    {
        Identifier::Constant(Constant::Bool(b))
    }

    /// A number literal.
    pub fn const_num(n: i32) -> (r: Identifier)
        ensures
            r@ == IdentModel::Constant(ConstModel::Number(n)),
    {
        Identifier::Constant(Constant::Number(n))
    }

    /// A string literal.
    pub fn const_str(s: &str) -> (r: Identifier)
        ensures
            r@ == IdentModel::Constant(ConstModel::Str(s@)),
    {
        Identifier::Constant(Constant::String(String::from_str(s)))
    }
}

impl Token {
    /// An identical copy of this token.
    pub fn duplicate(&self) -> (r: Token)
        ensures
            r@ == self@,
    {
        match self {
            Token::Parenthesis(c) => Token::Parenthesis(*c),
            Token::Operand(id) => Token::Operand(id.duplicate()),
            Token::Operation(op) => Token::Operation(*op),
        }
    }
}

/// The signature of each operator.
pub open spec fn signature(op: Operator) -> ArityAndTypes {
    match op {
        Operator::Addition | Operator::Substraction | Operator::Multiplication
        | Operator::Division => ArityAndTypes::Binary(VariableType::Number, VariableType::Number),
        Operator::UnaryMinus => ArityAndTypes::Unary(VariableType::Number),
        Operator::Equals => ArityAndTypes::Binary(VariableType::Number, VariableType::Number),
        Operator::Not => ArityAndTypes::Unary(VariableType::Bool),
        Operator::And | Operator::Or => ArityAndTypes::Binary(VariableType::Bool, VariableType::Bool),
    }
}

/// The binding strength of each operator: higher binds tighter.
pub open spec fn precedence(op: Operator) -> i32 {
    match op {
        Operator::Addition | Operator::Substraction => 100,
        Operator::UnaryMinus | Operator::Not => 300,
        Operator::Multiplication | Operator::Division => 200,
        Operator::Equals => 50,
        Operator::And => 25,
        Operator::Or => 20,
    }
}

/// The operator written as `s`, if any.
pub open spec fn operator_of(s: Seq<char>) -> Option<Operator> {
    if s.len() == 1 {
        if s[0] == '+' {
            Some(Operator::Addition)
        } else if s[0] == '-' {
            Some(Operator::Substraction)
        } else if s[0] == '*' {
            Some(Operator::Multiplication)
        } else if s[0] == '/' {
            Some(Operator::Division)
        } else if s[0] == '!' {
            Some(Operator::Not)
        } else {
            None
        }
    } else if s.len() == 2 {
        if s[0] == '=' && s[1] == '=' {
            Some(Operator::Equals)
        } else if s[0] == '&' && s[1] == '&' {
            Some(Operator::And)
        } else if s[0] == '|' && s[1] == '|' {
            Some(Operator::Or)
        } else {
            None
        }
    } else {
        None
    }
}

/// The operator written by the characters `cs[from..to]`, if any.
pub fn operator_in(cs: &Vec<char>, from: usize, to: usize) -> (r: Option<Operator>)
    requires
        from <= to <= cs.len(),
    ensures
        r == operator_of(cs@.subrange(from as int, to as int)),
{
    if to - from == 1 {
        let c = cs[from];
        if c == '+' {
            Some(Operator::Addition)
        } else if c == '-' {
            Some(Operator::Substraction)
        } else if c == '*' {
            Some(Operator::Multiplication)
        } else if c == '/' {
            Some(Operator::Division)
        } else if c == '!' {
            Some(Operator::Not)
        } else {
            None
        }
    } else if to - from == 2 {
        let c = cs[from];
        let d = cs[from + 1];
        if c == '=' && d == '=' {
            Some(Operator::Equals)
        } else if c == '&' && d == '&' {
            Some(Operator::And)
        } else if c == '|' && d == '|' {
            Some(Operator::Or)
        } else {
            None
        }
    } else {
        None
    }
}

impl Operator {
    /// The operator's arity and operand kinds.
    pub fn arity_and_types(&self) -> (r: ArityAndTypes)
        ensures
            r == signature(*self),
    {
        match self {
            Operator::Addition | Operator::Substraction | Operator::Multiplication
            | Operator::Division => ArityAndTypes::Binary(VariableType::Number, VariableType::Number),
            Operator::UnaryMinus => ArityAndTypes::Unary(VariableType::Number),
            Operator::Equals => ArityAndTypes::Binary(VariableType::Number, VariableType::Number),
            Operator::Not => ArityAndTypes::Unary(VariableType::Bool),
            Operator::And | Operator::Or => ArityAndTypes::Binary(VariableType::Bool, VariableType::Bool),
        }
    }

    /// The operator's binding strength.
    pub fn priority(&self) -> (r: i32)
        ensures
            r == precedence(*self),
    {
        match self {
            Operator::Addition | Operator::Substraction => 100,
            Operator::UnaryMinus => 300,
            Operator::Not => 300,
            Operator::Multiplication | Operator::Division => 200,
            Operator::Equals => 50,
            Operator::And => 25,
            Operator::Or => 20,
        }
    }

    /// The operator written as `op`; an error message naming `op` otherwise.
    pub fn from_string(op: &str) -> (r: Result<Operator, String>)
        ensures
            operator_of(op@) is Some ==> r == Ok::<Operator, String>(operator_of(op@)->0),
            operator_of(op@) is None ==> r is Err && r->Err_0@ == "Unknown operator: "@ + op@,
    {
        let cs = chars_of(op);
        assert(cs@.subrange(0, cs@.len() as int) =~= op@);
        match operator_in(&cs, 0, cs.len()) {
            Some(o) => Ok(o),
            None => {
                let mut message = String::from_str("Unknown operator: ");
                message.append(op);
                Err(message)
            },
        }
    }
}

pub proof fn lemma_tokens_model_drop_last(ts: Seq<Token>)
    requires
        ts.len() > 0,
    ensures
        tokens_model(ts.drop_last()) == tokens_model(ts).drop_last(),
        tokens_model(ts).last() == ts.last()@,
{
    assert(tokens_model(ts.drop_last()) =~= tokens_model(ts).drop_last());
}

} // verus!
