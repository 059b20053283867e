use vstd::prelude::*;

use crate::error::EngineError;
use crate::model::Assignement;
use crate::expr::{
    signature, tokens_model, ArityAndTypes, ConstModel, Constant, EvaluableExpr, IdentModel,
    Identifier, Operator, Token, TokenModel,
};

verus! {

/// Name and value bindings, in order.
pub type Bindings = Seq<(Seq<char>, IdentModel)>;

/// The index of the first binding of `name` at or after `i`, or the number of bindings.
pub open spec fn find_name(a: Bindings, name: Seq<char>, i: int) -> int
    decreases a.len() - i,
{
    if i < 0 || i >= a.len() {
        a.len() as int
    } else if a[i].0 == name {
        i
    } else {
        find_name(a, name, i + 1)
    }
}

/// The value bound to `name`: that of its first binding.
pub open spec fn lookup(a: Bindings, name: Seq<char>) -> Option<IdentModel> {
    let k = find_name(a, name, 0);
    if 0 <= k < a.len() {
        Some(a[k].1)
    } else {
        None
    }
}

/// The bindings after binding `name` to `v`: its first binding is overwritten,
/// or a new one is added at the end.
pub open spec fn bind(a: Bindings, name: Seq<char>, v: IdentModel) -> Bindings {
    let k = find_name(a, name, 0);
    if 0 <= k < a.len() {
        a.update(k, (name, v))
    } else {
        a.push((name, v))
    }
}

proof fn lemma_find_name(a: Bindings, name: Seq<char>, i: int)
    requires
        0 <= i <= a.len(),
    ensures
        i <= find_name(a, name, i) <= a.len(),
        forall|j: int| i <= j < find_name(a, name, i) ==> a[j].0 != name,
        find_name(a, name, i) < a.len() ==> a[find_name(a, name, i)].0 == name,
    decreases a.len() - i,
{
    if i < a.len() && a[i].0 != name {
        lemma_find_name(a, name, i + 1);
    }
}

/// Later reads see earlier bindings: once `name` is bound to `v`, looking
/// `name` up gives `v`, and every other name keeps the value it had.
pub proof fn law_bind_then_lookup(a: Bindings, name: Seq<char>, other: Seq<char>, v: IdentModel)
    requires
        other != name,
    ensures
        lookup(bind(a, name, v), name) == Some(v),
        lookup(bind(a, name, v), other) == lookup(a, other),
{
    let b = bind(a, name, v);
    lemma_find_name(a, name, 0);
    lemma_find_name(b, name, 0);
    lemma_find_name(a, other, 0);
    lemma_find_name(b, other, 0);
    let k = find_name(a, name, 0);
    let kb = find_name(b, name, 0);
    let m = find_name(a, other, 0);
    let mb = find_name(b, other, 0);
    if k < a.len() {
        assert(b.len() == a.len());
        assert(forall|j: int| 0 <= j < a.len() && j != k ==> b[j] == a[j]);
        if kb < k {
            assert(b[kb].0 == name && a[kb].0 != name);
        }
        if kb > k {
            assert(b[k].0 == name);
        }
        assert(kb == k);
        if mb < m {
            assert(b[mb].0 == other);
            assert(mb != k);
        }
        if mb > m && m < a.len() {
            assert(a[m].0 == other && m != k);
            assert(b[m].0 == other);
        }
        assert(mb == m);
    } else {
        assert(b.len() == a.len() + 1);
        assert(forall|j: int| 0 <= j < a.len() ==> b[j] == a[j]);
        if kb < k {
            assert(b[kb].0 == name && a[kb].0 != name);
        }
        if kb > k {
            assert(b[k].0 == name);
        }
        assert(kb == k);
        if mb < m {
            assert(b[mb].0 == other);
        }
        if mb > m && m < a.len() {
            assert(b[m].0 == other);
        }
        assert(mb == m || (m == a.len() && mb == b.len()));
    }
}

/// An operand with a variable replaced by its binding.
pub open spec fn resolve(a: Bindings, id: IdentModel, pos: int) -> Result<IdentModel, EngineError> {
    match id {
        IdentModel::Variable(n) => match lookup(a, n) {
            Some(v) => Ok(v),
            None => Err(EngineError::UnboundName { position: pos as usize }),
        },
        _ => Ok(id),
    }
}

/// Whether every binding holds a value rather than a variable.
pub open spec fn all_constant(a: Bindings) -> bool {
    forall|k: int| 0 <= k < a.len() ==> (#[trigger] a[k]).1 is Constant
}

/// Where every binding holds a value, a successful evaluation yields a value.
pub proof fn lemma_evaluate_constant(a: Bindings, ts: Seq<TokenModel>)
    requires
        all_constant(a),
    ensures
        evaluate(a, ts) is Ok ==> evaluate(a, ts)->Ok_0 is Constant,
{
}

/// Whether `x` fits in a 32-bit signed integer.
pub open spec fn fits_i32(x: int) -> bool {
    i32::MIN <= x <= i32::MAX
}

/// A number result, or an overflow.
pub open spec fn number_result(x: int, pos: int) -> Result<ConstModel, EngineError> {
    if fits_i32(x) {
        Ok(ConstModel::Number(x as i32))
    } else {
        Err(EngineError::Overflow { position: pos as usize })
    }
}

/// Integer division rounding toward zero.
pub open spec fn trunc_div(x: int, y: int) -> int {
    let q = (if x < 0 { -x } else { x }) / (if y < 0 { -y } else { y });
    if (x < 0) != (y < 0) {
        -q
    } else {
        q
    }
}

/// The result of unary operator `op` on value `v`.
pub open spec fn apply_unary(op: Operator, v: IdentModel, pos: int) -> Result<ConstModel, EngineError> {
    match v {
        IdentModel::Constant(ConstModel::Number(n)) if op == Operator::UnaryMinus => number_result(-n, pos),
        IdentModel::Constant(ConstModel::Bool(b)) if op == Operator::Not => Ok(ConstModel::Bool(!b)),
        _ => Err(EngineError::TypeMismatch { position: pos as usize }),
    }
}

/// The result of binary operator `op` on values `a` (left) and `b` (right).
pub open spec fn apply_binary(op: Operator, a: IdentModel, b: IdentModel, pos: int) -> Result<ConstModel, EngineError> {
    match (a, b) {
        (IdentModel::Constant(ConstModel::Number(x)), IdentModel::Constant(ConstModel::Number(y))) => match op {
            Operator::Addition => number_result(x + y, pos),
            Operator::Substraction => number_result(x - y, pos),
            Operator::Multiplication => number_result(x * y, pos),
            Operator::Division => if y == 0 {
                Err(EngineError::DivisionByZero { position: pos as usize })
            } else {
                number_result(trunc_div(x as int, y as int), pos)
            },
            Operator::Equals => Ok(ConstModel::Bool(x == y)),
            _ => Err(EngineError::TypeMismatch { position: pos as usize }),
        },
        (IdentModel::Constant(ConstModel::Bool(x)), IdentModel::Constant(ConstModel::Bool(y))) => match op {
            Operator::And => Ok(ConstModel::Bool(x && y)),
            Operator::Or => Ok(ConstModel::Bool(x || y)),
            _ => Err(EngineError::TypeMismatch { position: pos as usize }),
        },
        _ => Err(EngineError::TypeMismatch { position: pos as usize }),
    }
}

/// The evaluation stack after processing token `t`, the `pos`-th of the expression.
pub open spec fn eval_step(a: Bindings, stack: Seq<IdentModel>, t: TokenModel, pos: int) -> Result<Seq<IdentModel>, EngineError> {
    match t {
        TokenModel::Operand(id) => Ok(stack.push(id)),
        TokenModel::Parenthesis(_) => Err(EngineError::MalformedExpression { position: pos as usize }),
        TokenModel::Operation(op) => match signature(op) {
            ArityAndTypes::Unary(_) => if stack.len() < 1 {
                Err(EngineError::MalformedExpression { position: pos as usize })
            } else {
                match resolve(a, stack.last(), pos) {
                    Err(e) => Err(e),
                    Ok(v) => match apply_unary(op, v, pos) {
                        Ok(c) => Ok(stack.drop_last().push(IdentModel::Constant(c))),
                        Err(e) => Err(e),
                    },
                }
            },
            ArityAndTypes::Binary(_, _) => if stack.len() < 2 {
                Err(EngineError::MalformedExpression { position: pos as usize })
            } else {
                match resolve(a, stack[stack.len() - 2], pos) {
                    Err(e) => Err(e),
                    Ok(x) => match resolve(a, stack.last(), pos) {
                        Err(e) => Err(e),
                        Ok(y) => match apply_binary(op, x, y, pos) {
                            Ok(c) => Ok(stack.subrange(0, stack.len() - 2).push(IdentModel::Constant(c))),
                            Err(e) => Err(e),
                        },
                    },
                }
            },
        },
    }
}

/// The evaluation stack after processing the postfix tokens from position `i` on.
pub open spec fn eval_run(a: Bindings, ts: Seq<TokenModel>, i: int, stack: Seq<IdentModel>) -> Result<Seq<IdentModel>, EngineError>
    decreases ts.len() - i,
{
    if i < 0 || i >= ts.len() {
        Ok(stack)
    } else {
        match eval_step(a, stack, ts[i], i) {
            Ok(s) => eval_run(a, ts, i + 1, s),
            Err(e) => Err(e),
        }
    }
}

/// The value of postfix expression `ts` under bindings `a`.
pub open spec fn evaluate(a: Bindings, ts: Seq<TokenModel>) -> Result<IdentModel, EngineError> {
    match eval_run(a, ts, 0, Seq::empty()) {
        Ok(s) => if s.len() == 1 {
            resolve(a, s[0], ts.len() as int)
        } else {
            Err(EngineError::MalformedExpression { position: ts.len() as usize })
        },
        Err(e) => Err(e),
    }
}

/// The model of an evaluation result.
pub open spec fn ident_result(r: Result<Identifier, EngineError>) -> Result<IdentModel, EngineError> {
    match r {
        Ok(v) => Ok(v@),
        Err(e) => Err(e),
    }
}

/// The models of a sequence of operands.
pub open spec fn idents_model(s: Seq<Identifier>) -> Seq<IdentModel> {
    s.map_values(|x: Identifier| x@)
}

proof fn lemma_idents_model_push(s: Seq<Identifier>, x: Identifier)
    ensures
        idents_model(s.push(x)) == idents_model(s).push(x@),
{
    assert(idents_model(s.push(x)) =~= idents_model(s).push(x@));
}

proof fn lemma_idents_model_drop_last(s: Seq<Identifier>)
    requires
        s.len() > 0,
    ensures
        idents_model(s.drop_last()) == idents_model(s).drop_last(),
        idents_model(s).last() == s.last()@,
{
    assert(idents_model(s.drop_last()) =~= idents_model(s).drop_last());
}

/// A table binding variable names to values.
#[derive(Debug, PartialEq, Eq, Clone)]
pub struct Environment {
    pub assocs: Vec<(String, Identifier)>,
}

/// The models of a sequence of bindings.
pub open spec fn bindings_model(s: Seq<(String, Identifier)>) -> Bindings {
    s.map_values(|p: (String, Identifier)| (p.0@, p.1@))
}

impl View for Environment {
    type V = Bindings;

    open spec fn view(&self) -> Bindings {
        bindings_model(self.assocs@)
    }
}

/// The number `x`, computed in a wider type, or an overflow.
fn checked_number(x: i64, pos: usize) -> (r: Result<Constant, EngineError>)
    ensures
        const_result(r) == number_result(x as int, pos as int),
{
    if i32::MIN as i64 <= x && x <= i32::MAX as i64 {
        Ok(Constant::Number(x as i32))
    } else {
        Err(EngineError::Overflow { position: pos })
    }
}

/// The model of a computed value.
pub open spec fn const_result(r: Result<Constant, EngineError>) -> Result<ConstModel, EngineError> {
    match r {
        Ok(c) => Ok(c@),
        Err(e) => Err(e),
    }
}

/// Applies unary operator `op` to `v`.
fn unary(op: Operator, v: &Identifier, pos: usize) -> (r: Result<Constant, EngineError>)
    ensures
        const_result(r) == apply_unary(op, v@, pos as int),
{
    match v {
        Identifier::Constant(Constant::Number(n)) if op == Operator::UnaryMinus => checked_number(-(*n as i64), pos),
        Identifier::Constant(Constant::Bool(b)) if op == Operator::Not => Ok(Constant::Bool(!*b)),
        _ => Err(EngineError::TypeMismatch { position: pos }),
    }
}

/// Applies binary operator `op` to `a` (left) and `b` (right).
fn binary(op: Operator, a: &Identifier, b: &Identifier, pos: usize) -> (r: Result<Constant, EngineError>)
    ensures
        const_result(r) == apply_binary(op, a@, b@, pos as int),
{
    match (a, b) {
        (Identifier::Constant(Constant::Number(x)), Identifier::Constant(Constant::Number(y))) => {
            let x = *x as i64;
            let y = *y as i64;
            match op {
                Operator::Addition => checked_number(x + y, pos),
                Operator::Substraction => checked_number(x - y, pos),
                Operator::Multiplication => {
                    assert(-2147483648 <= x <= 2147483647 && -2147483648 <= y <= 2147483647);
                    assert(-0x4000_0000_0000_0000 <= x * y <= 0x4000_0000_0000_0000) by (nonlinear_arith)
                        requires
                            -2147483648 <= x <= 2147483647,
                            -2147483648 <= y <= 2147483647,
                    ;
                    checked_number(x * y, pos)
                },
                Operator::Division => if y == 0 {
                    Err(EngineError::DivisionByZero { position: pos })
                } else {
                    let ax: i64 = if x < 0 { -x } else { x };
                    let ay: i64 = if y < 0 { -y } else { y };
                    let q = ax / ay;
                    checked_number(if (x < 0) != (y < 0) { -q } else { q }, pos)
                },
                Operator::Equals => Ok(Constant::Bool(x == y)),
                _ => Err(EngineError::TypeMismatch { position: pos }),
            }
        },
        (Identifier::Constant(Constant::Bool(x)), Identifier::Constant(Constant::Bool(y))) => match op {
            Operator::And => Ok(Constant::Bool(*x && *y)),
            Operator::Or => Ok(Constant::Bool(*x || *y)),
            _ => Err(EngineError::TypeMismatch { position: pos }),
        },
        _ => Err(EngineError::TypeMismatch { position: pos }),
    }
}

impl Environment {
    /// An environment with no bindings.
    pub fn new() -> (r: Environment)
        ensures
            r@ == Seq::<(Seq<char>, IdentModel)>::empty(),
    {
        let r = Environment { assocs: Vec::new() };
        assert(r@ =~= Seq::<(Seq<char>, IdentModel)>::empty());
        r
    }

    /// The index of the first binding of `name`, or the number of bindings.
    fn position(&self, name: &String) -> (r: usize)
        ensures
            r == find_name(self@, name@, 0),
    {
        let mut i: usize = 0;
        while i < self.assocs.len()
            invariant
                i <= self.assocs.len(),
                find_name(self@, name@, 0) == find_name(self@, name@, i as int),
            decreases self.assocs.len() - i,
        {
            assert(self@[i as int].0 == self.assocs@[i as int].0@);
            if self.assocs[i].0 == *name {
                return i;
            }
            i += 1;
        }
        i
    }

    /// The value bound to `name`, if any.
    pub fn fetch(&self, name: &str) -> (r: Option<Identifier>)
        ensures
            r is Some <==> lookup(self@, name@) is Some,
            r is Some ==> r->0@ == lookup(self@, name@)->0,
    {
        let name = String::from_str(name);
        let k = self.position(&name);
        if k < self.assocs.len() {
            assert(self@[k as int].1 == self.assocs@[k as int].1@);
            Some(self.assocs[k].1.duplicate())
        } else {
            None
        }
    }

    /// Evaluates the assignment's expression in this environment, then binds
    /// its name to the value: the first binding of that name is overwritten,
    /// or a new binding is added at the end. On error nothing changes.
    pub fn evaluate_assignement(&mut self, assignement: Assignement) -> (r: Result<(), EngineError>)
        ensures
            match evaluate(old(self)@, tokens_model(assignement.value@)) {
                Ok(v) => r is Ok && final(self)@ == bind(old(self)@, assignement.name@, v),
                Err(e) => r == Err::<(), EngineError>(e) && final(self)@ == old(self)@,
            },
            all_constant(old(self)@) ==> all_constant(final(self)@),
    {
        let Assignement { name, value } = assignement;
        let result = match self.evaluate_rpn(value) {
            Ok(v) => v,
            Err(e) => {
                return Err(e);
            },
        };
        let k = self.position(&name);
        let ghost before = self.assocs@;
        if k < self.assocs.len() {
            self.assocs.set(k, (name, result));
            assert(self@ =~= bindings_model(before).update(k as int, (name@, result@)));
            assert(all_constant(bindings_model(before)) ==> all_constant(self@));
        } else {
            self.assocs.push((name, result));
            assert(self@ =~= bindings_model(before).push((name@, result@)));
            assert(all_constant(bindings_model(before)) ==> all_constant(self@));
        }
        Ok(())
    }

    /// `id` with a variable replaced by its binding.
    fn resolve_operand(&self, id: Identifier, pos: usize) -> (r: Result<Identifier, EngineError>)
        ensures
            ident_result(r) == resolve(self@, id@, pos as int),
    {
        match id {
            Identifier::Variable { name } => match self.fetch(name.as_str()) {
                Some(v) => Ok(v),
                None => Err(EngineError::UnboundName { position: pos }),
            },
            _ => Ok(id),
        }
    }

    /// Evaluates the postfix expression `tokens`, looking variables up in
    /// this environment as operators consume them; the environment is left
    /// unchanged.
    pub fn evaluate_rpn(&mut self, tokens: EvaluableExpr) -> (r: Result<Identifier, EngineError>)
        ensures
            *final(self) == *old(self),
            ident_result(r) == evaluate(old(self)@, tokens_model(tokens@)),
            all_constant(old(self)@) && r is Ok ==> r->Ok_0 is Constant,
    {
        let ghost ts = tokens_model(tokens@);
        let ghost a = self@;
        let mut stack: Vec<Identifier> = Vec::new();
        let mut i: usize = 0;
        assert(idents_model(stack@) =~= Seq::<IdentModel>::empty());
        while i < tokens.len()
            invariant
                i <= tokens.len(),
                ts == tokens_model(tokens@),
                a == self@,
                eval_run(a, ts, 0, Seq::empty()) == eval_run(a, ts, i as int, idents_model(stack@)),
            decreases tokens.len() - i,
        {
            assert(ts[i as int] == tokens@[i as int]@);
            let ghost before = idents_model(stack@);
            match &tokens[i] {
                Token::Operand(id) => {
                    let x = id.duplicate();
                    proof {
                        lemma_idents_model_push(stack@, x);
                    }
                    stack.push(x);
                },
                Token::Parenthesis(_) => {
                    return Err(EngineError::MalformedExpression { position: i });
                },
                Token::Operation(op) => {
                    match op.arity_and_types() {
                        ArityAndTypes::Unary(_) => {
                            if stack.len() < 1 {
                                return Err(EngineError::MalformedExpression { position: i });
                            }
                            proof {
                                lemma_idents_model_drop_last(stack@);
                            }
                            let x = stack.pop().unwrap();
                            let v = match self.resolve_operand(x, i) {
                                Ok(v) => v,
                                Err(e) => {
                                    return Err(e);
                                },
                            };
                            let c = match unary(*op, &v, i) {
                                Ok(c) => c,
                                Err(e) => {
                                    return Err(e);
                                },
                            };
                            let res = Identifier::Constant(c);
                            proof {
                                lemma_idents_model_push(stack@, res);
                            }
                            stack.push(res);
                        },
                        ArityAndTypes::Binary(_, _) => {
                            if stack.len() < 2 {
                                return Err(EngineError::MalformedExpression { position: i });
                            }
                            proof {
                                lemma_idents_model_drop_last(stack@);
                                lemma_idents_model_drop_last(stack@.drop_last());
                                assert(before[before.len() - 2] == stack@.drop_last().last()@);
                                assert(before.subrange(0, before.len() - 2) =~= before.drop_last().drop_last());
                            }
                            let right = stack.pop().unwrap();
                            let left = stack.pop().unwrap();
                            let x = match self.resolve_operand(left, i) {
                                Ok(v) => v,
                                Err(e) => {
                                    return Err(e);
                                },
                            };
                            let y = match self.resolve_operand(right, i) {
                                Ok(v) => v,
                                Err(e) => {
                                    return Err(e);
                                },
                            };
                            let c = match binary(*op, &x, &y, i) {
                                Ok(c) => c,
                                Err(e) => {
                                    return Err(e);
                                },
                            };
                            let res = Identifier::Constant(c);
                            proof {
                                lemma_idents_model_push(stack@, res);
                            }
                            stack.push(res);
                        },
                    }
                },
            }
            i += 1;
        }
        if stack.len() != 1 {
            return Err(EngineError::MalformedExpression { position: tokens.len() });
        }
        proof {
            lemma_idents_model_drop_last(stack@);
        }
        let top = stack.pop().unwrap();
        proof {
            if all_constant(a) {
                lemma_evaluate_constant(a, ts);
            }
        }
        self.resolve_operand(top, tokens.len())
    }
}

/// Evaluates the postfix expression `tokens` with no variables bound.
pub fn evaluate_rpn(tokens: EvaluableExpr) -> (r: Result<Identifier, EngineError>)
    ensures
        ident_result(r) == evaluate(Seq::empty(), tokens_model(tokens@)),
{
    let mut env = Environment::new();
    env.evaluate_rpn(tokens)
}

/// Addition never coerces: with one boolean and one number operand, in
/// either order, evaluation fails with a type mismatch at the operator.
pub proof fn law_addition_rejects_mixed_kinds(a: Bindings, b: bool, n: i32)
    ensures
        evaluate(
            a,
            seq![
                TokenModel::Operand(IdentModel::Constant(ConstModel::Bool(b))),
                TokenModel::Operand(IdentModel::Constant(ConstModel::Number(n))),
                TokenModel::Operation(Operator::Addition),
            ],
        ) == Err::<IdentModel, EngineError>(EngineError::TypeMismatch { position: 2 }),
        evaluate(
            a,
            seq![
                TokenModel::Operand(IdentModel::Constant(ConstModel::Number(n))),
                TokenModel::Operand(IdentModel::Constant(ConstModel::Bool(b))),
                TokenModel::Operation(Operator::Addition),
            ],
        ) == Err::<IdentModel, EngineError>(EngineError::TypeMismatch { position: 2 }),
{
    let x = IdentModel::Constant(ConstModel::Bool(b));
    let y = IdentModel::Constant(ConstModel::Number(n));
    let add = TokenModel::Operation(Operator::Addition);
    let t1 = seq![TokenModel::Operand(x), TokenModel::Operand(y), add];
    let t2 = seq![TokenModel::Operand(y), TokenModel::Operand(x), add];
    let e = Err::<Seq<IdentModel>, EngineError>(EngineError::TypeMismatch { position: 2 });
    assert(eval_run(a, t1, 2, seq![x, y]) == e);
    assert(t1[1] == TokenModel::Operand(y));
    assert(seq![x].push(y) =~= seq![x, y]);
    assert(eval_run(a, t1, 1, seq![x]) == e);
    assert(eval_run(a, t1, 0, Seq::empty()) == e);
    assert(eval_run(a, t2, 2, seq![y, x]) == e);
    assert(t2[1] == TokenModel::Operand(x));
    assert(seq![y].push(x) =~= seq![y, x]);
    assert(eval_run(a, t2, 1, seq![y]) == e);
    assert(eval_run(a, t2, 0, Seq::empty()) == e);
}

} // verus!
