use tangled::{
    compile_expression, evaluate_rpn, expr_tokens_to_rpn, Assignement, Constant, EngineError, Environment,
    Identifier, Operator, Token,
};

fn num(n: i32) -> Token {
    Token::Operand(Identifier::const_num(n))
}

fn op(o: Operator) -> Token {
    Token::Operation(o)
}

fn eval(expr: &str) -> Result<Identifier, EngineError> {
    evaluate_rpn(compile_expression(expr)?)
}

#[test]
fn test_tokenise() {
    let expression = "!((a+5)==c)";
    let tokens = Token::from_string(expression).unwrap();
    assert_eq!(
        tokens,
        vec![
            Token::Operation(Operator::Not),
            Token::Parenthesis('('),
            Token::Parenthesis('('),
            Token::Operand(Identifier::var("a")),
            Token::Operation(Operator::Addition),
            Token::Operand(Identifier::const_num(5)),
            Token::Parenthesis(')'),
            Token::Operation(Operator::Equals),
            Token::Operand(Identifier::var("c")),
            Token::Parenthesis(')'),
        ]
    );
}

#[test]
fn test_unary_minus_begin() {
    let expression = "-5";
    let tokens = Token::from_string(expression).unwrap();
    assert_eq!(tokens, vec![Token::Operation(Operator::UnaryMinus), Token::Operand(Identifier::const_num(5))]);
}

#[test]
fn test_unary_minus_in_expression() {
    let expression = "5*-5";
    let tokens = Token::from_string(expression).unwrap();
    assert_eq!(
        tokens,
        vec![
            Token::Operand(Identifier::const_num(5)),
            Token::Operation(Operator::Multiplication),
            Token::Operation(Operator::UnaryMinus),
            Token::Operand(Identifier::const_num(5)),
        ]
    );
}

#[test]
fn test_tokenise_variables() {
    let expression = "a + 5 + b";
    let tokens = Token::from_string(expression).unwrap();
    assert_eq!(
        tokens,
        vec![
            Token::Operand(Identifier::var("a")),
            Token::Operation(Operator::Addition),
            Token::Operand(Identifier::const_num(5)),
            Token::Operation(Operator::Addition),
            Token::Operand(Identifier::var("b")),
        ]
    );
}

#[test]
fn test_expr_tokens_to_rpn() {
    let tokens = vec![
        Token::Operand(Identifier::const_num(5)),
        Token::Operation(Operator::Addition),
        Token::Operand(Identifier::const_num(3)),
        Token::Operation(Operator::Multiplication),
        Token::Operand(Identifier::const_num(2)),
    ];
    let rpn = expr_tokens_to_rpn(tokens).unwrap();
    assert_eq!(
        rpn,
        vec![
            Token::Operand(Identifier::const_num(5)),
            Token::Operand(Identifier::const_num(3)),
            Token::Operand(Identifier::const_num(2)),
            Token::Operation(Operator::Multiplication),
            Token::Operation(Operator::Addition),
        ]
    );
}

#[test]
fn test_evaluate() {
    let expr = "5 + 3 * 2";
    let tokens = Token::from_string(expr).unwrap();
    let rpn = expr_tokens_to_rpn(tokens).unwrap();
    let result = evaluate_rpn(rpn).unwrap();
    assert_eq!(result, Identifier::const_num(11));
}

#[test]
fn test_evaluate_env() {
    let mut env = Environment::new();
    let expr_1 = "a = 5";
    let tokens_1 = Assignement::from_string(expr_1).unwrap();
    let expr_2 = "b = 3";
    let tokens_2 = Assignement::from_string(expr_2).unwrap();
    let expr_3 = "a == (b + 2)";
    let tokens_3 = Token::from_string(expr_3).unwrap();
    let rpn = expr_tokens_to_rpn(tokens_3).unwrap();
    env.evaluate_assignement(tokens_1).unwrap();
    env.evaluate_assignement(tokens_2).unwrap();
    let result = env.evaluate_rpn(rpn).unwrap();
    assert_eq!(result, Identifier::const_bool(true));
}

#[test]
fn canonical_sum_tokenizes_in_order() {
    let tokens = Token::from_string("5 + 3 * 2").unwrap();
    assert_eq!(tokens, vec![num(5), op(Operator::Addition), num(3), op(Operator::Multiplication), num(2)]);
}

#[test]
fn precedence_gives_postfix_and_eleven() {
    let rpn = compile_expression("5 + 3 * 2").unwrap();
    assert_eq!(rpn, vec![num(5), num(3), num(2), op(Operator::Multiplication), op(Operator::Addition)]);
    assert_eq!(evaluate_rpn(rpn).unwrap(), Identifier::const_num(11));
}

#[test]
fn subtraction_chains_associate_left() {
    assert_eq!(eval("8 - 3 - 2").unwrap(), Identifier::const_num(3));
    assert_eq!(eval("100 / 10 / 5").unwrap(), Identifier::const_num(2));
}

#[test]
fn parentheses_override_priority() {
    assert_eq!(eval("(5 + 3) * 2").unwrap(), Identifier::const_num(16));
    assert_eq!(eval("8 - (3 - 2)").unwrap(), Identifier::const_num(7));
}

#[test]
fn unary_operators_bind_tightest() {
    assert_eq!(eval("-5 + 2").unwrap(), Identifier::const_num(-3));
    assert_eq!(eval("5*-5").unwrap(), Identifier::const_num(-25));
    assert_eq!(eval("!true || true").unwrap(), Identifier::const_bool(true));
    assert_eq!(eval("!(true || true)").unwrap(), Identifier::const_bool(false));
}

#[test]
fn boolean_operators_follow_priority() {
    assert_eq!(eval("1 == 1 && 2 == 3").unwrap(), Identifier::const_bool(false));
    assert_eq!(eval("false && false || true").unwrap(), Identifier::const_bool(true));
}

#[test]
fn division_truncates_toward_zero() {
    assert_eq!(eval("7 / 2").unwrap(), Identifier::const_num(3));
    assert_eq!(eval("-7 / 2").unwrap(), Identifier::const_num(-3));
    assert_eq!(eval("7 / -2").unwrap(), Identifier::const_num(-3));
    assert_eq!(eval("-7 / -2").unwrap(), Identifier::const_num(3));
}

#[test]
fn variables_resolve_against_environment() {
    let mut env = Environment::new();
    env.evaluate_assignement(Assignement::from_string("a = 5").unwrap()).unwrap();
    env.evaluate_assignement(Assignement::from_string("b = 3").unwrap()).unwrap();
    let rpn = compile_expression("a == (b + 2)").unwrap();
    assert_eq!(env.evaluate_rpn(rpn).unwrap(), Identifier::const_bool(true));
}

#[test]
fn assignments_apply_in_order() {
    let mut env = Environment::new();
    env.evaluate_assignement(Assignement::from_string("a = 5").unwrap()).unwrap();
    env.evaluate_assignement(Assignement::from_string("b = a + 1").unwrap()).unwrap();
    assert_eq!(env.fetch("b"), Some(Identifier::const_num(6)));
}

#[test]
fn reassignment_overwrites_binding() {
    let mut env = Environment::new();
    env.evaluate_assignement(Assignement::from_string("a = 5").unwrap()).unwrap();
    env.evaluate_assignement(Assignement::from_string("b = 1").unwrap()).unwrap();
    env.evaluate_assignement(Assignement::from_string("a = a * 2").unwrap()).unwrap();
    assert_eq!(env.assocs.len(), 2);
    assert_eq!(env.assocs[0].0, "a");
    assert_eq!(env.fetch("a"), Some(Identifier::const_num(10)));
    assert_eq!(env.fetch("c"), None);
}

#[test]
fn failed_assignment_leaves_environment() {
    let mut env = Environment::new();
    env.evaluate_assignement(Assignement::from_string("a = 5").unwrap()).unwrap();
    let before = env.clone();
    let r = env.evaluate_assignement(Assignement::from_string("a = b + 1").unwrap());
    assert_eq!(r, Err(EngineError::UnboundName { position: 2 }));
    assert_eq!(env, before);
}

#[test]
fn addition_of_bool_and_number_is_rejected() {
    let rpn = vec![Token::Operand(Identifier::const_bool(true)), num(1), op(Operator::Addition)];
    assert_eq!(evaluate_rpn(rpn), Err(EngineError::TypeMismatch { position: 2 }));
    let rpn = vec![num(1), Token::Operand(Identifier::const_bool(false)), op(Operator::Addition)];
    assert_eq!(evaluate_rpn(rpn), Err(EngineError::TypeMismatch { position: 2 }));
}

#[test]
fn strings_are_rejected_by_operators() {
    assert_eq!(eval("\"a\" == \"a\""), Err(EngineError::TypeMismatch { position: 2 }));
    assert_eq!(eval("\"ab\"").unwrap(), Identifier::const_str("ab"));
}

#[test]
fn evaluation_errors() {
    assert_eq!(eval("1 / 0"), Err(EngineError::DivisionByZero { position: 2 }));
    assert_eq!(eval("2147483647 + 1"), Err(EngineError::Overflow { position: 2 }));
    assert_eq!(eval("x + 1"), Err(EngineError::UnboundName { position: 2 }));
    assert_eq!(eval("x"), Err(EngineError::UnboundName { position: 1 }));
    assert_eq!(eval("1 +"), Err(EngineError::MalformedExpression { position: 1 }));
    assert_eq!(eval("(1)(2)"), Err(EngineError::MalformedExpression { position: 2 }));
    assert_eq!(evaluate_rpn(vec![]), Err(EngineError::MalformedExpression { position: 0 }));
    assert_eq!(eval("(1"), Err(EngineError::MalformedExpression { position: 1 }));
    assert_eq!(eval("-2147483648").unwrap_err(), EngineError::NumberOutOfRange { position: 1 });
}

#[test]
fn lexing_errors() {
    assert_eq!(Token::from_string("a = b"), Err(EngineError::UnknownOperator { position: 1 }));
    assert_eq!(Token::from_string("a & b"), Err(EngineError::UnknownOperator { position: 1 }));
    assert_eq!(Token::from_string("\"abc"), Err(EngineError::UnterminatedString { position: 0 }));
    assert_eq!(Token::from_string("2147483648"), Err(EngineError::NumberOutOfRange { position: 0 }));
    assert_eq!(Token::from_string("2147483647"), Ok(vec![num(2147483647)]));
}

#[test]
fn unmatched_closing_parenthesis_is_rejected() {
    let tokens = Token::from_string("1 + 2)").unwrap();
    assert_eq!(expr_tokens_to_rpn(tokens), Err(EngineError::UnmatchedParenthesis { position: 3 }));
    let tokens = vec![Token::Parenthesis('[')];
    assert_eq!(expr_tokens_to_rpn(tokens), Err(EngineError::UnmatchedParenthesis { position: 0 }));
}

#[test]
fn blanks_are_removed_before_lexing() {
    let tokens = Token::from_string(" a b\t+ 1 2 ").unwrap();
    assert_eq!(tokens, vec![Token::Operand(Identifier::var("ab")), op(Operator::Addition), num(12)]);
    let tokens = Token::from_string("\"x y\"").unwrap();
    assert_eq!(tokens, vec![Token::Operand(Identifier::const_str("xy"))]);
}

#[test]
fn identifiers_stop_at_digits() {
    let tokens = Token::from_string("ab1").unwrap();
    assert_eq!(tokens, vec![Token::Operand(Identifier::var("ab")), num(1)]);
    let tokens = Token::from_string("été").unwrap();
    assert_eq!(tokens, vec![Token::Operand(Identifier::var("été"))]);
}

#[test]
fn empty_expression_has_no_tokens() {
    assert_eq!(Token::from_string("").unwrap(), vec![]);
    assert_eq!(Token::from_string("   ").unwrap(), vec![]);
}

#[test]
fn minus_is_binary_only_after_an_operand() {
    let tokens = Token::from_string("a-1").unwrap();
    assert_eq!(tokens, vec![Token::Operand(Identifier::var("a")), op(Operator::Substraction), num(1)]);
    let tokens = Token::from_string("(-1)-(-1)").unwrap();
    assert_eq!(tokens[1], op(Operator::UnaryMinus));
    assert_eq!(tokens[4], op(Operator::UnaryMinus));
    assert_eq!(tokens[6], op(Operator::UnaryMinus));
}

#[test]
fn reserved_words_become_booleans() {
    let rpn = compile_expression("sorted == true").unwrap();
    assert_eq!(
        rpn,
        vec![Token::Operand(Identifier::var("sorted")), Token::Operand(Identifier::const_bool(true)), op(Operator::Equals)]
    );
}

#[test]
fn operator_table() {
    assert_eq!(Operator::from_string("=="), Ok(Operator::Equals));
    assert_eq!(Operator::from_string("||"), Ok(Operator::Or));
    assert!(Operator::from_string("=").is_err());
    assert_eq!(Operator::Multiplication.priority(), 200);
    assert_eq!(Operator::Or.priority(), 20);
    assert!(Operator::Not.priority() > Operator::Division.priority());
    assert!(Token::Operand(Identifier::const_num(1)).is_operand());
    assert!(!Token::Parenthesis('(').is_operand());
}

#[test]
fn number_constants_hold_values() {
    assert_eq!(Identifier::const_num(7), Identifier::Constant(Constant::Number(7)));
}

#[test]
fn unary_operators_resolve_variables() {
    let mut env = Environment::new();
    env.evaluate_assignement(Assignement::from_string("a = 5").unwrap()).unwrap();
    env.evaluate_assignement(Assignement::from_string("flag = a == 5").unwrap()).unwrap();
    assert_eq!(env.evaluate_rpn(compile_expression("-a").unwrap()).unwrap(), Identifier::const_num(-5));
    assert_eq!(env.evaluate_rpn(compile_expression("!flag").unwrap()).unwrap(), Identifier::const_bool(false));
    assert_eq!(env.evaluate_rpn(compile_expression("-flag").unwrap()), Err(EngineError::TypeMismatch { position: 1 }));
}

#[test]
fn classified_characters_drive_the_lexer() {
    let chars: Vec<char> = "x+1".chars().collect();
    let tokens = Token::from_classified(&chars, &vec![true, false, false]).unwrap();
    assert_eq!(tokens, vec![Token::Operand(Identifier::var("x")), op(Operator::Addition), num(1)]);
    assert_eq!(Token::from_classified(&chars, &vec![false, false, false]), Err(EngineError::UnknownOperator { position: 0 }));
    let chars: Vec<char> = "-xy".chars().collect();
    let tokens = Token::from_classified(&chars, &vec![false, true, true]).unwrap();
    assert_eq!(tokens, vec![op(Operator::UnaryMinus), Token::Operand(Identifier::var("xy"))]);
    let tokens = Token::parse_classified(&chars, &vec![false, true, true]).unwrap();
    assert_eq!(tokens[0], op(Operator::Substraction));
}

#[test]
fn unknown_operator_message_names_it() {
    assert_eq!(Operator::from_string("<>"), Err("Unknown operator: <>".to_string()));
}

#[test]
fn all_unicode_white_space_is_removed() {
    assert_eq!(Token::from_string("5\u{A0}").unwrap(), vec![num(5)]);
    assert_eq!(Token::from_string("5\t+\t3").unwrap(), vec![num(5), op(Operator::Addition), num(3)]);
    assert_eq!(Token::from_string("\u{3000}a\u{2009}+\u{0B}1\u{85}").unwrap(), vec![
        Token::Operand(Identifier::var("a")),
        op(Operator::Addition),
        num(1)
    ]);
}
