use tangled::{
    fill_blanks, parse_bracketed, split_fields, Assignement, BlockContent, Bracketed, Call, Constant, EngineError,
    FileLine, Identifier, MetaData, Operator, Program, ProgramVariable, Token, Warning,
};

fn text_of(b: &Bracketed) -> &str {
    match &b.content {
        BlockContent::Text(t) => t.as_str(),
        BlockContent::Blocks(_) => panic!("expected text"),
    }
}

fn children(b: &Bracketed) -> &Vec<Bracketed> {
    match &b.content {
        BlockContent::Blocks(v) => v,
        BlockContent::Text(_) => panic!("expected blocks"),
    }
}

#[test]
fn test_parse_meta_data() {
    let meta_data = MetaData::from_string("name: number = 5").unwrap();
    assert_eq!(meta_data.name, "name");
    assert_eq!(meta_data.data, Constant::Number(5));
}

#[test]
fn test_parse_call() {
    let brack = parse_bracketed("IntVector_push_back(&$self, ...) {\n Does {\n sorted = false\n }\n }\n").unwrap();
    let brack = fill_blanks(&brack[0], "IntVector_push_back(&$self, ...) {\n Does {\n sorted = false\n }\n }\n");
    let call = Call::from_bracketed(brack).unwrap();
    assert_eq!(call.name, "IntVector_push_back(&$self, ...) {");
    assert_eq!(call.does, Some(vec![Assignement::from_string("sorted = false").unwrap()]));

    let warned = "        IntVector_search(&$self, ...) {
            Warn { 
                {
                    Test: sorted == true,
                    Message: \"Using search on an sorted vector is very inefficient\",
                    Hint: \"Use IntVector_binary_search(&$self, ...) instead\",
                }
            }
        }";
    let brack = parse_bracketed(warned).unwrap();
    let brack = fill_blanks(&brack[0], warned);
    let call = Call::from_bracketed(brack).unwrap();
    assert_eq!(call.name, "IntVector_search(&$self, ...) {");
    assert_eq!(
        call.warn,
        Some(vec![Warning {
            test: vec![
                Token::Operand(Identifier::Variable { name: "sorted".to_string() }),
                Token::Operand(Identifier::const_bool(true)),
                Token::Operation(Operator::Equals),
            ],
            message: Some("Using search on an sorted vector is very inefficient".to_string()),
            hint: Some("Use IntVector_binary_search(&$self, ...) instead".to_string()),
        }])
    );
}

#[test]
fn test_parse_assignement() {
    let assignement = Assignement::from_string("name = 5 + 3 * 2").unwrap();
    assert_eq!(assignement.name, "name");
    assert_eq!(
        assignement.value,
        vec![
            Token::Operand(Identifier::const_num(5)),
            Token::Operand(Identifier::const_num(3)),
            Token::Operand(Identifier::const_num(2)),
            Token::Operation(Operator::Multiplication),
            Token::Operation(Operator::Addition),
        ]
    );
}

#[test]
fn test_parse_warning() {
    let warning =
        Warning::from_string("Test: a + 5 == c, Message: \"a + 5 should be equal to c\", Hint: \"Check the value of a and c\"")
            .unwrap();
    assert_eq!(
        warning.test,
        vec![
            Token::Operand(Identifier::Variable { name: "a".to_string() }),
            Token::Operand(Identifier::const_num(5)),
            Token::Operation(Operator::Addition),
            Token::Operand(Identifier::Variable { name: "c".to_string() }),
            Token::Operation(Operator::Equals),
        ]
    );
    assert_eq!(warning.message, Some("a + 5 should be equal to c".to_string()));
    assert_eq!(warning.hint, Some("Check the value of a and c".to_string()));
}

#[test]
fn test_parse_does() {
    let does = Assignement::from_string("name = 5 + 3 * 2").unwrap();
    assert!(does.name == "name");
    assert_eq!(
        does.value,
        vec![
            Token::Operand(Identifier::const_num(5)),
            Token::Operand(Identifier::const_num(3)),
            Token::Operand(Identifier::const_num(2)),
            Token::Operation(Operator::Multiplication),
            Token::Operation(Operator::Addition),
        ]
    );
}

#[test]
fn top_level_blocks_keep_document_order() {
    let doc = "A {\n x\n B {\n y\n }\n}\nC {\n}\nD {\n E {\n }\n F {\n }\n}\n";
    let blocks = parse_bracketed(doc).unwrap();
    assert_eq!(blocks.len(), 3);
    assert_eq!(blocks[0].beginning_line.line_number, 0);
    assert_eq!(blocks[0].ending_line.line_number, 5);
    assert_eq!(blocks[1].beginning_line.line_number, 6);
    assert_eq!(blocks[2].beginning_line.line_number, 8);
    let inner = children(&blocks[2]);
    assert_eq!(inner.len(), 2);
    assert_eq!(inner[0].beginning_line.line, " E {");
    assert_eq!(inner[1].beginning_line.line_number, 11);
    assert_eq!(children(&blocks[1]).len(), 0);
}

#[test]
fn filling_gives_trimmed_interior_text() {
    let doc = "A {\n  x = 1  \n\tB {\n   y\n   z\n }\n}\n";
    let blocks = parse_bracketed(doc).unwrap();
    let filled = fill_blanks(&blocks[0], doc);
    assert_eq!(filled.beginning_line.line, "A {");
    let inner = children(&filled);
    assert_eq!(inner.len(), 1);
    assert_eq!(inner[0].beginning_line.line, "B {");
    assert_eq!(text_of(&inner[0]), "y\nz\n");
    let empty = parse_bracketed("E {\n}\n").unwrap();
    assert_eq!(text_of(&fill_blanks(&empty[0], "E {\n}\n")), "");
}

#[test]
fn brace_errors_name_their_line() {
    assert_eq!(parse_bracketed("A {\n}\n}\n").unwrap_err(), EngineError::UnmatchedClosingBrace { line: 2 });
    assert_eq!(parse_bracketed("A {\n B {\n }\n").unwrap_err(), EngineError::UnclosedBlock { line: 0 });
    assert_eq!(parse_bracketed("").unwrap().len(), 0);
}

#[test]
fn crlf_lines_are_split() {
    let doc = "A {\r\n v\r\n}\r\n";
    let blocks = parse_bracketed(doc).unwrap();
    assert_eq!(blocks[0].ending_line.line_number, 2);
    assert_eq!(blocks[0].beginning_line.line, "A {");
    assert_eq!(text_of(&fill_blanks(&blocks[0], doc)), "v\n");
}

#[test]
fn file_lines_trim() {
    let line = FileLine::new(3, "  Does {  ".to_string());
    let t = line.trimmed();
    assert_eq!(t.line_number, 3);
    assert_eq!(t.line, "Does {");
}

#[test]
fn quoted_commas_do_not_split() {
    let fields = split_fields("Test: a, Message: \"a, b\", Hint: \"c\"");
    assert_eq!(fields, vec!["Test: a".to_string(), " Message: \"a, b\"".to_string(), " Hint: \"c\"".to_string()]);
    let warning = Warning::from_string("Test: x == 1, Message: \"a, b\"").unwrap();
    assert_eq!(warning.message, Some("a, b".to_string()));
    assert_eq!(warning.hint, None);
}

#[test]
fn warning_errors() {
    assert_eq!(Warning::from_string("Message: \"m\""), Err(EngineError::MissingTest));
    assert_eq!(Warning::from_string("Test: a, Test: b"), Err(EngineError::DuplicateKey));
    assert_eq!(Warning::from_string("Test: a, Hint: \"x\", Hint: \"y\""), Err(EngineError::DuplicateKey));
    assert_eq!(Warning::from_string("Test: a, Message: m"), Err(EngineError::UnquotedText));
    assert_eq!(Warning::from_string("Test a"), Err(EngineError::MissingSeparator));
    assert_eq!(Warning::from_string("Test: a ="), Err(EngineError::UnknownOperator { position: 1 }));
}

#[test]
fn metadata_kinds_are_checked() {
    assert_eq!(MetaData::from_string("flag: bool = 5").unwrap_err(), EngineError::KindMismatch);
    assert_eq!(MetaData::from_string("flag: bool = true").unwrap().data, Constant::Bool(true));
    assert_eq!(MetaData::from_string("n: number = -12").unwrap().data, Constant::Number(-12));
    assert_eq!(MetaData::from_string("n: number = \"x\"").unwrap_err(), EngineError::KindMismatch);
    let s = MetaData::from_string("label : string = \"a: b = c\"").unwrap();
    assert_eq!(s.name, "label");
    assert_eq!(s.data, Constant::String("a: b = c".to_string()));
    assert_eq!(MetaData::from_string("n: other = 3").unwrap().data, Constant::Number(3));
}

#[test]
fn metadata_errors() {
    assert_eq!(MetaData::from_string("n = 5").unwrap_err(), EngineError::MissingSeparator);
    assert_eq!(MetaData::from_string("n: number 5").unwrap_err(), EngineError::MissingSeparator);
    assert_eq!(MetaData::from_string("n: number = five").unwrap_err(), EngineError::InvalidLiteral);
    assert_eq!(MetaData::from_string("n: number = 2147483648").unwrap_err(), EngineError::InvalidLiteral);
    assert_eq!(MetaData::from_string("n: number = -2147483648").unwrap().data, Constant::Number(i32::MIN));
    assert_eq!(MetaData::from_string("s: string = \"x").unwrap_err(), EngineError::UnquotedText);
    let m = MetaData::from_parts("n".to_string(), "number", "+7").unwrap();
    assert_eq!(m.data, Constant::Number(7));
}

#[test]
fn assignment_splits_at_first_equals() {
    let a = Assignement::from_string("flag = x == 1").unwrap();
    assert_eq!(a.name, "flag");
    assert_eq!(
        a.value,
        vec![Token::Operand(Identifier::var("x")), Token::Operand(Identifier::const_num(1)), Token::Operation(Operator::Equals)]
    );
    assert_eq!(Assignement::from_string("no separator"), Err(EngineError::MissingSeparator));
}

#[test]
fn call_reads_all_sections() {
    let doc = "push(&$self) {\n  Does {\n    a = 5\n    b = a + 1\n  }\n  Warn {\n    {\n      Test: a == 5\n    }\n    {\n      Test: b == 6, Hint: \"h\"\n    }\n  }\n  Deny {\n    {\n      Test: !sorted, Message: \"m\"\n    }\n  }\n}\n";
    let blocks = parse_bracketed(doc).unwrap();
    let call = Call::from_bracketed(fill_blanks(&blocks[0], doc)).unwrap();
    assert_eq!(call.name, "push(&$self) {");
    let does = call.does.unwrap();
    assert_eq!(does.len(), 2);
    assert_eq!(does[1].name, "b");
    let warn = call.warn.unwrap();
    assert_eq!(warn.len(), 2);
    assert_eq!(warn[1].hint, Some("h".to_string()));
    let deny = call.deny.unwrap();
    assert_eq!(deny.len(), 1);
    assert_eq!(deny[0].message, Some("m".to_string()));
    assert_eq!(deny[0].test, vec![Token::Operand(Identifier::var("sorted")), Token::Operation(Operator::Not)]);
}

#[test]
fn call_section_errors() {
    let doc = "f() {\n  Maybe {\n    a = 1\n  }\n}\n";
    let blocks = parse_bracketed(doc).unwrap();
    assert_eq!(Call::from_bracketed(fill_blanks(&blocks[0], doc)).unwrap_err(), EngineError::UnknownSection { line: 1 });
    let doc = "f() {\n  Warn {\n    a = 1\n  }\n}\n";
    let blocks = parse_bracketed(doc).unwrap();
    assert_eq!(Call::from_bracketed(fill_blanks(&blocks[0], doc)).unwrap_err(), EngineError::MisplacedContent { line: 1 });
    let doc = "f() {\n  Does {\n    {\n    }\n  }\n}\n";
    let blocks = parse_bracketed(doc).unwrap();
    assert_eq!(Call::from_bracketed(fill_blanks(&blocks[0], doc)).unwrap_err(), EngineError::MisplacedContent { line: 1 });
    let doc = "f() {\n}\n";
    let blocks = parse_bracketed(doc).unwrap();
    let call = Call::from_bracketed(fill_blanks(&blocks[0], doc)).unwrap();
    assert!(call.does.is_none() && call.warn.is_none() && call.deny.is_none());
}

#[test]
fn program_pairs_variables_with_fresh_environments() {
    let v = ProgramVariable { name: "v".to_string(), var_type: "IntVector".to_string(), implications: vec![(3, 9)], scope: (0, 20) };
    let w = ProgramVariable { name: "w".to_string(), var_type: "int".to_string(), implications: vec![], scope: (0, 20) };
    let program = Program::from_vars(vec![v, w]);
    assert_eq!(program.checks.len(), 2);
    assert_eq!(program.checks[0].0.name, "v");
    assert_eq!(program.checks[1].0.name, "w");
    assert!(program.checks[0].1.assocs.is_empty());
}

#[test]
fn trimming_removes_unicode_white_space() {
    let t = FileLine::new(0, "\u{A0} Does {\u{2003}\u{3000}".to_string()).trimmed();
    assert_eq!(t.line, "Does {");
    let a = Assignement::from_string("\u{A0}x\u{A0}=\u{2028}1").unwrap();
    assert_eq!(a.name, "x");
}
