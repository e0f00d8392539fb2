use edgecb::frame::Value;
use edgecb::lexer::{
    chars_of, tokenize, CharClass, CompileCause, CompileError, Token, TokenKind,
};
use edgecb::plan::{compile, compile_for, parse, Expr, Keyword};

fn fails(text: &str, cause: CompileCause, position: usize) {
    assert_eq!(parse(text), Err(CompileError { cause, position }));
}

#[test]
fn tokens_of_a_statement() {
    let chars = chars_of("SELECT 12, $3 ,x_1.y");
    let tokens = tokenize(&chars).unwrap();
    assert_eq!(
        tokens,
        vec![
            Token { kind: TokenKind::Word, start: 0, end: 6 },
            Token { kind: TokenKind::Number(12), start: 7, end: 9 },
            Token { kind: TokenKind::Comma, start: 9, end: 10 },
            Token { kind: TokenKind::Param(3), start: 11, end: 13 },
            Token { kind: TokenKind::Comma, start: 14, end: 15 },
            Token { kind: TokenKind::Word, start: 15, end: 20 },
        ]
    );
}

#[test]
fn blanks_alone_hold_no_token() {
    assert_eq!(tokenize(&chars_of(" \t\r\n ")), Ok(vec![]));
    assert_eq!(tokenize(&chars_of("")), Ok(vec![]));
    assert_eq!(chars_of("aé"), vec!['a', 'é']);
    assert!(CharClass::Blank.holds('\t'));
    assert!(!CharClass::Blank.holds('x'));
    assert!(CharClass::Digit.holds('7'));
    assert!(!CharClass::Digit.holds('a'));
    assert!(CharClass::Word.holds('.'));
    assert!(CharClass::Word.holds('_'));
    assert!(!CharClass::Word.holds('-'));
    let tokens = tokenize(&chars_of("a.b-c"));
    assert_eq!(
        tokens,
        Err(CompileError { cause: CompileCause::UnexpectedCharacter, position: 3 })
    );
}

#[test]
fn lexical_faults() {
    fails("SELECT #", CompileCause::UnexpectedCharacter, 7);
    fails("SELECT é", CompileCause::UnexpectedCharacter, 7);
    fails("SELECT 9223372036854775808", CompileCause::NumberTooLarge, 7);
    fails("SELECT 99999999999999999999999999", CompileCause::NumberTooLarge, 7);
    fails("SELECT $", CompileCause::BadParameter, 7);
    fails("SELECT $0", CompileCause::BadParameter, 7);
    fails("SELECT $65536", CompileCause::BadParameter, 7);
    fails("SELECT $x", CompileCause::BadParameter, 7);
}

#[test]
fn largest_number_and_parameter_are_accepted() {
    let plan = parse("SELECT 9223372036854775807, $65535").unwrap();
    assert_eq!(
        plan.columns(),
        &vec![Expr::Int(i64::MAX), Expr::Param(65534)]
    );
    assert_eq!(plan.param_count(), 65535);
}

#[test]
fn syntax_faults() {
    fails("", CompileCause::EmptyStatement, 0);
    fails("   ", CompileCause::EmptyStatement, 0);
    fails("FROM x", CompileCause::ExpectedSelect, 0);
    fails("  1", CompileCause::ExpectedSelect, 2);
    fails("SELECT", CompileCause::ExpectedItem, 6);
    fails("SELECT ,", CompileCause::ExpectedItem, 7);
    fails("SELECT 1,", CompileCause::ExpectedItem, 9);
    fails("SELECT 1, from t", CompileCause::ExpectedItem, 10);
    fails("SELECT select", CompileCause::ExpectedItem, 7);
    fails("SELECT a FROM", CompileCause::ExpectedTarget, 13);
    fails("SELECT a FROM 3", CompileCause::ExpectedTarget, 14);
    fails("SELECT a FROM limit", CompileCause::ExpectedTarget, 14);
    fails("SELECT 1 LIMIT", CompileCause::ExpectedCount, 14);
    fails("SELECT 1 LIMIT x", CompileCause::ExpectedCount, 15);
    fails("SELECT 1 2", CompileCause::TrailingInput, 9);
    fails("SELECT 1 LIMIT 2 FROM t", CompileCause::TrailingInput, 17);
    fails("SELECT a FROM t u", CompileCause::TrailingInput, 16);
}

#[test]
fn field_without_source_is_unresolved() {
    fails("SELECT 1, name", CompileCause::UnresolvedIdentifier, 10);
    fails("SELECT a, b", CompileCause::UnresolvedIdentifier, 7);
    fails("SELECT a LIMIT 1", CompileCause::UnresolvedIdentifier, 7);
}

#[test]
fn parameter_count_must_match() {
    let one = vec![Value::Int(1)];
    assert_eq!(
        compile("SELECT 1", &one),
        Err(CompileError { cause: CompileCause::ParameterCount, position: 0 })
    );
    assert_eq!(
        compile("SELECT $2", &one),
        Err(CompileError { cause: CompileCause::ParameterCount, position: 0 })
    );
    assert!(compile("SELECT $1", &one).is_ok());
    assert!(compile_for("SELECT $1, $2, $1", 2).is_ok());
    assert!(compile_for("SELECT $1, $2, $1", 3).is_err());
    assert_eq!(
        compile("SELECT $", &one).unwrap_err().cause,
        CompileCause::BadParameter
    );
}

#[test]
fn select_one_compiles_to_a_constant_plan() {
    let plan = compile("SELECT 1", &vec![]).unwrap();
    assert_eq!(plan.columns(), &vec![Expr::Int(1)]);
    assert_eq!(plan.target(), None);
    assert_eq!(plan.limit(), None);
    assert_eq!(plan.param_count(), 0);
    assert_eq!(plan.estimated_cost(), Some(1));
    assert_eq!(plan.fields(), Vec::<String>::new());
    assert_eq!(plan.describe(), "constant row");
    assert_eq!(plan.clone(), plan);
}

#[test]
fn full_statement_compiles_to_a_scan_plan() {
    let plan = parse("  select\tNULL , true,False, id ,$2 , meta.id\n from Travel.inv limit 10 ").unwrap();
    assert_eq!(
        plan.columns(),
        &vec![
            Expr::Null,
            Expr::Bool(true),
            Expr::Bool(false),
            Expr::Field("id".to_string()),
            Expr::Param(1),
            Expr::Field("meta.id".to_string()),
        ]
    );
    assert_eq!(plan.target(), Some(&"Travel.inv".to_string()));
    assert_eq!(plan.limit(), Some(10));
    assert_eq!(plan.param_count(), 2);
    assert_eq!(plan.estimated_cost(), Some(10));
    assert_eq!(plan.fields(), vec!["id".to_string(), "meta.id".to_string()]);
    assert_eq!(plan.describe(), "scan of Travel.inv");
    assert_eq!(parse("SELECT a FROM t").unwrap().estimated_cost(), None);
}

#[test]
fn keywords_are_read_in_either_case() {
    let plan = parse("SeLeCt nUll, tRUE, false, selects, fro fRoM t LiMiT 2").unwrap();
    assert_eq!(
        plan.columns(),
        &vec![
            Expr::Null,
            Expr::Bool(true),
            Expr::Bool(false),
            Expr::Field("selects".to_string()),
            Expr::Field("fro".to_string()),
        ]
    );
    assert_eq!(plan.limit(), Some(2));
    assert_eq!(Keyword::Select.upper_text(), "SELECT");
    assert_eq!(Keyword::False.lower_text(), "false");
}

#[test]
fn projection_takes_constants_parameters_and_fields() {
    let plan = parse("SELECT a, $1, 5, b, $3 FROM t").unwrap();
    let params = vec![Value::Text("p".to_string()), Value::Int(0)];
    let fields = vec![Value::Int(10), Value::Bool(false)];
    assert_eq!(
        plan.project(&params, &fields),
        Some(vec![
            Value::Int(10),
            Value::Text("p".to_string()),
            Value::Int(5),
            Value::Bool(false),
            Value::Null,
        ])
    );
    assert_eq!(plan.project(&params, &vec![Value::Int(10)]), None);
    assert_eq!(
        plan.project(&params, &vec![Value::Int(1), Value::Int(2), Value::Int(3)]),
        None
    );
    let constant = parse("SELECT 1").unwrap();
    assert_eq!(constant.project(&vec![], &vec![]), Some(vec![Value::Int(1)]));
    assert_eq!(constant.project(&vec![], &vec![Value::Null]), None);
}

#[test]
fn compile_error_messages_name_cause_and_position() {
    let e = parse("SELECT a FROM t u").unwrap_err();
    assert_eq!(e.message(), "unexpected text after the statement at position 16");
    assert_eq!(CompileCause::ExpectedSelect.as_str(), "expected SELECT");
    assert_eq!(
        CompileError { cause: CompileCause::NumberTooLarge, position: 1234567890 }.message(),
        "number too large at position 1234567890"
    );
}
