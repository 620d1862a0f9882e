use rcd_server::calc_engine::config::{normalize_data_type, CalcDataType};
use rcd_server::calc_engine::engine::{
    base_variables, compile_formula, evaluation_order, kept_rules, undefined_variables,
};
use rcd_server::calc_engine::evaluator::{
    checked_shift, exact_eq, int_binary, int_unary, EvalError, ExactValue,
};
use rcd_server::calc_engine::parser::{extract_variables, parse, BinOp, Expr, Literal, UnaryOp};
use rcd_server::calc_engine::tokenizer::{tokenize, Token};

fn parse_expr(input: &str) -> Result<Expr, String> {
    let tokens = tokenize(input)?;
    parse(tokens)
}

fn var(name: &str) -> Box<Expr> {
    Box::new(Expr::Variable(name.into()))
}

// ---- tokenizer ----

#[test]
fn tokenize_arithmetic() {
    let tokens = tokenize("a + b * 3.14").unwrap();
    assert_eq!(
        tokens,
        vec![
            Token::Ident("a".into()),
            Token::Plus,
            Token::Ident("b".into()),
            Token::Star,
            Token::Float("3.14".into()),
            Token::Eof,
        ]
    );
    match &tokens[4] {
        Token::Float(text) => assert_eq!(text.parse::<f64>().unwrap(), 3.14),
        other => panic!("unexpected token {:?}", other),
    }
}

#[test]
fn tokenize_logical_and_comparison() {
    let tokens = tokenize("(x == 1) && (y != 0)").unwrap();
    assert_eq!(
        tokens,
        vec![
            Token::LParen,
            Token::Ident("x".into()),
            Token::Eq,
            Token::Int(1),
            Token::RParen,
            Token::And,
            Token::LParen,
            Token::Ident("y".into()),
            Token::NotEq,
            Token::Int(0),
            Token::RParen,
            Token::Eof,
        ]
    );
}

#[test]
fn tokenize_bitwise() {
    let tokens = tokenize("a & b | c ^ ~d << 2 >> 1").unwrap();
    assert_eq!(
        tokens,
        vec![
            Token::Ident("a".into()),
            Token::Amp,
            Token::Ident("b".into()),
            Token::Pipe,
            Token::Ident("c".into()),
            Token::Caret,
            Token::Tilde,
            Token::Ident("d".into()),
            Token::ShiftLeft,
            Token::Int(2),
            Token::ShiftRight,
            Token::Int(1),
            Token::Eof,
        ]
    );
}

#[test]
fn tokenize_comparison_operators() {
    let tokens = tokenize("a > b < c >= d <= e").unwrap();
    assert_eq!(
        tokens,
        vec![
            Token::Ident("a".into()),
            Token::Gt,
            Token::Ident("b".into()),
            Token::Lt,
            Token::Ident("c".into()),
            Token::GtEq,
            Token::Ident("d".into()),
            Token::LtEq,
            Token::Ident("e".into()),
            Token::Eof,
        ]
    );
}

#[test]
fn tokenize_unary_operators() {
    let tokens = tokenize("!a + -b").unwrap();
    assert_eq!(
        tokens,
        vec![
            Token::Bang,
            Token::Ident("a".into()),
            Token::Plus,
            Token::Minus,
            Token::Ident("b".into()),
            Token::Eof,
        ]
    );
}

#[test]
fn tokenize_kks_identifier() {
    let tokens = tokenize("9CYE91GH201_SL1 * 1000").unwrap();
    assert_eq!(
        tokens,
        vec![
            Token::Ident("9CYE91GH201_SL1".into()),
            Token::Star,
            Token::Int(1000),
            Token::Eof,
        ]
    );
}

#[test]
fn tokenize_error_single_equal() {
    let result = tokenize("a = b");
    assert!(result.is_err());
}

#[test]
fn tokenize_error_illegal_char() {
    let result = tokenize("a @ b");
    assert!(result.is_err());
}

#[test]
fn tokenize_modulo() {
    let tokens = tokenize("a % 3").unwrap();
    assert_eq!(
        tokens,
        vec![Token::Ident("a".into()), Token::Percent, Token::Int(3), Token::Eof]
    );
}

#[test]
fn tokenize_empty() {
    let tokens = tokenize("").unwrap();
    assert_eq!(tokens, vec![Token::Eof]);
}

#[test]
fn tokenize_integer() {
    let tokens = tokenize("42").unwrap();
    assert_eq!(tokens, vec![Token::Int(42), Token::Eof]);
}

#[test]
fn tokenize_or_operator() {
    let tokens = tokenize("a || b").unwrap();
    assert_eq!(
        tokens,
        vec![Token::Ident("a".into()), Token::Or, Token::Ident("b".into()), Token::Eof]
    );
}

#[test]
fn tokenize_if_commas() {
    let tokens = tokenize("IF(a == 1, b, 4)").unwrap();
    assert_eq!(
        tokens,
        vec![
            Token::Ident("IF".into()),
            Token::LParen,
            Token::Ident("a".into()),
            Token::Eq,
            Token::Int(1),
            Token::Comma,
            Token::Ident("b".into()),
            Token::Comma,
            Token::Int(4),
            Token::RParen,
            Token::Eof,
        ]
    );
}

#[test]
fn tokenize_error_messages() {
    assert_eq!(tokenize("a = b").unwrap_err(), "位置 2 处出现单独的 '='，请使用 '=='");
    assert_eq!(tokenize("a @ b").unwrap_err(), "位置 2 处出现非法字符 '@'");
    assert_eq!(
        tokenize("99999999999999999999").unwrap_err(),
        "无法解析整数 '99999999999999999999': number too large to fit in target type"
    );
    assert_eq!(tokenize("9223372036854775807").unwrap(), vec![Token::Int(i64::MAX), Token::Eof]);
}

// ---- parser ----

#[test]
fn parse_literal() {
    assert_eq!(parse_expr("42").unwrap(), Expr::Literal(Literal::Int(42)));
}

#[test]
fn parse_variable() {
    assert_eq!(parse_expr("abc").unwrap(), Expr::Variable("abc".into()));
}

#[test]
fn parse_simple_add() {
    let expr = parse_expr("a + b").unwrap();
    assert_eq!(expr, Expr::Binary { op: BinOp::Add, left: var("a"), right: var("b") });
}

#[test]
fn parse_precedence_mul_over_add() {
    let expr = parse_expr("a + b * c").unwrap();
    assert_eq!(
        expr,
        Expr::Binary {
            op: BinOp::Add,
            left: var("a"),
            right: Box::new(Expr::Binary { op: BinOp::Mul, left: var("b"), right: var("c") }),
        }
    );
}

#[test]
fn parse_parentheses() {
    let expr = parse_expr("(a + b) * c").unwrap();
    assert_eq!(
        expr,
        Expr::Binary {
            op: BinOp::Mul,
            left: Box::new(Expr::Binary { op: BinOp::Add, left: var("a"), right: var("b") }),
            right: var("c"),
        }
    );
}

#[test]
fn parse_unary_neg() {
    let expr = parse_expr("-a").unwrap();
    assert_eq!(expr, Expr::Unary { op: UnaryOp::Neg, operand: var("a") });
}

#[test]
fn parse_unary_not() {
    let expr = parse_expr("!flag").unwrap();
    assert_eq!(expr, Expr::Unary { op: UnaryOp::Not, operand: var("flag") });
}

#[test]
fn parse_unary_bitnot() {
    let expr = parse_expr("~mask").unwrap();
    assert_eq!(expr, Expr::Unary { op: UnaryOp::BitNot, operand: var("mask") });
}

#[test]
fn parse_logic_and_comparison() {
    let expr = parse_expr("(x == 1) && (y != 0)").unwrap();
    assert_eq!(
        expr,
        Expr::Binary {
            op: BinOp::And,
            left: Box::new(Expr::Binary {
                op: BinOp::Eq,
                left: var("x"),
                right: Box::new(Expr::Literal(Literal::Int(1))),
            }),
            right: Box::new(Expr::Binary {
                op: BinOp::NotEq,
                left: var("y"),
                right: Box::new(Expr::Literal(Literal::Int(0))),
            }),
        }
    );
}

#[test]
fn parse_bitwise_and_shift() {
    let expr = parse_expr("a & 255").unwrap();
    assert_eq!(
        expr,
        Expr::Binary { op: BinOp::BitAnd, left: var("a"), right: Box::new(Expr::Literal(Literal::Int(255))) }
    );
}

#[test]
fn parse_left_associativity() {
    let expr = parse_expr("a - b - c").unwrap();
    assert_eq!(
        expr,
        Expr::Binary {
            op: BinOp::Sub,
            left: Box::new(Expr::Binary { op: BinOp::Sub, left: var("a"), right: var("b") }),
            right: var("c"),
        }
    );
}

#[test]
fn parse_complex_kks_expression() {
    let expr = parse_expr("9CYE91GH201_SL1 * 1000").unwrap();
    assert_eq!(
        expr,
        Expr::Binary {
            op: BinOp::Mul,
            left: var("9CYE91GH201_SL1"),
            right: Box::new(Expr::Literal(Literal::Int(1000))),
        }
    );
}

#[test]
fn parse_unmatched_paren() {
    assert!(parse_expr("(a + b").is_err());
}

#[test]
fn parse_empty() {
    assert!(parse_expr("").is_err());
}

#[test]
fn extract_variables_complex() {
    let expr = parse_expr("(a + b) * c - a").unwrap();
    let vars = extract_variables(&expr);
    assert_eq!(vars, vec!["a", "b", "c"]);
}

#[test]
fn parse_or_precedence() {
    let expr = parse_expr("a || b && c").unwrap();
    assert_eq!(
        expr,
        Expr::Binary {
            op: BinOp::Or,
            left: var("a"),
            right: Box::new(Expr::Binary { op: BinOp::And, left: var("b"), right: var("c") }),
        }
    );
}

#[test]
fn parse_neg_literal() {
    let expr = parse_expr("-42").unwrap();
    assert_eq!(
        expr,
        Expr::Unary { op: UnaryOp::Neg, operand: Box::new(Expr::Literal(Literal::Int(42))) }
    );
}

#[test]
fn parse_nested_unary() {
    let expr = parse_expr("!!a").unwrap();
    assert_eq!(
        expr,
        Expr::Unary {
            op: UnaryOp::Not,
            operand: Box::new(Expr::Unary { op: UnaryOp::Not, operand: var("a") }),
        }
    );
}

#[test]
fn parse_if_and_boolean_literals() {
    let expr = parse_expr("IF(ready == TRUE, sl3, 4.5)").unwrap();
    assert_eq!(
        expr,
        Expr::If {
            condition: Box::new(Expr::Binary {
                op: BinOp::Eq,
                left: var("ready"),
                right: Box::new(Expr::Literal(Literal::Bool(true))),
            }),
            then_branch: var("sl3"),
            else_branch: Box::new(Expr::Literal(Literal::Float("4.5".into()))),
        }
    );
    assert_eq!(parse_expr("false").unwrap(), Expr::Literal(Literal::Bool(false)));
    let vars = extract_variables(&parse_expr("IF(9CYE91GH201_READY == 1, 9CYE91GH201_SL3, 4.5)").unwrap());
    assert_eq!(vars, vec!["9CYE91GH201_READY", "9CYE91GH201_SL3"]);
}

#[test]
fn parse_error_messages() {
    assert_eq!(parse_expr("(a + b").unwrap_err(), "缺少右括号 ')'");
    assert_eq!(parse_expr("").unwrap_err(), "期望表达式，但遇到 Eof");
    assert_eq!(parse_expr("IF(a b, c)").unwrap_err(), "IF 的参数之间缺少 ','");
    assert_eq!(parse_expr("a b").unwrap_err(), "解析完成后仍有多余的 Token: Ident(b)");
    assert_eq!(parse_expr("* 2").unwrap_err(), "期望表达式，但遇到 Star");
}

// ---- exact evaluation ----

#[test]
fn eval_core_integer_arithmetic() {
    assert_eq!(int_binary(BinOp::Add, 3, 4).unwrap(), 7);
    assert_eq!(int_binary(BinOp::Sub, 10, 3).unwrap(), 7);
    assert_eq!(int_binary(BinOp::Mul, 3, 4).unwrap(), 12);
    assert_eq!(int_binary(BinOp::Mod, 10, 3).unwrap(), 1);
    assert_eq!(int_binary(BinOp::Mod, -7, 3).unwrap(), -1);
    assert_eq!(int_binary(BinOp::Mod, 7, -3).unwrap(), 1);
    assert_eq!(int_binary(BinOp::Mod, i64::MIN, 3).unwrap(), i64::MIN % 3);
    assert_eq!(int_binary(BinOp::BitAnd, 12, 10).unwrap(), 8);
    assert_eq!(int_binary(BinOp::BitOr, 12, 10).unwrap(), 14);
    assert_eq!(int_binary(BinOp::BitXor, 12, 10).unwrap(), 6);
    assert_eq!(int_binary(BinOp::ShiftLeft, 1, 4).unwrap(), 16);
    assert_eq!(int_binary(BinOp::ShiftRight, 16, 2).unwrap(), 4);
    assert_eq!(int_binary(BinOp::ShiftLeft, 1, 100).unwrap(), 1i64 << 63);
    assert_eq!(int_unary(UnaryOp::Neg, 5).unwrap(), -5);
    assert_eq!(int_unary(UnaryOp::BitNot, 0).unwrap(), -1);
}

#[test]
fn eval_core_errors() {
    match int_binary(BinOp::Add, i64::MAX, 1) {
        Err(EvalError::TypeError(m)) => assert_eq!(m, "整数加法溢出"),
        other => panic!("{:?}", other),
    }
    match int_binary(BinOp::Sub, i64::MIN, 1) {
        Err(EvalError::TypeError(m)) => assert_eq!(m, "整数减法溢出"),
        other => panic!("{:?}", other),
    }
    match int_binary(BinOp::Mul, i64::MAX, 2) {
        Err(EvalError::TypeError(m)) => assert_eq!(m, "整数乘法溢出"),
        other => panic!("{:?}", other),
    }
    assert!(matches!(int_binary(BinOp::Mod, 10, 0), Err(EvalError::DivisionByZero)));
    match int_unary(UnaryOp::Neg, i64::MIN) {
        Err(EvalError::TypeError(m)) => assert_eq!(m, "整数取反溢出"),
        other => panic!("{:?}", other),
    }
    match checked_shift(-3) {
        Err(e) => assert_eq!(e.message(), "类型错误: 移位位数 -3 不能为负数"),
        Ok(s) => panic!("{}", s),
    }
    assert_eq!(checked_shift(5).unwrap(), 5);
    assert_eq!(checked_shift(64).unwrap(), 63);
    assert_eq!(checked_shift(0x1_0000_0002).unwrap(), 2);
    assert_eq!(EvalError::MissingVariable("x".into()).message(), "变量 'x' 缺失");
    assert_eq!(EvalError::DivisionByZero.message(), "除以零");
}

#[test]
fn eval_core_exact_values() {
    assert!(exact_eq(&ExactValue::Bool(true), &ExactValue::Int(1)));
    assert!(!exact_eq(&ExactValue::Bool(true), &ExactValue::Int(2)));
    assert!(exact_eq(&ExactValue::Bool(false), &ExactValue::Bool(false)));
    assert!(!exact_eq(&ExactValue::Int(9007199254740993), &ExactValue::Int(9007199254740992)));
    assert!(ExactValue::Int(-2).as_bool());
    assert!(!ExactValue::Int(0).as_bool());
    assert_eq!(ExactValue::Bool(true).as_int(), 1);
}

// ---- rule planning ----

fn compile(kks: &str, expr: &str) -> (String, Vec<String>) {
    let (_, vars) = compile_formula(kks, expr).unwrap();
    (kks.to_string(), vars)
}

fn order_of(rules: &[(&str, &str)]) -> Vec<String> {
    let compiled: Vec<(String, Vec<String>)> = rules.iter().map(|(k, e)| compile(k, e)).collect();
    let names: Vec<String> = compiled.iter().map(|(k, _)| k.clone()).collect();
    let vars: Vec<Vec<String>> = compiled.iter().map(|(_, v)| v.clone()).collect();
    evaluation_order(&names, &vars).into_iter().map(|i| names[i].clone()).collect()
}

#[test]
fn plan_dependency_order() {
    assert_eq!(order_of(&[("A", "B + 10"), ("B", "a * 2")]), vec!["B", "A"]);
    assert_eq!(order_of(&[("A", "B * 2"), ("B", "C + 1"), ("C", "base * 3")]), vec!["C", "B", "A"]);
    assert_eq!(order_of(&[("A", "x"), ("B", "A + 1"), ("C", "y")]), vec!["A", "C", "B"]);
}

#[test]
fn plan_cycles_are_left_out() {
    assert!(order_of(&[("A", "B + 1"), ("B", "A + 1")]).is_empty());
    assert_eq!(order_of(&[("A", "x + 1"), ("B", "C + 1"), ("C", "B + 1")]), vec!["A"]);
    let compiled: Vec<(String, Vec<String>)> = vec![compile("D", "B+C"), compile("A", "B+C"), compile("B", "C+D")];
    let mut names: Vec<String> = compiled.iter().map(|(k, _)| k.clone()).collect();
    let mut vars: Vec<Vec<String>> = compiled.iter().map(|(_, v)| v.clone()).collect();
    // "C = B + C" reads itself and is refused at compile time.
    assert!(compile_formula("C", "B+C").is_err());
    names.push("X".into());
    vars.push(vec!["q".into()]);
    let order = evaluation_order(&names, &vars);
    assert_eq!(order, vec![3]);
}

#[test]
fn plan_only_rules_reaching_a_cycle_are_left_out() {
    let names: Vec<String> = vec!["A".into(), "B".into(), "C".into(), "D".into(), "E".into()];
    let vars: Vec<Vec<String>> =
        vec![vec!["B".into(), "D".into()], vec!["A".into()], vec!["A".into()], vec![], vec!["D".into()]];
    assert_eq!(evaluation_order(&names, &vars), vec![3, 4]);
}

#[test]
fn plan_shared_name_ties_to_last_rule() {
    let names: Vec<String> = vec!["A".into(), "C".into(), "A".into()];
    let vars: Vec<Vec<String>> = vec![vec!["C".into()], vec!["A".into()], vec![]];
    assert_eq!(evaluation_order(&names, &vars), vec![2, 1, 0]);
}

#[test]
fn plan_breadth_first_ties_by_index() {
    let names: Vec<String> = vec!["P".into(), "Q".into(), "R".into(), "S".into()];
    let vars: Vec<Vec<String>> = vec![vec!["S".into()], vec![], vec!["Q".into()], vec![]];
    assert_eq!(evaluation_order(&names, &vars), vec![1, 3, 2, 0]);
}

#[test]
fn plan_keeps_first_compiled_rule_per_name() {
    let names: Vec<String> = vec!["A".into(), "B".into(), "A".into(), "C".into(), "B".into()];
    assert_eq!(kept_rules(&names, &vec![false, true, true, true, true]), vec![1, 2, 3]);
    assert_eq!(kept_rules(&names, &vec![true; 5]), vec![0, 1, 3]);
    assert_eq!(kept_rules(&names, &vec![false; 5]), Vec::<usize>::new());
}

#[test]
fn plan_compile_errors() {
    assert_eq!(
        compile_formula("C", "B + C").unwrap_err(),
        "公式自引用: C 的表达式 \"B + C\" 中引用了自身"
    );
    assert_eq!(compile_formula("bad", "a = b").unwrap_err(), "位置 2 处出现单独的 '='，请使用 '=='");
    assert_eq!(compile_formula("bad", "(a").unwrap_err(), "缺少右括号 ')'");
    let (_, vars) = compile_formula("out", "b + a * b").unwrap();
    assert_eq!(vars, vec!["a", "b"]);
}

#[test]
fn plan_required_base_variables() {
    let names = vec!["B".to_string(), "A".to_string()];
    let vars = vec![vec!["a".to_string()], vec!["B".to_string(), "c".to_string()]];
    assert_eq!(base_variables(&names, &vars), vec!["a", "c"]);
}

#[test]
fn data_type_names() {
    assert_eq!(normalize_data_type("uint"), Some(CalcDataType::UInt));
    assert_eq!(normalize_data_type("U32"), Some(CalcDataType::UInt));
    assert_eq!(normalize_data_type("uint32"), Some(CalcDataType::UInt));
    assert_eq!(normalize_data_type("boolean"), Some(CalcDataType::Bool));
    assert_eq!(normalize_data_type("f32"), Some(CalcDataType::Float));
    assert_eq!(normalize_data_type("f64"), Some(CalcDataType::Double));
    assert_eq!(normalize_data_type("int"), None);
    for t in [CalcDataType::UInt, CalcDataType::Bool, CalcDataType::Float, CalcDataType::Double] {
        assert_eq!(normalize_data_type(t.as_str()), Some(t));
    }
}

#[test]
fn formula_variables_missing_from_devices() {
    let required: Vec<String> = vec!["a".into(), "b".into(), "c".into()];
    let known: Vec<String> = vec!["c".into(), "x".into(), "a".into()];
    assert_eq!(undefined_variables(&required, &known), vec!["b".to_string()]);
    assert!(undefined_variables(&required, &required).is_empty());
}
