use lisp::evaluator::{
    eval, eval_with_budget, quote_to_value, BuiltinFunction, Environment, EvalError, Value,
    GLOBAL_FRAME,
};
use lisp::lexer::{is_whitespace, tokenize, Token};
use lisp::parser::{ParseError, Parser, SExpr};
use lisp::printer::format_value;
use std::rc::Rc;

fn read(input: &str) -> SExpr {
    Parser::new(tokenize(input).unwrap()).parse().unwrap()
}

fn run(env: &mut Environment, input: &str) -> Result<Value, EvalError> {
    eval(&read(input), env, GLOBAL_FRAME)
}

fn atom(s: &str) -> Value {
    Value::Atom(s.to_string())
}

fn sym(s: &str) -> Token {
    Token::Symbol(s.to_string())
}

#[test]
fn whitespace_matches_std_for_every_char() {
    for u in 0u32..=0x10ffff {
        if let Some(c) = char::from_u32(u) {
            assert_eq!(is_whitespace(c), c.is_whitespace(), "code point {:x}", u);
        }
    }
}

#[test]
fn tokenize_unicode_whitespace_and_symbols() {
    assert_eq!(
        tokenize("(あ\u{3000}い)").unwrap(),
        vec![Token::LParen, sym("あ"), sym("い"), Token::RParen]
    );
}

#[test]
fn tokenize_delimiters_end_symbols() {
    assert_eq!(
        tokenize("A.B'C(D)E").unwrap(),
        vec![
            sym("A"),
            Token::Dot,
            sym("B"),
            Token::Quote,
            sym("C"),
            Token::LParen,
            sym("D"),
            Token::RParen,
            sym("E"),
        ]
    );
}

#[test]
fn parse_leftover_token() {
    let mut p = Parser::new(tokenize("A B").unwrap());
    assert_eq!(p.parse(), Err(ParseError::UnexpectedToken(sym("B"))));
}

#[test]
fn parse_unfinished_forms() {
    for text in ["(A . B", "(A .", "'", "", "("] {
        let mut p = Parser::new(tokenize(text).unwrap());
        assert_eq!(p.parse(), Err(ParseError::UnexpectedEof), "{}", text);
    }
}

#[test]
fn parse_dot_in_second_part() {
    let mut p = Parser::new(tokenize("(A . . B)").unwrap());
    assert_eq!(p.parse(), Err(ParseError::InvalidDottedPair));
}

#[test]
fn parse_dotted_tail_of_list() {
    assert_eq!(
        read("(A B . C)"),
        SExpr::Cons(
            Box::new(SExpr::Atom("A".to_string())),
            Box::new(SExpr::Cons(
                Box::new(SExpr::Atom("B".to_string())),
                Box::new(SExpr::Atom("C".to_string())),
            )),
        )
    );
}

#[test]
fn eval_true_and_nil() {
    let mut env = Environment::new();
    assert_eq!(run(&mut env, "T"), Ok(atom("T")));
    assert_eq!(run(&mut env, "nil"), Ok(Value::Nil));
    assert_eq!(run(&mut env, "()"), Ok(Value::Nil));
}

#[test]
fn eval_builtins_are_bound_in_a_new_environment() {
    let env = Environment::new();
    assert_eq!(env.lookup(GLOBAL_FRAME, "car"), Some(Value::Builtin(BuiltinFunction::Car)));
    assert_eq!(env.lookup(GLOBAL_FRAME, "cons"), Some(Value::Builtin(BuiltinFunction::Cons)));
    assert_eq!(env.lookup(GLOBAL_FRAME, "x"), None);
}

#[test]
fn environment_define_lookup_and_child_frames() {
    let mut env = Environment::new();
    env.define(GLOBAL_FRAME, "x".to_string(), atom("A"));
    assert_eq!(env.lookup(GLOBAL_FRAME, "x"), Some(atom("A")));
    let child = env.with_parent(GLOBAL_FRAME);
    assert_eq!(child, 1);
    assert_eq!(env.lookup(child, "x"), Some(atom("A")));
    env.define(child, "x".to_string(), atom("B"));
    assert_eq!(env.lookup(child, "x"), Some(atom("B")));
    assert_eq!(env.lookup(GLOBAL_FRAME, "x"), Some(atom("A")));
    env.define(GLOBAL_FRAME, "x".to_string(), atom("C"));
    assert_eq!(env.lookup(GLOBAL_FRAME, "x"), Some(atom("C")));
    assert_eq!(env.lookup(child, "x"), Some(atom("B")));
}

#[test]
fn eval_eq_on_nil_and_pairs() {
    let mut env = Environment::new();
    assert_eq!(run(&mut env, "(eq nil nil)"), Ok(atom("T")));
    assert_eq!(run(&mut env, "(eq '(A) '(A))"), Ok(Value::Nil));
    assert_eq!(run(&mut env, "(eq 'A nil)"), Ok(Value::Nil));
    assert_eq!(run(&mut env, "(atom nil)"), Ok(Value::Nil));
}

#[test]
fn car_cdr_of_cons_law() {
    let a = atom("A");
    let b = Value::Cons(Rc::new(atom("B")), Rc::new(Value::Nil));
    let pair = BuiltinFunction::Cons.call(&[a.clone(), b.clone()]).unwrap();
    assert_eq!(BuiltinFunction::Car.call(&[pair.clone()]), Ok(a));
    assert_eq!(BuiltinFunction::Cdr.call(&[pair]), Ok(b));
}

#[test]
fn eval_not_callable() {
    let mut env = Environment::new();
    assert_eq!(run(&mut env, "('A 'B)"), Err(EvalError::NotCallable));
}

#[test]
fn eval_invalid_lambda() {
    let mut env = Environment::new();
    assert_eq!(run(&mut env, "(lambda (x))"), Err(EvalError::InvalidLambda));
    assert_eq!(run(&mut env, "(lambda (x (y)) x)"), Err(EvalError::InvalidLambda));
    assert_eq!(run(&mut env, "(lambda x x)"), Err(EvalError::InvalidArgumentType));
}

#[test]
fn eval_special_form_argument_errors() {
    let mut env = Environment::new();
    assert_eq!(run(&mut env, "(quote A B)"), Err(EvalError::InvalidArgumentCount));
    assert_eq!(run(&mut env, "(quote . A)"), Err(EvalError::InvalidArgumentType));
    assert_eq!(run(&mut env, "(define x)"), Err(EvalError::InvalidArgumentCount));
    assert_eq!(run(&mut env, "(define (x) 'A)"), Err(EvalError::InvalidArgumentType));
    assert_eq!(run(&mut env, "(cond (T . A))"), Err(EvalError::InvalidArgumentType));
    assert_eq!(run(&mut env, "(car . A)"), Err(EvalError::InvalidArgumentType));
}

#[test]
fn eval_cond_edge_cases() {
    let mut env = Environment::new();
    assert_eq!(run(&mut env, "(cond)"), Ok(Value::Nil));
    assert_eq!(run(&mut env, "(cond (nil 'A))"), Ok(Value::Nil));
    assert_eq!(run(&mut env, "(cond () (T 'B))"), Ok(atom("B")));
    assert_eq!(run(&mut env, "(cond ('A))"), Ok(atom("A")));
    assert_eq!(run(&mut env, "(cond (T 'A 'B 'C))"), Ok(atom("C")));
}

#[test]
fn recursive_function_sees_its_own_definition() {
    let mut env = Environment::new();
    run(
        &mut env,
        "(define last (lambda (x) (cond ((atom x) x) (T (last (cdr x))))))",
    )
    .unwrap();
    assert_eq!(run(&mut env, "(last '(A B . C))"), Ok(atom("C")));
}

#[test]
fn closures_keep_their_environment() {
    let mut env = Environment::new();
    run(&mut env, "(define pair-with (lambda (x) (lambda (y) (cons x y))))").unwrap();
    assert_eq!(
        run(&mut env, "((pair-with 'A) 'B)"),
        Ok(Value::Cons(Rc::new(atom("A")), Rc::new(atom("B"))))
    );
}

#[test]
fn define_inside_a_call_stays_local() {
    let mut env = Environment::new();
    assert_eq!(run(&mut env, "((lambda (x) (define y x)) 'A)"), Ok(atom("A")));
    assert_eq!(run(&mut env, "y"), Err(EvalError::UndefinedSymbol("y".to_string())));
}

#[test]
fn definitions_before_a_failure_stay() {
    let mut env = Environment::new();
    assert_eq!(
        run(&mut env, "(cons (define z 'A) (car 'B))"),
        Err(EvalError::InvalidArgumentType)
    );
    assert_eq!(run(&mut env, "z"), Ok(atom("A")));
}

#[test]
fn redefinition_replaces_value() {
    let mut env = Environment::new();
    run(&mut env, "(define x 'A)").unwrap();
    run(&mut env, "(define x 'B)").unwrap();
    assert_eq!(run(&mut env, "x"), Ok(atom("B")));
    assert_eq!(run(&mut env, "(define car cdr)"), Ok(Value::Builtin(BuiltinFunction::Cdr)));
    assert_eq!(run(&mut env, "(car '(A . B))"), Ok(atom("B")));
}

#[test]
fn format_values_in_dotted_notation() {
    let mut env = Environment::new();
    let v = run(&mut env, "(define x ((lambda (x y) (cons x y)) '(A . B) '(C D)))").unwrap();
    assert_eq!(format_value(&v), "((A . B) . (C . (D . nil)))");
    assert_eq!(format_value(&run(&mut env, "car").unwrap()), "<builtin>");
    assert_eq!(format_value(&run(&mut env, "(lambda () x)").unwrap()), "<lambda>");
    assert_eq!(format_value(&Value::Nil), "nil");
}

#[test]
fn quote_law_on_nested_data() {
    let mut env = Environment::new();
    assert_eq!(
        run(&mut env, "'(A (B) . nil)"),
        Ok(Value::Cons(
            Rc::new(atom("A")),
            Rc::new(Value::Cons(
                Rc::new(Value::Cons(Rc::new(atom("B")), Rc::new(Value::Nil))),
                Rc::new(Value::Nil),
            )),
        ))
    );
}

#[test]
fn define_then_read_law() {
    let mut env = Environment::new();
    let v = run(&mut env, "(define k (cons 'A 'B))").unwrap();
    assert_eq!(run(&mut env, "k"), Ok(v));
}


#[test]
fn closures_compare_by_identity() {
    let mut env = Environment::new();
    let f = run(&mut env, "(lambda (x) x)").unwrap();
    let g = run(&mut env, "(lambda (x) x)").unwrap();
    assert_ne!(f, g);
    assert_eq!(f, f.clone());
}

#[test]
fn budget_reports_running_out() {
    let mut env = Environment::new();
    let loop_expr = read("((lambda (f) (f f)) (lambda (f) (f f)))");
    assert_eq!(eval_with_budget(&loop_expr, &mut env, GLOBAL_FRAME, 200), None);
    let ok = read("((lambda (x) (cons x x)) 'A)");
    assert_eq!(eval_with_budget(&ok, &mut env, GLOBAL_FRAME, 1), None);
    assert_eq!(
        eval_with_budget(&ok, &mut env, GLOBAL_FRAME, 3),
        Some(Ok(Value::Cons(Rc::new(atom("A")), Rc::new(atom("A")))))
    );
    assert_eq!(
        eval_with_budget(&read("(car 'A)"), &mut env, GLOBAL_FRAME, 5),
        Some(Err(EvalError::InvalidArgumentType))
    );
}

#[test]
fn quote_to_value_keeps_shape() {
    assert_eq!(
        quote_to_value(&read("(T car . nil)")),
        Value::Cons(
            Rc::new(atom("T")),
            Rc::new(Value::Cons(Rc::new(atom("car")), Rc::new(Value::Nil))),
        )
    );
}

#[test]
fn parser_steps() {
    let mut p = Parser::new(tokenize("'A (B) C").unwrap());
    assert_eq!(p.peek_token(), Some(&Token::Quote));
    assert_eq!(p.parse_expr(), Ok(read("(quote A)")));
    assert_eq!(p.next_token(), Ok(Token::LParen));
    assert_eq!(p.parse_list(), Ok(read("(B)")));
    assert_eq!(p.next_token(), Ok(sym("C")));
    assert_eq!(p.peek_token(), None);
    assert_eq!(p.next_token(), Err(ParseError::UnexpectedEof));
}

#[test]
fn quote_sugar_and_list_sugar_agree() {
    assert_eq!(read("'(A B)"), read("(quote (A B))"));
    assert_eq!(read("(A B C)"), read("(A . (B . (C . nil)))"));
}

#[test]
fn tokenize_texts_joined_by_whitespace() {
    let a = "(A .B";
    let b = "'C)";
    let mut joined = tokenize(a).unwrap();
    joined.extend(tokenize(b).unwrap());
    assert_eq!(tokenize(&format!("{} \t\n{}", a, b)).unwrap(), joined);
}

#[test]
fn evaluation_without_define_keeps_lookups() {
    let mut env = Environment::new();
    run(&mut env, "(define f (lambda (x) (define y x)))").unwrap();
    run(&mut env, "(define y 'Old)").unwrap();
    assert_eq!(run(&mut env, "(f 'New)"), Ok(atom("New")));
    assert_eq!(run(&mut env, "y"), Ok(atom("Old")));
}

#[test]
fn child_and_parent_defines_interleaved() {
    let mut env = Environment::new();
    let child = env.with_parent(GLOBAL_FRAME);
    env.define(GLOBAL_FRAME, "a".to_string(), atom("P1"));
    assert_eq!(env.lookup(child, "a"), Some(atom("P1")));
    env.define(child, "a".to_string(), atom("C1"));
    env.define(GLOBAL_FRAME, "a".to_string(), atom("P2"));
    assert_eq!(env.lookup(child, "a"), Some(atom("C1")));
    assert_eq!(env.lookup(GLOBAL_FRAME, "a"), Some(atom("P2")));
    env.define(child, "b".to_string(), atom("C2"));
    assert_eq!(env.lookup(GLOBAL_FRAME, "b"), None);
}
