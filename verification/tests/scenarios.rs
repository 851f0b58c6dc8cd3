use coolc::lexer::{lex_tokens, ScanErrorKind};
use coolc::parser::{expression, parse_program};
use coolc::ptree::{BinaryOperator, Expression, ExpressionData, FeatureData};
use coolc::tokens::{print_tokens, Token, TokenKind, Tokens};
use coolc::util::escape_str;

fn kinds(tokens: &[Token]) -> Vec<TokenKind> {
    tokens.iter().map(|t| t.kind.clone()).collect()
}

fn number(e: &Expression) -> i32 {
    match &e.data {
        ExpressionData::IntLiteral(i) => *i,
        other => panic!("not an integer literal: {:?}", other),
    }
}

#[test]
fn empty_class_scans_and_parses() {
    let tokens = lex_tokens("class A {};", "a.cl").unwrap();
    assert_eq!(
        kinds(&tokens),
        vec![
            TokenKind::Class,
            TokenKind::TypeId("A".to_string()),
            TokenKind::OpenBraces,
            TokenKind::CloseBraces,
            TokenKind::SemiColon,
        ]
    );
    let (rest, program) = parse_program(&tokens).unwrap();
    assert_eq!(rest.input_len(), 0);
    assert_eq!(program.classes.len(), 1);
    assert_eq!(program.classes[0].name, "A");
    assert_eq!(program.classes[0].super_class_name, "Object");
    assert!(program.classes[0].features.is_empty());
}

#[test]
fn comments_yield_no_token() {
    let source = "-- c\n(* (* x *) *)class B inherits A2 {\n  b:B;\n};\n";
    let tokens = lex_tokens(source, "f.cl").unwrap();
    assert_eq!(tokens.len(), 11);
    assert_eq!(
        print_tokens(&tokens, "f.cl"),
        "#name \"f.cl\"\n#2 CLASS\n#2 TYPEID B\n#2 INHERITS\n#2 TYPEID A2\n#2 '{'\n\
         #3 OBJECTID b\n#3 ':'\n#3 TYPEID B\n#3 ';'\n#4 '}'\n#4 ';'\n"
    );
    let (_, program) = parse_program(&tokens).unwrap();
    assert_eq!(program.classes.len(), 1);
    let class = &program.classes[0];
    assert_eq!(class.name, "B");
    assert_eq!(class.super_class_name, "A2");
    assert_eq!(class.features.len(), 1);
    assert_eq!(
        class.features[0].data,
        FeatureData::Attribute("b".to_string(), "B".to_string(), None)
    );
    assert_eq!(class.location.line, 2);
    assert_eq!(class.features[0].location.line, 3);
}

#[test]
fn string_escape_is_decoded_and_spelled_again() {
    let tokens = lex_tokens("\"a\\tb\"", "").unwrap();
    assert_eq!(kinds(&tokens), vec![TokenKind::StrLiteral("a\tb".to_string())]);
    assert_eq!(tokens[0].to_string(), "#1 STR_CONST \"a\\tb\"");
}

#[test]
fn operators_bind_by_precedence_and_group_left() {
    let tokens = lex_tokens("2 + 3 * 5 - 8 / 4", "").unwrap();
    let (rest, e) = expression(Tokens::new(&tokens)).unwrap();
    assert_eq!(rest.input_len(), 0);
    let ExpressionData::BinaryOperation(BinaryOperator::Subtract, sum, quotient) = &e.data else {
        panic!("not a subtraction: {:?}", e);
    };
    let ExpressionData::BinaryOperation(BinaryOperator::Add, two, product) = &sum.data else {
        panic!("not an addition: {:?}", sum);
    };
    let ExpressionData::BinaryOperation(BinaryOperator::Multiply, three, five) = &product.data
    else {
        panic!("not a multiplication: {:?}", product);
    };
    let ExpressionData::BinaryOperation(BinaryOperator::Divide, eight, four) = &quotient.data
    else {
        panic!("not a division: {:?}", quotient);
    };
    assert_eq!(
        (number(two), number(three), number(five), number(eight), number(four)),
        (2, 3, 5, 8, 4)
    );
    assert_eq!(e.location.column, 11);
    assert_eq!(sum.location.column, 3);
    assert_eq!(product.location.column, 7);
    assert_eq!(quotient.location.column, 15);
}

#[test]
fn chained_dispatches_nest_to_the_left() {
    let tokens = lex_tokens("a.b(1).c()@T.d(2,3)", "").unwrap();
    let (rest, e) = expression(Tokens::new(&tokens)).unwrap();
    assert_eq!(rest.input_len(), 0);
    let ExpressionData::MethodCall(second, static_type, name, args) = &e.data else {
        panic!("not a dispatch: {:?}", e);
    };
    assert_eq!(static_type, &Some("T".to_string()));
    assert_eq!(name, "d");
    assert_eq!(args.iter().map(number).collect::<Vec<_>>(), vec![2, 3]);
    let ExpressionData::MethodCall(first, static_type, name, args) = &second.data else {
        panic!("not a dispatch: {:?}", second);
    };
    assert_eq!(static_type, &None);
    assert_eq!(name, "c");
    assert!(args.is_empty());
    let ExpressionData::MethodCall(receiver, static_type, name, args) = &first.data else {
        panic!("not a dispatch: {:?}", first);
    };
    assert_eq!(static_type, &None);
    assert_eq!(name, "b");
    assert_eq!(args.iter().map(number).collect::<Vec<_>>(), vec![1]);
    assert_eq!(receiver.data, ExpressionData::Object("a".to_string()));
    assert_eq!(first.location.column, 2);
    assert_eq!(second.location.column, 7);
    assert_eq!(e.location.column, 13);
}

#[test]
fn a_method_name_without_arguments_ends_the_chain() {
    let tokens = lex_tokens("a.b(1).c@T.d(2,3)", "").unwrap();
    let (rest, e) = expression(Tokens::new(&tokens)).unwrap();
    assert_eq!(rest.input_len(), 11);
    assert_eq!(rest.first().unwrap().kind, TokenKind::Dot);
    let ExpressionData::MethodCall(receiver, None, name, _) = &e.data else {
        panic!("not a dispatch: {:?}", e);
    };
    assert_eq!(name, "b");
    assert_eq!(receiver.data, ExpressionData::Object("a".to_string()));
}

#[test]
fn a_call_without_receiver_is_sent_to_self() {
    let tokens = lex_tokens("\n  f(x).g()", "").unwrap();
    let (_, e) = expression(Tokens::new(&tokens)).unwrap();
    let ExpressionData::MethodCall(first, None, name, _) = &e.data else {
        panic!("not a dispatch: {:?}", e);
    };
    assert_eq!(name, "g");
    let ExpressionData::MethodCall(receiver, None, name, args) = &first.data else {
        panic!("not a dispatch: {:?}", first);
    };
    assert_eq!(name, "f");
    assert_eq!(args.len(), 1);
    assert_eq!(receiver.data, ExpressionData::Object("self".to_string()));
    assert_eq!((receiver.location.line, receiver.location.column), (2, 3));
    assert_eq!((first.location.line, first.location.column), (2, 3));
    assert_eq!(e.location.column, 7);
}

#[test]
fn let_bindings_nest_to_the_right() {
    let tokens = lex_tokens("let x:Int, y:Int<-1 in x", "").unwrap();
    let (rest, e) = expression(Tokens::new(&tokens)).unwrap();
    assert_eq!(rest.input_len(), 0);
    let ExpressionData::Let(name, type_id, init, inner) = &e.data else {
        panic!("not a let: {:?}", e);
    };
    assert_eq!((name.as_str(), type_id.as_str()), ("x", "Int"));
    assert!(init.is_none());
    assert_eq!(e.location.column, 5);
    let ExpressionData::Let(name, type_id, init, body) = &inner.data else {
        panic!("not a let: {:?}", inner);
    };
    assert_eq!((name.as_str(), type_id.as_str()), ("y", "Int"));
    assert_eq!(number((**init).as_ref().unwrap()), 1);
    assert_eq!(inner.location.column, 12);
    assert_eq!(body.data, ExpressionData::Object("x".to_string()));
}

#[test]
fn lowercase_class_name_is_a_parse_error_at_the_name() {
    let tokens = lex_tokens("class a {};", "low.cl").unwrap();
    let error = parse_program(&tokens).unwrap_err();
    assert_eq!(error.at, 1);
    let location = error.location.unwrap();
    assert_eq!(
        (location.line, location.column, location.offset, location.extra),
        (1, 7, 6, "low.cl")
    );
}

#[test]
fn parse_error_behind_the_last_token_has_no_place() {
    let tokens = lex_tokens("class A {", "").unwrap();
    let error = parse_program(&tokens).unwrap_err();
    assert_eq!(error.at, 3);
    assert_eq!(error.location, None);
}

#[test]
fn parse_error_points_at_the_feature_that_does_not_fit() {
    let tokens = lex_tokens("class A { x : Int <- ; };", "").unwrap();
    let error = parse_program(&tokens).unwrap_err();
    assert_eq!(error.at, 3);
    assert_eq!(error.location.unwrap().column, 11);
}

#[test]
fn integer_literals_end_at_the_largest_i32() {
    let tokens = lex_tokens("2147483647", "").unwrap();
    assert_eq!(kinds(&tokens), vec![TokenKind::IntLiteral(2147483647)]);
    let tokens = lex_tokens("000000000000000000002147483647", "").unwrap();
    assert_eq!(kinds(&tokens), vec![TokenKind::IntLiteral(2147483647)]);
    let error = lex_tokens("x <- 2147483648", "").unwrap_err();
    assert_eq!(error.kind, ScanErrorKind::IntegerOverflow);
    assert_eq!(error.location.offset, 5);
    let error = lex_tokens("99999999999999999999999999999999", "").unwrap_err();
    assert_eq!(error.kind, ScanErrorKind::IntegerOverflow);
}

#[test]
fn a_minus_sign_is_a_token_of_its_own() {
    let tokens = lex_tokens("-1", "").unwrap();
    assert_eq!(
        kinds(&tokens),
        vec![TokenKind::Subtract, TokenKind::IntLiteral(1)]
    );
}

#[test]
fn unterminated_block_comment_is_a_scan_error() {
    let error = lex_tokens("(* (* *)", "").unwrap_err();
    assert_eq!(error.kind, ScanErrorKind::UnterminatedComment);
    assert_eq!(error.location.offset, 0);
    let error = lex_tokens("class A\n  (* never closed", "c.cl").unwrap_err();
    assert_eq!(error.kind, ScanErrorKind::UnterminatedComment);
    assert_eq!(
        (error.location.line, error.location.column, error.location.offset, error.location.extra),
        (2, 3, 10, "c.cl")
    );
}

#[test]
fn unterminated_string_is_a_scan_error() {
    let error = lex_tokens("x <- \"abc", "").unwrap_err();
    assert_eq!(error.kind, ScanErrorKind::UnterminatedString);
    assert_eq!(error.location.offset, 5);
    let error = lex_tokens("\"abc\\", "").unwrap_err();
    assert_eq!(error.kind, ScanErrorKind::UnterminatedString);
}

#[test]
fn a_character_that_begins_no_token_is_a_scan_error() {
    for source in ["#", "_a", "a ! b", "[", "£"] {
        let error = lex_tokens(source, "").unwrap_err();
        assert_eq!(error.kind, ScanErrorKind::UnexpectedCharacter, "{source}");
    }
    let error = lex_tokens("a\n  ?", "").unwrap_err();
    assert_eq!(
        (error.location.line, error.location.column, error.location.offset),
        (2, 3, 4)
    );
}

#[test]
fn booleans_begin_with_a_small_letter_and_end_with_the_word() {
    let tokens = lex_tokens("trueness tRuE True fALSE falsehood", "").unwrap();
    assert_eq!(
        kinds(&tokens),
        vec![
            TokenKind::Ident("trueness".to_string()),
            TokenKind::BoolLiteral(true),
            TokenKind::TypeId("True".to_string()),
            TokenKind::BoolLiteral(false),
            TokenKind::Ident("falsehood".to_string()),
        ]
    );
}

#[test]
fn reserved_words_are_whole_words() {
    let tokens = lex_tokens("classroom If2 CLASS if", "").unwrap();
    assert_eq!(
        kinds(&tokens),
        vec![
            TokenKind::Ident("classroom".to_string()),
            TokenKind::TypeId("If2".to_string()),
            TokenKind::Class,
            TokenKind::If,
        ]
    );
}

#[test]
fn two_character_symbols_win() {
    let tokens = lex_tokens("<=<-=><=", "").unwrap();
    assert_eq!(
        kinds(&tokens),
        vec![
            TokenKind::LessThanOrEquals,
            TokenKind::Assign,
            TokenKind::DoubleArrow,
            TokenKind::LessThanOrEquals,
        ]
    );
    let tokens = lex_tokens("< - = >", "");
    assert!(tokens.is_err());
    let tokens = lex_tokens("< = -", "").unwrap();
    assert_eq!(
        kinds(&tokens),
        vec![TokenKind::LessThan, TokenKind::Equals, TokenKind::Subtract]
    );
}

#[test]
fn a_line_comment_runs_to_the_line_feed() {
    let tokens = lex_tokens("-- a\rb\nc -- d", "").unwrap();
    assert_eq!(kinds(&tokens), vec![TokenKind::Ident("c".to_string())]);
    assert_eq!(tokens[0].location.line, 2);
}

#[test]
fn places_count_lines_and_bytes() {
    let tokens = lex_tokens("\"é\" x\n\n\ty", "p.cl").unwrap();
    let places: Vec<(usize, usize, usize)> = tokens
        .iter()
        .map(|t| (t.location.line, t.location.column, t.location.offset))
        .collect();
    assert_eq!(places, vec![(1, 1, 0), (1, 6, 5), (3, 2, 9)]);
    assert!(tokens.iter().all(|t| t.location.extra == "p.cl"));
    assert_eq!(tokens[2].location.location_line(), 3);
    assert_eq!(tokens[2].location.get_column(), 2);
    assert_eq!(tokens[2].location.location_offset(), 9);
}

#[test]
fn tokens_and_discarded_input_take_up_the_source() {
    let source = " class(* c *)A{x:Int<-12;};--end";
    let chars: Vec<char> = source.chars().collect();
    let tokens = lex_tokens(source, "").unwrap();
    let mut position = 0;
    for token in tokens.iter() {
        position = coolc::lexer::skip_discarded(&chars, position);
        assert_eq!(position, token.location.offset);
        let (kind, end) = coolc::lexer::token(&chars, position).unwrap();
        assert_eq!(kind, token.kind);
        assert!(end > position);
        position = end;
    }
    assert_eq!(coolc::lexer::skip_discarded(&chars, position), chars.len());
}

#[test]
fn the_file_label_marks_places_only() {
    let source = "class A { f() : Int { 1 + 2 }; };";
    let first = lex_tokens(source, "one.cl").unwrap();
    let second = lex_tokens(source, "two.cl").unwrap();
    assert_eq!(kinds(&first), kinds(&second));
    assert!(parse_program(&first).is_ok());
    assert!(parse_program(&second).is_ok());
    assert_eq!(print_tokens(&first, "one.cl"), print_tokens(&lex_tokens(source, "one.cl").unwrap(), "one.cl"));
    let dump = coolc::ptree::format::print_program(&parse_program(&first).unwrap().1);
    let other = coolc::ptree::format::print_program(&parse_program(&second).unwrap().1);
    assert!(dump.contains("\"one.cl\""));
    assert_eq!(dump.replace("\"one.cl\"", "\"two.cl\""), other);
    for (x, y) in first.iter().zip(second.iter()) {
        assert_eq!(
            (x.location.line, x.location.column, x.location.offset),
            (y.location.line, y.location.column, y.location.offset)
        );
        assert_eq!((x.location.extra, y.location.extra), ("one.cl", "two.cl"));
    }
    let broken = "class A { f() : Int { 1 + }; };";
    assert_eq!(
        parse_program(&lex_tokens(broken, "one.cl").unwrap()).unwrap_err().at,
        parse_program(&lex_tokens(broken, "two.cl").unwrap()).unwrap_err().at
    );
}

#[test]
fn every_node_stands_on_a_line_of_the_source() {
    let source = "class A {\n  f(x : Int) : Int {\n    if x < 1 then\n      x\n    else\n      f(x - 1)\n    fi\n  };\n};\n";
    let tokens = lex_tokens(source, "").unwrap();
    let (_, program) = parse_program(&tokens).unwrap();
    let lines = source.lines().count();
    fn check(e: &Expression, lines: usize) {
        assert!(1 <= e.location.line && e.location.line <= lines);
        match &e.data {
            ExpressionData::Conditional(a, b, c) => {
                check(a, lines);
                check(b, lines);
                check(c, lines);
            }
            ExpressionData::BinaryOperation(_, a, b) => {
                check(a, lines);
                check(b, lines);
            }
            ExpressionData::MethodCall(a, _, _, args) => {
                check(a, lines);
                args.iter().for_each(|x| check(x, lines));
            }
            _ => {}
        }
    }
    let class = &program.classes[0];
    assert_eq!(class.location.line, 1);
    let FeatureData::Method(_, _, formals, body) = &class.features[0].data else {
        panic!("not a method");
    };
    assert_eq!(formals[0].location.line, 2);
    assert_eq!(body.location.line, 3);
    check(body, lines);
}

#[test]
fn a_dumped_string_scans_back_to_its_value() {
    let value = "a\\b\nc\td\u{8}e\u{c}f g";
    let spelled = format!("\"{}\"", escape_str(value));
    assert_eq!(spelled, "\"a\\\\b\\nc\\td\\be\\ff g\"");
    let tokens = lex_tokens(&spelled, "").unwrap();
    assert_eq!(kinds(&tokens), vec![TokenKind::StrLiteral(value.to_string())]);
    assert_eq!(
        tokens[0].kind.to_string(),
        format!("STR_CONST {}", spelled)
    );
}

#[test]
fn a_double_quote_in_a_value_is_dumped_as_it_is() {
    let tokens = lex_tokens("\"a\\\"b\"", "").unwrap();
    assert_eq!(kinds(&tokens), vec![TokenKind::StrLiteral("a\"b".to_string())]);
    assert_eq!(tokens[0].kind.to_string(), "STR_CONST \"a\"b\"");
}

#[test]
fn escapes_are_spelled_with_a_backslash() {
    assert_eq!(escape_str(""), "");
    assert_eq!(escape_str("plain"), "plain");
    assert_eq!(escape_str("\\"), "\\\\");
    assert_eq!(escape_str("\n\t\u{8}\u{c}"), "\\n\\t\\b\\f");
    assert_eq!(escape_str("\r\u{0}é\""), "\r\u{0}é\"");
}

#[test]
fn token_windows_move_and_shrink() {
    let tokens = lex_tokens("a b c d e", "").unwrap();
    let all = Tokens::new(&tokens);
    assert_eq!(all.input_len(), 5);
    assert_eq!(all.offset(), 0);
    assert_eq!(all.first().unwrap().kind, TokenKind::Ident("a".to_string()));
    let next = all.advance();
    assert_eq!((next.offset(), next.input_len()), (1, 4));
    let head = next.take(2);
    assert_eq!((head.offset(), head.input_len()), (1, 2));
    let (suffix, prefix) = next.take_split(3);
    assert_eq!((suffix.offset(), suffix.input_len()), (4, 1));
    assert_eq!((prefix.offset(), prefix.input_len()), (1, 3));
    assert_eq!(suffix.first().unwrap().kind, TokenKind::Ident("e".to_string()));
    let middle = all.slice(1, 3);
    assert_eq!((middle.offset(), middle.input_len()), (1, 2));
    assert_eq!(middle.first().unwrap().kind, TokenKind::Ident("b".to_string()));
    assert_eq!(middle.advance().advance().first(), None);
    assert_eq!(middle.slice_index(2), Some(2));
    assert_eq!(middle.slice_index(3), None);
}

#[test]
fn kinds_compare_with_their_values() {
    assert!(TokenKind::Class.is(&TokenKind::Class));
    assert!(!TokenKind::Class.is(&TokenKind::Case));
    assert!(TokenKind::IntLiteral(3).is(&TokenKind::IntLiteral(3)));
    assert!(!TokenKind::IntLiteral(3).is(&TokenKind::IntLiteral(4)));
    assert!(TokenKind::Ident("a".to_string()).is(&TokenKind::Ident("a".to_string())));
    assert!(!TokenKind::Ident("a".to_string()).is(&TokenKind::TypeId("a".to_string())));
    assert!(!TokenKind::StrLiteral("a".to_string()).is(&TokenKind::StrLiteral("b".to_string())));
    assert!(TokenKind::BoolLiteral(true).is(&TokenKind::BoolLiteral(true)));
    assert_eq!(TokenKind::Class.tag(), 0);
    assert_eq!(TokenKind::LessThan.tag(), 35);
    assert_eq!(TokenKind::Ident(String::new()).tag(), 40);
}

fn shape(e: &Expression) -> String {
    match &e.data {
        ExpressionData::Assign(name, value) => format!("({} <- {})", name, shape(value)),
        ExpressionData::UnaryOperation(op, operand) => format!("({:?} {})", op, shape(operand)),
        ExpressionData::BinaryOperation(op, left, right) => {
            format!("({:?} {} {})", op, shape(left), shape(right))
        }
        ExpressionData::MethodCall(receiver, static_type, name, args) => format!(
            "{}{}.{}({})",
            shape(receiver),
            match static_type {
                Some(t) => format!("@{}", t),
                None => String::new(),
            },
            name,
            args.iter().map(shape).collect::<Vec<_>>().join(", ")
        ),
        ExpressionData::Conditional(a, b, c) => {
            format!("(if {} {} {})", shape(a), shape(b), shape(c))
        }
        ExpressionData::Loop(a, b) => format!("(while {} {})", shape(a), shape(b)),
        ExpressionData::Case(subject, branches) => format!(
            "(case {} {})",
            shape(subject),
            branches
                .iter()
                .map(|b| format!("{}:{}=>{}", b.ident, b.type_id, shape(&b.expression)))
                .collect::<Vec<_>>()
                .join(" ")
        ),
        ExpressionData::Block(body) => format!(
            "{{{}}}",
            body.iter().map(shape).collect::<Vec<_>>().join("; ")
        ),
        ExpressionData::Let(name, type_id, init, body) => format!(
            "(let {}:{}{} {})",
            name,
            type_id,
            match &**init {
                Some(e) => format!("<-{}", shape(e)),
                None => String::new(),
            },
            shape(body)
        ),
        ExpressionData::New(type_id) => format!("new {}", type_id),
        ExpressionData::Object(name) => name.clone(),
        ExpressionData::IntLiteral(i) => i.to_string(),
        ExpressionData::StrLiteral(s) => format!("{:?}", s),
        ExpressionData::BoolLiteral(b) => b.to_string(),
    }
}

fn parsed_shape(source: &str) -> (String, usize) {
    let tokens = lex_tokens(source, "").unwrap();
    let (rest, e) = expression(Tokens::new(&tokens)).unwrap();
    (shape(&e), rest.input_len())
}

#[test]
fn prefix_operators_bind_at_their_level() {
    assert_eq!(parsed_shape("not a < b"), ("(Not (LessThan a b))".to_string(), 0));
    assert_eq!(
        parsed_shape("isvoid a * b"),
        ("(Multiply (IsVoid a) b)".to_string(), 0)
    );
    assert_eq!(parsed_shape("~a.f() + 1"), ("(Add (Negative a.f()) 1)".to_string(), 0));
    assert_eq!(parsed_shape("~ 1 * ~ 2"), ("(Multiply (Negative 1) (Negative 2))".to_string(), 0));
    assert_eq!(parsed_shape("1 + not 2"), ("1".to_string(), 3));
    assert_eq!(parsed_shape("not not true"), ("(Not (Not true))".to_string(), 0));
}

#[test]
fn prefix_operators_nest_by_their_level() {
    assert_eq!(parsed_shape("isvoid ~ 1"), ("(IsVoid (Negative 1))".to_string(), 0));
    assert_eq!(parsed_shape("isvoid isvoid a"), ("(IsVoid (IsVoid a))".to_string(), 0));
    assert_eq!(parsed_shape("~ ~ a"), ("(Negative (Negative a))".to_string(), 0));
    assert_eq!(
        parsed_shape("isvoid ~ ~ a.f() * 2"),
        ("(Multiply (IsVoid (Negative (Negative a.f()))) 2)".to_string(), 0)
    );
    assert_eq!(
        parsed_shape("not isvoid ~ x < ~ isvoid y"),
        ("(Not (IsVoid (Negative x)))".to_string(), 4)
    );
    let tokens = lex_tokens("isvoid
 ~
 1", "").unwrap();
    let (rest, e) = coolc::parser::isvoid_oper(Tokens::new(&tokens)).unwrap();
    assert_eq!(rest.input_len(), 0);
    assert_eq!(e.location.line, 1);
    let ExpressionData::UnaryOperation(coolc::ptree::UnaryOperator::IsVoid, inner) = &e.data else {
        panic!("not an isvoid test: {:?}", e);
    };
    assert_eq!(inner.location.line, 2);
    let ExpressionData::UnaryOperation(coolc::ptree::UnaryOperator::Negative, operand) = &inner.data
    else {
        panic!("not a negation: {:?}", inner);
    };
    assert_eq!(number(operand), 1);
    assert!(coolc::parser::negative_oper(Tokens::new(&tokens)).is_err());
    let (rest, e) = coolc::parser::negated(Tokens::new(&tokens).advance()).unwrap();
    assert_eq!((rest.input_len(), shape(&e)), (0, "(Negative 1)".to_string()));
    let program = "class A { f() : Bool { isvoid ~ 1 }; };";
    assert!(parse_program(&lex_tokens(program, "").unwrap()).is_ok());
}

#[test]
fn assignment_groups_to_the_right_and_takes_the_rest() {
    assert_eq!(parsed_shape("a <- b <- 1 + 2"), ("(a <- (b <- (Add 1 2)))".to_string(), 0));
    assert_eq!(parsed_shape("a + b <- 1"), ("(Add a b)".to_string(), 2));
}

#[test]
fn comparisons_fold_to_the_left() {
    assert_eq!(
        parsed_shape("1 < 2 <= 3 = 4"),
        ("(Equals (LessThanOrEquals (LessThan 1 2) 3) 4)".to_string(), 0)
    );
    assert_eq!(
        parsed_shape("1 - 2 - 3 + 4"),
        ("(Add (Subtract (Subtract 1 2) 3) 4)".to_string(), 0)
    );
    assert_eq!(
        parsed_shape("8 / 4 / 2 * 3"),
        ("(Multiply (Divide (Divide 8 4) 2) 3)".to_string(), 0)
    );
}

#[test]
fn an_operator_without_right_operand_is_left_standing() {
    assert_eq!(parsed_shape("1 + "), ("1".to_string(), 1));
    assert_eq!(parsed_shape("f(1, )"), ("f".to_string(), 4));
    assert_eq!(parsed_shape("a.f(1).g"), ("a.f(1)".to_string(), 2));
    assert_eq!(parsed_shape("a@.f()"), ("a".to_string(), 5));
}

#[test]
fn let_reaches_as_far_as_it_can() {
    assert_eq!(
        parsed_shape("1 + let x : Int <- 2 in x + 3"),
        ("(Add 1 (let x:Int<-2 (Add x 3)))".to_string(), 0)
    );
}

#[test]
fn control_forms_nest() {
    assert_eq!(
        parsed_shape("if a then while b loop { c; d; } pool else case e of x : T => new T; esac fi"),
        ("(if a (while b {c; d}) (case e x:T=>new T))".to_string(), 0)
    );
}

#[test]
fn a_long_program_scans_and_parses() {
    let mut source = String::new();
    for i in 0..1500 {
        source.push_str(&format!(
            "class C{i} inherits IO {{\n  a{i} : Int <- {i};\n  f(x : Int, y : Int) : Int {{\n    {{ x <- x + y * {i}; if x < 0 then self.f(x, y) else out_int(x) fi; }}\n  }};\n}};\n"
        ));
    }
    let sum: String = (0..3000).map(|i| format!("{i} + ")).collect::<String>() + "0";
    source.push_str(&format!("class Main {{ main() : Int {{ {sum} }}; }};\n"));
    let tokens = lex_tokens(&source, "long.cl").unwrap();
    let (rest, program) = parse_program(&tokens).unwrap();
    assert_eq!(rest.input_len(), 0);
    assert_eq!(program.classes.len(), 1501);
    assert_eq!(program.classes[1500].location.line, 9001);
    let dump = coolc::ptree::format::print_program(&program);
    assert!(dump.starts_with("#1\n_program\n  #1\n  _class\n    C0\n    IO\n    \"long.cl\"\n"));
    assert_eq!(print_tokens(&tokens, "long.cl").lines().count(), tokens.len() + 1);
}

#[test]
fn phrases_that_do_not_fit_are_parse_errors() {
    for source in [
        "~ isvoid a",
        "isvoid",
        "~",
        "isvoid ~",
        "let x : Int <- in x",
        "let in x",
        "{ }",
        "{ a }",
        "case a of esac",
        "if a then b fi",
        "while a loop b",
        "new t",
        "<- 1",
        "",
    ] {
        let tokens = lex_tokens(source, "").unwrap();
        let error = expression(Tokens::new(&tokens)).unwrap_err();
        assert_eq!(error.at, 0, "{source}");
    }
}

#[test]
fn a_final_line_feed_adds_no_line() {
    for source in ["class A {\n};\n", "class A {\n};", "\nclass A {};\n\n", "class A {};"] {
        let tokens = lex_tokens(source, "").unwrap();
        let lines = source.lines().count();
        assert!(tokens.iter().all(|t| 1 <= t.location.line && t.location.line <= lines));
        let (_, program) = parse_program(&tokens).unwrap();
        let class = &program.classes[0];
        assert!(1 <= class.location.line && class.location.line <= lines);
        assert!(tokens.iter().any(|t| t.location == class.location));
    }
}
