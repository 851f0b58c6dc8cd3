use coolc::lexer::lex_tokens;
use coolc::parser::{attribute, class, parens_expression, parse_program};
use coolc::ptree::ExpressionData::{BoolLiteral, IntLiteral};
use coolc::ptree::FeatureData::Attribute;
use coolc::tokens::{Token, Tokens};

fn tokens(input: &str) -> Vec<Token<'static>> {
    lex_tokens(input, "").unwrap()
}

#[test]
fn test_parse_program() {
    let cases = [
        ("class A {};", vec!["A"]),
        ("Class B{\nc:D;\n};\ncLASS E{};", vec!["B", "E"]),
        ("claSS\t E {\n  fG\t : \nHij ;\n };\nclass K {};", vec!["E", "K"]),
        ("class L{};class M{};class N{};", vec!["L", "M", "N"]),
        ("class\nO\n{\n\n\n}\n;", vec!["O"]),
    ];
    for (input, classes) in cases.iter() {
        assert!(matches!(
            parse_program(&tokens(input)),
            Ok((rest, p)) if rest.input_len() == 0
                && p.classes.iter().map(|c| c.name.as_str()).collect::<Vec<_>>() == *classes,
        ))
    }
}

#[test]
fn test_bad_parse_program() {
    for input in ["class A;", "class A {}", "class A {};;"].iter() {
        assert!(parse_program(&tokens(input)).is_err())
    }
}

#[test]
fn test_class_no_inherit() {
    let cases = [
        ("class A{}", "A"),
        ("Class B{c:D;}; ", "B"),
        ("claSS\t E {\n  fG\t : \nHij ;\n }; ", "E"),
        ("CLASS Klm { n : O ; p : Q ; } ", "Klm"),
        ("class\nR\n{\n\n\n}\n;", "R"),
    ];
    for (input, name) in cases.iter() {
        assert!(matches!(
            class(Tokens::new(&tokens(input))),
            Ok((_, c)) if c.name == *name && c.super_class_name == "Object",
        ))
    }
}

#[test]
fn test_class_inherits() {
    let cases = [
        ("class A inherits A2{}", "A", "A2"),
        ("Class B Inherits B2{c:D;}; ", "B", "B2"),
        (
            "claSS\t E\tinherITS\nE2 {\n  fG\t : \nHij ;\n }; ",
            "E",
            "E2",
        ),
        ("CLASS Klm INHERITS K2 { n : O ; p : Q ; } ", "Klm", "K2"),
        ("cLASS\nR\niNHERITS\nR2\n{\n\n\n}\n;", "R", "R2"),
    ];
    for (input, name, super_class) in cases.iter() {
        assert!(matches!(
            class(Tokens::new(&tokens(input))),
            Ok((_, c)) if c.name == *name && c.super_class_name == *super_class,
        ))
    }
}

#[test]
fn test_bad_class() {
    let cases = [
        "class A",
        "class A;",
        "class A {",
        "class A }",
        "class a {}",
        "class A inherits {}",
        "class A inherits {}",
        "class A inherits a {}",
        "class A inherits a {",
        "class A inherits a }",
        "class A inherits a;",
    ];
    for input in cases.iter() {
        assert!(class(Tokens::new(&tokens(input))).is_err())
    }
}

#[test]
fn test_unitialized_attribute() {
    let cases = [
        ("a:A", "a", "A"),
        ("b : B;", "b", "B"),
        ("c \t :\r\n C {", "c", "C"),
    ];
    for (input, obj_id, type_id) in cases.iter() {
        assert!(matches!(
            attribute(Tokens::new(&tokens(input))),
            Ok((_, attr)) if attr.data == Attribute(
                obj_id.to_string(), type_id.to_string(), None),
        ))
    }
}

#[test]
fn test_initialized_attribute() {
    let cases = [
        ("d:D<-true", "d", "D", true),
        ("e \t: \r  E \n<- \t false\t;", "e", "E", false),
    ];
    for (input, obj_id, type_id, value) in cases.iter() {
        assert!(matches!(
            attribute(Tokens::new(&tokens(input))),
            Ok((_, attr)) if matches!(
                &attr.data,
                Attribute(o, t, Some(e)) if o == *obj_id && t == *type_id
                    && e.data == BoolLiteral(*value),
            )
        ))
    }
}

#[test]
fn test_bad_attribute() {
    for input in ["a::A", "b B", "c<-C", "d.D"].iter() {
        assert!(attribute(Tokens::new(&tokens(input))).is_err())
    }
}

#[test]
fn test_parens_expression() {
    let cases = [
        ("(0)", 0),
        ("( 1);", 1),
        ("(\t 123 \n)\n", 123),
        ("((0))", 0),
        ("(\t(\n( 0\n )\t) );\n", 0),
    ];
    for (input, literal) in cases.iter() {
        assert!(matches!(
            parens_expression(Tokens::new(&tokens(input))),
            Ok((_, e)) if e.data == IntLiteral(*literal),
        ))
    }
}

#[test]
fn test_bad_parens_expression() {
    for input in ["()", ")(", "(()"].iter() {
        assert!(parens_expression(Tokens::new(&tokens(input))).is_err())
    }
}
