use coolc::lexer::lex_tokens;
use coolc::parser::{expression, parse_program};
use coolc::ptree::format::{
    print_program, CaseBranchFormatter, ClassFormatter, ExpressionDataFormatter,
    ExpressionFormatter, FeatureDataFormatter, FeatureFormatter, FormalFormatter, ProgramFormatter,
};
use coolc::ptree::printer::{ClassPrinter, FeaturePrinter, ProgramPrinter};
use coolc::ptree::{Expression, ExpressionData, FeatureData, Program};
use coolc::tokens::{print_tokens, Span, Token, TokenKind, Tokens};

fn lines(all: &[&str]) -> String {
    let mut text = String::new();
    for line in all {
        text.push_str(line);
        text.push('\n');
    }
    text
}

fn dump_of(source: &str) -> String {
    let tokens = lex_tokens(source, "").unwrap();
    let (rest, e) = expression(Tokens::new(&tokens)).unwrap();
    assert_eq!(rest.input_len(), 0);
    ExpressionFormatter::new(&e, 0).to_string()
}

#[test]
fn token_dump_spells_every_kind() {
    let source = "class inherits if then else fi let in while loop pool case of esac new isvoid not\n\
                  @ <- => { } ( ) . , : ; = + - * / ~ <= <\n\
                  42 \"s\\n\" true false Foo bar";
    let tokens = lex_tokens(source, "all.cl").unwrap();
    let expected = lines(&[
        "#name \"all.cl\"",
        "#1 CLASS",
        "#1 INHERITS",
        "#1 IF",
        "#1 THEN",
        "#1 ELSE",
        "#1 FI",
        "#1 LET",
        "#1 IN",
        "#1 WHILE",
        "#1 LOOP",
        "#1 POOL",
        "#1 CASE",
        "#1 OF",
        "#1 ESAC",
        "#1 NEW",
        "#1 ISVOID",
        "#1 NOT",
        "#2 '@'",
        "#2 ASSIGN",
        "#2 DARROW",
        "#2 '{'",
        "#2 '}'",
        "#2 '('",
        "#2 ')'",
        "#2 '.'",
        "#2 ','",
        "#2 ':'",
        "#2 ';'",
        "#2 '='",
        "#2 '+'",
        "#2 '-'",
        "#2 '*'",
        "#2 '/'",
        "#2 '~'",
        "#2 LE",
        "#2 '<'",
        "#3 INT_CONST 42",
        "#3 STR_CONST \"s\\n\"",
        "#3 BOOL_CONST true",
        "#3 BOOL_CONST false",
        "#3 TYPEID Foo",
        "#3 OBJECTID bar",
    ]);
    assert_eq!(print_tokens(&tokens, "all.cl"), expected);
    assert_eq!(tokens[0].kind.to_string(), "CLASS");
    assert_eq!(tokens[36].to_string(), "#3 INT_CONST 42");
}

#[test]
fn token_dump_writes_numbers_in_decimal() {
    let source = format!("{}x 0 1203", "\n".repeat(1208));
    let tokens = lex_tokens(&source, "").unwrap();
    assert_eq!(
        print_tokens(&tokens, ""),
        "#name \"\"\n#1209 OBJECTID x\n#1209 INT_CONST 0\n#1209 INT_CONST 1203\n"
    );
    assert_eq!(print_tokens(&[], "none"), "#name \"none\"\n");
    let made = Token::new(
        TokenKind::IntLiteral(-2147483648),
        Span { offset: 0, line: 10, column: 1, extra: "" },
    );
    assert_eq!(made.to_string(), "#10 INT_CONST -2147483648");
}

#[test]
fn program_dump_lists_classes_features_and_formals() {
    let source = "class Main inherits IO {\n  x : Int <- 1;\n  f(a : Int, b : String) : Int { a + 1 };\n};\nclass Second {\n  y : Bool;\n};\n";
    let tokens = lex_tokens(source, "m.cl").unwrap();
    let (_, program) = parse_program(&tokens).unwrap();
    let expected = lines(&[
        "#1",
        "_program",
        "  #1",
        "  _class",
        "    Main",
        "    IO",
        "    \"m.cl\"",
        "    (",
        "    #2",
        "    _attr",
        "      x",
        "      Int",
        "      #2",
        "      _int",
        "        1",
        "      : _no_type",
        "    #3",
        "    _method",
        "      f",
        "      #3",
        "      _formal",
        "        a",
        "        Int",
        "      #3",
        "      _formal",
        "        b",
        "        String",
        "      Int",
        "      #3",
        "      _plus",
        "        #3",
        "        _object",
        "          a",
        "        : _no_type",
        "        #3",
        "        _int",
        "          1",
        "        : _no_type",
        "      : _no_type",
        "    )",
        "  #5",
        "  _class",
        "    Second",
        "    Object",
        "    \"m.cl\"",
        "    (",
        "    #6",
        "    _attr",
        "      y",
        "      Bool",
        "      #0",
        "      _no_expr",
        "      : _no_type",
        "    )",
    ]);
    assert_eq!(print_program(&program), expected);
    assert_eq!(program.format().to_string(), expected);
    assert_eq!(ProgramFormatter::new(&program).to_string(), expected);
}

#[test]
fn program_dump_of_no_class_is_on_line_zero() {
    let program = Program::new(Vec::new());
    assert_eq!(print_program(&program), "#0\n_program\n");
}

#[test]
fn parts_of_a_program_are_dumped_behind_a_margin() {
    let source = "class A {\n  f(a : Int) : Int { a };\n};";
    let tokens = lex_tokens(source, "p.cl").unwrap();
    let (_, program) = parse_program(&tokens).unwrap();
    let class = &program.classes[0];
    let feature = &class.features[0];
    let method = lines(&[
        " _method",
        "   f",
        "   #2",
        "   _formal",
        "     a",
        "     Int",
        "   Int",
        "   #2",
        "   _object",
        "     a",
        "   : _no_type",
    ]);
    assert_eq!(FeatureDataFormatter::new(&feature.data, 1).to_string(), method);
    assert_eq!(feature.data.format(1).to_string(), method);
    assert_eq!(
        FeatureFormatter::new(feature, 1).to_string(),
        format!(" #2\n{}", method)
    );
    assert_eq!(feature.format(1).to_string(), format!(" #2\n{}", method));
    assert_eq!(
        ClassFormatter::new(class, 0).to_string(),
        format!(
            "#1\n_class\n  A\n  Object\n  \"p.cl\"\n  (\n{}  )\n",
            FeatureFormatter::new(feature, 2).to_string()
        )
    );
    assert_eq!(class.format(0).to_string(), ClassFormatter::new(class, 0).to_string());
    let FeatureData::Method(_, _, formals, body) = &feature.data else {
        panic!("not a method");
    };
    assert_eq!(
        FormalFormatter::new(&formals[0], 3).to_string(),
        "   #2\n   _formal\n     a\n     Int\n"
    );
    assert_eq!(formals[0].format(0).to_string(), "#2\n_formal\n  a\n  Int\n");
    assert_eq!(
        ExpressionDataFormatter::new(&body.data, 2).to_string(),
        "  _object\n    a\n  : _no_type\n"
    );
    assert_eq!(body.data.format(0).to_string(), "_object\n  a\n: _no_type\n");
    assert_eq!(body.format(0).to_string(), "#2\n_object\n  a\n: _no_type\n");
}

#[test]
fn assignment_and_names_are_dumped() {
    assert_eq!(
        dump_of("x <- y"),
        lines(&["#1", "_assign", "  x", "  #1", "  _object", "    y", "  : _no_type", ": _no_type"])
    );
}

#[test]
fn prefix_operators_are_dumped() {
    assert_eq!(
        dump_of("not true"),
        lines(&["#1", "_comp", "  #1", "  _bool", "    1", "  : _no_type", ": _no_type"])
    );
    assert_eq!(
        dump_of("~ 3"),
        lines(&["#1", "_neg", "  #1", "  _int", "    3", "  : _no_type", ": _no_type"])
    );
    assert_eq!(
        dump_of("isvoid false"),
        lines(&["#1", "_isvoid", "  #1", "  _bool", "    0", "  : _no_type", ": _no_type"])
    );
}

#[test]
fn infix_operators_are_dumped() {
    for (symbol, tag) in [
        ("=", "_eq"),
        ("<=", "_leq"),
        ("<", "_lt"),
        ("+", "_plus"),
        ("-", "_sub"),
        ("*", "_mul"),
        ("/", "_divide"),
    ] {
        assert_eq!(
            dump_of(&format!("1\n{symbol}\n2")),
            lines(&[
                "#2",
                tag,
                "  #1",
                "  _int",
                "    1",
                "  : _no_type",
                "  #3",
                "  _int",
                "    2",
                "  : _no_type",
                ": _no_type"
            ])
        );
    }
}

#[test]
fn dispatches_are_dumped() {
    assert_eq!(
        dump_of("a.f(1, b)"),
        lines(&[
            "#1",
            "_dispatch",
            "  #1",
            "  _object",
            "    a",
            "  : _no_type",
            "  f",
            "  (",
            "  #1",
            "  _int",
            "    1",
            "  : _no_type",
            "  #1",
            "  _object",
            "    b",
            "  : _no_type",
            "  )",
            ": _no_type"
        ])
    );
    assert_eq!(
        dump_of("a@T.f()"),
        lines(&[
            "#1",
            "_static_dispatch",
            "  #1",
            "  _object",
            "    a",
            "  : _no_type",
            "  T",
            "  f",
            "  (",
            "  )",
            ": _no_type"
        ])
    );
    assert_eq!(
        dump_of("f()"),
        lines(&[
            "#1",
            "_dispatch",
            "  #1",
            "  _object",
            "    self",
            "  : _no_type",
            "  f",
            "  (",
            "  )",
            ": _no_type"
        ])
    );
}

#[test]
fn control_forms_are_dumped() {
    assert_eq!(
        dump_of("if a then b else c fi"),
        lines(&[
            "#1",
            "_cond",
            "  #1",
            "  _object",
            "    a",
            "  : _no_type",
            "  #1",
            "  _object",
            "    b",
            "  : _no_type",
            "  #1",
            "  _object",
            "    c",
            "  : _no_type",
            ": _no_type"
        ])
    );
    assert_eq!(
        dump_of("while a loop b pool"),
        lines(&[
            "#1",
            "_loop",
            "  #1",
            "  _object",
            "    a",
            "  : _no_type",
            "  #1",
            "  _object",
            "    b",
            "  : _no_type",
            ": _no_type"
        ])
    );
    assert_eq!(
        dump_of("{ a; 1; }"),
        lines(&[
            "#1",
            "_block",
            "  #1",
            "  _object",
            "    a",
            "  : _no_type",
            "  #1",
            "  _int",
            "    1",
            "  : _no_type",
            ": _no_type"
        ])
    );
}

#[test]
fn case_is_dumped_with_its_branches() {
    let source = "case a of\n x : Int => 1;\n y : String => \"s\";\nesac";
    assert_eq!(
        dump_of(source),
        lines(&[
            "#1",
            "_typcase",
            "  #1",
            "  _object",
            "    a",
            "  : _no_type",
            "  #2",
            "  _branch",
            "    x",
            "    Int",
            "    #2",
            "    _int",
            "      1",
            "    : _no_type",
            "  #3",
            "  _branch",
            "    y",
            "    String",
            "    #3",
            "    _string",
            "      \"s\"",
            "    : _no_type",
            ": _no_type"
        ])
    );
    let tokens = lex_tokens(source, "").unwrap();
    let (_, e) = expression(Tokens::new(&tokens)).unwrap();
    let ExpressionData::Case(_, branches) = &e.data else {
        panic!("not a case");
    };
    let branch = lines(&["#2", "_branch", "  x", "  Int", "  #2", "  _int", "    1", "  : _no_type"]);
    assert_eq!(CaseBranchFormatter::new(&branches[0], 0).to_string(), branch);
    assert_eq!(branches[0].format(0).to_string(), branch);
}

#[test]
fn let_is_dumped_with_a_placeholder_for_a_missing_value() {
    assert_eq!(
        dump_of("let x : Int,\n y : Int <- 1 in\n x"),
        lines(&[
            "#1",
            "_let",
            "  x",
            "  Int",
            "  #0",
            "  _no_expr",
            "  : _no_type",
            "  #2",
            "  _let",
            "    y",
            "    Int",
            "    #2",
            "    _int",
            "      1",
            "    : _no_type",
            "    #3",
            "    _object",
            "      x",
            "    : _no_type",
            "  : _no_type",
            ": _no_type"
        ])
    );
}

#[test]
fn new_and_literals_are_dumped() {
    assert_eq!(dump_of("new T"), lines(&["#1", "_new", "  T", ": _no_type"]));
    assert_eq!(dump_of("17"), lines(&["#1", "_int", "  17", ": _no_type"]));
    assert_eq!(
        dump_of("\"a\\\\b\\tc\""),
        lines(&["#1", "_string", "  \"a\\\\b\\tc\"", ": _no_type"])
    );
    assert_eq!(dump_of("(((x)))"), lines(&["#1", "_object", "  x", ": _no_type"]));
    let made = Expression::new(
        ExpressionData::IntLiteral(-5),
        Span { offset: 0, line: 7, column: 1, extra: "" },
    );
    assert_eq!(made.format(4).to_string(), "    #7\n    _int\n      -5\n    : _no_type\n");
}

#[test]
fn printers_write_the_tree_dump_under_their_own_label() {
    let source = "\nclass A inherits B {\n  x : Int;\n  y : Int <- 1;\n  f(a : Int) : Int { 1 };\n};\nclass C {};";
    let tokens = lex_tokens(source, "scanned.cl").unwrap();
    let (_, program) = parse_program(&tokens).unwrap();
    let expected = lines(&[
        "#2",
        "_program",
        "  #2",
        "  _class",
        "    A",
        "    B",
        "    \"o.cl\"",
        "    (",
        "    #3",
        "    _attr",
        "      x",
        "      Int",
        "      #0",
        "      _no_expr",
        "      : _no_type",
        "    #4",
        "    _attr",
        "      y",
        "      Int",
        "      #4",
        "      _int",
        "        1",
        "      : _no_type",
        "    #5",
        "    _method",
        "      f",
        "      #5",
        "      _formal",
        "        a",
        "        Int",
        "      Int",
        "      #5",
        "      _int",
        "        1",
        "      : _no_type",
        "    )",
        "  #7",
        "  _class",
        "    C",
        "    Object",
        "    \"o.cl\"",
        "    (",
        "    )",
    ]);
    assert_eq!(ProgramPrinter::new(&program, "o.cl").to_string(), expected);
    assert_eq!(program.print("o.cl").to_string(), expected);
    assert_eq!(program.print("scanned.cl").to_string(), print_program(&program));
    let class = &program.classes[1];
    assert_eq!(
        ClassPrinter::new(class, "c", 1).to_string(),
        " #7\n _class\n   C\n   Object\n   \"c\"\n   (\n   )\n"
    );
    assert_eq!(class.print("c", 1).to_string(), ClassPrinter::new(class, "c", 1).to_string());
    assert_eq!(class.print("scanned.cl", 3).to_string(), class.format(3).to_string());
    let features = &program.classes[0].features;
    assert_eq!(
        FeaturePrinter::new(&features[0], 0).to_string(),
        "#3\n_attr\n  x\n  Int\n  #0\n  _no_expr\n  : _no_type\n"
    );
    assert_eq!(
        features[1].print(2).to_string(),
        "  #4\n  _attr\n    y\n    Int\n    #4\n    _int\n      1\n    : _no_type\n"
    );
    assert_eq!(
        FeaturePrinter::new(&features[2], 0).to_string(),
        "#5\n_method\n  f\n  #5\n  _formal\n    a\n    Int\n  Int\n  #5\n  _int\n    1\n  : _no_type\n"
    );
    for feature in features.iter() {
        assert_eq!(feature.print(4).to_string(), feature.format(4).to_string());
    }
}

#[test]
fn printer_of_no_class_is_on_line_zero() {
    let program = Program::new(Vec::new());
    assert_eq!(ProgramPrinter::new(&program, "f").to_string(), "#0\n_program\n");
}
