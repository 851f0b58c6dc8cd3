use coolc::lexer::{
    block_comment, escaped_char, false_literal, ident, int_literal, lex_tokens, line_comment,
    reserved_word, str_literal, symbol, true_literal, type_id, unescaped_fragment,
};
use coolc::tokens::TokenKind;

fn chars(input: &str) -> Vec<char> {
    input.chars().collect()
}

fn rest(input: &str, end: usize) -> String {
    input.chars().skip(end).collect()
}

fn text(input: &str, end: usize) -> String {
    input.chars().take(end).collect()
}

#[test]
fn test_lex_tokens() {
    let cases = [
        ("class A {};", 5),
        (
            " \t(* block comment (* nested block\n*)\n*)\
            -- \t long line comment \r\n\
            class A -- comment\n\
            inherits (* comment *) B\n\
            {};\n--line comment\t\n(* block\n\
            comment *)\n\n\n",
            7,
        ),
    ];
    for (input, count) in cases.iter() {
        assert!(matches!(
            lex_tokens(input, ""),
            Ok(t) if t.len() == *count,
        ))
    }
}

#[test]
fn test_line_comment() {
    let cases = [
        ("--", ""),
        ("-- ", ""),
        ("-- comment\n", "\n"),
        ("-- \t long -- comment \r\nclass", "\r\nclass"),
    ];
    for (input, after) in cases.iter() {
        assert!(matches!(
            line_comment(&chars(input), 0),
            Some(end) if rest(input, end) == *after,
        ))
    }
}

#[test]
fn test_block_comment() {
    let cases = [
        ("(**)", ""),
        ("(* *) ", " "),
        ("(*(**)*)\n", "\n"),
        ("(* \t *\n) \r*)\na", "\na"),
        ("(**(*)*)*)", ""),
        (
            "(**\n )\n))* **\n**(**\n))\n))*)\n\n(* )* )*\n**)*)*)",
            "*)",
        ),
    ];
    for (input, after) in cases.iter() {
        assert!(matches!(
            block_comment(&chars(input), 0),
            Some(end) if rest(input, end) == *after,
        ))
    }
}

#[test]
fn test_reserved_word() {
    let cases = [
        ("CLASS A", TokenKind::Class, " A"),
        ("inherits B", TokenKind::Inherits, " B"),
        ("iF t", TokenKind::If, " t"),
        ("Then {", TokenKind::Then, " {"),
        ("eLsE 1", TokenKind::Else, " 1"),
        ("FI;", TokenKind::Fi, ";"),
        ("let a", TokenKind::Let, " a"),
        ("In {", TokenKind::In, " {"),
        ("WHILE t", TokenKind::While, " t"),
        ("loop {", TokenKind::Loop, " {"),
        ("Pool;", TokenKind::Pool, ";"),
        ("cAse a:", TokenKind::Case, " a:"),
        ("OF x", TokenKind::Of, " x"),
        ("eSAc;", TokenKind::Esac, ";"),
        ("NEW o", TokenKind::New, " o"),
        ("IsVoid x", TokenKind::IsVoid, " x"),
        ("not f", TokenKind::Not, " f"),
    ];
    for (input, token_kind, after) in cases.iter() {
        assert!(matches!(
            reserved_word(&chars(input), 0),
            Some((kind, end)) if rest(input, end) == *after && kind == *token_kind,
        ))
    }
}

#[test]
fn test_bad_reserved_word() {
    let cases = [
        "classe", "inh", "if1", "the", "else_", "fii", "is_void", "not_",
    ];
    for input in cases.iter() {
        assert!(reserved_word(&chars(input), 0).is_none())
    }
}

#[test]
fn test_symbol() {
    let cases = [
        ("@Blah", TokenKind::At, "Blah"),
        ("<- 0", TokenKind::Assign, " 0"),
        ("=> {", TokenKind::DoubleArrow, " {"),
        ("{ let", TokenKind::OpenBraces, " let"),
        ("};", TokenKind::CloseBraces, ";"),
        ("(abc", TokenKind::OpenParens, "abc"),
        (");", TokenKind::CloseParens, ";"),
        (".abc()", TokenKind::Dot, "abc()"),
        (", 1", TokenKind::Comma, " 1"),
        (": A", TokenKind::Colon, " A"),
        (";\n", TokenKind::SemiColon, "\n"),
        ("= 2", TokenKind::Equals, " 2"),
        ("+ 9", TokenKind::Add, " 9"),
        ("- 5", TokenKind::Subtract, " 5"),
        ("* 4", TokenKind::Multiply, " 4"),
        ("/ 3", TokenKind::Divide, " 3"),
        ("~ 8", TokenKind::Negative, " 8"),
        ("<= 10", TokenKind::LessThanOrEquals, " 10"),
        ("< 11", TokenKind::LessThan, " 11"),
    ];
    for (input, token_kind, after) in cases.iter() {
        assert!(matches!(
            symbol(&chars(input), 0),
            Some((kind, end)) if rest(input, end) == *after && kind == *token_kind,
        ))
    }
}

#[test]
fn test_bad_symbol() {
    let cases = [
        " ", "a", "1", "!", "#", "$", "%", "^", "&", "_", "[", "]", "'", "\\", "|", "`", ">", "?",
    ];
    for input in cases.iter() {
        assert!(symbol(&chars(input), 0).is_none())
    }
}

#[test]
fn test_int_literal() {
    let cases = [
        ("0", 0, ""),
        ("01;", 1, ";"),
        ("2_", 2, "_"),
        ("2147483647 ", i32::MAX, " "),
    ];
    for (input, integer, after) in cases.iter() {
        assert!(matches!(
            int_literal(&chars(input), 0),
            Some((kind, end)) if rest(input, end) == *after
                && kind == TokenKind::IntLiteral(*integer),
        ))
    }
}

#[test]
fn test_bad_int_literal() {
    for input in [" 0", "+1", "-1", "a1", "2147483648"].iter() {
        assert!(int_literal(&chars(input), 0).is_none())
    }
}

#[test]
fn test_str_literal() {
    let cases = [
        ("\"\"", "", ""),
        ("\" \"", " ", ""),
        ("\"a\"", "a", ""),
        ("\"a b c\";", "a b c", ";"),
        ("\"a\\tb c\\nd\\\\e\".concat", "a\tb c\nd\\e", ".concat"),
    ];
    for (input, string, after) in cases.iter() {
        assert!(matches!(
            str_literal(&chars(input), 0),
            Some((kind, end)) if rest(input, end) == *after
                && kind == TokenKind::StrLiteral(string.to_string()),
        ))
    }
}

#[test]
fn test_bad_str_literal() {
    for input in ["", " ", "\"", "\"abc", "abc"].iter() {
        assert!(str_literal(&chars(input), 0).is_none())
    }
}

#[test]
fn test_unescaped_fragment() {
    let cases = [
        (" ", " ", ""),
        ("abc", "abc", ""),
        ("a\tb", "a\tb", ""),
        (r"a\tb", "a", r"\tb"),
        (r"a\\b", "a", r"\\b"),
        (r"a\\ ", "a", r"\\ "),
    ];
    for (input, fragment, after) in cases.iter() {
        assert!(matches!(
            unescaped_fragment(&chars(input), 0),
            Some(end) if rest(input, end) == *after && text(input, end) == *fragment,
        ))
    }
}

#[test]
fn test_bad_unescaped_fragment() {
    for input in ["", r"\n", r"\t", r"\\"].iter() {
        assert!(unescaped_fragment(&chars(input), 0).is_none())
    }
}

#[test]
fn test_escaped_char() {
    let cases = [
        (r"\n", '\n', ""),
        (r"\t ", '\t', " "),
        (r"\b\", '\u{08}', r"\"),
        (r"\f;", '\u{0C}', ";"),
        (r"\ \ ", ' ', r"\ "),
        (r"\\a", '\\', "a"),
        (r"\xyz", 'x', "yz"),
    ];
    for (input, ch, after) in cases.iter() {
        assert!(matches!(
            escaped_char(&chars(input), 0),
            Some((c, end)) if rest(input, end) == *after && c == *ch,
        ))
    }
}

#[test]
fn test_bad_escaped_char() {
    for input in ["", r" ", r"n"].iter() {
        assert!(escaped_char(&chars(input), 0).is_none())
    }
}

#[test]
fn test_false_literal() {
    for (input, after) in [("false", ""), ("fAlSe;", ";"), ("fALSE ", " ")].iter() {
        assert!(matches!(
            false_literal(&chars(input), 0),
            Some((kind, end)) if rest(input, end) == *after
                && kind == TokenKind::BoolLiteral(false),
        ))
    }
}

#[test]
fn test_bad_false_literal() {
    for input in ["False", "FaLsE", "FALSE", "false_", "false0"].iter() {
        assert!(false_literal(&chars(input), 0).is_none())
    }
}

#[test]
fn test_true_literal() {
    for (input, after) in [("true", ""), ("tRuE or", " or"), ("tRUE,", ",")].iter() {
        assert!(matches!(
            true_literal(&chars(input), 0),
            Some((kind, end)) if rest(input, end) == *after
                && kind == TokenKind::BoolLiteral(true),
        ))
    }
}

#[test]
fn test_bad_true_literal() {
    for input in ["True", "TrUe", "TRUE", "true_", "true1"].iter() {
        assert!(true_literal(&chars(input), 0).is_none())
    }
}

#[test]
fn test_type_id() {
    let cases = [
        ("A", "A", ""),
        ("B_;", "B_", ";"),
        ("C0{", "C0", "{"),
        ("DE inherits", "DE", " inherits"),
        ("Fghij.abc", "Fghij", ".abc"),
        ("K123<- 0", "K123", "<- 0"),
        ("L4m5N6_=> a", "L4m5N6_", "=> a"),
    ];
    for (input, id, after) in cases.iter() {
        assert!(matches!(
            type_id(&chars(input), 0),
            Some((kind, end)) if rest(input, end) == *after
                && kind == TokenKind::TypeId(id.to_string()),
        ))
    }
}

#[test]
fn test_bad_type_id() {
    let cases = [
        "", "a", "_B", "0C", "_1", ":D", "$E", "@F", "#G", "£H", "%I", "&J", "*H", "~IJK", "?L",
        "mNOP",
    ];
    for input in cases.iter() {
        assert!(type_id(&chars(input), 0).is_none())
    }
}

#[test]
fn test_ident() {
    let cases = [
        ("a", "a", ""),
        ("b_ ", "b_", " "),
        ("c0;", "c0", ";"),
        ("de <- ", "de", " <- "),
        ("fGHIJ}", "fGHIJ", "}"),
        ("k123 --", "k123", " --"),
        ("l4M5n6_> ", "l4M5n6_", "> "),
    ];
    for (input, id, after) in cases.iter() {
        assert!(matches!(
            ident(&chars(input), 0),
            Some((kind, end)) if rest(input, end) == *after
                && kind == TokenKind::Ident(id.to_string()),
        ))
    }
}

#[test]
fn test_bad_ident() {
    let cases = [
        "", "A", "_b", "0c", "_1", ":d", "$e", "@f", "#g", "£h", "%i", "&j", "*h", "~ijk", "?l",
        "Mnop",
    ];
    for input in cases.iter() {
        assert!(ident(&chars(input), 0).is_none())
    }
}
