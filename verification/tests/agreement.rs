use coolc::lexer::{lex_tokens, line_comment, scan_run, CharClass};
use nom::bytes::complete::tag;
use nom::character::complete::{alphanumeric1, digit1, multispace1, not_line_ending};
use nom::error::Error;
use nom::sequence::preceded;
use nom::Slice;
use nom_locate::LocatedSpan;

fn chars(input: &str) -> Vec<char> {
    input.chars().collect()
}

fn taken(input: &str, result: nom::IResult<&str, &str, Error<&str>>) -> usize {
    match result {
        Ok((rest, _)) => input.len() - rest.len(),
        Err(_) => 0,
    }
}

const SAMPLES: [&str; 12] = [
    "",
    "abc",
    "0123x",
    "  \t\r\n x",
    "a1_b2",
    "Z9 z",
    "12345678901234567890",
    "\n\n",
    "_x",
    "x_",
    "9",
    " 9",
];

#[test]
fn digit_runs_agree_with_nom() {
    for input in SAMPLES {
        assert_eq!(
            scan_run(&chars(input), 0, CharClass::Digit),
            taken(input, digit1(input)),
            "{input:?}"
        );
    }
}

#[test]
fn white_space_runs_agree_with_nom() {
    for input in SAMPLES {
        assert_eq!(
            scan_run(&chars(input), 0, CharClass::Space),
            taken(input, multispace1(input)),
            "{input:?}"
        );
    }
}

#[test]
fn letters_and_digits_agree_with_nom() {
    for input in ["abc", "a1B2", "9z", "é", "aé", "Aé1", "a b", ""] {
        let ours = chars(input);
        let run = scan_run(&ours, 0, CharClass::Word);
        assert_eq!(run, taken(input, alphanumeric1(input)), "{input:?}");
    }
    assert_eq!(scan_run(&chars("a_b c"), 0, CharClass::Word), 3);
}

#[test]
fn line_comments_agree_with_nom() {
    for input in [
        "--",
        "-- ",
        "-- comment\n",
        "-- \t long -- comment \r\nclass",
        "--\n--",
        "-- a -- b",
        "-x",
        "",
    ] {
        let ours = line_comment(&chars(input), 0);
        let theirs: nom::IResult<&str, &str, Error<&str>> =
            preceded(tag("--"), not_line_ending)(input);
        match theirs {
            Ok((rest, _)) => assert_eq!(ours, Some(input.len() - rest.len()), "{input:?}"),
            Err(_) => assert_eq!(ours, None, "{input:?}"),
        }
    }
}

#[test]
fn places_agree_with_nom_locate() {
    let source = "class Main {\n  s : String <- \"é\\n\";\n\n\t(* c\n *) f() : Int { 1 };\n};\n";
    let tokens = lex_tokens(source, "w.cl").unwrap();
    assert_eq!(tokens.len(), 20);
    let whole = LocatedSpan::new_extra(source, "w.cl");
    for token in tokens.iter() {
        let there = whole.slice(token.location.offset..);
        assert_eq!(token.location.line, there.location_line() as usize);
        assert_eq!(token.location.column, there.get_column());
        assert_eq!(token.location.offset, there.location_offset());
        assert_eq!(token.location.extra, there.extra);
    }
}
