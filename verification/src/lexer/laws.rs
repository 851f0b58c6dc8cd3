//! What holds of every scan.

use super::{
    char_at, comment_close, decimal_value, is_digit, line_breaks, lemma_run_end, lemma_skip_all,
    lemma_token, location_at, pair_at, run_end,
    scan_from, skip_all, spec_discarded, spec_escaped_char, spec_lex, spec_str_literal,
    spec_token, spec_unescaped_fragment, string_body, CharClass, Lexeme, ScanErrorKind,
};
use crate::tokens::{token_dump, token_views, Token, TokenKindView, TokenView};
use crate::util::{escape, escape_char};
use vstd::prelude::*;

verus! {

/// Whether the lexemes `ls` and the discarded input around them take up the
/// source from position `i` to its end, in order and without a gap: every
/// lexeme is the text of its token and is not empty, only discarded input
/// stands before the first lexeme, between two neighbours and behind the
/// last one.
pub open spec fn partitions(s: Seq<char>, i: int, ls: Seq<Lexeme>) -> bool {
    &&& forall|k: int|
        0 <= k < ls.len() ==> i <= (#[trigger] ls[k]).start < ls[k].end <= s.len() && spec_token(
            s,
            ls[k].start,
        ) == Some((ls[k].kind, ls[k].end))
    &&& forall|k: int| 0 <= k < ls.len() - 1 ==> skip_all(s, (#[trigger] ls[k]).end) == ls[k + 1].start
    &&& if ls.len() == 0 {
        skip_all(s, i) == s.len()
    } else {
        skip_all(s, i) == ls[0].start && skip_all(s, ls.last().end) == s.len()
    }
}

/// The lexemes that a scan from position `i` yields, together with the
/// discarded input around them, take up the source from `i` to its end.
pub proof fn lemma_scan_partitions(s: Seq<char>, i: int)
    requires
        0 <= i <= s.len(),
        scan_from(s, i) is Ok,
    ensures
        partitions(s, i, scan_from(s, i)->Ok_0),
    decreases s.len() - i,
{
    let p = skip_all(s, i);
    lemma_skip_all(s, i);
    if 0 <= i <= p < s.len() {
        lemma_token(s, p);
        let (kind, e) = spec_token(s, p)->Some_0;
        let first = Lexeme { kind, start: p, end: e };
        let rest = scan_from(s, e)->Ok_0;
        let ls = scan_from(s, i)->Ok_0;
        assert(ls == seq![first] + rest);
        lemma_scan_partitions(s, e);
        assert forall|k: int| 0 <= k < ls.len() implies i <= (#[trigger] ls[k]).start < ls[k].end
            <= s.len() && spec_token(s, ls[k].start) == Some((ls[k].kind, ls[k].end)) by {
            if k > 0 {
                assert(ls[k] == rest[k - 1]);
            }
        }
        assert forall|k: int| 0 <= k < ls.len() - 1 implies skip_all(s, (#[trigger] ls[k]).end)
            == ls[k + 1].start by {
            assert(ls[k + 1] == rest[k]);
            if k > 0 {
                assert(ls[k] == rest[k - 1]);
            }
        }
        if rest.len() > 0 {
            assert(ls.last() == rest.last());
        }
    }
}

/// The lexemes of a source that scans, together with the discarded input
/// around them, take up the whole source: the tokens partition what is left
/// of the text once white space and comments are taken out.
pub proof fn lemma_lexemes_partition(s: Seq<char>)
    requires
        scan_from(s, 0) is Ok,
    ensures
        partitions(s, 0, scan_from(s, 0)->Ok_0),
{
    lemma_scan_partitions(s, 0);
}

/// The number of lines of a source: every line feed ends a line, and what
/// stands behind the last line feed is one more line unless it is empty.
pub open spec fn line_count(s: Seq<char>) -> nat {
    if s.len() > 0 && s.last() != '\n' {
        line_breaks(s, s.len() as int) + 1
    } else {
        line_breaks(s, s.len() as int)
    }
}

/// A longer part of the source holds at least as many line feeds.
pub proof fn lemma_line_breaks_le(s: Seq<char>, i: int, j: int)
    requires
        i <= j,
    ensures
        line_breaks(s, i) <= line_breaks(s, j),
    decreases j - i,
{
    if i < j {
        lemma_line_breaks_le(s, i, j - 1);
    }
}

/// Every token of a scanned source carries the label of the file, a column
/// that is at least 1 and a line between 1 and the number of lines of the
/// source.
pub proof fn lemma_token_places(s: Seq<char>, label: Seq<char>)
    requires
        spec_lex(s, label) is Ok,
    ensures
        forall|k: int|
            0 <= k < spec_lex(s, label)->Ok_0.len() ==> {
                let place = (#[trigger] spec_lex(s, label)->Ok_0[k]).location;
                &&& place.extra == label
                &&& place.column >= 1
                &&& 1 <= place.line <= line_count(s)
            },
{
    lemma_scan_partitions(s, 0);
    let ls = scan_from(s, 0)->Ok_0;
    let ts = spec_lex(s, label)->Ok_0;
    assert forall|k: int| 0 <= k < ts.len() implies {
        let place = (#[trigger] ts[k]).location;
        &&& place.extra == label
        &&& place.column >= 1
        &&& 1 <= place.line <= line_count(s)
    } by {
        assert(ts[k].location == location_at(s, ls[k].start, label));
        assert(ls[k].start < s.len());
        lemma_line_breaks_le(s, ls[k].start, s.len() - 1);
    }
}

/// Whether a source scans, and the kinds, lines, columns and offsets of its
/// tokens, do not depend on the label of the file; the label only marks the
/// places.
pub proof fn lemma_label_marks_places_only(s: Seq<char>, a: Seq<char>, b: Seq<char>)
    ensures
        spec_lex(s, a) is Ok <==> spec_lex(s, b) is Ok,
        spec_lex(s, a) is Ok ==> {
            let x = spec_lex(s, a)->Ok_0;
            let y = spec_lex(s, b)->Ok_0;
            &&& x.len() == y.len()
            &&& forall|k: int|
                #![trigger x[k]]
                #![trigger y[k]]
                0 <= k < x.len() ==> x[k].kind == y[k].kind && x[k].location.line
                    == y[k].location.line && x[k].location.column == y[k].location.column
                    && x[k].location.offset == y[k].location.offset && x[k].location.extra == a
                    && y[k].location.extra == b
        },
{
}

/// The token dump of a source is fixed by the text of the source and the
/// label of the file: whatever tokens a scan of that text under that label
/// hands over, their dump is the same text.
pub proof fn lemma_token_dump_is_determined(
    s: Seq<char>,
    label: Seq<char>,
    first: Seq<Token>,
    second: Seq<Token>,
)
    requires
        spec_lex(s, label) == Ok::<Seq<TokenView>, super::ScanErrorView>(token_views(first)),
        spec_lex(s, label) == Ok::<Seq<TokenView>, super::ScanErrorView>(token_views(second)),
    ensures
        token_dump(token_views(first), label) == token_dump(token_views(second), label),
{
}

/// The spelling of a string constant's value begins with the spelling of
/// its first character.
pub proof fn lemma_escape_first(v: Seq<char>)
    requires
        v.len() > 0,
    ensures
        escape(v) == escape_char(v[0]) + escape(v.drop_first()),
    decreases v.len(),
{
    if v.len() == 1 {
        assert(v.drop_last() == Seq::<char>::empty());
        assert(v.drop_first() == Seq::<char>::empty());
        assert(escape(v.drop_last()) == Seq::<char>::empty());
    } else {
        lemma_escape_first(v.drop_last());
        assert(v.drop_last().drop_first() == v.drop_first().drop_last());
        assert(v.drop_last()[0] == v[0]);
        assert(v.drop_first().last() == v.last());
        assert(escape(v) == (escape_char(v[0]) + escape(v.drop_first().drop_last())) + escape_char(
            v.last(),
        ));
        assert(escape(v.drop_first()) == escape(v.drop_first().drop_last()) + escape_char(
            v.last(),
        ));
    }
}

/// Where a character that needs no escape stands in a string literal, the
/// fragments from there on decode to that character and what the fragments
/// behind it decode to.
proof fn lemma_plain_char(s: Seq<char>, i: int)
    requires
        0 <= i < s.len(),
        CharClass::Plain.contains(s[i]),
    ensures
        string_body(s, i) == (seq![s[i]] + string_body(s, i + 1).0, string_body(s, i + 1).1),
{
    let e = run_end(s, i, CharClass::Plain);
    lemma_run_end(s, i, CharClass::Plain);
    lemma_run_end(s, i + 1, CharClass::Plain);
    assert(e == run_end(s, i + 1, CharClass::Plain));
    if e == i + 1 {
        assert(s.subrange(i, e) == seq![s[i]]);
    } else {
        assert(spec_unescaped_fragment(s, i + 1) == Some(e));
        assert(s.subrange(i, e) == seq![s[i]] + s.subrange(i + 1, e));
        assert(seq![s[i]] + (s.subrange(i + 1, e) + string_body(s, e).0) == (seq![s[i]]
            + s.subrange(i + 1, e)) + string_body(s, e).0);
    }
}

/// Where the spelling of a value without double quotes stands in a string
/// literal, followed by a double quote, the fragments decode to the value and
/// end at that quote.
proof fn lemma_body_of_spelling(s: Seq<char>, i: int, v: Seq<char>)
    requires
        0 <= i,
        i + escape(v).len() < s.len(),
        s.subrange(i, i + escape(v).len()) == escape(v),
        s[i + escape(v).len()] == '"',
        forall|j: int| 0 <= j < v.len() ==> v[j] != '"',
    ensures
        string_body(s, i) == (v, i + escape(v).len()),
    decreases v.len(),
{
    if v.len() == 0 {
        assert(escape(v) == Seq::<char>::empty());
        assert(!CharClass::Plain.contains(s[i]));
        assert(string_body(s, i).0 == v);
    } else {
        let c = v[0];
        let w = v.drop_first();
        lemma_escape_first(v);
        let head = escape_char(c);
        let text = escape(v);
        assert(text == head + escape(w));
        assert forall|j: int| 0 <= j < text.len() implies s[i + j] == text[j] by {
            assert(s.subrange(i, i + text.len())[j] == s[i + j]);
        }
        let step = head.len() as int;
        assert(s[i] == text[0]);
        assert(s.subrange(i + step, i + step + escape(w).len()) == escape(w)) by {
            assert forall|j: int| 0 <= j < escape(w).len() implies s[i + step + j] == escape(
                w,
            )[j] by {
                assert(text[step + j] == escape(w)[j]);
            }
        }
        assert forall|j: int| 0 <= j < w.len() implies w[j] != '"' by {
            assert(w[j] == v[j + 1]);
        }
        lemma_body_of_spelling(s, i + step, w);
        assert(v == seq![c] + w);
        if step == 1 {
            assert(s[i] == c);
            lemma_plain_char(s, i);
        } else {
            assert(s[i] == '\\');
            assert(s[i + 1] == text[1]);
            assert(!CharClass::Plain.contains(s[i]));
            assert(spec_unescaped_fragment(s, i) is None);
            assert(spec_escaped_char(s, i) == Some((c, i + 2)));
        }
    }
}

/// A string value that holds no double quote survives the dump: its
/// spelling between double quotes, as it stands in a `STR_CONST` line, scans
/// as one string literal with the same value, so that the line comes out the
/// same when that literal is dumped again.
pub proof fn lemma_escape_round_trip(v: Seq<char>)
    requires
        forall|j: int| 0 <= j < v.len() ==> v[j] != '"',
    ensures
        spec_str_literal(seq!['"'] + escape(v) + seq!['"'], 0) == Some(
            (TokenKindView::StrLiteral(v), escape(v).len() as int + 2),
        ),
{
    let q = seq!['"'] + escape(v) + seq!['"'];
    assert(q.subrange(1, 1 + escape(v).len() as int) == escape(v));
    lemma_body_of_spelling(q, 1, v);
}

/// Whether a scan may fail at position `p` for the reason `kind`: a block
/// comment opens there and never closes; or an integer literal begins there
/// and writes a number above `i32::MAX`; or a string literal opens there and
/// no double quote closes it; or no token begins with the character there.
pub open spec fn fails_with(s: Seq<char>, p: int, kind: ScanErrorKind) -> bool {
    match kind {
        ScanErrorKind::UnterminatedComment => pair_at(s, p, '(', '*') && comment_close(s, p + 2, 1)
            is None,
        ScanErrorKind::IntegerOverflow => is_digit(s[p]) && decimal_value(
            s.subrange(p, run_end(s, p, CharClass::Digit)),
        ) > i32::MAX,
        ScanErrorKind::UnterminatedString => s[p] == '"' && char_at(s, string_body(s, p + 1).1)
            != Some('"'),
        ScanErrorKind::UnexpectedCharacter => !pair_at(s, p, '(', '*') && !is_digit(s[p]) && s[p]
            != '"' && spec_token(s, p) is None,
    }
}

/// A scan that fails, fails at the start of a lexeme inside the source, and
/// for the reason that its error names.
pub proof fn lemma_scan_failure(s: Seq<char>, i: int)
    requires
        0 <= i <= s.len(),
        scan_from(s, i) is Err,
    ensures
        i <= scan_from(s, i)->Err_0.at < s.len(),
        spec_discarded(s, scan_from(s, i)->Err_0.at) is None,
        fails_with(s, scan_from(s, i)->Err_0.at, scan_from(s, i)->Err_0.kind),
    decreases s.len() - i,
{
    let p = skip_all(s, i);
    lemma_skip_all(s, i);
    lemma_run_end(s, p, CharClass::Digit);
    lemma_run_end(s, p, CharClass::Word);
    if pair_at(s, p, '(', '*') {
    } else if spec_token(s, p) is Some {
        lemma_token(s, p);
        lemma_scan_failure(s, spec_token(s, p)->Some_0.1);
    }
}

} // verus!
