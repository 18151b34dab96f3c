//! The lexical rules, stated over the input as a sequence of characters.
//!
//! A pull that starts at offset `i` of the input consumes the characters
//! `[i, lexeme_end(s, i))`; `denotes` says which token that text stands for.

use crate::bigint::{decimal_bigint, is_decimal_text};
use crate::token::Tok;
use vstd::prelude::*;

verus! {

/// ASCII letter, digit or underscore.
pub open spec fn is_ident_char(c: char) -> bool {
    ('a' <= c <= 'z') || ('A' <= c <= 'Z') || c == '_' || ('0' <= c <= '9')
}

/// ASCII decimal digit.
pub open spec fn is_digit(c: char) -> bool {
    '0' <= c <= '9'
}

/// A character that opens an identifier or keyword.
pub open spec fn is_ident_start(c: char) -> bool {
    ('a' <= c <= 'z') || ('A' <= c <= 'Z') || c == '_'
}

/// A character that opens an operator.
pub open spec fn is_operator_start(c: char) -> bool {
    c == '+' || c == '-' || c == '*' || c == '/' || c == '|'
}

/// A character for which some rule applies.
pub open spec fn starts_token(c: char) -> bool {
    is_digit(c) || is_ident_start(c) || is_operator_start(c)
}

/// The character at offset `i`, or `None` past either end.
pub open spec fn char_at(s: Seq<char>, i: int) -> Option<char> {
    if 0 <= i < s.len() {
        Some(s[i])
    } else {
        None
    }
}

/// The end of the run of identifier characters that starts at `i`.
pub open spec fn ident_end(s: Seq<char>, i: int) -> int
    decreases s.len() - i,
{
    if 0 <= i < s.len() && is_ident_char(s[i]) {
        ident_end(s, i + 1)
    } else {
        i
    }
}

/// The end of the run of decimal digits that starts at `i`.
pub open spec fn number_end(s: Seq<char>, i: int) -> int
    decreases s.len() - i,
{
    if 0 <= i < s.len() && is_digit(s[i]) {
        number_end(s, i + 1)
    } else {
        i
    }
}

/// The two-character operators: a start character and the one character
/// after it that extends it.
pub open spec fn extends_operator(c: char, next: char) -> bool {
    ((c == '+' || c == '*' || c == '/') && next == '=')
    || (c == '-' && (next == '=' || next == '>'))
    || (c == '|' && next == '>')
}

/// The end of an operator that starts at `i`: the two-character form
/// whenever the next character extends it. A character that starts no
/// token at all is consumed alone as well.
pub open spec fn operator_end(s: Seq<char>, i: int) -> int {
    if 0 <= i && i + 1 < s.len() && extends_operator(s[i], s[i + 1]) {
        i + 2
    } else {
        i + 1
    }
}

/// Where the text consumed by a pull at `i` ends (`i < s.len()`).
pub open spec fn lexeme_end(s: Seq<char>, i: int) -> int {
    if is_digit(s[i]) {
        number_end(s, i)
    } else if is_ident_start(s[i]) {
        ident_end(s, i)
    } else {
        operator_end(s, i)
    }
}

/// The reserved words: exact, case-sensitive spellings.
pub open spec fn keyword_of(text: Seq<char>) -> Option<Tok> {
    if text == seq!['l', 'a', 'm', 'b', 'd', 'a'] {
        Some(Tok::Lambda)
    } else {
        None
    }
}

/// The spellings of the operators.
pub open spec fn operator_of(text: Seq<char>) -> Option<Tok> {
    if text == seq!['+'] {
        Some(Tok::Plus)
    } else if text == seq!['+', '='] {
        Some(Tok::PlusEqual)
    } else if text == seq!['-'] {
        Some(Tok::Minus)
    } else if text == seq!['-', '='] {
        Some(Tok::MinusEqual)
    } else if text == seq!['-', '>'] {
        Some(Tok::Rarrow)
    } else if text == seq!['*'] {
        Some(Tok::Star)
    } else if text == seq!['*', '='] {
        Some(Tok::StarEqual)
    } else if text == seq!['/'] {
        Some(Tok::Slash)
    } else if text == seq!['/', '='] {
        Some(Tok::SlashEqual)
    } else if text == seq!['|', '>'] {
        Some(Tok::Rarrow)
    } else if text == seq!['|'] {
        Some(Tok::Vbar)
    } else {
        None
    }
}

/// `t` is the token that the text of one lexeme stands for: a number is
/// its integer value, a word is its keyword if it has one and an
/// identifier of the same spelling otherwise, an operator is looked up
/// by spelling.
pub open spec fn denotes(text: Seq<char>, t: Tok) -> bool {
    if text.len() > 0 && is_digit(text[0]) {
        t == Tok::Int(decimal_bigint(text))
    } else if text.len() > 0 && is_ident_start(text[0]) {
        match keyword_of(text) {
            Some(k) => t == k,
            None => match t {
                Tok::Ident(name) => name@ == text,
                _ => false,
            },
        }
    } else {
        operator_of(text) == Some(t)
    }
}

/// The lexemes that successive pulls from offset `i` on consume, in order.
pub open spec fn lexemes(s: Seq<char>, i: int) -> Seq<Seq<char>>
    decreases s.len() - i,
{
    if 0 <= i < s.len() && i < lexeme_end(s, i) <= s.len() {
        seq![s.subrange(i, lexeme_end(s, i))] + lexemes(s, lexeme_end(s, i))
    } else {
        Seq::empty()
    }
}

proof fn lemma_ident_end_bounds(s: Seq<char>, i: int)
    requires
        0 <= i <= s.len(),
    ensures
        i <= ident_end(s, i) <= s.len(),
    decreases s.len() - i,
{
    if i < s.len() && is_ident_char(s[i]) {
        lemma_ident_end_bounds(s, i + 1);
    }
}

proof fn lemma_number_end_bounds(s: Seq<char>, i: int)
    requires
        0 <= i <= s.len(),
    ensures
        i <= number_end(s, i) <= s.len(),
    decreases s.len() - i,
{
    if i < s.len() && is_digit(s[i]) {
        lemma_number_end_bounds(s, i + 1);
    }
}

/// Every pull consumes at least one character, and none past the end.
pub proof fn lemma_lexeme_end_bounds(s: Seq<char>, i: int)
    requires
        0 <= i < s.len(),
    ensures
        i < lexeme_end(s, i) <= s.len(),
{
    lemma_ident_end_bounds(s, i + 1);
    lemma_number_end_bounds(s, i + 1);
}

/// Total consumption: the lexemes of successive pulls from offset `i`,
/// joined in order, give back the input from `i` on, with no character
/// skipped or repeated.
pub proof fn lemma_lexemes_cover(s: Seq<char>, i: int)
    requires
        0 <= i <= s.len(),
    ensures
        lexemes(s, i).flatten() == s.subrange(i, s.len() as int),
    decreases s.len() - i,
{
    if i < s.len() {
        lemma_lexeme_end_bounds(s, i);
        let j = lexeme_end(s, i);
        lemma_lexemes_cover(s, j);
        let ls = lexemes(s, i);
        assert(ls.first() == s.subrange(i, j));
        assert(ls.drop_first() =~= lexemes(s, j));
        assert(s.subrange(i, s.len() as int) =~= s.subrange(i, j) + s.subrange(j, s.len() as int));
    } else {
        assert(s.subrange(i, s.len() as int) =~= Seq::<char>::empty());
    }
}

/// The column spans `[start, end)` of successive pulls from offset `i`, as
/// the lexer reports them (column `k + 1` is the character at offset `k`).
pub open spec fn spans(s: Seq<char>, i: int) -> Seq<(int, int)>
    decreases s.len() - i,
{
    if 0 <= i < s.len() && i < lexeme_end(s, i) <= s.len() {
        seq![(i + 1, lexeme_end(s, i) + 1)] + spans(s, lexeme_end(s, i))
    } else {
        Seq::empty()
    }
}

/// Total consumption, in columns: the spans of successive pulls from
/// offset `i` start at column `i + 1`, each is non-empty and begins where
/// the one before it ends, the last ends just past the input, and the
/// text under each span is that pull's lexeme.
pub proof fn lemma_spans_chain(s: Seq<char>, i: int)
    requires
        0 <= i < s.len(),
    ensures
        spans(s, i).len() == lexemes(s, i).len() > 0,
        spans(s, i)[0].0 == i + 1,
        spans(s, i).last().1 == s.len() + 1,
        forall|k: int| 0 <= k < spans(s, i).len() ==> #[trigger] spans(s, i)[k].0 < spans(s, i)[k].1,
        forall|k: int|
            0 <= k < spans(s, i).len() - 1 ==> #[trigger] spans(s, i)[k].1 == spans(s, i)[k + 1].0,
        forall|k: int|
            0 <= k < spans(s, i).len() ==> s.subrange(
                #[trigger] spans(s, i)[k].0 - 1,
                spans(s, i)[k].1 - 1,
            ) == lexemes(s, i)[k],
    decreases s.len() - i,
{
    lemma_lexeme_end_bounds(s, i);
    let j = lexeme_end(s, i);
    let sp = spans(s, i);
    let ls = lexemes(s, i);
    if j < s.len() {
        lemma_spans_chain(s, j);
        let rest = spans(s, j);
        assert(sp =~= seq![(i + 1, j + 1)] + rest);
        assert(ls =~= seq![s.subrange(i, j)] + lexemes(s, j));
        assert forall|k: int| 0 <= k < sp.len() - 1 implies #[trigger] sp[k].1 == sp[k + 1].0 by {
            if k > 0 {
                assert(sp[k] == rest[k - 1]);
                assert(sp[k + 1] == rest[k]);
            }
        }
        assert forall|k: int| 0 <= k < sp.len() implies s.subrange(#[trigger] sp[k].0 - 1, sp[k].1 - 1)
            == ls[k] by {
            if k > 0 {
                assert(sp[k] == rest[k - 1]);
                assert(ls[k] == lexemes(s, j)[k - 1]);
            }
        }
        assert forall|k: int| 0 <= k < sp.len() implies #[trigger] sp[k].0 < sp[k].1 by {
            if k > 0 {
                assert(sp[k] == rest[k - 1]);
            }
        }
    } else {
        assert(spans(s, j) =~= Seq::<(int, int)>::empty());
        assert(lexemes(s, j) =~= Seq::<Seq<char>>::empty());
        assert(sp =~= seq![(i + 1, j + 1)]);
        assert(ls =~= seq![s.subrange(i, j)]);
    }
}

/// Longest match: where an operator's start character is followed by one
/// that extends it, the pull takes both, and they stand for the
/// two-character operator, which differs from the one-character one.
pub proof fn lemma_longest_match(s: Seq<char>, i: int)
    requires
        0 <= i,
        i + 1 < s.len(),
        extends_operator(s[i], s[i + 1]),
    ensures
        lexeme_end(s, i) == i + 2,
        operator_of(s.subrange(i, i + 2)) is Some,
        operator_of(s.subrange(i, i + 2)) != operator_of(seq![s[i]]),
        forall|t: Tok| denotes(s.subrange(i, i + 2), t) <==> operator_of(s.subrange(i, i + 2)) == Some(t),
{
    assert(s.subrange(i, i + 2) =~= seq![s[i], s[i + 1]]);
}

/// Keyword precedence: a word spelled exactly as a reserved word stands
/// for that keyword, never for an identifier.
pub proof fn lemma_keyword_precedence(text: Seq<char>, t: Tok)
    requires
        text.len() > 0,
        is_ident_start(text[0]),
        keyword_of(text) is Some,
        denotes(text, t),
    ensures
        Some(t) == keyword_of(text),
        !(t is Ident),
{
}

/// A run of digits of any length is read whole, as one integer literal
/// whose value is that of all of its digits.
pub proof fn lemma_number_whole(s: Seq<char>)
    requires
        is_decimal_text(s),
    ensures
        lexeme_end(s, 0) == s.len(),
        forall|t: Tok| denotes(s.subrange(0, lexeme_end(s, 0)), t) <==> t == Tok::Int(decimal_bigint(s)),
{
    lemma_number_end_run(s, 0);
    assert(s.subrange(0, s.len() as int) =~= s);
}

proof fn lemma_number_end_run(s: Seq<char>, i: int)
    requires
        0 <= i <= s.len(),
        forall|k: int| i <= k < s.len() ==> is_digit(#[trigger] s[k]),
    ensures
        number_end(s, i) == s.len(),
    decreases s.len() - i,
{
    if i < s.len() {
        lemma_number_end_run(s, i + 1);
    }
}

} // verus!
