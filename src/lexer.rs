//! The lexer: a cursor over the input with two characters of lookahead,
//! and the rules that turn what it sees into located tokens.

use crate::bigint::{is_decimal_text, parse_decimal};
use crate::rules::{
    char_at, denotes, ident_end, is_digit, is_ident_char, is_ident_start, is_operator_start,
    keyword_of, lexeme_end, number_end, starts_token,
};
use crate::token::Tok;
use vstd::prelude::*;

verus! {

/// Why a pull failed. Each case carries where the trouble starts.
#[derive(Debug, Clone, Copy, PartialEq)]
pub enum LexicalError {
    /// A literal whose text could not be converted to its value.
    StringError(Loc),
    /// A character that no rule accepts.
    UnexpectedChar(char, Loc),
}

/// A place in the input: row and column, both counted from 1.
#[derive(Clone, Copy, Debug, Default, PartialEq)]
pub struct Loc {
    pub row: usize,
    pub column: usize,
}

impl Loc {
    pub fn new(row: usize, column: usize) -> (r: Loc)
        ensures
            r.row == row,
            r.column == column,
    {
        Loc { row, column }
    }

    pub fn get_row(&self) -> (r: usize)
        ensures
            r == self.row,
    {
        self.row
    }

    pub fn get_column(&self) -> (r: usize)
        ensures
            r == self.column,
    {
        self.column
    }
}

/// One pull's result: a token between its start and end, or an error.
pub type Spanned = Result<(Loc, Tok, Loc), LexicalError>;

/// The location of the character at offset `i` of the input.
pub open spec fn at_offset(l: Loc, i: int) -> bool {
    l.row == 1 && l.column == i + 1
}

/// What a pull at offset `i` of `s` (`i < s.len()`) yields: the token that
/// the lexeme `[i, lexeme_end(s, i))` denotes, spanning exactly that text,
/// or, at a character that starts no token, an error at that character.
pub open spec fn pull_result(s: Seq<char>, i: int, r: Spanned) -> bool {
    let j = lexeme_end(s, i);
    if starts_token(s[i]) {
        r matches Ok((a, t, b)) && at_offset(a, i) && at_offset(b, j) && denotes(
            s.subrange(i, j),
            t,
        )
    } else {
        r matches Err(LexicalError::UnexpectedChar(c, a)) && c == s[i] && at_offset(a, i)
    }
}

/// A keyword table: each entry is a reserved word and its token, no
/// spelling has two entries, and each reserved word has an entry.
pub open spec fn is_keyword_table(t: Seq<(String, Tok)>) -> bool {
    &&& forall|k: int| 0 <= k < t.len() ==> keyword_of((#[trigger] t[k]).0@) == Some(t[k].1)
    &&& forall|j: int, k: int|
        0 <= j < k < t.len() ==> (#[trigger] t[j]).0@ != (#[trigger] t[k]).0@
    &&& forall|w: Seq<char>|
        #[trigger] keyword_of(w) is Some ==> exists|k: int|
            0 <= k < t.len() && (#[trigger] t[k]).0@ == w
}

/// The table of reserved words: the one entry `lambda`.
pub fn get_keywords() -> (r: Vec<(String, Tok)>)
    ensures
        is_keyword_table(r@),
        r@.len() == 1,
        r@[0].0@ == seq!['l', 'a', 'm', 'b', 'd', 'a'],
        r@[0].1 == Tok::Lambda,
{
    let mut keywords: Vec<(String, Tok)> = Vec::new();
    keywords.push(("lambda".to_owned(), Tok::Lambda));
    proof {
        reveal_strlit("lambda");
        assert(keywords@[0].0@ == seq!['l', 'a', 'm', 'b', 'd', 'a']);
    }
    keywords
}

/// The token of a reserved word, looked up by exact spelling.
fn lookup_keyword(table: &Vec<(String, Tok)>, text: &String) -> (r: Option<Tok>)
    requires
        is_keyword_table(table@),
    ensures
        r == keyword_of(text@),
{
    let mut k: usize = 0;
    while k < table.len()
        invariant
            is_keyword_table(table@),
            k <= table@.len(),
            forall|m: int| 0 <= m < k ==> (#[trigger] table@[m]).0@ != text@,
        decreases table@.len() - k,
    {
        if table[k].0 == *text {
            return Some(table[k].1.copy());
        }
        k += 1;
    }
    None
}

/// Relies on std's `FromIterator<char>` for `String`: the characters in order.
#[verifier::external_body]
fn text_of(chars: &Vec<char>) -> (r: String)
    ensures
        r@ == chars@,
{
    chars.iter().collect()
}

/// A pull-based lexer over a sequence of characters.
pub struct Lexer {
    chars: Vec<char>,
    read: usize,
    chr0: Option<char>,
    chr1: Option<char>,
    location: Loc,
    keywords: Vec<(String, Tok)>,
}

impl Lexer {
    /// The characters being lexed.
    pub closed spec fn source(&self) -> Seq<char> {
        self.chars@
    }

    /// The location of the current character.
    pub closed spec fn loc(&self) -> Loc {
        self.location
    }

    /// How many characters the cursor has consumed.
    pub closed spec fn offset(&self) -> int {
        self.location.column - 1
    }

    /// The current character, and the one after it, are those at the
    /// offset; the location is that of the current character.
    pub closed spec fn wf(&self) -> bool {
        let s = self.chars@;
        let i = self.location.column - 1;
        &&& s.len() < usize::MAX
        &&& self.location.row == 1
        &&& self.location.column >= 1
        &&& self.read as int == if i + 2 <= s.len() {
            i + 2
        } else {
            s.len() as int
        }
        &&& self.chr0 == char_at(s, i)
        &&& self.chr1 == char_at(s, i + 1)
        &&& is_keyword_table(self.keywords@)
    }

    /// A lexer at the start of `input`, with its lookahead filled.
    pub fn new(input: Vec<char>) -> (r: Lexer)
        requires
            input@.len() < usize::MAX,
        ensures
            r.wf(),
            r.source() == input@,
            r.offset() == 0,
    {
        let mut lxr = Lexer {
            chars: input,
            read: 0,
            chr0: None,
            chr1: None,
            location: Loc::new(1, 1),
            keywords: get_keywords(),
        };
        lxr.chr0 = lxr.read_source();
        lxr.chr1 = lxr.read_source();
        lxr
    }

    /// The next character of the underlying input, once; `None` after its end.
    fn read_source(&mut self) -> (r: Option<char>)
        requires
            old(self).read <= old(self).chars@.len(),
        ensures
            r == char_at(old(self).chars@, old(self).read as int),
            final(self).read as int == if old(self).read < old(self).chars@.len() {
                old(self).read + 1
            } else {
                old(self).read as int
            },
            final(self).chars == old(self).chars,
            final(self).chr0 == old(self).chr0,
            final(self).chr1 == old(self).chr1,
            final(self).location == old(self).location,
            final(self).keywords == old(self).keywords,
    {
        if self.read < self.chars.len() {
            let c = self.chars[self.read];
            self.read = self.read + 1;
            Some(c)
        } else {
            None
        }
    }

    /// Consumes the current character and returns it; the column moves on
    /// by one, also past the end of the input.
    pub fn next_char(&mut self) -> (c: Option<char>)
        requires
            old(self).wf(),
            old(self).loc().column < usize::MAX,
        ensures
            final(self).wf(),
            final(self).source() == old(self).source(),
            final(self).offset() == old(self).offset() + 1,
            final(self).loc().row == old(self).loc().row,
            final(self).loc().column == old(self).loc().column + 1,
            c == char_at(old(self).source(), old(self).offset()),
    {
        let c = self.chr0;
        self.chr0 = self.chr1;
        self.chr1 = self.read_source();
        self.location.column = self.location.column + 1;
        c
    }

    /// What a well-formed lexer shows its callers: the offset is never
    /// negative, and the location is that of the character at the offset.
    pub proof fn lemma_wf(&self)
        requires
            self.wf(),
        ensures
            self.offset() >= 0,
            at_offset(self.loc(), self.offset()),
    {
    }

    /// The current character, without consuming it.
    pub fn peek(&self) -> (r: Option<char>)
        requires
            self.wf(),
        ensures
            r == char_at(self.source(), self.offset()),
    {
        self.chr0
    }

    /// The character after the current one, without consuming anything.
    pub fn peek_next(&self) -> (r: Option<char>)
        requires
            self.wf(),
        ensures
            r == char_at(self.source(), self.offset() + 1),
    {
        self.chr1
    }

    /// The location of the current character.
    pub fn get_loc(&self) -> (r: Loc)
        requires
            self.wf(),
        ensures
            r == self.loc(),
            at_offset(r, self.offset()),
    {
        self.location
    }

    /// Whether the current character may stand in an identifier.
    pub fn is_char(&self) -> (r: bool)
        requires
            self.wf(),
        ensures
            r == (char_at(self.source(), self.offset()) matches Some(c) && is_ident_char(c)),
    {
        match self.chr0 {
            Some(c) => ('a' <= c && c <= 'z') || ('A' <= c && c <= 'Z') || c == '_' || ('0' <= c
                && c <= '9'),
            None => false,
        }
    }

    /// Whether the current character is a digit in `radix`; only decimal
    /// is supported.
    pub fn is_number(&self, radix: u32) -> (r: bool)
        requires
            self.wf(),
            radix == 10,
        ensures
            r == (char_at(self.source(), self.offset()) matches Some(c) && is_digit(c)),
    {
        match self.chr0 {
            Some(c) => '0' <= c && c <= '9',
            None => false,
        }
    }

    /// Reads a word: the longest run of identifier characters, then its
    /// keyword if it is a reserved word, else an identifier.
    fn lex_identifier(&mut self) -> (r: Spanned)
        requires
            old(self).wf(),
            0 <= old(self).offset() < old(self).source().len(),
            is_ident_start(old(self).source()[old(self).offset()]),
        ensures
            final(self).wf(),
            final(self).source() == old(self).source(),
            final(self).offset() == lexeme_end(old(self).source(), old(self).offset()),
            pull_result(old(self).source(), old(self).offset(), r),
    {
        let ghost s = self.source();
        let ghost i = self.offset();
        let mut ident: Vec<char> = Vec::new();
        let tok_start = self.get_loc();
        while self.is_char()
            invariant
                self.wf(),
                self.source() == s,
                0 <= i <= self.offset() <= s.len(),
                ident_end(s, self.offset()) == ident_end(s, i),
                ident@ == s.subrange(i, self.offset()),
            decreases s.len() - self.offset(),
        {
            ident.push(self.next_char().unwrap());
            proof {
                assert(ident@ =~= s.subrange(i, self.offset()));
            }
        }
        let tok_end = self.get_loc();
        let text = text_of(&ident);
        match lookup_keyword(&self.keywords, &text) {
            Some(keyword) => Ok((tok_start, keyword, tok_end)),
            None => Ok((tok_start, Tok::Ident(text), tok_end)),
        }
    }

    /// Reads a number: the longest run of decimal digits, as an integer of
    /// any size.
    fn lex_number(&mut self) -> (r: Spanned)
        requires
            old(self).wf(),
            0 <= old(self).offset() < old(self).source().len(),
            is_digit(old(self).source()[old(self).offset()]),
        ensures
            final(self).wf(),
            final(self).source() == old(self).source(),
            final(self).offset() == lexeme_end(old(self).source(), old(self).offset()),
            pull_result(old(self).source(), old(self).offset(), r),
    {
        let ghost s = self.source();
        let ghost i = self.offset();
        let mut digits: Vec<char> = Vec::new();
        let tok_start = self.get_loc();
        while self.is_number(10)
            invariant
                self.wf(),
                self.source() == s,
                0 <= i <= self.offset() <= s.len(),
                number_end(s, self.offset()) == number_end(s, i),
                digits@ == s.subrange(i, self.offset()),
                forall|k: int| 0 <= k < digits@.len() ==> is_digit(#[trigger] digits@[k]),
            decreases s.len() - self.offset(),
        {
            digits.push(self.next_char().unwrap());
            proof {
                assert(digits@ =~= s.subrange(i, self.offset()));
            }
        }
        let tok_end = self.get_loc();
        let text = text_of(&digits);
        proof {
            assert(is_decimal_text(text@));
        }
        match parse_decimal(&text) {
            Ok(value) => Ok((tok_start, Tok::Int(value), tok_end)),
            Err(_) => Err(LexicalError::StringError(tok_start)),
        }
    }

    /// Reads an operator: its start character, and the next one as well
    /// where the two spell a longer operator.
    fn lex_operator(&mut self, c: char) -> (r: Spanned)
        requires
            old(self).wf(),
            0 <= old(self).offset() < old(self).source().len(),
            c == old(self).source()[old(self).offset()],
            is_operator_start(c),
        ensures
            final(self).wf(),
            final(self).source() == old(self).source(),
            final(self).offset() == lexeme_end(old(self).source(), old(self).offset()),
            pull_result(old(self).source(), old(self).offset(), r),
    {
        let ghost s = self.source();
        let ghost i = self.offset();
        let tok_start = self.get_loc();
        self.next_char();
        let tok = match (c, self.chr0) {
            ('+', Some('=')) => {
                self.next_char();
                Tok::PlusEqual
            },
            ('+', _) => Tok::Plus,
            ('-', Some('=')) => {
                self.next_char();
                Tok::MinusEqual
            },
            ('-', Some('>')) => {
                self.next_char();
                Tok::Rarrow
            },
            ('-', _) => Tok::Minus,
            ('*', Some('=')) => {
                self.next_char();
                Tok::StarEqual
            },
            ('*', _) => Tok::Star,
            ('/', Some('=')) => {
                self.next_char();
                Tok::SlashEqual
            },
            ('/', _) => Tok::Slash,
            ('|', Some('>')) => {
                self.next_char();
                Tok::Rarrow
            },
            _ => Tok::Vbar,
        };
        let tok_end = self.get_loc();
        proof {
            assert(s.subrange(i, i + 1) =~= seq![s[i]]);
            if i + 1 < s.len() {
                assert(s.subrange(i, i + 2) =~= seq![s[i], s[i + 1]]);
            }
        }
        Ok((tok_start, tok, tok_end))
    }

    /// Pulls the next token. `None` once the input is used up; an error,
    /// after which the character is consumed, at a character that starts
    /// no token.
    pub fn next(&mut self) -> (r: Option<Spanned>)
        requires
            old(self).wf(),
        ensures
            final(self).wf(),
            final(self).source() == old(self).source(),
            old(self).offset() >= old(self).source().len() ==> r is None && final(self).offset()
                == old(self).offset(),
            old(self).offset() < old(self).source().len() ==> final(self).offset() == lexeme_end(
                old(self).source(),
                old(self).offset(),
            ) && (r matches Some(x) && pull_result(old(self).source(), old(self).offset(), x)),
    {
        match self.chr0 {
            None => None,
            Some(c) => {
                if '0' <= c && c <= '9' {
                    Some(self.lex_number())
                } else if ('a' <= c && c <= 'z') || ('A' <= c && c <= 'Z') || c == '_' {
                    Some(self.lex_identifier())
                } else if c == '+' || c == '-' || c == '*' || c == '/' || c == '|' {
                    Some(self.lex_operator(c))
                } else {
                    let loc = self.get_loc();
                    self.next_char();
                    Some(Err(LexicalError::UnexpectedChar(c, loc)))
                }
            },
        }
    }
}

} // verus!
