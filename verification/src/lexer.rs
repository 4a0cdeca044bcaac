//! The executable scanner.

use crate::model::{
    digit_char, digit_pred, ident_char, ident_pred, lemma_run_len_step, lemma_token_at_len,
    letter_char, reserved_word, run_len, scan, token_at, whitespace_char, whitespace_pred,
};
use crate::token::{Token, TokenView};
use vstd::prelude::*;
use vstd::string::StrSliceExecFns;
use vstd::string::StringExecFns;

verus! {

/// True exactly on the fixed whitespace set of the model.
fn is_whitespace(c: char) -> (r: bool)
    ensures
        r == whitespace_char(c),
{
    c == '\u{0009}' || c == '\u{000A}' || c == '\u{000B}' || c == '\u{000C}' || c == '\u{000D}'
        || c == '\u{0020}' || c == '\u{0085}' || c == '\u{200E}' || c == '\u{200F}'
        || c == '\u{2028}' || c == '\u{2029}'
}

/// True exactly on the ASCII decimal digits.
fn is_digit(c: char) -> (r: bool)
    ensures
        r == digit_char(c),
{
    '0' <= c && c <= '9'
}

/// True exactly on the ASCII letters.
fn is_letter(c: char) -> (r: bool)
    ensures
        r == letter_char(c),
{
    ('a' <= c && c <= 'z') || ('A' <= c && c <= 'Z')
}

/// True exactly on the characters that continue an identifier run.
fn is_ident_char(c: char) -> (r: bool)
    ensures
        r == ident_char(c),
{
    is_letter(c) || is_digit(c) || c == '_'
}

/// Character-by-character string equality, proved against the views.
fn str_eq(a: &str, b: &str) -> (r: bool)
    ensures
        r == (a@ == b@),
{
    let n = a.unicode_len();
    let m = b.unicode_len();
    if n != m {
        return false;
    }
    let mut i: usize = 0;
    while i < n
        invariant
            n as nat == a@.len(),
            n == m,
            m as nat == b@.len(),
            i <= n,
            forall|j: int| 0 <= j < i ==> a@[j] == b@[j],
        decreases n - i,
    {
        if a.get_char(i) != b.get_char(i) {
            return false;
        }
        i = i + 1;
    }
    proof {
        assert(a@ =~= b@);
    }
    true
}

/// A pull-based token producer over a borrowed character sequence.
///
/// The scanner owns a cursor, counted in characters, that only ever
/// advances; each production step consumes exactly the characters of the
/// token it emits.
pub struct Lexer<'a> {
    input: &'a str,
    pos: usize,
}

impl<'a> Lexer<'a> {
    /// The source character sequence the scanner was constructed over.
    pub closed spec fn src(&self) -> Seq<char> {
        self.input@
    }

    /// The cursor: how many characters have been consumed so far.
    pub closed spec fn cursor(&self) -> nat {
        self.pos as nat
    }

    /// Well-formedness: the cursor never passes the end of the source.
    /// `new` establishes this and every production step preserves it.
    pub open spec fn wf(&self) -> bool {
        self.cursor() <= self.src().len()
    }

    /// The characters not yet consumed.
    pub open spec fn remaining(&self) -> Seq<char> {
        self.src().skip(self.cursor() as int)
    }

    /// Constructs a scanner at the start of `input`. No validation or
    /// pre-scan takes place.
    pub fn new(input: &'a str) -> (lexer: Self)
        ensures
            lexer.wf(),
            lexer.src() == input@,
            lexer.cursor() == 0,
    {
        Lexer { input, pos: 0 }
    }

    /// Consumes the rest of the whitespace run whose first character has
    /// already been consumed. The run's text is not retained; only the
    /// cursor advances.
    fn whitespace(&mut self) -> (t: Token)
        requires
            old(self).wf(),
        ensures
            final(self).wf(),
            final(self).src() == old(self).src(),
            final(self).cursor() == old(self).cursor() + run_len(
                old(self).remaining(),
                whitespace_pred(),
            ),
            t@ == TokenView::Whitespace,
    {
        let ghost src = self.input@;
        let ghost start = self.pos as int;
        let len = self.input.unicode_len();
        while self.pos < len && is_whitespace(self.input.get_char(self.pos))
            invariant
                self.input@ == src,
                len as nat == src.len(),
                start <= self.pos as int <= src.len(),
                run_len(src.skip(start), whitespace_pred()) == (self.pos as int - start)
                    + run_len(src.skip(self.pos as int), whitespace_pred()),
            decreases src.len() - self.pos,
        {
            proof {
                lemma_run_len_step(src, self.pos as int, whitespace_pred());
            }
            self.pos = self.pos + 1;
        }
        proof {
            if self.pos < len {
                lemma_run_len_step(src, self.pos as int, whitespace_pred());
            } else {
                assert(src.skip(self.pos as int).len() == 0);
            }
            assert(run_len(src.skip(self.pos as int), whitespace_pred()) == 0);
        }
        Token::Whitespace
    }

    /// Consumes the rest of the digit run whose first digit has already
    /// been consumed, and emits the whole run — first digit included —
    /// as an `Integer` token retaining its text.
    fn number(&mut self, first_digit: char) -> (t: Token)
        requires
            old(self).wf(),
            old(self).cursor() >= 1,
            old(self).src()[old(self).cursor() - 1] == first_digit,
            digit_char(first_digit),
        ensures
            final(self).wf(),
            final(self).src() == old(self).src(),
            final(self).cursor() == old(self).cursor() + run_len(
                old(self).remaining(),
                digit_pred(),
            ),
            t@ == TokenView::Integer(
                old(self).src().subrange(old(self).cursor() - 1, final(self).cursor() as int),
            ),
    {
        let ghost src = self.input@;
        let ghost start = self.pos as int;
        let first: usize = self.pos - 1;
        let len = self.input.unicode_len();
        while self.pos < len && is_digit(self.input.get_char(self.pos))
            invariant
                self.input@ == src,
                len as nat == src.len(),
                start <= self.pos as int <= src.len(),
                run_len(src.skip(start), digit_pred()) == (self.pos as int - start) + run_len(
                    src.skip(self.pos as int),
                    digit_pred(),
                ),
            decreases src.len() - self.pos,
        {
            proof {
                lemma_run_len_step(src, self.pos as int, digit_pred());
            }
            self.pos = self.pos + 1;
        }
        proof {
            if self.pos < len {
                lemma_run_len_step(src, self.pos as int, digit_pred());
            } else {
                assert(src.skip(self.pos as int).len() == 0);
            }
            assert(run_len(src.skip(self.pos as int), digit_pred()) == 0);
        }
        let text = String::from_str(self.input.substring_char(first, self.pos));
        Token::Integer(text)
    }

    /// Consumes the rest of the identifier run whose first letter has
    /// already been consumed, then resolves the whole run against the
    /// reserved-word set: an exact match yields a `Keyword` token, any
    /// other text an `Identifier` token, both retaining the text.
    fn keyword_identifier(&mut self, first_char: char) -> (t: Token)
        requires
            old(self).wf(),
            old(self).cursor() >= 1,
            old(self).src()[old(self).cursor() - 1] == first_char,
            letter_char(first_char),
        ensures
            final(self).wf(),
            final(self).src() == old(self).src(),
            final(self).cursor() == old(self).cursor() + run_len(
                old(self).remaining(),
                ident_pred(),
            ),
            ({
                let text = old(self).src().subrange(
                    old(self).cursor() - 1,
                    final(self).cursor() as int,
                );
                t@ == if reserved_word(text) {
                    TokenView::Keyword(text)
                } else {
                    TokenView::Identifier(text)
                }
            }),
    {
        let ghost src = self.input@;
        let ghost start = self.pos as int;
        let first: usize = self.pos - 1;
        let len = self.input.unicode_len();
        while self.pos < len && is_ident_char(self.input.get_char(self.pos))
            invariant
                self.input@ == src,
                len as nat == src.len(),
                start <= self.pos as int <= src.len(),
                run_len(src.skip(start), ident_pred()) == (self.pos as int - start) + run_len(
                    src.skip(self.pos as int),
                    ident_pred(),
                ),
            decreases src.len() - self.pos,
        {
            proof {
                lemma_run_len_step(src, self.pos as int, ident_pred());
            }
            self.pos = self.pos + 1;
        }
        proof {
            if self.pos < len {
                lemma_run_len_step(src, self.pos as int, ident_pred());
            } else {
                assert(src.skip(self.pos as int).len() == 0);
            }
            assert(run_len(src.skip(self.pos as int), ident_pred()) == 0);
        }
        let run = self.input.substring_char(first, self.pos);
        let text = String::from_str(run);
        if str_eq(run, "int") || str_eq(run, "return") {
            Token::Keyword(text)
        } else {
            Token::Identifier(text)
        }
    }

    /// Produces the token at the cursor, or `None` once the source is
    /// exhausted.
    ///
    /// The head character is classified first-match in the fixed priority
    /// order, and exactly the characters of the emitted token are
    /// consumed, as `token_at` on the unconsumed characters states.
    /// Exhaustion is permanent: once the unconsumed sequence is empty the
    /// call changes nothing and signals `None`, so every later call
    /// signals `None` as well.
    pub fn next_token(&mut self) -> (r: Option<Token>)
        requires
            old(self).wf(),
        ensures
            final(self).wf(),
            final(self).src() == old(self).src(),
            old(self).remaining().len() == 0 ==> r is None && final(self).cursor()
                == old(self).cursor(),
            old(self).remaining().len() > 0 ==> ({
                let (t, n) = token_at(old(self).remaining());
                &&& r matches Some(tok) && tok@ == t
                &&& final(self).cursor() == old(self).cursor() + n
            }),
    {
        let len = self.input.unicode_len();
        if self.pos >= len {
            return None;
        }
        let ghost src = self.input@;
        let ghost start = self.pos as int;
        let ghost rem = self.remaining();
        let c = self.input.get_char(self.pos);
        proof {
            assert(rem[0] == c);
            assert(src.skip(start + 1) =~= rem.skip(1));
        }
        self.pos = self.pos + 1;
        let token: Token;
        if is_whitespace(c) {
            token = self.whitespace();
            proof {
                assert(token@ == token_at(rem).0);
                assert(self.cursor() == start + token_at(rem).1);
            }
        } else if c == '{' {
            token = Token::OpenBrace;
        } else if c == '}' {
            token = Token::CloseBrace;
        } else if c == '(' {
            token = Token::OpenParenthesis;
        } else if c == ')' {
            token = Token::CloseParenthesis;
        } else if c == ';' {
            token = Token::Semicolon;
        } else if is_digit(c) {
            token = self.number(c);
            proof {
                let n = token_at(rem).1;
                assert(src.subrange(start, start + n) =~= rem.take(n as int));
                assert(token@ == token_at(rem).0);
                assert(self.cursor() == start + n);
            }
        } else if is_letter(c) {
            token = self.keyword_identifier(c);
            proof {
                let n = token_at(rem).1;
                assert(src.subrange(start, start + n) =~= rem.take(n as int));
                assert(token@ == token_at(rem).0);
                assert(self.cursor() == start + n);
            }
        } else {
            token = Token::Unknown;
        }
        Some(token)
    }
}

/// The sequence of views of a token sequence.
pub open spec fn token_views(produced: Seq<Token>) -> Seq<TokenView> {
    produced.map(|i: int, t: Token| t@)
}

/// Scans all of `input`, returning every token in source order: exactly
/// the token sequence that the model's `scan` gives.
pub fn tokens(input: &str) -> (r: Vec<Token>)
    ensures
        token_views(r@) == scan(input@),
{
    let mut lexer = Lexer::new(input);
    let mut out: Vec<Token> = Vec::new();
    proof {
        assert(lexer.remaining() =~= input@);
        assert(token_views(out@) + scan(lexer.remaining()) =~= scan(input@));
    }
    loop
        invariant_except_break
            lexer.wf(),
            lexer.src() == input@,
            token_views(out@) + scan(lexer.remaining()) == scan(input@),
        ensures
            token_views(out@) == scan(input@),
        decreases lexer.remaining().len(),
    {
        let ghost pre_rem = lexer.remaining();
        let ghost pre_out = out@;
        match lexer.next_token() {
            None => {
                proof {
                    assert(pre_rem.len() == 0);
                    assert(scan(pre_rem) =~= Seq::<TokenView>::empty());
                    assert(token_views(out@) =~= scan(input@));
                }
                break;
            },
            Some(t) => {
                proof {
                    lemma_token_at_len(pre_rem);
                    let (tv, n) = token_at(pre_rem);
                    assert(scan(pre_rem) == seq![tv] + scan(pre_rem.skip(n as int)));
                    assert(lexer.remaining() =~= pre_rem.skip(n as int));
                    assert(token_views(pre_out.push(t)) =~= token_views(pre_out).push(t@));
                }
                out.push(t);
                proof {
                    assert(token_views(out@) + scan(lexer.remaining()) =~= scan(input@));
                }
            },
        }
    }
    out
}

} // verus!
