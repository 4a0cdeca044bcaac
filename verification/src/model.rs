//! The mathematical model of scanning.
//!
//! Scanning classifies the head of a character sequence by a fixed
//! priority — whitespace, the five single-character punctuators, digit,
//! ASCII letter, and `Unknown` as the fallback — and consumes a maximal
//! run for the multi-character classes. `token_at` gives the token at the
//! head of a sequence together with the length of its span; `scan` and
//! `spans` extend that to the whole sequence.

use crate::token::TokenView;
use vstd::prelude::*;

verus! {

/// The fixed set of whitespace characters: Unicode `Pattern_White_Space`,
/// enumerated exhaustively so the set is stable.
pub open spec fn whitespace_char(c: char) -> bool {
    ||| c == '\u{0009}'  // horizontal tab
    ||| c == '\u{000A}'  // line feed
    ||| c == '\u{000B}'  // vertical tab
    ||| c == '\u{000C}'  // form feed
    ||| c == '\u{000D}'  // carriage return
    ||| c == '\u{0020}'  // space
    ||| c == '\u{0085}'  // next line
    ||| c == '\u{200E}'  // left-to-right mark
    ||| c == '\u{200F}'  // right-to-left mark
    ||| c == '\u{2028}'  // line separator
    ||| c == '\u{2029}'  // paragraph separator
}

/// An ASCII decimal digit.
pub open spec fn digit_char(c: char) -> bool {
    '0' <= c && c <= '9'
}

/// An ASCII letter: the only characters that start an identifier run.
pub open spec fn letter_char(c: char) -> bool {
    ('a' <= c && c <= 'z') || ('A' <= c && c <= 'Z')
}

/// A character that continues an identifier run once one has started:
/// ASCII letter, ASCII digit, or underscore.
pub open spec fn ident_char(c: char) -> bool {
    letter_char(c) || digit_char(c) || c == '_'
}

/// The closed reserved-word set: an identifier-shaped run equal to one of
/// these becomes a `Keyword` token.
pub open spec fn reserved_word(s: Seq<char>) -> bool {
    s == "int"@ || s == "return"@
}

/// The whitespace-run predicate, fixed as one value so every use names
/// the same function.
pub open spec fn whitespace_pred() -> spec_fn(char) -> bool {
    |c: char| whitespace_char(c)
}

/// The digit-run predicate.
pub open spec fn digit_pred() -> spec_fn(char) -> bool {
    |c: char| digit_char(c)
}

/// The identifier-continuation predicate.
pub open spec fn ident_pred() -> spec_fn(char) -> bool {
    |c: char| ident_char(c)
}

/// The length of the maximal prefix of `s` whose characters all satisfy
/// `p`.
pub open spec fn run_len(s: Seq<char>, p: spec_fn(char) -> bool) -> nat
    decreases s.len(),
{
    if s.len() == 0 || !p(s[0]) {
        0
    } else {
        1 + run_len(s.skip(1), p)
    }
}

/// The token at the head of a non-empty sequence, with the length of the
/// span it consumes. Classification is first-match over the head
/// character, in the fixed priority order; each multi-character class
/// consumes its head plus the maximal run of continuation characters.
pub open spec fn token_at(s: Seq<char>) -> (TokenView, nat)
    recommends
        s.len() > 0,
{
    let c = s[0];
    if whitespace_char(c) {
        (TokenView::Whitespace, 1 + run_len(s.skip(1), whitespace_pred()))
    } else if c == '{' {
        (TokenView::OpenBrace, 1 as nat)
    } else if c == '}' {
        (TokenView::CloseBrace, 1 as nat)
    } else if c == '(' {
        (TokenView::OpenParenthesis, 1 as nat)
    } else if c == ')' {
        (TokenView::CloseParenthesis, 1 as nat)
    } else if c == ';' {
        (TokenView::Semicolon, 1 as nat)
    } else if digit_char(c) {
        let n = 1 + run_len(s.skip(1), digit_pred());
        (TokenView::Integer(s.take(n as int)), n)
    } else if letter_char(c) {
        let n = 1 + run_len(s.skip(1), ident_pred());
        let text = s.take(n as int);
        if reserved_word(text) {
            (TokenView::Keyword(text), n)
        } else {
            (TokenView::Identifier(text), n)
        }
    } else {
        (TokenView::Unknown, 1 as nat)
    }
}

/// The token sequence that scanning all of `s` produces, in source order.
pub open spec fn scan(s: Seq<char>) -> Seq<TokenView>
    decreases s.len(),
{
    if s.len() == 0 {
        Seq::empty()
    } else {
        let (t, n) = token_at(s);
        if 1 <= n <= s.len() {
            seq![t] + scan(s.skip(n as int))
        } else {
            // Unreachable: `lemma_token_at_len` shows every span length
            // lies in this range.
            seq![t]
        }
    }
}

/// The spans of the tokens of `s`, in source order: the text each token
/// consumed, including the text of whitespace and `Unknown` tokens.
pub open spec fn spans(s: Seq<char>) -> Seq<Seq<char>>
    decreases s.len(),
{
    if s.len() == 0 {
        Seq::empty()
    } else {
        let (t, n) = token_at(s);
        if 1 <= n <= s.len() {
            seq![s.take(n as int)] + spans(s.skip(n as int))
        } else {
            seq![s]
        }
    }
}

/// Every character inside a maximal run satisfies its predicate, the run
/// does not pass the end of the sequence, and the first character after
/// the run, if any, does not satisfy the predicate.
pub proof fn lemma_run_len(s: Seq<char>, p: spec_fn(char) -> bool)
    ensures
        run_len(s, p) <= s.len(),
        forall|i: int| 0 <= i < run_len(s, p) ==> p(s[i]),
        run_len(s, p) < s.len() ==> !p(s[run_len(s, p) as int]),
    decreases s.len(),
{
    if s.len() == 0 || !p(s[0]) {
    } else {
        lemma_run_len(s.skip(1), p);
        assert forall|i: int| 0 <= i < run_len(s, p) implies p(s[i]) by {
            if i > 0 {
                assert(s.skip(1)[i - 1] == s[i]);
            }
        }
        if run_len(s, p) < s.len() {
            assert(s.skip(1)[run_len(s, p) - 1] == s[run_len(s, p) as int]);
        }
    }
}

/// How a maximal run looks one character at a time, stated at an offset
/// `i` into `s`: if the character at `i` belongs to the run, the run from
/// `i` is one longer than the run from `i + 1`; if not, the run from `i`
/// is empty.
pub proof fn lemma_run_len_step(s: Seq<char>, i: int, p: spec_fn(char) -> bool)
    requires
        0 <= i < s.len(),
    ensures
        p(s[i]) ==> run_len(s.skip(i), p) == 1 + run_len(s.skip(i + 1), p),
        !p(s[i]) ==> run_len(s.skip(i), p) == 0,
{
    assert(s.skip(i)[0] == s[i]);
    assert(s.skip(i).skip(1) =~= s.skip(i + 1));
}

/// The span of the token at the head of a non-empty sequence covers at
/// least one character and never passes the end of the sequence.
pub proof fn lemma_token_at_len(s: Seq<char>)
    requires
        s.len() > 0,
    ensures
        1 <= token_at(s).1 <= s.len(),
{
    lemma_run_len(s.skip(1), whitespace_pred());
    lemma_run_len(s.skip(1), digit_pred());
    lemma_run_len(s.skip(1), ident_pred());
}

/// Totality / reconstruction: every character of the input is consumed by
/// exactly one token, so concatenating the spans of all tokens —
/// whitespace and single-character tokens included — reproduces the input
/// exactly.
pub proof fn lemma_reconstruction(s: Seq<char>)
    ensures
        spans(s).flatten() == s,
    decreases s.len(),
{
    if s.len() == 0 {
        assert(spans(s).flatten() =~= s);
    } else {
        lemma_token_at_len(s);
        let (t, n) = token_at(s);
        let rest = spans(s.skip(n as int));
        lemma_reconstruction(s.skip(n as int));
        assert(spans(s) == seq![s.take(n as int)] + rest);
        assert((seq![s.take(n as int)] + rest).first() == s.take(n as int));
        assert((seq![s.take(n as int)] + rest).drop_first() =~= rest);
        assert(spans(s).flatten() == s.take(n as int) + rest.flatten());
        assert(s.take(n as int) + s.skip(n as int) =~= s);
    }
}

/// Maximality: a whitespace, digit, or identifier run never stops while
/// the next character still belongs to the run's class, so no such run is
/// ever split across two consecutive tokens.
pub proof fn lemma_maximality(s: Seq<char>)
    requires
        s.len() > 0,
    ensures
        ({
            let (t, n) = token_at(s);
            n < s.len() ==> {
                &&& (t is Whitespace ==> !whitespace_char(s[n as int]))
                &&& (t is Integer ==> !digit_char(s[n as int]))
                &&& ((t is Keyword || t is Identifier) ==> !ident_char(s[n as int]))
            }
        }),
{
    lemma_run_len(s.skip(1), whitespace_pred());
    lemma_run_len(s.skip(1), digit_pred());
    lemma_run_len(s.skip(1), ident_pred());
    let (t, n) = token_at(s);
    if 0 < n < s.len() {
        assert(s.skip(1)[n - 1] == s[n as int]);
    }
}

/// Determinism: the token sequence is a function of the input sequence
/// alone, so scanning equal inputs yields equal token sequences.
pub proof fn lemma_deterministic(s1: Seq<char>, s2: Seq<char>)
    requires
        s1 == s2,
    ensures
        scan(s1) == scan(s2),
{
}

/// Keyword/identifier boundary: for an identifier-shaped run (one whose
/// head is an ASCII letter), the token carries exactly the text of the
/// maximal run — as a `Keyword` when that text equals a reserved word,
/// and as an `Identifier` otherwise. Membership is decided only on the
/// full run, so a run such as one reserved word followed by more
/// identifier characters stays one `Identifier`.
pub proof fn lemma_keyword_boundary(s: Seq<char>)
    requires
        s.len() > 0,
        letter_char(s[0]),
    ensures
        ({
            let (t, n) = token_at(s);
            let text = s.take(n as int);
            &&& n == 1 + run_len(s.skip(1), ident_pred())
            &&& t == if reserved_word(text) {
                TokenView::Keyword(text)
            } else {
                TokenView::Identifier(text)
            }
        }),
{
}

} // verus!
