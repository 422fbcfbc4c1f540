//! Tokens of the filter expression mini-language.
//!
//! A filter string is a sequence of words, parentheses, commas and
//! equals signs, separated by blanks.  A word is a maximal run of bytes
//! that are neither blanks nor one of the four punctuation marks; both
//! identifiers and file paths are words.

use vstd::prelude::*;

verus! {

/// A blank byte: space or horizontal tab.
pub open spec fn is_blank(b: u8) -> bool {
    b == 32 || b == 9
}

/// A punctuation byte of the mini-language: `(`, `)`, `,` or `=`.
pub open spec fn is_punct(b: u8) -> bool {
    b == 40 || b == 41 || b == 44 || b == 61
}

/// A byte that may stand inside a word.
pub open spec fn is_word_byte(b: u8) -> bool {
    !is_blank(b) && !is_punct(b)
}

/// One token of a filter expression.
#[derive(Debug, PartialEq, Eq)]
pub enum Tok {
    /// An identifier, keyword, level name or file path.
    Word(Vec<u8>),
    /// `(`
    LParen,
    /// `)`
    RParen,
    /// `,`
    Comma,
    /// `=`
    Eq,
}

/// The mathematical shape of a [`Tok`].
pub enum TokView {
    /// An identifier, keyword, level name or file path.
    Word(Seq<u8>),
    /// `(`
    LParen,
    /// `)`
    RParen,
    /// `,`
    Comma,
    /// `=`
    Eq,
}

impl View for Tok {
    type V = TokView;

    open spec fn view(&self) -> TokView {
        match self {
            Tok::Word(w) => TokView::Word(w@),
            Tok::LParen => TokView::LParen,
            Tok::RParen => TokView::RParen,
            Tok::Comma => TokView::Comma,
            Tok::Eq => TokView::Eq,
        }
    }
}

/// The views of a token sequence.
pub open spec fn toks_view(v: Seq<Tok>) -> Seq<TokView> {
    v.map_values(|t: Tok| t@)
}

/// Length of the word starting at the head of `s`: the longest prefix
/// of word bytes.
pub open spec fn word_len(s: Seq<u8>) -> nat
    decreases s.len(),
{
    if s.len() > 0 && is_word_byte(s[0]) {
        1 + word_len(s.skip(1))
    } else {
        0
    }
}

/// The word prefix never reaches past the end of the input.
pub proof fn lemma_word_len_le(s: Seq<u8>)
    ensures
        word_len(s) <= s.len(),
    decreases s.len(),
{
    if s.len() > 0 && is_word_byte(s[0]) {
        lemma_word_len_le(s.skip(1));
    }
}

/// The word prefix consists of word bytes and ends at the first byte
/// that is not one (or at the end of the input).
pub proof fn lemma_word_len_is_run(s: Seq<u8>)
    ensures
        forall|k: int| 0 <= k < word_len(s) ==> is_word_byte(#[trigger] s[k]),
        word_len(s) < s.len() ==> !is_word_byte(s[word_len(s) as int]),
    decreases s.len(),
{
    lemma_word_len_le(s);
    if s.len() > 0 && is_word_byte(s[0]) {
        lemma_word_len_is_run(s.skip(1));
        assert forall|k: int| 0 <= k < word_len(s) implies is_word_byte(#[trigger] s[k]) by {
            if k > 0 {
                assert(s.skip(1)[k - 1] == s[k]);
            }
        }
        if word_len(s) < s.len() {
            assert(s.skip(1)[word_len(s) as int - 1] == s[word_len(s) as int]);
        }
    }
}

/// A run of `j` word bytes stopped by a non-word byte (or the end) is
/// exactly the word prefix.
pub proof fn lemma_word_len_of_run(s: Seq<u8>, j: int)
    requires
        0 <= j <= s.len(),
        forall|k: int| 0 <= k < j ==> is_word_byte(#[trigger] s[k]),
        j < s.len() ==> !is_word_byte(s[j]),
    ensures
        word_len(s) == j,
    decreases s.len(),
{
    if j == 0 {
    } else {
        assert(is_word_byte(s[0]));
        lemma_word_len_of_run(s.skip(1), j - 1);
    }
}

/// The token sequence of a filter string.  Blanks separate tokens and
/// are dropped; every byte sequence tokenizes.
pub open spec fn spec_tokens(s: Seq<u8>) -> Seq<TokView>
    decreases s.len(),
    via spec_tokens_decreases
{
    if s.len() == 0 {
        Seq::empty()
    } else if is_blank(s[0]) {
        spec_tokens(s.skip(1))
    } else if s[0] == 40 {
        seq![TokView::LParen] + spec_tokens(s.skip(1))
    } else if s[0] == 41 {
        seq![TokView::RParen] + spec_tokens(s.skip(1))
    } else if s[0] == 44 {
        seq![TokView::Comma] + spec_tokens(s.skip(1))
    } else if s[0] == 61 {
        seq![TokView::Eq] + spec_tokens(s.skip(1))
    } else {
        seq![TokView::Word(s.take(word_len(s) as int))]
            + spec_tokens(s.skip(word_len(s) as int))
    }
}

#[via_fn]
proof fn spec_tokens_decreases(s: Seq<u8>) {
    if s.len() > 0 && !is_blank(s[0]) && !is_punct(s[0]) {
        lemma_word_len_le(s);
    }
}

/// Tokenize a filter string.
pub fn tokenize(input: &[u8]) -> (r: Vec<Tok>)
    ensures
        toks_view(r@) == spec_tokens(input@),
{
    let n = input.len();
    let mut out: Vec<Tok> = Vec::new();
    let mut i: usize = 0;
    proof {
        assert(input@.skip(0) =~= input@);
        assert(toks_view(out@) + spec_tokens(input@) =~= spec_tokens(input@));
    }
    while i < n
        invariant
            i <= n,
            n == input@.len(),
            toks_view(out@) + spec_tokens(input@.skip(i as int)) == spec_tokens(input@),
        decreases n - i,
    {
        let b = input[i];
        proof {
            assert(input@.skip(i as int)[0] == input@[i as int]);
            assert(input@.skip(i as int).skip(1) =~= input@.skip(i as int + 1));
        }
        if b == 32 || b == 9 {
            i = i + 1;
        } else if b == 40 || b == 41 || b == 44 || b == 61 {
            let t = if b == 40 {
                Tok::LParen
            } else if b == 41 {
                Tok::RParen
            } else if b == 44 {
                Tok::Comma
            } else {
                Tok::Eq
            };
            proof {
                assert(spec_tokens(input@.skip(i as int)) == seq![t@] + spec_tokens(
                    input@.skip(i as int + 1),
                ));
            }
            let ghost prev = out@;
            out.push(t);
            proof {
                assert(toks_view(out@) =~= toks_view(prev) + seq![t@]);
                assert(toks_view(out@) + spec_tokens(input@.skip(i as int + 1)) =~= toks_view(
                    prev,
                ) + spec_tokens(input@.skip(i as int)));
            }
            i = i + 1;
        } else {
            // scan the word
            let start = i;
            let mut j = i;
            let mut w: Vec<u8> = Vec::new();
            proof {
                assert(w@ =~= input@.subrange(start as int, start as int));
            }
            while j < n
                invariant
                    start <= j <= n,
                    n == input@.len(),
                    w@ == input@.subrange(start as int, j as int),
                    forall|k: int| start <= k < j ==> is_word_byte(#[trigger] input@[k]),
                ensures
                    start <= j <= n,
                    w@ == input@.subrange(start as int, j as int),
                    forall|k: int| start <= k < j ==> is_word_byte(#[trigger] input@[k]),
                    j < n ==> !is_word_byte(input@[j as int]),
                decreases n - j,
            {
                let c = input[j];
                if c == 32 || c == 9 || c == 40 || c == 41 || c == 44 || c == 61 {
                    break ;
                }
                w.push(c);
                proof {
                    assert(w@ =~= input@.subrange(start as int, j as int + 1));
                }
                j = j + 1;
            }
            proof {
                let rest = input@.skip(start as int);
                assert forall|k: int| 0 <= k < j - start implies is_word_byte(
                    #[trigger] rest[k],
                ) by {
                    assert(rest[k] == input@[start + k]);
                }
                if j < n {
                    assert(rest[j - start] == input@[j as int]);
                }
                lemma_word_len_of_run(rest, j - start);
                assert(w@ =~= rest.take(word_len(rest) as int));
                assert(rest.skip(word_len(rest) as int) =~= input@.skip(j as int));
                assert(spec_tokens(input@.skip(start as int)) == seq![TokView::Word(w@)]
                    + spec_tokens(input@.skip(j as int)));
            }
            let ghost wv = w@;
            let ghost prev = out@;
            out.push(Tok::Word(w));
            proof {
                assert(toks_view(out@) =~= toks_view(prev) + seq![TokView::Word(wv)]);
                assert(toks_view(out@) + spec_tokens(input@.skip(j as int)) =~= toks_view(
                    prev,
                ) + spec_tokens(input@.skip(start as int)));
            }
            i = j;
        }
    }
    proof {
        assert(input@.skip(i as int) =~= Seq::<u8>::empty());
        assert(toks_view(out@) =~= toks_view(out@) + spec_tokens(input@.skip(i as int)));
    }
    out
}

} // verus!
