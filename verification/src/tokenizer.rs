//! Classified lexical tokens and the tokenizer that produces them from raw
//! text: one token per word, classified as a keyword, an integer literal or
//! free text, with a line-break token after every non-empty line.

use vstd::prelude::*;
use vstd::string::{StrSliceExecFns, StringExecFns};

use crate::text;

verus! {

/// A classified lexical unit of the input stream.
#[derive(Debug, Clone, PartialEq)]
pub enum TokenType {
    /// A free-form word, written `<str>` or `<id>` in a grammar.
    Text,
    /// An integer literal, written `<num>` in a grammar.
    Int,
    /// A fixed keyword, written by its own text in a grammar.
    Keyword(String),
    /// A logical line boundary, written `<br>` in a grammar.
    Linebreak,
}

/// The mathematical value of a token: the same classification with the
/// keyword text as a sequence of characters.
pub enum TokenView {
    Text,
    Int,
    Keyword(Seq<char>),
    Linebreak,
}

impl View for TokenType {
    type V = TokenView;

    open spec fn view(&self) -> TokenView {
        match self {
            TokenType::Text => TokenView::Text,
            TokenType::Int => TokenView::Int,
            TokenType::Keyword(s) => TokenView::Keyword(s@),
            TokenType::Linebreak => TokenView::Linebreak,
        }
    }
}

/// The values of a whole token stream.
pub open spec fn toks_view(s: Seq<TokenType>) -> Seq<TokenView> {
    s.map_values(|t: TokenType| t@)
}

/// True when the two tokens have the same classification, and for keywords
/// the same text.
pub fn token_eq(a: &TokenType, b: &TokenType) -> (r: bool)
    ensures
        r == (a@ == b@),
{
    match (a, b) {
        (TokenType::Text, TokenType::Text) => true,
        (TokenType::Int, TokenType::Int) => true,
        (TokenType::Linebreak, TokenType::Linebreak) => true,
        (TokenType::Keyword(x), TokenType::Keyword(y)) => text::str_eq(x.as_str(), y.as_str()),
        _ => false,
    }
}

/// A decimal digit.
pub open spec fn is_digit(c: char) -> bool {
    '0' <= c && c <= '9'
}

/// The number written by a sequence of decimal digits.
pub open spec fn digits_val(s: Seq<char>) -> int
    decreases s.len(),
{
    if s.len() == 0 {
        0
    } else {
        digits_val(s.drop_last()) * 10 + (s.last() as int - '0' as int)
    }
}

/// Every character is a decimal digit.
pub open spec fn all_digits(s: Seq<char>) -> bool {
    forall|i: int| 0 <= i < s.len() ==> is_digit(s[i])
}

/// The digits of an integer literal: the whole word, or the word without
/// its leading sign.
pub open spec fn int_body(s: Seq<char>) -> Seq<char> {
    if s.len() > 0 && (s[0] == '-' || s[0] == '+') {
        s.drop_first()
    } else {
        s
    }
}

/// The largest magnitude the digits may write: one more for a negative
/// literal, whose least value has no positive counterpart.
pub open spec fn int_bound(s: Seq<char>) -> int {
    if s.len() > 0 && s[0] == '-' {
        0x8000_0000
    } else {
        0x7fff_ffff
    }
}

/// The word is a well-formed 32-bit signed decimal integer literal: an
/// optional sign, then one or more digits, whose value fits the type.
pub open spec fn spec_is_i32(s: Seq<char>) -> bool {
    s.len() > 0 && int_body(s).len() > 0 && all_digits(int_body(s)) && digits_val(int_body(s))
        <= int_bound(s)
}

/// The class a word of the input takes: the three fixed keywords stay
/// keywords, a word that is an integer literal is an integer, anything
/// else is free text.
pub open spec fn classify_word(w: Seq<char>) -> TokenView {
    if w == "contact"@ || w == "rate"@ || w == "delay"@ {
        TokenView::Keyword(w)
    } else if spec_is_i32(w) {
        TokenView::Int
    } else {
        TokenView::Text
    }
}

/// The tokens of one line's words, in order; empty words yield nothing.
pub open spec fn words_tokens(ws: Seq<Seq<char>>) -> Seq<TokenView>
    decreases ws.len(),
{
    if ws.len() == 0 {
        Seq::empty()
    } else {
        let rest = words_tokens(ws.drop_last());
        if ws.last().len() == 0 {
            rest
        } else {
            rest + seq![classify_word(ws.last())]
        }
    }
}

/// The tokens of one line: its space-separated words classified in order.
pub open spec fn line_tokens(l: Seq<char>) -> Seq<TokenView> {
    words_tokens(text::split_sep(l, seq![' ']))
}

/// The tokens of a sequence of lines, each non-empty line followed by a
/// line break; empty lines yield nothing.
pub open spec fn lines_tokens(ls: Seq<Seq<char>>) -> Seq<TokenView>
    decreases ls.len(),
{
    if ls.len() == 0 {
        Seq::empty()
    } else {
        let rest = lines_tokens(ls.drop_last());
        if ls.last().len() == 0 {
            rest
        } else {
            rest + line_tokens(ls.last()) + seq![TokenView::Linebreak]
        }
    }
}

/// The token stream of a whole input text.
pub open spec fn spec_tokenize(s: Seq<char>) -> Seq<TokenView> {
    lines_tokens(text::spec_lines(s))
}

/// True when the word is a well-formed 32-bit signed decimal integer
/// literal, exactly as [`spec_is_i32`] states.
pub fn is_int_literal(w: &str) -> (r: bool)
    ensures
        r == spec_is_i32(w@),
{
    let n = w.unicode_len();
    if n == 0 {
        return false;
    }
    let c0 = w.get_char(0);
    let start: usize = if c0 == '-' || c0 == '+' {
        1
    } else {
        0
    };
    if start == n {
        return false;
    }
    let bound: u64 = if c0 == '-' {
        0x8000_0000
    } else {
        0x7fff_ffff
    };
    let ghost body = int_body(w@);
    proof {
        assert(body =~= w@.subrange(start as int, n as int));
    }
    let mut acc: u64 = 0;
    let mut i: usize = start;
    while i < n
        invariant
            n == w@.len(),
            n <= usize::MAX,
            start <= i <= n,
            start < n,
            body == w@.subrange(start as int, n as int),
            body == int_body(w@),
            forall|j: int| start <= j < i ==> is_digit(w@[j]),
            ({
                let v = digits_val(w@.subrange(start as int, i as int));
                if v <= 0x8000_0000 {
                    acc == v
                } else {
                    0x8000_0000 < acc <= 0x2_0000_0000u64
                }
            }),
        decreases n - i,
    {
        let c = w.get_char(i);
        let cu = c as u32;
        if cu < 48 || cu > 57 {
            proof {
                assert(!is_digit(w@[i as int]));
                assert(0 <= i - start < body.len());
                assert(body[i - start] == w@[i as int]);
                assert(!all_digits(body));
            }
            return false;
        }
        let d: u64 = (cu - 48) as u64;
        proof {
            let pre = w@.subrange(start as int, i as int);
            let post = w@.subrange(start as int, i + 1);
            assert(post.drop_last() =~= pre);
            assert(post.last() == w@[i as int]);
            assert(digits_val(post) == digits_val(pre) * 10 + (w@[i as int] as int - '0' as int));
        }
        let raw: u64 = acc * 10 + d;
        acc = if raw > 0x2_0000_0000u64 {
            0x2_0000_0000u64
        } else {
            raw
        };
        i += 1;
    }
    proof {
        assert(w@.subrange(start as int, n as int) == body);
        assert(forall|j: int| 0 <= j < body.len() ==> body[j] == w@[start + j]);
    }
    acc <= bound
}

/// The classified token of one non-empty word, exactly as
/// [`classify_word`] states.
fn classify_token(w: &str) -> (t: TokenType)
    ensures
        t@ == classify_word(w@),
{
    if text::str_eq(w, "contact") || text::str_eq(w, "rate") || text::str_eq(w, "delay") {
        TokenType::Keyword(String::from_str(w))
    } else if is_int_literal(w) {
        TokenType::Int
    } else {
        TokenType::Text
    }
}

/// Transforms a text into its classified token stream, exactly
/// [`spec_tokenize`] of the text's characters: every non-empty line gives
/// its words' tokens in order followed by a line break; empty lines and
/// empty words give nothing.
pub fn tokenizer(entry: &str) -> (tokens: Vec<TokenType>)
    ensures
        toks_view(tokens@) == spec_tokenize(entry@),
{
    let lines = text::split_lines(entry);
    let ghost lv = text::strs_view(lines@);
    let mut tokens: Vec<TokenType> = Vec::new();
    let mut i: usize = 0;
    while i < lines.len()
        invariant
            i <= lines.len(),
            lv == text::strs_view(lines@),
            lv == text::spec_lines(entry@),
            toks_view(tokens@) =~= lines_tokens(lv.take(i as int)),
        decreases lines.len() - i,
    {
        proof {
            assert(lv.take(i + 1).drop_last() =~= lv.take(i as int));
            assert(lv.take(i + 1).last() == lv[i as int]);
        }
        let line = &lines[i];
        let n = line.as_str().unicode_len();
        if n > 0 {
            proof {
                reveal_strlit(" ");
                assert(" "@ =~= seq![' ']);
            }
            let words = text::split_str(line.as_str(), " ");
            let ghost wv = text::strs_view(words@);
            let mut j: usize = 0;
            while j < words.len()
                invariant
                    j <= words.len(),
                    wv == text::strs_view(words@),
                    wv == text::split_sep(lv[i as int], seq![' ']),
                    i < lv.len(),
                    lv == text::strs_view(lines@),
                    toks_view(tokens@) =~= lines_tokens(lv.take(i as int)) + words_tokens(
                        wv.take(j as int),
                    ),
                decreases words.len() - j,
            {
                proof {
                    assert(wv.take(j + 1).drop_last() =~= wv.take(j as int));
                    assert(wv.take(j + 1).last() == wv[j as int]);
                }
                let word = &words[j];
                if word.as_str().unicode_len() > 0 {
                    let ghost old_tokens = tokens@;
                    tokens.push(classify_token(word.as_str()));
                    proof {
                        assert(toks_view(tokens@) =~= toks_view(old_tokens) + seq![
                            classify_word(wv[j as int]),
                        ]);
                    }
                }
                j += 1;
            }
            proof {
                assert(wv.take(words@.len() as int) =~= wv);
            }
            let ghost old_tokens = tokens@;
            tokens.push(TokenType::Linebreak);
            proof {
                assert(toks_view(tokens@) =~= toks_view(old_tokens) + seq![TokenView::Linebreak]);
                assert(toks_view(tokens@) =~= lines_tokens(lv.take(i + 1)));
            }
        }
        i += 1;
    }
    proof {
        assert(lv.take(lines@.len() as int) =~= lv);
    }
    tokens
}

} // verus!
