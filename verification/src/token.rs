//! The tokenizer: turns the input characters into a sequence of lexical
//! tokens, or fails on the first unrecognized character or on a numeric
//! literal that does not fit the token's integer width.

use vstd::prelude::*;
use vstd::string::StrSliceExecFns;

verus! {

/// The spec-level picture of a token: an operator symbol as its character
/// sequence, or an unsigned numeric literal.
pub enum TokenView {
    Sym(Seq<char>),
    Int(u32),
}

/// A lexical token: a reserved operator or punctuation symbol, or a numeric
/// literal.
#[derive(Clone, Debug, Eq, PartialEq)]
pub enum Token {
    Reserved(String),
    Num(u32),
}

impl View for Token {
    type V = TokenView;

    open spec fn view(&self) -> TokenView {
        match self {
            Token::Reserved(s) => TokenView::Sym(s@),
            Token::Num(n) => TokenView::Int(*n),
        }
    }
}

impl DeepView for Token {
    type V = TokenView;

    open spec fn deep_view(&self) -> TokenView {
        self.view()
    }
}

/// Why tokenizing failed: a character that starts no token, or a numeric
/// literal whose value does not fit in `u32`.
#[derive(Clone, Copy, Debug, Eq, PartialEq, Structural)]
pub enum LexError {
    UnexpectedChar,
    LiteralOverflow,
}

/// The characters that are skipped between tokens: the Unicode white-space
/// code points.
pub open spec fn is_space(c: char) -> bool {
    ||| c == ' '
    ||| c == '\t'
    ||| c == '\n'
    ||| c == '\r'
    ||| c == '\u{b}'
    ||| c == '\u{c}'
    ||| c == '\u{85}'
    ||| c == '\u{a0}'
    ||| c == '\u{1680}'
    ||| ('\u{2000}' <= c && c <= '\u{200a}')
    ||| c == '\u{2028}'
    ||| c == '\u{2029}'
    ||| c == '\u{202f}'
    ||| c == '\u{205f}'
    ||| c == '\u{3000}'
}

pub open spec fn is_digit(c: char) -> bool {
    48 <= c as u32 && c as u32 <= 57
}

/// The numeric value of an ASCII digit.
pub open spec fn digit_val(c: char) -> u32
    recommends
        is_digit(c),
{
    (c as u32 - 48) as u32
}

/// The single-character operators.
pub open spec fn is_single_op(c: char) -> bool {
    ||| c == '+'
    ||| c == '-'
    ||| c == '*'
    ||| c == '/'
    ||| c == '('
    ||| c == ')'
    ||| c == '<'
    ||| c == '>'
}

/// Do two adjacent characters form one of the two-character operators
/// `==`, `!=`, `>=`, `<=`?
pub open spec fn is_two_char_op(a: char, b: char) -> bool {
    ||| (a == '=' && b == '=')
    ||| (a == '!' && b == '=')
    ||| (a == '>' && b == '=')
    ||| (a == '<' && b == '=')
}

/// The tokens of `s` from position `i` on. A two-character operator window is
/// tried before any single-character operator, so `<=` is one token, never
/// `<` then `=`.
pub open spec fn spec_lex_from(s: Seq<char>, i: int) -> Result<Seq<TokenView>, LexError>
    decreases s.len() - i, 0int,
{
    if i < 0 || i >= s.len() {
        Ok(Seq::empty())
    } else {
        let c = s[i];
        if i + 1 < s.len() && is_two_char_op(c, s[i + 1]) {
            match spec_lex_from(s, i + 2) {
                Ok(rest) => Ok(seq![TokenView::Sym(seq![c, s[i + 1]])] + rest),
                Err(e) => Err(e),
            }
        } else if is_single_op(c) {
            match spec_lex_from(s, i + 1) {
                Ok(rest) => Ok(seq![TokenView::Sym(seq![c])] + rest),
                Err(e) => Err(e),
            }
        } else if is_digit(c) {
            spec_lex_num(s, i + 1, digit_val(c) as nat)
        } else if is_space(c) {
            spec_lex_from(s, i + 1)
        } else {
            Err(LexError::UnexpectedChar)
        }
    }
}

/// Continues a numeric literal whose digits so far have value `acc`: the
/// maximal run of digits forms one `Int` token, and a value beyond `u32` is a
/// fatal overflow.
pub open spec fn spec_lex_num(s: Seq<char>, i: int, acc: nat) -> Result<Seq<TokenView>, LexError>
    decreases s.len() - i, 1int,
{
    if acc > u32::MAX {
        Err(LexError::LiteralOverflow)
    } else if 0 <= i < s.len() && is_digit(s[i]) {
        spec_lex_num(s, i + 1, (acc * 10 + digit_val(s[i])) as nat)
    } else {
        match spec_lex_from(s, i) {
            Ok(rest) => Ok(seq![TokenView::Int(acc as u32)] + rest),
            Err(e) => Err(e),
        }
    }
}

/// The token sequence of the whole input, or the error that stops the scan.
pub open spec fn spec_tokenize(s: Seq<char>) -> Result<Seq<TokenView>, LexError> {
    spec_lex_from(s, 0)
}

/// Law: each two-character operator `==`, `!=`, `>=`, `<=` tokenizes as one
/// token carrying both characters, never as two one-character tokens.
pub proof fn lemma_two_char_single_token(a: char, b: char)
    requires
        is_two_char_op(a, b),
    ensures
        spec_tokenize(seq![a, b]) == Ok::<Seq<TokenView>, LexError>(
            seq![TokenView::Sym(seq![a, b])],
        ),
{
    let s = seq![a, b];
    assert(spec_lex_from(s, 2) == Ok::<Seq<TokenView>, LexError>(Seq::empty()));
    assert(seq![TokenView::Sym(seq![a, b])] + Seq::empty() =~= seq![TokenView::Sym(seq![a, b])]);
}

impl Token {
    /// The value of a numeric token; callers must not hand it an operator
    /// token.
    pub fn expect_number(&self) -> (n: u32)
        requires
            self@ matches TokenView::Int(_),
        ensures
            self@ == TokenView::Int(n),
    {
        match self {
            Token::Num(n) => *n,
            Token::Reserved(_) => vstd::pervasive::unreached(),
        }
    }
}

/// True when the two characters at `idx` form one of the two-character
/// operators `==`, `!=`, `>=`, `<=`.
pub fn matches_two_chars(chars: &[char], idx: usize) -> (b: bool)
    ensures
        b == (idx + 1 < chars@.len() && is_two_char_op(chars@[idx as int], chars@[idx as int + 1])),
{
    if idx < chars.len() && idx + 1 < chars.len() {
        let a = chars[idx];
        let c = chars[idx + 1];
        (a == '=' && c == '=') || (a == '!' && c == '=') || (a == '>' && c == '=') || (a == '<'
            && c == '=')
    } else {
        false
    }
}

/// The characters of `s`, in order.
fn chars_of(s: &str) -> (v: Vec<char>)
    ensures
        v@ == s@,
{
    let n: usize = s.unicode_len();
    let mut v: Vec<char> = Vec::new();
    let mut i: usize = 0;
    while i < n
        invariant
            i <= n,
            n == s@.len(),
            v@ == s@.subrange(0, i as int),
        decreases n - i,
    {
        v.push(s.get_char(i));
        i = i + 1;
        proof {
            assert(v@ =~= s@.subrange(0, i as int));
        }
    }
    proof {
        assert(v@ =~= s@);
    }
    v
}

fn is_space_char(c: char) -> (b: bool)
    ensures
        b == is_space(c),
{
    c == ' ' || c == '\t' || c == '\n' || c == '\r' || c == '\u{b}' || c == '\u{c}' || c == '\u{85}'
        || c == '\u{a0}' || c == '\u{1680}' || ('\u{2000}' <= c && c <= '\u{200a}') || c
        == '\u{2028}' || c == '\u{2029}' || c == '\u{202f}' || c == '\u{205f}' || c == '\u{3000}'
}

/// The digit's value, or `None` for any other character.
fn digit_of(c: char) -> (r: Option<u32>)
    ensures
        r == (if is_digit(c) {
            Some(digit_val(c))
        } else {
            None::<u32>
        }),
{
    let u: u32 = c as u32;
    if 48 <= u && u <= 57 {
        Some(u - 48)
    } else {
        None
    }
}

/// Scans `s` left to right. Whitespace separates tokens and is never
/// tokenized; `==`, `!=`, `>=`, `<=` are taken as single two-character
/// operators before any single-character match; a maximal run of ASCII digits
/// collapses into one numeric token, and a run whose value does not fit `u32`
/// is a fatal overflow.
pub fn tokenize(s: String) -> (r: Result<Vec<Token>, LexError>)
    ensures
        match r {
            Ok(ts) => spec_tokenize(s@) == Ok::<Seq<TokenView>, LexError>(ts.deep_view()),
            Err(e) => spec_tokenize(s@) == Err::<Seq<TokenView>, LexError>(e),
        },
{
    let chars = chars_of(s.as_str());
    let mut tokens: Vec<Token> = Vec::new();
    let mut idx: usize = 0;
    while idx < chars.len()
        invariant
            chars@ == s@,
            idx <= chars@.len(),
            spec_lex_from(s@, 0) == (match spec_lex_from(s@, idx as int) {
                Ok(rest) => Ok::<Seq<TokenView>, LexError>(tokens.deep_view() + rest),
                Err(e) => Err::<Seq<TokenView>, LexError>(e),
            }),
        decreases chars@.len() - idx,
    {
        let ghost prefix = tokens.deep_view();
        let c = chars[idx];
        if matches_two_chars(&chars, idx) {
            let sym = s.as_str().substring_char(idx, idx + 2).to_owned();
            proof {
                assert(sym@ =~= seq![s@[idx as int], s@[idx as int + 1]]);
            }
            tokens.push(Token::Reserved(sym));
            idx = idx + 2;
            proof {
                assert(tokens.deep_view() =~= prefix.push(TokenView::Sym(sym@)));
                if let Ok(rest) = spec_lex_from(s@, idx as int) {
                    assert(prefix + (seq![TokenView::Sym(sym@)] + rest) =~= tokens.deep_view()
                        + rest);
                }
            }
        } else if c == '+' || c == '-' || c == '*' || c == '/' || c == '(' || c == ')' || c == '<'
            || c == '>' {
            let sym = s.as_str().substring_char(idx, idx + 1).to_owned();
            proof {
                assert(sym@ =~= seq![s@[idx as int]]);
            }
            tokens.push(Token::Reserved(sym));
            idx = idx + 1;
            proof {
                assert(tokens.deep_view() =~= prefix.push(TokenView::Sym(sym@)));
                if let Ok(rest) = spec_lex_from(s@, idx as int) {
                    assert(prefix + (seq![TokenView::Sym(sym@)] + rest) =~= tokens.deep_view()
                        + rest);
                }
            }
        } else if let Some(d) = digit_of(c) {
            idx = idx + 1;
            let mut n: u32 = d;
            let ghost i_start = idx as int;
            loop
                invariant
                    chars@ == s@,
                    i_start <= idx as int,
                    idx <= chars@.len(),
                    tokens.deep_view() == prefix,
                    spec_lex_from(s@, 0) == (match spec_lex_num(s@, idx as int, n as nat) {
                        Ok(rest) => Ok::<Seq<TokenView>, LexError>(prefix + rest),
                        Err(e) => Err::<Seq<TokenView>, LexError>(e),
                    }),
                ensures
                    i_start <= idx as int,
                    idx <= chars@.len(),
                    tokens.deep_view() == prefix,
                    idx == chars@.len() || !is_digit(s@[idx as int]),
                    spec_lex_from(s@, 0) == (match spec_lex_num(s@, idx as int, n as nat) {
                        Ok(rest) => Ok::<Seq<TokenView>, LexError>(prefix + rest),
                        Err(e) => Err::<Seq<TokenView>, LexError>(e),
                    }),
                decreases chars@.len() - idx,
            {
                if idx < chars.len() {
                    if let Some(d2) = digit_of(chars[idx]) {
                        let ghost i_prev = idx as int;
                        let ghost n_prev = n as nat;
                        idx = idx + 1;
                        proof {
                            assert(spec_lex_num(s@, i_prev, n_prev) == spec_lex_num(
                                s@,
                                i_prev + 1,
                                (n_prev * 10 + digit_val(s@[i_prev])) as nat,
                            ));
                        }
                        let m: u32 = match n.checked_mul(10) {
                            Some(m) => m,
                            None => {
                                proof {
                                    assert(n_prev * 10 + digit_val(s@[i_prev]) > u32::MAX);
                                }
                                return Err(LexError::LiteralOverflow);
                            },
                        };
                        n = match m.checked_add(d2) {
                            Some(v) => v,
                            None => {
                                proof {
                                    assert(n_prev * 10 + digit_val(s@[i_prev]) > u32::MAX);
                                }
                                return Err(LexError::LiteralOverflow);
                            },
                        };
                    } else {
                        break ;
                    }
                } else {
                    break ;
                }
            }
            tokens.push(Token::Num(n));
            proof {
                assert(tokens.deep_view() =~= prefix.push(TokenView::Int(n)));
                if let Ok(rest) = spec_lex_from(s@, idx as int) {
                    assert(prefix + (seq![TokenView::Int(n)] + rest) =~= tokens.deep_view() + rest);
                }
            }
        } else if is_space_char(c) {
            idx = idx + 1;
        } else {
            return Err(LexError::UnexpectedChar);
        }
    }
    proof {
        assert(spec_lex_from(s@, idx as int) == Ok::<Seq<TokenView>, LexError>(
            Seq::<TokenView>::empty(),
        ));
        assert(tokens.deep_view() + Seq::<TokenView>::empty() =~= tokens.deep_view());
    }
    Ok(tokens)
}

} // verus!
