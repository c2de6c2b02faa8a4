//! The fragment grammar's lexical layer: source text is split into atomic
//! tokens (identifiers, literals, punctuation and delimiters), which the
//! transformer rewrites and re-serializes.
//!
//! The token stream is the structural representation of a fragment: every
//! transformation is specified as a function on token sequences, so nothing
//! outside a rewritten placeholder or identifier can be corrupted.

use vstd::prelude::*;

use crate::text::{alphanumeric_char, char_is_alphanumeric};
use crate::GraphyError;

verus! {

/// The kind of a token. Delimiters and the punctuation the transformation
/// rules inspect have kinds of their own.
#[derive(Debug, Clone, Copy, PartialEq, Eq, Structural)]
pub enum TokenKind {
    /// Identifier or keyword.
    Ident,
    /// Numeric literal, including a fraction and suffix.
    Num,
    /// String literal; `value` holds the unescaped contents.
    Str,
    /// Character literal.
    Ch,
    /// Lifetime.
    Life,
    /// `(`
    LParen,
    /// `)`
    RParen,
    /// `{`
    LBrace,
    /// `}`
    RBrace,
    /// `[`
    LBracket,
    /// `]`
    RBracket,
    /// `;`
    Semi,
    /// `!`
    Bang,
    /// `::`
    PathSep,
    /// `:`
    Colon,
    /// `.`
    Dot,
    /// `,`
    Comma,
    /// Any other punctuation, one maximal-munch token.
    Punct,
}

/// One token: its kind, its exact text, and for string literals the
/// unescaped value (for every other kind the value equals the text).
#[derive(Debug)]
pub struct Token {
    /// The token's kind.
    pub kind: TokenKind,
    /// The token's source text.
    pub text: Vec<char>,
    /// The unescaped contents for string literals; equals `text` otherwise.
    pub value: Vec<char>,
}

/// The mathematical value of a token.
pub ghost struct TokenModel {
    /// The token's kind.
    pub kind: TokenKind,
    /// The token's source text.
    pub text: Seq<char>,
    /// The unescaped contents for string literals.
    pub value: Seq<char>,
}

impl View for Token {
    type V = TokenModel;

    open spec fn view(&self) -> TokenModel {
        TokenModel { kind: self.kind, text: self.text@, value: self.value@ }
    }
}

/// The views of a token sequence.
pub open spec fn tokens_view(s: Seq<Token>) -> Seq<TokenModel> {
    s.map(|i: int, t: Token| t@)
}

/// Viewing commutes with appending one token.
pub proof fn lemma_tokens_view_push(s: Seq<Token>, t: Token)
    ensures
        tokens_view(s.push(t)) =~= tokens_view(s).push(t@),
{
    assert forall|j: int| 0 <= j < s.len() + 1 implies tokens_view(s.push(t))[j] == tokens_view(
        s,
    ).push(t@)[j] by {
        if j < s.len() {
            assert(tokens_view(s.push(t))[j] == s.push(t)[j]@);
            assert(tokens_view(s)[j] == s[j]@);
        } else {
            assert(tokens_view(s.push(t))[j] == s.push(t)[j]@);
        }
    }
}

/// Whitespace characters.
pub open spec fn is_ws(c: char) -> bool {
    c == ' ' || c == '\n' || c == '\t' || c == '\r'
}

/// Decimal digits.
pub open spec fn is_digit(c: char) -> bool {
    '0' <= c && c <= '9'
}

/// Characters that may continue an identifier.
pub open spec fn is_ident_char(c: char) -> bool {
    alphanumeric_char(c) || c == '_'
}

/// Characters that may start an identifier.
pub open spec fn is_ident_start(c: char) -> bool {
    is_ident_char(c) && !is_digit(c)
}

/// The first position at or after `i` that holds no whitespace.
pub open spec fn ws_end(s: Seq<char>, i: int) -> int
    decreases s.len() - i,
{
    if i < 0 || i >= s.len() {
        i
    } else if is_ws(s[i]) {
        ws_end(s, i + 1)
    } else {
        i
    }
}

/// The end of an identifier run starting at `i`.
pub open spec fn ident_end(s: Seq<char>, i: int) -> int
    decreases s.len() - i,
{
    if i < 0 || i >= s.len() {
        i
    } else if is_ident_char(s[i]) {
        ident_end(s, i + 1)
    } else {
        i
    }
}

/// The end of a numeric literal starting at `i`: an alphanumeric run, and a
/// fraction when a dot followed by a digit comes next (so a range `0..n`
/// is not swallowed).
pub open spec fn num_end(s: Seq<char>, i: int) -> int {
    let a = ident_end(s, i);
    if a < s.len() && s[a] == '.' && a + 1 < s.len() && is_digit(s[a + 1]) {
        ident_end(s, a + 1)
    } else {
        a
    }
}

/// The position of the closing quote of a string literal whose contents
/// start at `i`; `None` if the literal is unterminated.
pub open spec fn str_end(s: Seq<char>, i: int) -> Option<int>
    decreases s.len() - i,
{
    if i < 0 || i >= s.len() {
        None
    } else if s[i] == '"' {
        Some(i)
    } else if s[i] == '\\' {
        if i + 1 >= s.len() {
            None
        } else {
            str_end(s, i + 2)
        }
    } else {
        str_end(s, i + 1)
    }
}

/// The character an escape shorthand denotes.
pub open spec fn decode_escape(c: char) -> char {
    if c == 'n' {
        '\n'
    } else if c == 't' {
        '\t'
    } else if c == 'r' {
        '\r'
    } else if c == '0' {
        '\0'
    } else {
        c
    }
}

/// The unescaped value of the string contents `s[i..j]`.
pub open spec fn str_value(s: Seq<char>, i: int, j: int) -> Seq<char>
    decreases j - i,
{
    if i < 0 || i >= j || j > s.len() {
        Seq::<char>::empty()
    } else if s[i] == '\\' && i + 1 < j {
        seq![decode_escape(s[i + 1])] + str_value(s, i + 2, j)
    } else {
        seq![s[i]] + str_value(s, i + 1, j)
    }
}

/// The length of the maximal punctuation token at `i` (three, two or one
/// characters).
pub open spec fn punct_len(s: Seq<char>, i: int) -> int {
    if i + 3 <= s.len() && ((s[i] == '<' && s[i + 1] == '<' && s[i + 2] == '=') || (s[i] == '>'
        && s[i + 1] == '>' && s[i + 2] == '=') || (s[i] == '.' && s[i + 1] == '.' && s[i + 2]
        == '=') || (s[i] == '.' && s[i + 1] == '.' && s[i + 2] == '.')) {
        3
    } else if i + 2 <= s.len() && ((s[i] == ':' && s[i + 1] == ':') || (s[i] == '-' && s[i + 1]
        == '>') || (s[i] == '=' && s[i + 1] == '>') || (s[i] == '=' && s[i + 1] == '=') || (s[i]
        == '!' && s[i + 1] == '=') || (s[i] == '<' && s[i + 1] == '=') || (s[i] == '>' && s[i + 1]
        == '=') || (s[i] == '&' && s[i + 1] == '&') || (s[i] == '|' && s[i + 1] == '|') || (s[i]
        == '<' && s[i + 1] == '<') || (s[i] == '>' && s[i + 1] == '>') || (s[i] == '.' && s[i + 1]
        == '.') || (s[i] == '+' && s[i + 1] == '=') || (s[i] == '-' && s[i + 1] == '=') || (s[i]
        == '*' && s[i + 1] == '=') || (s[i] == '/' && s[i + 1] == '=') || (s[i] == '%' && s[i + 1]
        == '=') || (s[i] == '^' && s[i + 1] == '=') || (s[i] == '&' && s[i + 1] == '=') || (s[i]
        == '|' && s[i + 1] == '=')) {
        2
    } else {
        1
    }
}

/// The kind of a punctuation token with this text.
pub open spec fn punct_kind(t: Seq<char>) -> TokenKind {
    if t.len() == 1 && t[0] == '(' {
        TokenKind::LParen
    } else if t.len() == 1 && t[0] == ')' {
        TokenKind::RParen
    } else if t.len() == 1 && t[0] == '{' {
        TokenKind::LBrace
    } else if t.len() == 1 && t[0] == '}' {
        TokenKind::RBrace
    } else if t.len() == 1 && t[0] == '[' {
        TokenKind::LBracket
    } else if t.len() == 1 && t[0] == ']' {
        TokenKind::RBracket
    } else if t.len() == 1 && t[0] == ';' {
        TokenKind::Semi
    } else if t.len() == 1 && t[0] == '!' {
        TokenKind::Bang
    } else if t.len() == 1 && t[0] == ':' {
        TokenKind::Colon
    } else if t.len() == 1 && t[0] == '.' {
        TokenKind::Dot
    } else if t.len() == 1 && t[0] == ',' {
        TokenKind::Comma
    } else if t.len() == 2 && t[0] == ':' && t[1] == ':' {
        TokenKind::PathSep
    } else {
        TokenKind::Punct
    }
}

/// A token model for plain (non-string) text.
pub open spec fn plain_token(kind: TokenKind, text: Seq<char>) -> TokenModel {
    TokenModel { kind, text, value: text }
}

/// The token starting at the non-whitespace position `i`, and the position
/// just after it; `None` on an unterminated literal.
pub open spec fn spec_token_at(s: Seq<char>, i: int) -> Option<(TokenModel, int)> {
    let c = s[i];
    if is_ident_start(c) {
        let j = ident_end(s, i + 1);
        Some((plain_token(TokenKind::Ident, s.subrange(i, j)), j))
    } else if is_digit(c) {
        let j = num_end(s, i + 1);
        Some((plain_token(TokenKind::Num, s.subrange(i, j)), j))
    } else if c == '"' {
        match str_end(s, i + 1) {
            Some(j) => Some(
                (
                    TokenModel {
                        kind: TokenKind::Str,
                        text: s.subrange(i, j + 1),
                        value: str_value(s, i + 1, j),
                    },
                    j + 1,
                ),
            ),
            None => None,
        }
    } else if c == '\'' {
        if i + 3 < s.len() && s[i + 1] == '\\' && s[i + 3] == '\'' {
            Some((plain_token(TokenKind::Ch, s.subrange(i, i + 4)), i + 4))
        } else if i + 2 < s.len() && s[i + 1] != '\\' && s[i + 2] == '\'' {
            Some((plain_token(TokenKind::Ch, s.subrange(i, i + 3)), i + 3))
        } else {
            let j = ident_end(s, i + 1);
            Some((plain_token(TokenKind::Life, s.subrange(i, j)), j))
        }
    } else {
        let j = i + punct_len(s, i);
        Some((plain_token(punct_kind(s.subrange(i, j)), s.subrange(i, j)), j))
    }
}

/// The token sequence of the source from position `i` on; `None` on an
/// unterminated literal or a lexer step that makes no progress.
pub open spec fn spec_tokens(s: Seq<char>, i: int) -> Option<Seq<TokenModel>>
    decreases s.len() - i,
{
    if i < 0 {
        None
    } else {
        let j = ws_end(s, i);
        if j >= s.len() || j < i {
            Some(Seq::<TokenModel>::empty())
        } else {
            match spec_token_at(s, j) {
                None => None,
                Some((t, e)) => if e <= j || e > s.len() {
                    None
                } else {
                    match spec_tokens(s, e) {
                        None => None,
                        Some(rest) => Some(seq![t] + rest),
                    }
                },
            }
        }
    }
}

/// Leading whitespace reaches no further than the end of the text.
pub proof fn lemma_ws_end_bounds(s: Seq<char>, i: int)
    requires
        0 <= i <= s.len(),
    ensures
        i <= ws_end(s, i) <= s.len(),
    decreases s.len() - i,
{
    if i < s.len() && is_ws(s[i]) {
        lemma_ws_end_bounds(s, i + 1);
    }
}

/// Skips whitespace.
fn ws_end_exec(s: &Vec<char>, i: usize) -> (r: usize)
    requires
        i <= s@.len(),
    ensures
        r == ws_end(s@, i as int),
        i <= r <= s@.len(),
{
    let n = s.len();
    let mut j = i;
    while j < n && (s[j] == ' ' || s[j] == '\n' || s[j] == '\t' || s[j] == '\r')
        invariant
            i <= j <= n,
            n == s@.len(),
            ws_end(s@, i as int) == ws_end(s@, j as int),
        decreases n - j,
    {
        j = j + 1;
    }
    j
}

/// Scans an identifier run.
fn ident_end_exec(s: &Vec<char>, i: usize) -> (r: usize)
    requires
        i <= s@.len(),
    ensures
        r == ident_end(s@, i as int),
        i <= r <= s@.len(),
{
    let n = s.len();
    let mut j = i;
    loop
        invariant
            i <= j <= n,
            n == s@.len(),
            ident_end(s@, i as int) == ident_end(s@, j as int),
        decreases n - j,
    {
        if j < n {
            let c = s[j];
            if char_is_alphanumeric(c) || c == '_' {
                j = j + 1;
                continue ;
            }
        }
        return j;
    }
}

/// Scans to the closing quote of a string literal.
fn str_end_exec(s: &Vec<char>, i: usize) -> (r: Option<usize>)
    requires
        i <= s@.len(),
    ensures
        match r {
            Some(j) => str_end(s@, i as int) == Some(j as int) && i <= j < s@.len(),
            None => str_end(s@, i as int) is None,
        },
{
    let n = s.len();
    let mut j = i;
    loop
        invariant
            i <= j <= n,
            n == s@.len(),
            str_end(s@, i as int) == str_end(s@, j as int),
        decreases n - j,
    {
        if j >= n {
            return None;
        }
        if s[j] == '"' {
            return Some(j);
        }
        if s[j] == '\\' {
            if j + 1 >= n {
                return None;
            }
            j = j + 2;
        } else {
            j = j + 1;
        }
    }
}

/// Unescapes the string contents `s[i..j]`.
fn str_value_exec(s: &Vec<char>, i: usize, j: usize) -> (r: Vec<char>)
    requires
        i <= j <= s@.len(),
    ensures
        r@ == str_value(s@, i as int, j as int),
{
    let mut out: Vec<char> = Vec::new();
    let mut k = i;
    while k < j
        invariant
            i <= k <= j <= s@.len(),
            str_value(s@, i as int, j as int) =~= out@ + str_value(s@, k as int, j as int),
        decreases j - k,
    {
        let ghost pre = out@;
        let ghost kk = k as int;
        if s[k] == '\\' && k + 1 < j {
            let c = s[k + 1];
            let d = if c == 'n' {
                '\n'
            } else if c == 't' {
                '\t'
            } else if c == 'r' {
                '\r'
            } else if c == '0' {
                '\0'
            } else {
                c
            };
            out.push(d);
            k = k + 2;
            proof {
                assert(str_value(s@, kk, j as int) == seq![decode_escape(s@[kk + 1])] + str_value(
                    s@,
                    kk + 2,
                    j as int,
                ));
                assert(out@ =~= pre + seq![decode_escape(s@[kk + 1])]);
                assert(str_value(s@, i as int, j as int) =~= out@ + str_value(
                    s@,
                    k as int,
                    j as int,
                ));
            }
        } else {
            out.push(s[k]);
            k = k + 1;
            proof {
                assert(str_value(s@, kk, j as int) == seq![s@[kk]] + str_value(
                    s@,
                    kk + 1,
                    j as int,
                ));
                assert(out@ =~= pre + seq![s@[kk]]);
                assert(str_value(s@, i as int, j as int) =~= out@ + str_value(
                    s@,
                    k as int,
                    j as int,
                ));
            }
        }
    }
    proof {
        assert(str_value(s@, j as int, j as int) =~= Seq::<char>::empty());
        assert(out@ =~= str_value(s@, i as int, j as int));
    }
    out
}

/// Copies the characters `s[i..j]`.
fn subrange_exec(s: &Vec<char>, i: usize, j: usize) -> (r: Vec<char>)
    requires
        i <= j <= s@.len(),
    ensures
        r@ == s@.subrange(i as int, j as int),
{
    let mut out: Vec<char> = Vec::new();
    let mut k = i;
    while k < j
        invariant
            i <= k <= j <= s@.len(),
            out@ =~= s@.subrange(i as int, k as int),
        decreases j - k,
    {
        out.push(s[k]);
        proof {
            assert(out@ =~= s@.subrange(i as int, k + 1 as int));
        }
        k = k + 1;
    }
    out
}

/// Computes the length of the maximal punctuation token at `i`.
fn punct_len_exec(s: &Vec<char>, i: usize) -> (r: usize)
    requires
        i < s@.len(),
    ensures
        r == punct_len(s@, i as int),
        1 <= r <= 3,
        i + r <= s@.len() || r == 1,
{
    let n = s.len();
    if n - i >= 3 {
        let a = s[i];
        let b = s[i + 1];
        let c = s[i + 2];
        if (a == '<' && b == '<' && c == '=') || (a == '>' && b == '>' && c == '=') || (a == '.'
            && b == '.' && c == '=') || (a == '.' && b == '.' && c == '.') {
            return 3;
        }
    }
    if n - i >= 2 {
        let a = s[i];
        let b = s[i + 1];
        if (a == ':' && b == ':') || (a == '-' && b == '>') || (a == '=' && b == '>') || (a == '='
            && b == '=') || (a == '!' && b == '=') || (a == '<' && b == '=') || (a == '>' && b
            == '=') || (a == '&' && b == '&') || (a == '|' && b == '|') || (a == '<' && b == '<')
            || (a == '>' && b == '>') || (a == '.' && b == '.') || (a == '+' && b == '=') || (a
            == '-' && b == '=') || (a == '*' && b == '=') || (a == '/' && b == '=') || (a == '%'
            && b == '=') || (a == '^' && b == '=') || (a == '&' && b == '=') || (a == '|' && b
            == '=') {
            return 2;
        }
    }
    1
}

/// Classifies a punctuation token's text.
fn punct_kind_exec(t: &Vec<char>) -> (r: TokenKind)
    requires
        t@.len() >= 1,
    ensures
        r == punct_kind(t@),
{
    if t.len() == 1 {
        let c = t[0];
        if c == '(' {
            TokenKind::LParen
        } else if c == ')' {
            TokenKind::RParen
        } else if c == '{' {
            TokenKind::LBrace
        } else if c == '}' {
            TokenKind::RBrace
        } else if c == '[' {
            TokenKind::LBracket
        } else if c == ']' {
            TokenKind::RBracket
        } else if c == ';' {
            TokenKind::Semi
        } else if c == '!' {
            TokenKind::Bang
        } else if c == ':' {
            TokenKind::Colon
        } else if c == '.' {
            TokenKind::Dot
        } else if c == ',' {
            TokenKind::Comma
        } else {
            TokenKind::Punct
        }
    } else if t.len() == 2 {
        if t[0] == ':' && t[1] == ':' {
            TokenKind::PathSep
        } else {
            TokenKind::Punct
        }
    } else {
        TokenKind::Punct
    }
}

/// Prepends a prefix to each token sequence in an optional result.
pub open spec fn opt_prepend(pre: Seq<TokenModel>, o: Option<Seq<TokenModel>>) -> Option<
    Seq<TokenModel>,
> {
    match o {
        None => None,
        Some(r) => Some(pre + r),
    }
}

/// Splits the source text into tokens; fails on an unterminated string
/// literal.
#[verifier::rlimit(100)]
pub fn tokenize(s: &Vec<char>) -> (r: Result<Vec<Token>, GraphyError>)
    ensures
        match r {
            Ok(ts) => spec_tokens(s@, 0) == Some(tokens_view(ts@)),
            Err(e) => spec_tokens(s@, 0) is None && e is AstParsing,
        },
{
    let n = s.len();
    let mut out: Vec<Token> = Vec::new();
    let mut pos: usize = 0;
    proof {
        assert(tokens_view(out@) =~= Seq::<TokenModel>::empty());
    }
    while pos < n
        invariant
            n == s@.len(),
            0 <= pos <= n,
            spec_tokens(s@, 0) == opt_prepend(tokens_view(out@), spec_tokens(s@, pos as int)),
        decreases n - pos,
    {
        let ghost done = tokens_view(out@);
        let j = ws_end_exec(s, pos);
        proof {
            lemma_ws_end_bounds(s@, pos as int);
        }
        if j >= n {
            proof {
                assert(spec_tokens(s@, pos as int) == Some(Seq::<TokenModel>::empty()));
                assert(done + Seq::<TokenModel>::empty() =~= done);
            }
            return Ok(out);
        }
        let c = s[j];
        let token: Token;
        let next: usize;
        if char_is_alphanumeric(c) && !(c >= '0' && c <= '9') || c == '_' {
            let e = ident_end_exec(s, j + 1);
            let text = subrange_exec(s, j, e);
            let value = subrange_exec(s, j, e);
            token = Token { kind: TokenKind::Ident, text, value };
            next = e;
        } else if c >= '0' && c <= '9' {
            let a = ident_end_exec(s, j + 1);
            let e = if a < n && s[a] == '.' && a + 1 < n && (s[a + 1] >= '0' && s[a + 1] <= '9') {
                ident_end_exec(s, a + 1)
            } else {
                a
            };
            proof {
                assert(e as int == num_end(s@, j + 1 as int));
            }
            let text = subrange_exec(s, j, e);
            let value = subrange_exec(s, j, e);
            token = Token { kind: TokenKind::Num, text, value };
            next = e;
        } else if c == '"' {
            match str_end_exec(s, j + 1) {
                None => {
                    return Err(
                        GraphyError::AstParsing(
                            String::from_str("unterminated string literal in source fragment"),
                        ),
                    );
                },
                Some(q) => {
                    let text = subrange_exec(s, j, q + 1);
                    let value = str_value_exec(s, j + 1, q);
                    token = Token { kind: TokenKind::Str, text, value };
                    next = q + 1;
                },
            }
        } else if c == '\'' {
            if n - j > 3 && s[j + 1] == '\\' && s[j + 3] == '\'' {
                let text = subrange_exec(s, j, j + 4);
                let value = subrange_exec(s, j, j + 4);
                token = Token { kind: TokenKind::Ch, text, value };
                next = j + 4;
            } else if n - j > 2 && s[j + 1] != '\\' && s[j + 2] == '\'' {
                let text = subrange_exec(s, j, j + 3);
                let value = subrange_exec(s, j, j + 3);
                token = Token { kind: TokenKind::Ch, text, value };
                next = j + 3;
            } else {
                let e = ident_end_exec(s, j + 1);
                let text = subrange_exec(s, j, e);
                let value = subrange_exec(s, j, e);
                token = Token { kind: TokenKind::Life, text, value };
                next = e;
            }
        } else {
            let l = punct_len_exec(s, j);
            let e = if j + l <= n {
                j + l
            } else {
                j + 1
            };
            proof {
                assert(e as int == j + punct_len(s@, j as int));
            }
            let text = subrange_exec(s, j, e);
            let kind = punct_kind_exec(&text);
            let value = subrange_exec(s, j, e);
            token = Token { kind, text, value };
            next = e;
        }
        proof {
            assert(spec_token_at(s@, j as int) == Some((token@, next as int)));
            assert(next > j);
            assert(spec_tokens(s@, pos as int) == opt_prepend(
                seq![token@],
                spec_tokens(s@, next as int),
            ));
            assert(tokens_view(out@.push(token)) =~= done.push(token@));
            assert forall|rest: Seq<TokenModel>|
                spec_tokens(s@, next as int) == Some(rest) implies done.push(token@) + rest
                =~= done + (seq![token@] + rest) by {}
        }
        out.push(token);
        pos = next;
    }
    proof {
        assert(ws_end(s@, pos as int) == pos as int);
        assert(spec_tokens(s@, pos as int) == Some(Seq::<TokenModel>::empty()));
        assert(tokens_view(out@) + Seq::<TokenModel>::empty() =~= tokens_view(out@));
    }
    Ok(out)
}

} // verus!
