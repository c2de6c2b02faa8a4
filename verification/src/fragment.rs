//! The source-fragment transformer: parses the literal source body attached
//! to a control-flow node, splices caller-supplied continuation code into
//! its labeled placeholder markers, substitutes parameter identifiers, and
//! re-serializes the result.
//!
//! A fragment is a function-shaped unit: `fn`, a name, arbitrary signature
//! tokens, and a final brace-delimited body. The placeholder marker is the
//! fixed shape `exec_output("<label>")` written as a macro invocation
//! `exec_output!("<label>")`; it may stand as a statement (followed by a
//! semicolon) or in expression position. Each placeholder in the input is
//! rewritten once, left to right; spliced replacement text is not scanned
//! again. Identifier substitution replaces a whole bare identifier that is
//! not a keyword, not adjacent to `.`, `::`, `:` or `!`, and not directly
//! after `let`, `for` or `fn` (a binding position). Comments are not part
//! of the fragment grammar.

use vstd::prelude::*;

use crate::text::{chars_to_string, str_to_chars, string_views};
use crate::token::{
    is_ws, spec_tokens, tokenize, tokens_view, Token, TokenKind, TokenModel,
};
use crate::GraphyError;

verus! {

/// The nesting-depth change a token causes.
pub open spec fn depth_delta(k: TokenKind) -> int {
    if k == TokenKind::LParen || k == TokenKind::LBrace || k == TokenKind::LBracket {
        1
    } else if k == TokenKind::RParen || k == TokenKind::RBrace || k == TokenKind::RBracket {
        -1
    } else {
        0
    }
}

/// The nesting depth before token `i`.
pub open spec fn depth_at(ts: Seq<TokenModel>, i: int) -> int
    decreases i,
{
    if i <= 0 {
        0
    } else {
        depth_at(ts, i - 1) + depth_delta(ts[i - 1].kind)
    }
}

/// Whether the delimiters from `i` on nest properly against the stack of
/// expected closers.
pub open spec fn nest_ok_from(ts: Seq<TokenModel>, i: int, stack: Seq<TokenKind>) -> bool
    decreases ts.len() - i,
{
    if i < 0 {
        false
    } else if i >= ts.len() {
        stack.len() == 0
    } else {
        let k = ts[i].kind;
        if k == TokenKind::LParen {
            nest_ok_from(ts, i + 1, stack.push(TokenKind::RParen))
        } else if k == TokenKind::LBrace {
            nest_ok_from(ts, i + 1, stack.push(TokenKind::RBrace))
        } else if k == TokenKind::LBracket {
            nest_ok_from(ts, i + 1, stack.push(TokenKind::RBracket))
        } else if k == TokenKind::RParen || k == TokenKind::RBrace || k == TokenKind::RBracket {
            stack.len() > 0 && stack.last() == k && nest_ok_from(ts, i + 1, stack.drop_last())
        } else {
            nest_ok_from(ts, i + 1, stack)
        }
    }
}

/// Whether every delimiter in the token sequence is properly nested and
/// closed.
pub open spec fn nest_ok(ts: Seq<TokenModel>) -> bool {
    nest_ok_from(ts, 0, Seq::<TokenKind>::empty())
}

/// Checks delimiter nesting.
fn nest_ok_exec(ts: &Vec<Token>) -> (r: bool)
    ensures
        r == nest_ok(tokens_view(ts@)),
{
    let n = ts.len();
    let mut stack: Vec<TokenKind> = Vec::new();
    let mut i: usize = 0;
    proof {
        assert(stack@ =~= Seq::<TokenKind>::empty());
    }
    while i < n
        invariant
            n == ts@.len(),
            0 <= i <= n,
            nest_ok(tokens_view(ts@)) == nest_ok_from(tokens_view(ts@), i as int, stack@),
        decreases n - i,
    {
        let k = ts[i].kind;
        proof {
            assert(tokens_view(ts@)[i as int].kind == ts@[i as int]@.kind);
        }
        if k == TokenKind::LParen {
            stack.push(TokenKind::RParen);
        } else if k == TokenKind::LBrace {
            stack.push(TokenKind::RBrace);
        } else if k == TokenKind::LBracket {
            stack.push(TokenKind::RBracket);
        } else if k == TokenKind::RParen || k == TokenKind::RBrace || k == TokenKind::RBracket {
            if stack.len() == 0 {
                return false;
            }
            let top = stack[stack.len() - 1];
            if top != k {
                return false;
            }
            let ghost pre = stack@;
            stack.pop();
            proof {
                assert(stack@ =~= pre.drop_last());
            }
        }
        i = i + 1;
    }
    stack.len() == 0
}

/// Whether index `b` opens the fragment body: a top-level brace group that
/// closes exactly at the final token.
pub open spec fn body_at(ts: Seq<TokenModel>, b: int) -> bool {
    &&& 2 <= b < ts.len() - 1
    &&& ts[b].kind == TokenKind::LBrace
    &&& depth_at(ts, b) == 0
    &&& forall|x: int| b < x < ts.len() ==> depth_at(ts, x) >= 1
    &&& depth_at(ts, ts.len() as int) == 0
    &&& ts[ts.len() - 1].kind == TokenKind::RBrace
}

/// Whether the token sequence is a fragment: `fn`, a name, properly nested
/// delimiters, and a final top-level brace-delimited body.
pub open spec fn fragment_ok(ts: Seq<TokenModel>) -> bool {
    &&& ts.len() >= 4
    &&& ts[0].kind == TokenKind::Ident
    &&& ts[0].text == "fn"@
    &&& ts[1].kind == TokenKind::Ident
    &&& nest_ok(ts)
    &&& exists|b: int| body_at(ts, b)
}

/// The body of a fragment: the tokens inside its final brace group.
pub open spec fn fragment_body(ts: Seq<TokenModel>) -> Seq<TokenModel> {
    let b = choose|b: int| body_at(ts, b);
    ts.subrange(b + 1, ts.len() - 1)
}

/// The body opener is unique, so the body is well defined.
pub proof fn lemma_body_at_unique(ts: Seq<TokenModel>, b1: int, b2: int)
    requires
        body_at(ts, b1),
        body_at(ts, b2),
    ensures
        b1 == b2,
{
    if b1 < b2 {
        assert(depth_at(ts, b2) >= 1);
        assert(false);
    } else if b2 < b1 {
        assert(depth_at(ts, b1) >= 1);
        assert(false);
    }
}

/// Locates the fragment body; `None` when the tokens are not a fragment.
fn parse_fragment(ts: &Vec<Token>) -> (r: Option<usize>)
    ensures
        match r {
            Some(b) => fragment_ok(tokens_view(ts@)) && body_at(tokens_view(ts@), b as int),
            None => !fragment_ok(tokens_view(ts@)),
        },
{
    let ghost tv = tokens_view(ts@);
    let n = ts.len();
    if n < 4 {
        return None;
    }
    proof {
        assert(tv[0] == ts@[0]@);
        assert(tv[1] == ts@[1]@);
    }
    if !(ts[0].kind == TokenKind::Ident) {
        return None;
    }
    let fn_text = str_to_chars("fn");
    if !crate::text::chars_eq(&ts[0].text, &fn_text) {
        return None;
    }
    if !(ts[1].kind == TokenKind::Ident) {
        return None;
    }
    if !nest_ok_exec(ts) {
        return None;
    }
    // find the last top-level left brace and check its group runs to the end
    let mut depth: i128 = 0;
    let mut candidate: Option<usize> = None;
    let mut i: usize = 0;
    while i < n
        invariant
            n == ts@.len(),
            n <= usize::MAX,
            0 <= i <= n,
            tv == tokens_view(ts@),
            depth == depth_at(tv, i as int),
            -(i as int) <= depth <= i as int,
            match candidate {
                Some(b) => b < i && tv[b as int].kind == TokenKind::LBrace && depth_at(
                    tv,
                    b as int,
                ) == 0,
                None => forall|b: int|
                    0 <= b < i ==> !(tv[b].kind == TokenKind::LBrace && depth_at(tv, b) == 0),
            },
            forall|b: int|
                (match candidate {
                    Some(cb) => cb < b,
                    None => 0 <= b,
                }) && b < i ==> !(tv[b].kind == TokenKind::LBrace && depth_at(tv, b) == 0),
        decreases n - i,
    {
        let k = ts[i].kind;
        proof {
            assert(tv[i as int] == ts@[i as int]@);
        }
        if k == TokenKind::LBrace && depth == 0 {
            candidate = Some(i);
        }
        if k == TokenKind::LParen || k == TokenKind::LBrace || k == TokenKind::LBracket {
            depth = depth + 1;
        } else if k == TokenKind::RParen || k == TokenKind::RBrace || k == TokenKind::RBracket {
            depth = depth - 1;
        }
        i = i + 1;
    }
    match candidate {
        None => {
            proof {
                if exists|b: int| body_at(tv, b) {
                    let b = choose|b: int| body_at(tv, b);
                }
            }
            None
        },
        Some(b) => {
            if b < 2 {
                proof {
                    if exists|x: int| body_at(tv, x) {
                        let x = choose|x: int| body_at(tv, x);
                        if x > b {
                            assert(!(tv[x].kind == TokenKind::LBrace && depth_at(tv, x) == 0));
                        }
                        assert(x == b);
                    }
                }
                return None;
            }
            // the group must stay open until the very last token
            let mut d: i128 = 1;
            let mut x: usize = b + 1;
            let mut ok = true;
            while x < n
                invariant
                    n == ts@.len(),
                    b < x <= n,
                    tv == tokens_view(ts@),
                    d == depth_at(tv, x as int),
                    -(x as int) <= d <= x as int,
                    ok == (forall|y: int| b < y < x ==> depth_at(tv, y) >= 1),
                decreases n - x,
            {
                if d < 1 {
                    ok = false;
                }
                let k = ts[x].kind;
                proof {
                    assert(tv[x as int] == ts@[x as int]@);
                }
                if k == TokenKind::LParen || k == TokenKind::LBrace || k == TokenKind::LBracket {
                    d = d + 1;
                } else if k == TokenKind::RParen || k == TokenKind::RBrace || k
                    == TokenKind::RBracket {
                    d = d - 1;
                }
                x = x + 1;
            }
            proof {
                assert(tv[n - 1] == ts@[n - 1]@);
            }
            if ok && d == 0 && ts[n - 1].kind == TokenKind::RBrace && b < n - 1 {
                proof {
                    assert(body_at(tv, b as int));
                }
                Some(b)
            } else {
                proof {
                    if exists|y: int| body_at(tv, y) {
                        let y = choose|y: int| body_at(tv, y);
                        if y > b {
                            assert(!(tv[y].kind == TokenKind::LBrace && depth_at(tv, y) == 0));
                        }
                        if y < b {
                            assert(depth_at(tv, b as int) >= 1);
                        }
                        assert(y == b);
                        assert(forall|z: int| b < z < n ==> depth_at(tv, z) >= 1);
                        assert(depth_at(tv, n as int) == 0);
                    }
                }
                None
            }
        },
    }
}

/// Whether a placeholder marker `exec_output!("<label>")` starts at `i`.
pub open spec fn is_placeholder_at(ts: Seq<TokenModel>, i: int) -> bool {
    &&& 0 <= i
    &&& i + 5 <= ts.len()
    &&& ts[i].kind == TokenKind::Ident
    &&& ts[i].text == "exec_output"@
    &&& ts[i + 1].kind == TokenKind::Bang
    &&& ts[i + 2].kind == TokenKind::LParen
    &&& ts[i + 3].kind == TokenKind::Str
    &&& ts[i + 4].kind == TokenKind::RParen
}

/// Every placeholder label from position `i` on, in traversal order,
/// duplicates included.
pub open spec fn spec_labels(ts: Seq<TokenModel>, i: int) -> Seq<Seq<char>>
    decreases ts.len() - i,
{
    if i < 0 || i >= ts.len() {
        Seq::<Seq<char>>::empty()
    } else if is_placeholder_at(ts, i) {
        seq![ts[i + 3].value] + spec_labels(ts, i + 5)
    } else {
        spec_labels(ts, i + 1)
    }
}

/// The first token list paired with the key, if any.
pub open spec fn lookup_tokens(
    reps: Seq<(Seq<char>, Seq<TokenModel>)>,
    key: Seq<char>,
) -> Option<Seq<TokenModel>>
    decreases reps.len(),
{
    if reps.len() == 0 {
        None
    } else if reps[0].0 == key {
        Some(reps[0].1)
    } else {
        lookup_tokens(reps.drop_first(), key)
    }
}

/// Whether a semicolon stands at nesting depth zero of the token list.
pub open spec fn has_top_semi(ts: Seq<TokenModel>) -> bool {
    exists|i: int| 0 <= i < ts.len() && ts[i].kind == TokenKind::Semi && depth_at(ts, i) == 0
}

/// A brace token.
pub open spec fn brace_open_token() -> TokenModel {
    TokenModel { kind: TokenKind::LBrace, text: "{"@, value: "{"@ }
}

/// A closing brace token.
pub open spec fn brace_close_token() -> TokenModel {
    TokenModel { kind: TokenKind::RBrace, text: "}"@, value: "}"@ }
}

/// Replaces every placeholder whose label has a replacement, left to
/// right. A statement-position replacement that carries its own semicolon
/// absorbs the original one; an expression-position replacement containing
/// a top-level semicolon is wrapped in braces.
pub open spec fn spec_replace(
    ts: Seq<TokenModel>,
    reps: Seq<(Seq<char>, Seq<TokenModel>)>,
    i: int,
) -> Seq<TokenModel>
    decreases ts.len() - i,
{
    if i < 0 || i >= ts.len() {
        Seq::<TokenModel>::empty()
    } else if is_placeholder_at(ts, i) {
        match lookup_tokens(reps, ts[i + 3].value) {
            None => ts.subrange(i, i + 5) + spec_replace(ts, reps, i + 5),
            Some(rt) => {
                if i + 5 < ts.len() && ts[i + 5].kind == TokenKind::Semi {
                    if rt.len() > 0 && rt.last().kind == TokenKind::Semi {
                        rt + spec_replace(ts, reps, i + 6)
                    } else {
                        rt + spec_replace(ts, reps, i + 5)
                    }
                } else {
                    if has_top_semi(rt) {
                        seq![brace_open_token()] + rt + seq![brace_close_token()] + spec_replace(
                            ts,
                            reps,
                            i + 5,
                        )
                    } else {
                        rt + spec_replace(ts, reps, i + 5)
                    }
                }
            },
        }
    } else {
        seq![ts[i]] + spec_replace(ts, reps, i + 1)
    }
}

/// The keywords never treated as substitutable identifiers.
pub open spec fn is_keyword(t: Seq<char>) -> bool {
    ||| t == "fn"@
    ||| t == "let"@
    ||| t == "if"@
    ||| t == "else"@
    ||| t == "for"@
    ||| t == "while"@
    ||| t == "loop"@
    ||| t == "in"@
    ||| t == "match"@
    ||| t == "return"@
    ||| t == "break"@
    ||| t == "continue"@
    ||| t == "mut"@
    ||| t == "ref"@
    ||| t == "move"@
    ||| t == "as"@
    ||| t == "true"@
    ||| t == "false"@
}

/// Whether the identifier at `i` is a substitutable parameter reference: a
/// whole bare identifier, not a keyword, not part of a path, field access,
/// macro name or binding position.
pub open spec fn substitutable(ts: Seq<TokenModel>, i: int) -> bool {
    &&& 0 <= i < ts.len()
    &&& ts[i].kind == TokenKind::Ident
    &&& !is_keyword(ts[i].text)
    &&& (i == 0 || (ts[i - 1].kind != TokenKind::Dot && ts[i - 1].kind != TokenKind::PathSep && !(
    ts[i - 1].kind == TokenKind::Ident && (ts[i - 1].text == "let"@ || ts[i - 1].text == "for"@
        || ts[i - 1].text == "fn"@))))
    &&& (i + 1 >= ts.len() || (ts[i + 1].kind != TokenKind::PathSep && ts[i + 1].kind
        != TokenKind::Colon && ts[i + 1].kind != TokenKind::Bang))
}

/// Substitutes every substitutable identifier that has a replacement
/// expression.
pub open spec fn spec_substitute(
    ts: Seq<TokenModel>,
    subs: Seq<(Seq<char>, Seq<TokenModel>)>,
    i: int,
) -> Seq<TokenModel>
    decreases ts.len() - i,
{
    if i < 0 || i >= ts.len() {
        Seq::<TokenModel>::empty()
    } else if substitutable(ts, i) && lookup_tokens(subs, ts[i].text) is Some {
        lookup_tokens(subs, ts[i].text)->Some_0 + spec_substitute(ts, subs, i + 1)
    } else {
        seq![ts[i]] + spec_substitute(ts, subs, i + 1)
    }
}

/// The serialized text of a token sequence: token texts joined by single
/// spaces.
pub open spec fn spec_print(ts: Seq<TokenModel>) -> Seq<char>
    decreases ts.len(),
{
    if ts.len() == 0 {
        Seq::<char>::empty()
    } else if ts.len() == 1 {
        ts[0].text
    } else {
        spec_print(ts.drop_last()) + " "@ + ts.last().text
    }
}

/// Copies a character vector.
fn clone_chars(v: &Vec<char>) -> (r: Vec<char>)
    ensures
        r@ == v@,
{
    let n = v.len();
    let mut out: Vec<char> = Vec::new();
    let mut i: usize = 0;
    while i < n
        invariant
            n == v@.len(),
            0 <= i <= n,
            out@ =~= v@.subrange(0, i as int),
        decreases n - i,
    {
        out.push(v[i]);
        proof {
            assert(out@ =~= v@.subrange(0, i + 1 as int));
        }
        i = i + 1;
    }
    proof {
        assert(v@.subrange(0, n as int) =~= v@);
    }
    out
}

/// Copies a token.
fn clone_token(t: &Token) -> (r: Token)
    ensures
        r@ == t@,
{
    Token { kind: t.kind, text: clone_chars(&t.text), value: clone_chars(&t.value) }
}

/// Appends copies of all of `src` to `dst`.
fn append_tokens(dst: &mut Vec<Token>, src: &Vec<Token>)
    ensures
        tokens_view(final(dst)@) =~= tokens_view(old(dst)@) + tokens_view(src@),
{
    let n = src.len();
    let mut i: usize = 0;
    while i < n
        invariant
            n == src@.len(),
            0 <= i <= n,
            tokens_view(dst@) =~= tokens_view(old(dst)@) + tokens_view(src@).subrange(
                0,
                i as int,
            ),
        decreases n - i,
    {
        let t = clone_token(&src[i]);
        proof {
            assert(tokens_view(src@)[i as int] == src@[i as int]@);
            assert(t@ == tokens_view(src@)[i as int]);
            crate::token::lemma_tokens_view_push(dst@, t);
        }
        dst.push(t);
        proof {
            assert(tokens_view(dst@) =~= tokens_view(old(dst)@) + tokens_view(src@).subrange(
                0,
                i + 1 as int,
            ));
        }
        i = i + 1;
    }
    proof {
        assert(tokens_view(src@).subrange(0, n as int) =~= tokens_view(src@));
    }
}

/// The views of keyed token lists.
pub open spec fn rep_pairs_view(s: Seq<(Vec<char>, Vec<Token>)>) -> Seq<
    (Seq<char>, Seq<TokenModel>),
> {
    s.map(|i: int, e: (Vec<char>, Vec<Token>)| (e.0@, tokens_view(e.1@)))
}

/// Finds the first token list keyed by `key`.
fn lookup_exec<'a>(reps: &'a Vec<(Vec<char>, Vec<Token>)>, key: &Vec<char>) -> (r: Option<
    &'a Vec<Token>>)
    ensures
        match r {
            Some(ts) => lookup_tokens(rep_pairs_view(reps@), key@) == Some(tokens_view(ts@)),
            None => lookup_tokens(rep_pairs_view(reps@), key@) is None,
        },
{
    let n = reps.len();
    let mut i: usize = 0;
    proof {
        assert(rep_pairs_view(reps@).subrange(0, n as int) =~= rep_pairs_view(reps@));
    }
    while i < n
        invariant
            n == reps@.len(),
            0 <= i <= n,
            lookup_tokens(rep_pairs_view(reps@), key@) == lookup_tokens(
                rep_pairs_view(reps@).subrange(i as int, n as int),
                key@,
            ),
        decreases n - i,
    {
        proof {
            let rv = rep_pairs_view(reps@);
            assert(rv.subrange(i as int, n as int)[0] == rv[i as int]);
            assert(rv[i as int] == (reps@[i as int].0@, tokens_view(reps@[i as int].1@)));
            assert(rv.subrange(i as int, n as int).drop_first() =~= rv.subrange(
                i + 1 as int,
                n as int,
            ));
        }
        if crate::text::chars_eq(&reps[i].0, key) {
            return Some(&reps[i].1);
        }
        i = i + 1;
    }
    proof {
        assert(rep_pairs_view(reps@).subrange(n as int, n as int)
            =~= Seq::<(Seq<char>, Seq<TokenModel>)>::empty());
    }
    None
}

/// Checks for a semicolon at nesting depth zero.
fn has_top_semi_exec(ts: &Vec<Token>) -> (r: bool)
    ensures
        r == has_top_semi(tokens_view(ts@)),
{
    let ghost tv = tokens_view(ts@);
    let n = ts.len();
    let mut depth: i128 = 0;
    let mut i: usize = 0;
    while i < n
        invariant
            n == ts@.len(),
            0 <= i <= n,
            tv == tokens_view(ts@),
            depth == depth_at(tv, i as int),
            -(i as int) <= depth <= i as int,
            forall|j: int|
                0 <= j < i ==> !(tv[j].kind == TokenKind::Semi && depth_at(tv, j) == 0),
        decreases n - i,
    {
        let k = ts[i].kind;
        proof {
            assert(tv[i as int] == ts@[i as int]@);
        }
        if k == TokenKind::Semi && depth == 0 {
            return true;
        }
        if k == TokenKind::LParen || k == TokenKind::LBrace || k == TokenKind::LBracket {
            depth = depth + 1;
        } else if k == TokenKind::RParen || k == TokenKind::RBrace || k == TokenKind::RBracket {
            depth = depth - 1;
        }
        i = i + 1;
    }
    false
}

/// Tests for a placeholder marker at `i`.
fn is_placeholder_exec(ts: &Vec<Token>, i: usize) -> (r: bool)
    requires
        i < ts@.len(),
    ensures
        r == is_placeholder_at(tokens_view(ts@), i as int),
{
    let ghost tv = tokens_view(ts@);
    let n = ts.len();
    proof {
        assert(tv[i as int] == ts@[i as int]@);
    }
    if n - i < 5 {
        return false;
    }
    proof {
        assert(tv[i + 1 as int] == ts@[i + 1 as int]@);
        assert(tv[i + 2 as int] == ts@[i + 2 as int]@);
        assert(tv[i + 3 as int] == ts@[i + 3 as int]@);
        assert(tv[i + 4 as int] == ts@[i + 4 as int]@);
    }
    if !(ts[i].kind == TokenKind::Ident) {
        return false;
    }
    let marker = str_to_chars("exec_output");
    if !crate::text::chars_eq(&ts[i].text, &marker) {
        return false;
    }
    ts[i + 1].kind == TokenKind::Bang && ts[i + 2].kind == TokenKind::LParen && ts[i + 3].kind
        == TokenKind::Str && ts[i + 4].kind == TokenKind::RParen
}

/// Applies the placeholder replacement pass.
fn replace_exec(ts: &Vec<Token>, reps: &Vec<(Vec<char>, Vec<Token>)>) -> (r: Vec<Token>)
    ensures
        tokens_view(r@) == spec_replace(tokens_view(ts@), rep_pairs_view(reps@), 0),
{
    let ghost tv = tokens_view(ts@);
    let ghost rv = rep_pairs_view(reps@);
    let n = ts.len();
    let mut out: Vec<Token> = Vec::new();
    let mut i: usize = 0;
    proof {
        assert(tokens_view(out@) =~= Seq::<TokenModel>::empty());
    }
    while i < n
        invariant
            n == ts@.len(),
            0 <= i <= n,
            tv == tokens_view(ts@),
            rv == rep_pairs_view(reps@),
            spec_replace(tv, rv, 0) =~= tokens_view(out@) + spec_replace(tv, rv, i as int),
        decreases n - i,
    {
        let ghost done = tokens_view(out@);
        if is_placeholder_exec(ts, i) {
            match lookup_exec(reps, &ts[i + 3].value) {
                None => {
                    proof {
                        assert(tv[i + 3 as int] == ts@[i + 3 as int]@);
                    }
                    let mut k = i;
                    while k < i + 5
                        invariant
                            i <= k <= i + 5,
                            i + 5 <= n == ts@.len(),
                            tv == tokens_view(ts@),
                            tokens_view(out@) =~= done + tv.subrange(i as int, k as int),
                        decreases i + 5 - k,
                    {
                        let t = clone_token(&ts[k]);
                        proof {
                            assert(tv[k as int] == ts@[k as int]@);
                            assert(t@ == tv[k as int]);
                            crate::token::lemma_tokens_view_push(out@, t);
                        }
                        out.push(t);
                        proof {
                            assert(tokens_view(out@) =~= done + tv.subrange(
                                i as int,
                                k + 1 as int,
                            ));
                        }
                        k = k + 1;
                    }
                    proof {
                        assert(spec_replace(tv, rv, i as int) == tv.subrange(i as int, i + 5 as int)
                            + spec_replace(tv, rv, i + 5 as int));
                        assert(spec_replace(tv, rv, 0) =~= tokens_view(out@) + spec_replace(
                            tv,
                            rv,
                            i + 5 as int,
                        ));
                    }
                    i = i + 5;
                },
                Some(rt) => {
                    proof {
                        assert(tv[i + 3 as int] == ts@[i + 3 as int]@);
                    }
                    let stmt_pos = i + 5 < n && ts[i + 5].kind == TokenKind::Semi;
                    proof {
                        if i + 5 < n {
                            assert(tv[i + 5 as int] == ts@[i + 5 as int]@);
                        }
                    }
                    if stmt_pos {
                        let absorb = rt.len() > 0 && rt[rt.len() - 1].kind == TokenKind::Semi;
                        proof {
                            if rt@.len() > 0 {
                                assert(tokens_view(rt@).last() == rt@[rt@.len() - 1]@);
                            }
                        }
                        append_tokens(&mut out, rt);
                        if absorb {
                            proof {
                                assert(spec_replace(tv, rv, 0) =~= tokens_view(out@)
                                    + spec_replace(tv, rv, i + 6 as int));
                            }
                            i = i + 6;
                        } else {
                            proof {
                                assert(spec_replace(tv, rv, 0) =~= tokens_view(out@)
                                    + spec_replace(tv, rv, i + 5 as int));
                            }
                            i = i + 5;
                        }
                    } else {
                        if has_top_semi_exec(rt) {
                            let mut open_text: Vec<char> = Vec::new();
                            open_text.push('{');
                            let open_value = clone_chars(&open_text);
                            let open = Token {
                                kind: TokenKind::LBrace,
                                text: open_text,
                                value: open_value,
                            };
                            proof {
                                reveal_strlit("{");
                                assert(open.text@ =~= "{"@);
                                assert(open.value@ =~= "{"@);
                                assert(open@ == brace_open_token());
                            }
                            proof {
                                crate::token::lemma_tokens_view_push(out@, open);
                            }
                            out.push(open);
                            append_tokens(&mut out, rt);
                            let mut close_text: Vec<char> = Vec::new();
                            close_text.push('}');
                            let close_value = clone_chars(&close_text);
                            let close = Token {
                                kind: TokenKind::RBrace,
                                text: close_text,
                                value: close_value,
                            };
                            proof {
                                reveal_strlit("}");
                                assert(close.text@ =~= "}"@);
                                assert(close.value@ =~= "}"@);
                                assert(close@ == brace_close_token());
                            }
                            proof {
                                crate::token::lemma_tokens_view_push(out@, close);
                            }
                            out.push(close);
                            proof {
                                assert(spec_replace(tv, rv, i as int) == seq![brace_open_token()]
                                    + tokens_view(rt@) + seq![brace_close_token()] + spec_replace(
                                    tv,
                                    rv,
                                    i + 5 as int,
                                ));
                                assert(tokens_view(out@) =~= done + (seq![brace_open_token()]
                                    + tokens_view(rt@) + seq![brace_close_token()]));
                                assert(spec_replace(tv, rv, 0) =~= tokens_view(out@)
                                    + spec_replace(tv, rv, i + 5 as int));
                            }
                        } else {
                            append_tokens(&mut out, rt);
                            proof {
                                assert(spec_replace(tv, rv, 0) =~= tokens_view(out@)
                                    + spec_replace(tv, rv, i + 5 as int));
                            }
                        }
                        i = i + 5;
                    }
                },
            }
        } else {
            let t = clone_token(&ts[i]);
            proof {
                assert(tv[i as int] == ts@[i as int]@);
                assert(t@ == tv[i as int]);
                assert(spec_replace(tv, rv, i as int) == seq![tv[i as int]] + spec_replace(
                    tv,
                    rv,
                    i + 1 as int,
                ));
                crate::token::lemma_tokens_view_push(out@, t);
            }
            out.push(t);
            proof {
                assert(tokens_view(out@) =~= done.push(tv[i as int]));
                assert(spec_replace(tv, rv, 0) =~= tokens_view(out@) + spec_replace(
                    tv,
                    rv,
                    i + 1 as int,
                ));
            }
            i = i + 1;
        }
    }
    proof {
        assert(spec_replace(tv, rv, n as int) =~= Seq::<TokenModel>::empty());
        assert(tokens_view(out@) =~= spec_replace(tv, rv, 0));
    }
    out
}

/// Tests whether the text is a keyword.
fn is_keyword_exec(t: &Vec<char>) -> (r: bool)
    ensures
        r == is_keyword(t@),
{
    let w = crate::text::chars_eq;
    if w(t, &str_to_chars("fn")) {
        return true;
    }
    if w(t, &str_to_chars("let")) {
        return true;
    }
    if w(t, &str_to_chars("if")) {
        return true;
    }
    if w(t, &str_to_chars("else")) {
        return true;
    }
    if w(t, &str_to_chars("for")) {
        return true;
    }
    if w(t, &str_to_chars("while")) {
        return true;
    }
    if w(t, &str_to_chars("loop")) {
        return true;
    }
    if w(t, &str_to_chars("in")) {
        return true;
    }
    if w(t, &str_to_chars("match")) {
        return true;
    }
    if w(t, &str_to_chars("return")) {
        return true;
    }
    if w(t, &str_to_chars("break")) {
        return true;
    }
    if w(t, &str_to_chars("continue")) {
        return true;
    }
    if w(t, &str_to_chars("mut")) {
        return true;
    }
    if w(t, &str_to_chars("ref")) {
        return true;
    }
    if w(t, &str_to_chars("move")) {
        return true;
    }
    if w(t, &str_to_chars("as")) {
        return true;
    }
    if w(t, &str_to_chars("true")) {
        return true;
    }
    if w(t, &str_to_chars("false")) {
        return true;
    }
    false
}

/// Applies the identifier substitution pass.
fn substitute_exec(ts: &Vec<Token>, subs: &Vec<(Vec<char>, Vec<Token>)>) -> (r: Vec<Token>)
    ensures
        tokens_view(r@) == spec_substitute(tokens_view(ts@), rep_pairs_view(subs@), 0),
{
    let ghost tv = tokens_view(ts@);
    let ghost sv = rep_pairs_view(subs@);
    let n = ts.len();
    let mut out: Vec<Token> = Vec::new();
    let mut i: usize = 0;
    proof {
        assert(tokens_view(out@) =~= Seq::<TokenModel>::empty());
    }
    while i < n
        invariant
            n == ts@.len(),
            0 <= i <= n,
            tv == tokens_view(ts@),
            sv == rep_pairs_view(subs@),
            spec_substitute(tv, sv, 0) =~= tokens_view(out@) + spec_substitute(tv, sv, i as int),
        decreases n - i,
    {
        let ghost done = tokens_view(out@);
        proof {
            assert(tv[i as int] == ts@[i as int]@);
            if i > 0 {
                assert(tv[i - 1 as int] == ts@[i - 1 as int]@);
            }
            if i + 1 < n {
                assert(tv[i + 1 as int] == ts@[i + 1 as int]@);
            }
        }
        let mut ok = ts[i].kind == TokenKind::Ident && !is_keyword_exec(&ts[i].text);
        if ok && i > 0 {
            let pk = ts[i - 1].kind;
            if pk == TokenKind::Dot || pk == TokenKind::PathSep {
                ok = false;
            } else if pk == TokenKind::Ident {
                let pt = &ts[i - 1].text;
                if crate::text::chars_eq(pt, &str_to_chars("let")) || crate::text::chars_eq(
                    pt,
                    &str_to_chars("for"),
                ) || crate::text::chars_eq(pt, &str_to_chars("fn")) {
                    ok = false;
                }
            }
        }
        if ok && i + 1 < n {
            let nk = ts[i + 1].kind;
            if nk == TokenKind::PathSep || nk == TokenKind::Colon || nk == TokenKind::Bang {
                ok = false;
            }
        }
        proof {
            assert(ok == substitutable(tv, i as int));
        }
        let mut done_step = false;
        if ok {
            match lookup_exec(subs, &ts[i].text) {
                Some(rt) => {
                    append_tokens(&mut out, rt);
                    proof {
                        assert(spec_substitute(tv, sv, i as int) == tokens_view(rt@)
                            + spec_substitute(tv, sv, i + 1 as int));
                        assert(spec_substitute(tv, sv, 0) =~= tokens_view(out@) + spec_substitute(
                            tv,
                            sv,
                            i + 1 as int,
                        ));
                    }
                    done_step = true;
                },
                None => {},
            }
        }
        if !done_step {
            let t = clone_token(&ts[i]);
            proof {
                assert(tv[i as int] == ts@[i as int]@);
                assert(t@ == tv[i as int]);
                assert(spec_substitute(tv, sv, i as int) == seq![tv[i as int]] + spec_substitute(
                    tv,
                    sv,
                    i + 1 as int,
                ));
                crate::token::lemma_tokens_view_push(out@, t);
            }
            out.push(t);
            proof {
                assert(tokens_view(out@) =~= done.push(tv[i as int]));
                assert(spec_substitute(tv, sv, 0) =~= tokens_view(out@) + spec_substitute(
                    tv,
                    sv,
                    i + 1 as int,
                ));
            }
        }
        i = i + 1;
    }
    proof {
        assert(spec_substitute(tv, sv, n as int) =~= Seq::<TokenModel>::empty());
        assert(tokens_view(out@) =~= spec_substitute(tv, sv, 0));
    }
    out
}

/// Serializes a token sequence, joining token texts with single spaces.
fn print_exec(ts: &Vec<Token>) -> (r: String)
    ensures
        r@ == spec_print(tokens_view(ts@)),
{
    let ghost tv = tokens_view(ts@);
    let n = ts.len();
    let mut out: Vec<char> = Vec::new();
    let mut i: usize = 0;
    while i < n
        invariant
            n == ts@.len(),
            0 <= i <= n,
            tv == tokens_view(ts@),
            out@ =~= spec_print(tv.subrange(0, i as int)),
        decreases n - i,
    {
        proof {
            assert(tv[i as int] == ts@[i as int]@);
        }
        if i > 0 {
            out.push(' ');
        }
        let m = ts[i].text.len();
        let mut k: usize = 0;
        let ghost mid = out@;
        while k < m
            invariant
                m == ts@[i as int].text@.len(),
                i < n == ts@.len(),
                0 <= k <= m,
                out@ =~= mid + ts@[i as int].text@.subrange(0, k as int),
            decreases m - k,
        {
            out.push(ts[i].text[k]);
            proof {
                assert(out@ =~= mid + ts@[i as int].text@.subrange(0, k + 1 as int));
            }
            k = k + 1;
        }
        proof {
            assert(ts@[i as int].text@.subrange(0, m as int) =~= ts@[i as int].text@);
            let pre = tv.subrange(0, i as int);
            let cur = tv.subrange(0, i + 1 as int);
            assert(cur.drop_last() =~= pre);
            assert(cur.last() == tv[i as int]);
            if i == 0 {
                assert(spec_print(cur) == tv[0].text);
                assert(out@ =~= spec_print(cur));
            } else {
                assert(spec_print(cur) == spec_print(pre) + " "@ + tv[i as int].text);
                reveal_strlit(" ");
                assert(out@ =~= spec_print(cur));
            }
        }
        i = i + 1;
    }
    proof {
        assert(tv.subrange(0, n as int) =~= tv);
    }
    chars_to_string(&out)
}

/// The views of a keyed string pair sequence.
pub open spec fn string_pair_views(s: Seq<(String, String)>) -> Seq<(Seq<char>, Seq<char>)> {
    s.map(|i: int, e: (String, String)| (e.0@, e.1@))
}

/// The keyed token lists of keyed replacement texts: every value must
/// tokenize and nest properly.
pub open spec fn spec_tokenized_pairs(pairs: Seq<(Seq<char>, Seq<char>)>) -> Option<
    Seq<(Seq<char>, Seq<TokenModel>)>,
>
    decreases pairs.len(),
{
    if pairs.len() == 0 {
        Some(Seq::<(Seq<char>, Seq<TokenModel>)>::empty())
    } else {
        match spec_tokenized_pairs(pairs.drop_last()) {
            None => None,
            Some(pre) => match spec_tokens(pairs.last().1, 0) {
                None => None,
                Some(ts) => if nest_ok(ts) {
                    Some(pre.push((pairs.last().0, ts)))
                } else {
                    None
                },
            },
        }
    }
}

/// Tokenizes every replacement text; fails with a clear signal when one
/// does not parse.
fn tokenize_pairs(pairs: &Vec<(String, String)>) -> (r: Result<
    Vec<(Vec<char>, Vec<Token>)>,
    GraphyError,
>)
    ensures
        match r {
            Ok(out) => spec_tokenized_pairs(string_pair_views(pairs@)) == Some(
                rep_pairs_view(out@),
            ),
            Err(e) => spec_tokenized_pairs(string_pair_views(pairs@)) is None && e is AstParsing,
        },
{
    let ghost pv = string_pair_views(pairs@);
    let n = pairs.len();
    let mut out: Vec<(Vec<char>, Vec<Token>)> = Vec::new();
    let mut i: usize = 0;
    proof {
        assert(rep_pairs_view(out@) =~= Seq::<(Seq<char>, Seq<TokenModel>)>::empty());
        assert(pv.subrange(0, 0) =~= Seq::<(Seq<char>, Seq<char>)>::empty());
    }
    while i < n
        invariant
            n == pairs@.len(),
            0 <= i <= n,
            pv == string_pair_views(pairs@),
            spec_tokenized_pairs(pv.subrange(0, i as int)) == Some(rep_pairs_view(out@)),
        decreases n - i,
    {
        proof {
            assert(pv[i as int] == (pairs@[i as int].0@, pairs@[i as int].1@));
            assert(pv.subrange(0, i + 1 as int).drop_last() =~= pv.subrange(0, i as int));
            assert(pv.subrange(0, i + 1 as int).last() == pv[i as int]);
        }
        let value_chars = str_to_chars(pairs[i].1.as_str());
        match tokenize(&value_chars) {
            Err(_) => {
                proof {
                    assert(spec_tokenized_pairs(pv.subrange(0, i + 1 as int)) is None);
                    lemma_tokenized_pairs_prefix_none(pv, i + 1);
                }
                return Err(
                    GraphyError::AstParsing(
                        String::from_str("replacement did not parse as code"),
                    ),
                );
            },
            Ok(ts) => {
                if !nest_ok_exec(&ts) {
                    proof {
                        assert(spec_tokenized_pairs(pv.subrange(0, i + 1 as int)) is None);
                        lemma_tokenized_pairs_prefix_none(pv, i + 1);
                    }
                    return Err(
                        GraphyError::AstParsing(
                            String::from_str("replacement did not parse as code"),
                        ),
                    );
                }
                let key_chars = str_to_chars(pairs[i].0.as_str());
                let ghost pre = rep_pairs_view(out@);
                out.push((key_chars, ts));
                proof {
                    let e = out@[out@.len() - 1];
                    assert(e.0@ == pairs@[i as int].0@);
                    assert(rep_pairs_view(out@) =~= pre.push((e.0@, tokens_view(e.1@))));
                    assert(spec_tokenized_pairs(pv.subrange(0, i + 1 as int)) == Some(
                        rep_pairs_view(out@),
                    ));
                }
                i = i + 1;
            },
        }
    }
    proof {
        assert(pv.subrange(0, n as int) =~= pv);
    }
    Ok(out)
}

/// A prefix that fails to tokenize makes the whole list fail.
proof fn lemma_tokenized_pairs_prefix_none(pv: Seq<(Seq<char>, Seq<char>)>, k: int)
    requires
        0 <= k <= pv.len(),
        spec_tokenized_pairs(pv.subrange(0, k)) is None,
    ensures
        spec_tokenized_pairs(pv) is None,
    decreases pv.len() - k,
{
    if k < pv.len() {
        assert(pv.subrange(0, k + 1).drop_last() =~= pv.subrange(0, k));
        lemma_tokenized_pairs_prefix_none(pv, k + 1);
    } else {
        assert(pv.subrange(0, k) =~= pv);
    }
}

/// The inlining transform, end to end: tokenize the fragment and every
/// replacement, splice placeholder branches, substitute parameters, and
/// serialize the transformed body. `None` exactly when the fragment or a
/// replacement does not parse.
pub open spec fn spec_inline(
    src: Seq<char>,
    reps: Seq<(Seq<char>, Seq<char>)>,
    subs: Seq<(Seq<char>, Seq<char>)>,
) -> Option<Seq<char>> {
    match spec_tokens(src, 0) {
        None => None,
        Some(ts) => if !fragment_ok(ts) {
            None
        } else {
            match spec_tokenized_pairs(reps) {
                None => None,
                Some(rv) => match spec_tokenized_pairs(subs) {
                    None => None,
                    Some(sv) => Some(
                        spec_print(
                            spec_substitute(spec_replace(fragment_body(ts), rv, 0), sv, 0),
                        ),
                    ),
                },
            }
        },
    }
}

/// Inlines a control-flow fragment: replaces each `exec_output!("<label>")`
/// placeholder whose label has an entry in `exec_replacements`, substitutes
/// each parameter identifier named in `param_substitutions`, and returns the
/// fragment's transformed body text. Labels without a replacement stay
/// untouched. Fails exactly when the fragment or a supplied replacement
/// does not parse.
pub fn inline_control_flow_function(
    function_source: &str,
    exec_replacements: &Vec<(String, String)>,
    param_substitutions: &Vec<(String, String)>,
) -> (r: Result<String, GraphyError>)
    ensures
        match r {
            Ok(out) => spec_inline(
                function_source@,
                string_pair_views(exec_replacements@),
                string_pair_views(param_substitutions@),
            ) == Some(out@),
            Err(e) => spec_inline(
                function_source@,
                string_pair_views(exec_replacements@),
                string_pair_views(param_substitutions@),
            ) is None && e is AstParsing,
        },
{
    let chars = str_to_chars(function_source);
    let ts = match tokenize(&chars) {
        Ok(ts) => ts,
        Err(e) => {
            return Err(e);
        },
    };
    let b = match parse_fragment(&ts) {
        Some(b) => b,
        None => {
            return Err(GraphyError::AstParsing(String::from_str("failed to parse function")));
        },
    };
    let reps = match tokenize_pairs(exec_replacements) {
        Ok(reps) => reps,
        Err(e) => {
            return Err(e);
        },
    };
    let subs = match tokenize_pairs(param_substitutions) {
        Ok(subs) => subs,
        Err(e) => {
            return Err(e);
        },
    };
    let n = ts.len();
    let mut body: Vec<Token> = Vec::new();
    let mut i: usize = b + 1;
    proof {
        assert(tokens_view(body@) =~= Seq::<TokenModel>::empty());
    }
    while i < n - 1
        invariant
            n == ts@.len(),
            b + 1 <= i <= n - 1,
            b < n,
            tokens_view(body@) =~= tokens_view(ts@).subrange(b + 1 as int, i as int),
        decreases n - i,
    {
        let t = clone_token(&ts[i]);
        proof {
            assert(tokens_view(ts@)[i as int] == ts@[i as int]@);
            assert(t@ == tokens_view(ts@)[i as int]);
            crate::token::lemma_tokens_view_push(body@, t);
        }
        body.push(t);
        proof {
            assert(tokens_view(body@) =~= tokens_view(ts@).subrange(b + 1 as int, i + 1 as int));
        }
        i = i + 1;
    }
    proof {
        let tv = tokens_view(ts@);
        let bb = choose|x: int| body_at(tv, x);
        lemma_body_at_unique(tv, bb, b as int);
        assert(tokens_view(body@) =~= fragment_body(tv));
    }
    let replaced = replace_exec(&body, &reps);
    let substituted = substitute_exec(&replaced, &subs);
    let out = print_exec(&substituted);
    Ok(out)
}

/// The labels a fragment's placeholders carry, in traversal order with
/// duplicates; `None` exactly when the fragment does not parse.
pub open spec fn spec_extract_labels(src: Seq<char>) -> Option<Seq<Seq<char>>> {
    match spec_tokens(src, 0) {
        None => None,
        Some(ts) => if !fragment_ok(ts) {
            None
        } else {
            Some(spec_labels(fragment_body(ts), 0))
        },
    }
}

/// Extracts every placeholder label from a fragment, in traversal order,
/// duplicates included.
pub fn extract_exec_output_labels(function_source: &str) -> (r: Result<Vec<String>, GraphyError>)
    ensures
        match r {
            Ok(labels) => spec_extract_labels(function_source@) == Some(string_views(labels@)),
            Err(e) => spec_extract_labels(function_source@) is None && e is AstParsing,
        },
{
    let chars = str_to_chars(function_source);
    let ts = match tokenize(&chars) {
        Ok(ts) => ts,
        Err(e) => {
            return Err(e);
        },
    };
    let b = match parse_fragment(&ts) {
        Some(b) => b,
        None => {
            return Err(GraphyError::AstParsing(String::from_str("failed to parse function")));
        },
    };
    let n = ts.len();
    let mut body: Vec<Token> = Vec::new();
    let mut i: usize = b + 1;
    proof {
        assert(tokens_view(body@) =~= Seq::<TokenModel>::empty());
    }
    while i < n - 1
        invariant
            n == ts@.len(),
            b + 1 <= i <= n - 1,
            b < n,
            tokens_view(body@) =~= tokens_view(ts@).subrange(b + 1 as int, i as int),
        decreases n - i,
    {
        let t = clone_token(&ts[i]);
        proof {
            assert(tokens_view(ts@)[i as int] == ts@[i as int]@);
            assert(t@ == tokens_view(ts@)[i as int]);
            crate::token::lemma_tokens_view_push(body@, t);
        }
        body.push(t);
        proof {
            assert(tokens_view(body@) =~= tokens_view(ts@).subrange(b + 1 as int, i + 1 as int));
        }
        i = i + 1;
    }
    proof {
        let tv = tokens_view(ts@);
        let bb = choose|x: int| body_at(tv, x);
        lemma_body_at_unique(tv, bb, b as int);
        assert(tokens_view(body@) =~= fragment_body(tv));
    }
    let ghost bv = tokens_view(body@);
    let m = body.len();
    let mut labels: Vec<String> = Vec::new();
    let mut k: usize = 0;
    proof {
        assert(string_views(labels@) =~= Seq::<Seq<char>>::empty());
    }
    while k < m
        invariant
            m == body@.len(),
            0 <= k <= m,
            bv == tokens_view(body@),
            spec_labels(bv, 0) =~= string_views(labels@) + spec_labels(bv, k as int),
        decreases m - k,
    {
        let ghost done = string_views(labels@);
        if is_placeholder_exec(&body, k) {
            proof {
                assert(bv[k + 3 as int] == body@[k + 3 as int]@);
            }
            let value = clone_chars(&body[k + 3].value);
            let label = chars_to_string(&value);
            labels.push(label);
            proof {
                assert(string_views(labels@) =~= done.push(bv[k + 3 as int].value));
                assert(spec_labels(bv, k as int) == seq![bv[k + 3 as int].value] + spec_labels(
                    bv,
                    k + 5 as int,
                ));
                assert(spec_labels(bv, 0) =~= string_views(labels@) + spec_labels(
                    bv,
                    k + 5 as int,
                ));
            }
            k = k + 5;
        } else {
            proof {
                assert(spec_labels(bv, k as int) == spec_labels(bv, k + 1 as int));
            }
            k = k + 1;
        }
    }
    proof {
        assert(spec_labels(bv, m as int) =~= Seq::<Seq<char>>::empty());
        assert(string_views(labels@) =~= spec_labels(bv, 0));
    }
    Ok(labels)
}

/// The first index at or after `i` holding the character, if any.
pub open spec fn find_first(s: Seq<char>, c: char, i: int) -> Option<int>
    decreases s.len() - i,
{
    if i < 0 || i >= s.len() {
        None
    } else if s[i] == c {
        Some(i)
    } else {
        find_first(s, c, i + 1)
    }
}

/// The last index before `j` holding the character, if any.
pub open spec fn find_last(s: Seq<char>, c: char, j: int) -> Option<int>
    decreases j,
{
    if j <= 0 || j > s.len() {
        None
    } else if s[j - 1] == c {
        Some(j - 1)
    } else {
        find_last(s, c, j - 1)
    }
}

/// The start of the trailing whitespace run ending at `j`.
pub open spec fn trail_ws_start(s: Seq<char>, j: int) -> int
    decreases j,
{
    if j <= 0 || j > s.len() {
        j
    } else if is_ws(s[j - 1]) {
        trail_ws_start(s, j - 1)
    } else {
        j
    }
}

/// The text with surrounding whitespace removed.
pub open spec fn spec_trim(s: Seq<char>) -> Seq<char> {
    let a = crate::token::ws_end(s, 0);
    let b = trail_ws_start(s, s.len() as int);
    if 0 <= a <= b <= s.len() {
        s.subrange(a, b)
    } else {
        Seq::<char>::empty()
    }
}

/// What `extract_function_body` returns: the trimmed text between the
/// first opening brace and the last closing brace; `None` when no such
/// span exists.
pub open spec fn spec_extract_body(code: Seq<char>) -> Option<Seq<char>> {
    match find_first(code, '{', 0) {
        None => None,
        Some(a) => match find_last(code, '}', code.len() as int) {
            None => None,
            Some(b) => if a < b {
                Some(spec_trim(code.subrange(a + 1, b)))
            } else {
                None
            },
        },
    }
}

/// Extracts the body text of a function-shaped unit: the trimmed substring
/// between the first `{` and the last `}`.
pub fn extract_function_body(code: &str) -> (r: Result<String, GraphyError>)
    ensures
        match r {
            Ok(body) => spec_extract_body(code@) == Some(body@),
            Err(e) => spec_extract_body(code@) is None && e is AstParsing,
        },
{
    let chars = str_to_chars(code);
    let n = chars.len();
    // first opening brace
    let mut a: usize = 0;
    let mut found_a = false;
    while a < n && !found_a
        invariant
            n == chars@.len(),
            0 <= a <= n,
            !found_a ==> find_first(chars@, '{', 0) == find_first(chars@, '{', a as int),
            found_a ==> a < n && find_first(chars@, '{', 0) == Some(a as int),
        decreases n - a + (if found_a {
            0int
        } else {
            1int
        }),
    {
        if chars[a] == '{' {
            found_a = true;
        } else {
            a = a + 1;
        }
    }
    if !found_a {
        return Err(GraphyError::AstParsing(String::from_str("Could not extract function body")));
    }
    // last closing brace
    let mut b: usize = n;
    let mut found_b = false;
    while b > 0 && !found_b
        invariant
            n == chars@.len(),
            0 <= b <= n,
            !found_b ==> find_last(chars@, '}', n as int) == find_last(chars@, '}', b as int),
            found_b ==> b < n && find_last(chars@, '}', n as int) == Some(b as int),
        decreases b + (if found_b {
            0int
        } else {
            1int
        }),
    {
        if chars[b - 1] == '}' {
            b = b - 1;
            found_b = true;
        } else {
            b = b - 1;
        }
    }
    if !found_b {
        return Err(GraphyError::AstParsing(String::from_str("Could not extract function body")));
    }
    if a >= b {
        return Err(GraphyError::AstParsing(String::from_str("Could not extract function body")));
    }
    // trim the span between the braces
    let inner = subrange_chars(&chars, a + 1, b);
    let trimmed = trim_chars(&inner);
    Ok(chars_to_string(&trimmed))
}

/// Copies the characters `s[i..j]`.
pub(crate) fn subrange_chars(s: &Vec<char>, i: usize, j: usize) -> (r: Vec<char>)
    requires
        i <= j <= s@.len(),
    ensures
        r@ == s@.subrange(i as int, j as int),
{
    let mut out: Vec<char> = Vec::new();
    let mut k = i;
    while k < j
        invariant
            i <= k <= j <= s@.len(),
            out@ =~= s@.subrange(i as int, k as int),
        decreases j - k,
    {
        out.push(s[k]);
        proof {
            assert(out@ =~= s@.subrange(i as int, k + 1 as int));
        }
        k = k + 1;
    }
    out
}

/// Removes surrounding whitespace.
pub(crate) fn trim_chars(s: &Vec<char>) -> (r: Vec<char>)
    ensures
        r@ == spec_trim(s@),
{
    let n = s.len();
    let mut a: usize = 0;
    while a < n && (s[a] == ' ' || s[a] == '\n' || s[a] == '\t' || s[a] == '\r')
        invariant
            n == s@.len(),
            0 <= a <= n,
            crate::token::ws_end(s@, 0) == crate::token::ws_end(s@, a as int),
        decreases n - a,
    {
        a = a + 1;
    }
    proof {
        assert(crate::token::ws_end(s@, a as int) == a as int);
    }
    let mut b: usize = n;
    while b > 0 && (s[b - 1] == ' ' || s[b - 1] == '\n' || s[b - 1] == '\t' || s[b - 1] == '\r')
        invariant
            n == s@.len(),
            0 <= b <= n,
            trail_ws_start(s@, n as int) == trail_ws_start(s@, b as int),
        decreases b,
    {
        b = b - 1;
    }
    proof {
        assert(trail_ws_start(s@, b as int) == b as int);
    }
    if a <= b {
        subrange_chars(s, a, b)
    } else {
        let r: Vec<char> = Vec::new();
        proof {
            assert(r@ =~= Seq::<char>::empty());
        }
        r
    }
}

/// No identifier token of the sequence is the placeholder marker name.
pub open spec fn no_markers(ts: Seq<TokenModel>) -> bool {
    forall|i: int|
        0 <= i < ts.len() ==> !(ts[i].kind == TokenKind::Ident && ts[i].text == "exec_output"@)
}

/// Every occurrence of the marker name starts a complete placeholder.
pub open spec fn markers_shaped(ts: Seq<TokenModel>) -> bool {
    forall|i: int|
        0 <= i < ts.len() && ts[i].kind == TokenKind::Ident && ts[i].text == "exec_output"@
            ==> is_placeholder_at(ts, i)
}

/// Every placeholder's label is collected by the label scan.
proof fn lemma_labels_cover(ts: Seq<TokenModel>, k: int, i: int)
    requires
        0 <= k <= i,
        is_placeholder_at(ts, i),
    ensures
        spec_labels(ts, k).contains(ts[i + 3].value),
    decreases i - k,
{
    if k == i {
        assert(spec_labels(ts, k)[0] == ts[i + 3].value);
    } else if is_placeholder_at(ts, k) {
        assert(i >= k + 5) by {
            if i < k + 5 {
                assert(ts[i].kind == TokenKind::Ident);
            }
        }
        lemma_labels_cover(ts, k + 5, i);
        let x = choose|x: int|
            0 <= x < spec_labels(ts, k + 5).len() && #[trigger] spec_labels(ts, k + 5)[x] == ts[i
                + 3].value;
        assert(spec_labels(ts, k)[x + 1] == ts[i + 3].value);
    } else {
        lemma_labels_cover(ts, k + 1, i);
    }
}

/// Idempotence: when no label of the token sequence has a replacement
/// (for instance because those labels were already spliced away), the
/// replacement pass is the identity.
pub proof fn lemma_replace_noop(ts: Seq<TokenModel>, reps: Seq<(Seq<char>, Seq<TokenModel>)>)
    requires
        forall|l: Seq<char>| #[trigger]
            spec_labels(ts, 0).contains(l) ==> lookup_tokens(reps, l) is None,
    ensures
        spec_replace(ts, reps, 0) == ts,
{
    lemma_replace_noop_from(ts, reps, 0);
    assert(ts.subrange(0, ts.len() as int) =~= ts);
}

/// The replacement pass leaves the suffix untouched when no label has a
/// replacement.
proof fn lemma_replace_noop_from(
    ts: Seq<TokenModel>,
    reps: Seq<(Seq<char>, Seq<TokenModel>)>,
    i: int,
)
    requires
        0 <= i <= ts.len(),
        forall|l: Seq<char>| #[trigger]
            spec_labels(ts, 0).contains(l) ==> lookup_tokens(reps, l) is None,
    ensures
        spec_replace(ts, reps, i) =~= ts.subrange(i, ts.len() as int),
    decreases ts.len() - i,
{
    if i >= ts.len() {
        assert(ts.subrange(i, ts.len() as int) =~= Seq::<TokenModel>::empty());
    } else if is_placeholder_at(ts, i) {
        lemma_labels_cover(ts, 0, i);
        assert(lookup_tokens(reps, ts[i + 3].value) is None);
        lemma_replace_noop_from(ts, reps, i + 5);
        assert(ts.subrange(i, i + 5) + ts.subrange(i + 5, ts.len() as int) =~= ts.subrange(
            i,
            ts.len() as int,
        ));
    } else {
        lemma_replace_noop_from(ts, reps, i + 1);
        assert(seq![ts[i]] + ts.subrange(i + 1, ts.len() as int) =~= ts.subrange(
            i,
            ts.len() as int,
        ));
    }
}

/// The looked-up token list is one of the stored values.
proof fn lemma_lookup_in(
    reps: Seq<(Seq<char>, Seq<TokenModel>)>,
    key: Seq<char>,
)
    requires
        lookup_tokens(reps, key) is Some,
    ensures
        exists|k: int| 0 <= k < reps.len() && reps[k].1 == lookup_tokens(reps, key)->Some_0,
    decreases reps.len(),
{
    if reps.len() > 0 && reps[0].0 != key {
        lemma_lookup_in(reps.drop_first(), key);
        let k = choose|k: int|
            0 <= k < reps.drop_first().len() && reps.drop_first()[k].1 == lookup_tokens(
                reps.drop_first(),
                key,
            )->Some_0;
        assert(reps[k + 1].1 == lookup_tokens(reps, key)->Some_0);
    }
}

/// Full replacement leaves no placeholder markers: when every placeholder
/// label has a replacement, every marker occurrence starts a placeholder,
/// and the replacements themselves carry no marker, the transformed
/// sequence has no marker tokens and therefore no labels.
pub proof fn lemma_full_replacement_no_markers(
    ts: Seq<TokenModel>,
    reps: Seq<(Seq<char>, Seq<TokenModel>)>,
)
    requires
        markers_shaped(ts),
        forall|i: int| #[trigger]
            is_placeholder_at(ts, i) ==> lookup_tokens(reps, ts[i + 3].value) is Some,
        forall|k: int| 0 <= k < reps.len() ==> no_markers(#[trigger] reps[k].1),
    ensures
        no_markers(spec_replace(ts, reps, 0)),
        spec_labels(spec_replace(ts, reps, 0), 0) =~= Seq::<Seq<char>>::empty(),
{
    lemma_full_replacement_no_markers_from(ts, reps, 0);
    lemma_no_markers_no_labels(spec_replace(ts, reps, 0), 0);
}

/// The transformed suffix holds no marker tokens.
proof fn lemma_full_replacement_no_markers_from(
    ts: Seq<TokenModel>,
    reps: Seq<(Seq<char>, Seq<TokenModel>)>,
    i: int,
)
    requires
        0 <= i,
        markers_shaped(ts),
        forall|i2: int| #[trigger]
            is_placeholder_at(ts, i2) ==> lookup_tokens(reps, ts[i2 + 3].value) is Some,
        forall|k: int| 0 <= k < reps.len() ==> no_markers(#[trigger] reps[k].1),
    ensures
        no_markers(spec_replace(ts, reps, i)),
    decreases ts.len() - i,
{
    reveal_strlit("{");
    reveal_strlit("}");
    reveal_strlit("exec_output");
    if i >= ts.len() {
    } else if is_placeholder_at(ts, i) {
        let rt = lookup_tokens(reps, ts[i + 3].value)->Some_0;
        lemma_lookup_in(reps, ts[i + 3].value);
        assert(no_markers(rt));
        if i + 5 < ts.len() && ts[i + 5].kind == TokenKind::Semi {
            if rt.len() > 0 && rt.last().kind == TokenKind::Semi {
                lemma_full_replacement_no_markers_from(ts, reps, i + 6);
            } else {
                lemma_full_replacement_no_markers_from(ts, reps, i + 5);
            }
        } else {
            lemma_full_replacement_no_markers_from(ts, reps, i + 5);
        }
    } else {
        lemma_full_replacement_no_markers_from(ts, reps, i + 1);
        assert(!(ts[i].kind == TokenKind::Ident && ts[i].text == "exec_output"@));
    }
}

/// Without marker tokens there are no placeholders, hence no labels.
proof fn lemma_no_markers_no_labels(ts: Seq<TokenModel>, i: int)
    requires
        0 <= i,
        no_markers(ts),
    ensures
        spec_labels(ts, i) =~= Seq::<Seq<char>>::empty(),
    decreases ts.len() - i,
{
    if i < ts.len() {
        assert(!is_placeholder_at(ts, i));
        lemma_no_markers_no_labels(ts, i + 1);
    }
}

} // verus!
