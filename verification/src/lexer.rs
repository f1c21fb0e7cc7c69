use vstd::prelude::*;

use crate::text::{
    alphanumeric, ascii_alpha, ascii_digit, char_whitespace, numeric, chars_of, is_ascii_alpha,
    is_ascii_digit, spells,
};
use crate::token::{Token, TokenType, TokenView, tokens_view};
use vstd::string::StringSliceAdditionalSpecFns;
use vstd::utf8::{
    decode_utf8, encode_utf8, encode_utf8_decode_utf8, encode_utf8_valid_utf8, is_char_boundary,
    is_char_boundary_iff_not_is_continuation_byte, is_char_boundary_start_end_of_seq, valid_utf8,
    valid_utf8_split, is_ascii_chars, is_ascii_chars_encode_utf8,
};

verus! {

/// The character at `p`, if there is one.
pub open spec fn char_at(cs: Seq<char>, p: nat) -> Option<char> {
    if p < cs.len() { Some(cs[p as int]) } else { None }
}

/// The first position at or after `p` that does not hold whitespace.
pub open spec fn skip_ws(cs: Seq<char>, p: nat) -> nat
    decreases cs.len() - p,
{
    if p < cs.len() && char_whitespace(cs[p as int]) {
        skip_ws(cs, p + 1)
    } else {
        p
    }
}

/// Where a `//` comment whose text starts at `p` ends: just past its newline,
/// or one past the end of the text when no newline follows.
pub open spec fn comment_end(cs: Seq<char>, p: nat) -> nat
    decreases cs.len() - p,
{
    if p >= cs.len() {
        cs.len() + 1
    } else if cs[p as int] == '\n' {
        p + 1
    } else {
        comment_end(cs, p + 1)
    }
}

/// The position of the first `"` at or after `p`, or the end of the text.
pub open spec fn string_end(cs: Seq<char>, p: nat) -> nat
    decreases cs.len() - p,
{
    if p < cs.len() && cs[p as int] != '"' {
        string_end(cs, p + 1)
    } else {
        p
    }
}

/// Where a number starting at `p` ends: ASCII digits and at most one `.`
/// (`dot` says whether one was already taken).
pub open spec fn number_end(cs: Seq<char>, p: nat, dot: bool) -> nat
    decreases cs.len() - p,
{
    if p < cs.len() && is_ascii_digit(cs[p as int]) {
        number_end(cs, p + 1, dot)
    } else if p < cs.len() && cs[p as int] == '.' && !dot {
        number_end(cs, p + 1, true)
    } else {
        p
    }
}

/// Where the rest of an identifier from `p` ends: alphanumerics and `_`.
pub open spec fn ident_end(cs: Seq<char>, p: nat) -> nat
    decreases cs.len() - p,
{
    if p < cs.len() && (alphanumeric(cs[p as int]) || cs[p as int] == '_') {
        ident_end(cs, p + 1)
    } else {
        p
    }
}

/// Which characters can start an identifier or keyword.
pub open spec fn is_ident_start(c: char) -> bool {
    is_ascii_alpha(c) || c == '_'
}

/// The kind of a word: its keyword, or `Identifier`.
pub open spec fn keyword_kind(w: Seq<char>) -> TokenType {
    if w == "let"@ {
        TokenType::Let
    } else if w == "true"@ {
        TokenType::True
    } else if w == "false"@ {
        TokenType::False
    } else if w == "and"@ {
        TokenType::And
    } else if w == "or"@ {
        TokenType::Or
    } else if w == "if"@ {
        TokenType::If
    } else if w == "elif"@ {
        TokenType::Elif
    } else if w == "else"@ {
        TokenType::Else
    } else if w == "for"@ {
        TokenType::For
    } else if w == "while"@ {
        TokenType::While
    } else if w == "break"@ {
        TokenType::Break
    } else if w == "continue"@ {
        TokenType::Continue
    } else if w == "fn"@ {
        TokenType::Fn
    } else if w == "return"@ {
        TokenType::Return
    } else {
        TokenType::Identifier
    }
}

/// The two-character operators.
pub open spec fn two_char_kind(c: char, next: Option<char>) -> Option<TokenType> {
    match (c, next) {
        ('<', Some('=')) => Some(TokenType::LessEqual),
        ('>', Some('=')) => Some(TokenType::GreaterEqual),
        ('=', Some('=')) => Some(TokenType::EqualEqual),
        ('!', Some('=')) => Some(TokenType::NotEqual),
        ('&', Some('&')) => Some(TokenType::And),
        ('|', Some('|')) => Some(TokenType::Or),
        _ => None,
    }
}

/// The one-character tokens.
pub open spec fn single_char_kind(c: char) -> Option<TokenType> {
    if c == '(' {
        Some(TokenType::LParen)
    } else if c == ')' {
        Some(TokenType::RParen)
    } else if c == '{' {
        Some(TokenType::LBrace)
    } else if c == '}' {
        Some(TokenType::RBrace)
    } else if c == ',' {
        Some(TokenType::Comma)
    } else if c == ';' {
        Some(TokenType::Semicolon)
    } else if c == ':' {
        Some(TokenType::Colon)
    } else if c == '.' {
        Some(TokenType::Dot)
    } else if c == '+' {
        Some(TokenType::Plus)
    } else if c == '-' {
        Some(TokenType::Minus)
    } else if c == '*' {
        Some(TokenType::Times)
    } else if c == '/' {
        Some(TokenType::Divide)
    } else if c == '%' {
        Some(TokenType::Modulo)
    } else if c == '!' {
        Some(TokenType::Bang)
    } else if c == '<' {
        Some(TokenType::Less)
    } else if c == '>' {
        Some(TokenType::Greater)
    } else if c == '=' {
        Some(TokenType::Assign)
    } else {
        None
    }
}

pub open spec fn mk_token(kind: TokenType, lexeme: Seq<char>, start: nat, end: nat) -> TokenView {
    TokenView { kind, start, end, lexeme }
}

pub proof fn lemma_skip_ws(cs: Seq<char>, p: nat)
    ensures
        skip_ws(cs, p) >= p,
        p <= cs.len() ==> skip_ws(cs, p) <= cs.len(),
        skip_ws(cs, p) < cs.len() ==> !char_whitespace(cs[skip_ws(cs, p) as int]),
        skip_ws(cs, p) > p ==> char_whitespace(cs[skip_ws(cs, p) - 1]),
    decreases cs.len() - p,
{
    if p < cs.len() && char_whitespace(cs[p as int]) {
        lemma_skip_ws(cs, p + 1);
    }
}

pub proof fn lemma_comment_end(cs: Seq<char>, p: nat)
    requires
        p <= cs.len(),
    ensures
        p < comment_end(cs, p) <= cs.len() + 1,
        comment_end(cs, p) <= cs.len() ==> cs[comment_end(cs, p) - 1] == '\n',
    decreases cs.len() - p,
{
    if p < cs.len() && cs[p as int] != '\n' {
        lemma_comment_end(cs, p + 1);
    }
}

pub proof fn lemma_string_end(cs: Seq<char>, p: nat)
    requires
        p <= cs.len(),
    ensures
        p <= string_end(cs, p) <= cs.len(),
    decreases cs.len() - p,
{
    if p < cs.len() && cs[p as int] != '"' {
        lemma_string_end(cs, p + 1);
    }
}

pub proof fn lemma_number_end(cs: Seq<char>, p: nat, dot: bool)
    requires
        p <= cs.len(),
    ensures
        p <= number_end(cs, p, dot) <= cs.len(),
    decreases cs.len() - p,
{
    if p < cs.len() && is_ascii_digit(cs[p as int]) {
        lemma_number_end(cs, p + 1, dot);
    } else if p < cs.len() && cs[p as int] == '.' && !dot {
        lemma_number_end(cs, p + 1, true);
    }
}

pub proof fn lemma_ident_end(cs: Seq<char>, p: nat)
    requires
        p <= cs.len(),
    ensures
        p <= ident_end(cs, p) <= cs.len(),
    decreases cs.len() - p,
{
    if p < cs.len() && (alphanumeric(cs[p as int]) || cs[p as int] == '_') {
        lemma_ident_end(cs, p + 1);
    }
}

/// Whether the text `&src[a..b]` can be taken when the character positions
/// `a` and `b` are used as byte offsets into the source's UTF-8 encoding:
/// both must fall on character boundaries (as they do wherever no non-ASCII
/// character comes before them).
pub open spec fn slice_ok(cs: Seq<char>, a: nat, b: nat) -> bool {
    a <= b && is_char_boundary(encode_utf8(cs), a as int) && is_char_boundary(encode_utf8(cs), b as int)
}

/// The text `&src[a..b]` with the character positions `a` and `b` used as
/// byte offsets: the characters that the bytes `a..b` of the UTF-8 encoding
/// spell.
pub open spec fn byte_slice(cs: Seq<char>, a: nat, b: nat) -> Seq<char> {
    decode_utf8(encode_utf8(cs).subrange(a as int, b as int))
}

/// The token that the lexer takes at position `p`, and the position after it.
/// The text of a string, number or word is the source sliced at its character
/// positions taken as byte offsets. `None` where the lexer makes no progress
/// (a character that starts no token, or a numeric character that is not an
/// ASCII digit), or where such a slice would not fall on character boundaries.
pub open spec fn next_token(cs: Seq<char>, p: nat) -> Option<(TokenView, nat)>
    decreases cs.len() + 2 - p,
{
    let start = skip_ws(cs, p);
    if start >= cs.len() {
        Some((mk_token(TokenType::EOF, "EOF"@, start, start), start))
    } else {
        let ch = cs[start as int];
        if ch == '/' && char_at(cs, start + 1) == Some('/') {
            proof {
                lemma_skip_ws(cs, p);
                lemma_comment_end(cs, start + 2);
            }
            next_token(cs, comment_end(cs, start + 2))
        } else if ch == '"' {
            let e = string_end(cs, start + 1);
            if slice_ok(cs, start + 1, e) {
                Some((mk_token(TokenType::String, byte_slice(cs, start + 1, e), start + 1, e + 1), e + 1))
            } else {
                None
            }
        } else if numeric(ch) {
            let e = number_end(cs, start, false);
            if e == start || !slice_ok(cs, start, e) {
                None
            } else {
                Some((mk_token(TokenType::Number, byte_slice(cs, start, e), start, e), e))
            }
        } else if is_ident_start(ch) {
            let e = ident_end(cs, start + 1);
            if slice_ok(cs, start, e) {
                let w = byte_slice(cs, start, e);
                Some((mk_token(keyword_kind(w), w, start, e), e))
            } else {
                None
            }
        } else if two_char_kind(ch, char_at(cs, start + 1)) is Some {
            Some((mk_token(two_char_kind(ch, char_at(cs, start + 1))->0,
                seq![ch, cs[start + 1 as int]], start, start + 2), start + 2))
        } else if single_char_kind(ch) is Some {
            Some((mk_token(single_char_kind(ch)->0, seq![ch], start, start + 1), start + 1))
        } else {
            None
        }
    }
}

pub proof fn lemma_next_token(cs: Seq<char>, p: nat)
    requires
        p <= cs.len() + 1,
    ensures
        next_token(cs, p) matches Some((t, q)) ==> {
            &&& q <= cs.len() + 1
            &&& t.kind == TokenType::EOF ==> q >= cs.len()
            &&& t.kind != TokenType::EOF ==> q > p && p < cs.len()
        },
    decreases cs.len() + 2 - p,
{
    lemma_skip_ws(cs, p);
    let start = skip_ws(cs, p);
    if start < cs.len() {
        let ch = cs[start as int];
        if ch == '/' && char_at(cs, start + 1) == Some('/') {
            lemma_comment_end(cs, start + 2);
            lemma_next_token(cs, comment_end(cs, start + 2));
        } else if ch == '"' {
            lemma_string_end(cs, start + 1);
        } else if numeric(ch) {
            lemma_number_end(cs, start, false);
        } else if is_ident_start(ch) {
            lemma_ident_end(cs, start + 1);
        }
    }
}

/// The tokens that the lexer produces from position `p` to the end, the last
/// being `EOF`; `None` where it would run forever or panic.
pub open spec fn lex_from(cs: Seq<char>, p: nat) -> Option<Seq<TokenView>>
    decreases cs.len() + 2 - p,
{
    if p > cs.len() + 1 {
        None
    } else {
        match next_token(cs, p) {
            None => None,
            Some((t, q)) => if t.kind == TokenType::EOF {
                Some(seq![t])
            } else {
                proof {
                    lemma_next_token(cs, p);
                }
                match lex_from(cs, q) {
                    None => None,
                    Some(rest) => Some(seq![t] + rest),
                }
            },
        }
    }
}

/// A token and the text it was made from: `EOF` covers nothing; a string's
/// text is what lies between its quotes (its span takes in the closing
/// quote); any other token's text is exactly the source it spans.
pub open spec fn covers_text(cs: Seq<char>, t: TokenView) -> bool {
    if t.kind == TokenType::EOF {
        t.start == t.end && t.lexeme == "EOF"@
    } else if t.kind == TokenType::String {
        1 <= t.start < t.end <= cs.len() + 1 && cs[t.start - 1] == '"'
            && slice_ok(cs, t.start, (t.end - 1) as nat) && t.lexeme == byte_slice(cs, t.start, (t.end - 1) as nat)
    } else {
        t.start < t.end <= cs.len() && (t.lexeme == cs.subrange(t.start as int, t.end as int)
            || (slice_ok(cs, t.start, t.end) && t.lexeme == byte_slice(cs, t.start, t.end)))
    }
}

proof fn lemma_ascii_boundary(cs: Seq<char>, i: nat)
    requires
        is_ascii_chars(cs),
        i <= cs.len(),
    ensures
        is_char_boundary(encode_utf8(cs), i as int),
{
    let bs = encode_utf8(cs);
    is_ascii_chars_encode_utf8(cs);
    encode_utf8_valid_utf8(cs);
    if i == cs.len() {
        is_char_boundary_start_end_of_seq(bs);
    } else {
        let c = cs[i as int];
        assert(c <= '\u{7f}');
        assert((c as u8) < 0x80u8);
        is_char_boundary_iff_not_is_continuation_byte(bs, i as int);
    }
}

/// In ASCII text every position is a character boundary, and slicing at
/// character positions gives the characters between them.
pub proof fn lemma_ascii_slice(cs: Seq<char>, a: nat, b: nat)
    requires
        is_ascii_chars(cs),
        a <= b <= cs.len(),
    ensures
        slice_ok(cs, a, b),
        byte_slice(cs, a, b) == cs.subrange(a as int, b as int),
{
    let bs = encode_utf8(cs);
    is_ascii_chars_encode_utf8(cs);
    lemma_ascii_boundary(cs, a);
    lemma_ascii_boundary(cs, b);
    let sub = cs.subrange(a as int, b as int);
    assert(is_ascii_chars(sub));
    is_ascii_chars_encode_utf8(sub);
    assert(encode_utf8(sub) =~= bs.subrange(a as int, b as int));
    encode_utf8_decode_utf8(sub);
}

proof fn lemma_next_token_text(cs: Seq<char>, p: nat)
    requires
        p <= cs.len() + 1,
    ensures
        next_token(cs, p) matches Some((t, q)) ==> covers_text(cs, t) && p <= t.start <= t.end <= q
            && (t.kind == TokenType::EOF ==> t.end == q),
    decreases cs.len() + 2 - p,
{
    lemma_skip_ws(cs, p);
    let start = skip_ws(cs, p);
    if start < cs.len() {
        let ch = cs[start as int];
        if ch == '/' && char_at(cs, start + 1) == Some('/') {
            lemma_comment_end(cs, start + 2);
            lemma_next_token_text(cs, comment_end(cs, start + 2));
        } else if ch == '"' {
            lemma_string_end(cs, start + 1);
        } else if numeric(ch) {
            lemma_number_end(cs, start, false);
        } else if is_ident_start(ch) {
            lemma_ident_end(cs, start + 1);
        } else if two_char_kind(ch, char_at(cs, start + 1)) is Some {
            assert(seq![ch, cs[start + 1 as int]] =~= cs.subrange(start as int, start + 2int));
        } else if single_char_kind(ch) is Some {
            assert(seq![ch] =~= cs.subrange(start as int, start + 1int));
        }
    } else {
        reveal_strlit("EOF");
    }
}

/// What lexing gives, wherever it finishes: the tokens come in source order
/// without overlapping, each made from the text it covers, the last token,
/// and only the last, is `EOF`, and there is at most one token more than
/// there are characters from `p` on.
pub proof fn law_tokens(cs: Seq<char>, p: nat)
    requires
        p <= cs.len() + 1,
    ensures
        lex_from(cs, p) matches Some(ts) ==> {
            &&& ts.len() >= 1
            &&& ts.last().kind == TokenType::EOF
            &&& forall|i: int| 0 <= i < ts.len() - 1 ==> (#[trigger] ts[i]).kind != TokenType::EOF
            &&& forall|i: int| 0 <= i < ts.len() ==> covers_text(cs, #[trigger] ts[i]) && p <= ts[i].start
            &&& forall|i: int, j: int| 0 <= i < j < ts.len() ==> (#[trigger] ts[i]).end <= (#[trigger] ts[j]).start
            &&& (p <= cs.len() ==> ts.len() <= cs.len() + 1 - p)
        },
    decreases cs.len() + 2 - p,
{
    lemma_next_token(cs, p);
    lemma_next_token_text(cs, p);
    match next_token(cs, p) {
        None => {},
        Some((t, q)) => {
            if t.kind != TokenType::EOF {
                law_tokens(cs, q);
                match lex_from(cs, q) {
                    None => {},
                    Some(rest) => {
                        let ts = seq![t] + rest;
                        assert(ts.last() == rest.last());
                        assert forall|i: int| 0 <= i < ts.len() - 1 implies (#[trigger] ts[i]).kind != TokenType::EOF by {
                            if i > 0 {
                                assert(ts[i] == rest[i - 1]);
                            }
                        }
                        assert forall|i: int| 0 <= i < ts.len() implies covers_text(cs, #[trigger] ts[i]) && p <= ts[i].start by {
                            if i > 0 {
                                assert(ts[i] == rest[i - 1]);
                            }
                        }
                        assert forall|i: int, j: int| 0 <= i < j < ts.len() implies (#[trigger] ts[i]).end <= (#[trigger] ts[j]).start by {
                            assert(ts[j] == rest[j - 1]);
                            if i > 0 {
                                assert(ts[i] == rest[i - 1]);
                            } else {
                                assert(rest[j - 1].start >= q);
                            }
                        }
                    },
                }
            }
        },
    }
}

/// In ASCII text each token's text is exactly the source it spans (a
/// string's, what lies between its quotes).
pub proof fn law_ascii_tokens(cs: Seq<char>)
    requires
        is_ascii_chars(cs),
    ensures
        lex_from(cs, 0) matches Some(ts) ==> forall|i: int| 0 <= i < ts.len() - 1 ==> {
            &&& (#[trigger] ts[i]).kind == TokenType::String ==> ts[i].lexeme == cs.subrange(ts[i].start as int, ts[i].end - 1)
            &&& ts[i].kind != TokenType::String ==> ts[i].lexeme == cs.subrange(ts[i].start as int, ts[i].end as int)
                && ts[i].lexeme.len() > 0
        },
{
    law_tokens(cs, 0);
    match lex_from(cs, 0) {
        Some(ts) => {
            assert forall|i: int| 0 <= i < ts.len() - 1 implies {
                &&& (#[trigger] ts[i]).kind == TokenType::String ==> ts[i].lexeme == cs.subrange(ts[i].start as int, ts[i].end - 1)
                &&& ts[i].kind != TokenType::String ==> ts[i].lexeme == cs.subrange(ts[i].start as int, ts[i].end as int)
                    && ts[i].lexeme.len() > 0
            } by {
                let t = ts[i];
                assert(covers_text(cs, t));
                if t.kind == TokenType::String {
                    lemma_ascii_slice(cs, t.start, (t.end - 1) as nat);
                } else {
                    lemma_ascii_slice(cs, t.start, t.end);
                }
            }
        },
        None => {},
    }
}

/// The characters that make or start a token on their own, or that the lexer
/// skips: whitespace, letters, digits, `_`, `"`, and the one-character
/// operators and punctuation.
pub open spec fn simple_char(c: char) -> bool {
    char_whitespace(c) || is_ascii_alpha(c) || is_ascii_digit(c) || c == '_' || c == '"'
        || single_char_kind(c) is Some
}

/// The text from `p` on, read as code: outside `//` comments and string
/// literals every character is a simple one, and `&` and `|` come in the
/// pairs `&&` and `||`; inside comments and string literals anything goes.
pub open spec fn code_from(cs: Seq<char>, p: nat) -> bool
    decreases cs.len() + 1 - p,
{
    if p >= cs.len() {
        true
    } else if cs[p as int] == '/' && char_at(cs, p + 1) == Some('/') {
        proof {
            lemma_comment_end(cs, p + 2);
        }
        code_from(cs, comment_end(cs, p + 2))
    } else if cs[p as int] == '"' {
        proof {
            lemma_string_end(cs, p + 1);
        }
        string_end(cs, p + 1) >= cs.len() || code_from(cs, string_end(cs, p + 1) + 1)
    } else if cs[p as int] == '&' || cs[p as int] == '|' {
        char_at(cs, p + 1) == Some(cs[p as int]) && code_from(cs, p + 2)
    } else {
        simple_char(cs[p as int]) && code_from(cs, p + 1)
    }
}

/// Sources the lexer takes in full: ASCII text that reads as code from its
/// start.
pub open spec fn in_lexing_domain(cs: Seq<char>) -> bool {
    is_ascii_chars(cs) && code_from(cs, 0)
}

/// Code goes on past a character that is neither `/`, `"`, `&` nor `|`.
proof fn lemma_code_step(cs: Seq<char>, p: nat)
    requires
        code_from(cs, p),
        p < cs.len(),
        cs[p as int] != '/' && cs[p as int] != '"' && cs[p as int] != '&' && cs[p as int] != '|',
    ensures
        code_from(cs, p + 1),
        simple_char(cs[p as int]),
{
}

proof fn lemma_code_skip_ws(cs: Seq<char>, p: nat)
    requires
        code_from(cs, p),
    ensures
        code_from(cs, skip_ws(cs, p)),
    decreases cs.len() - p,
{
    if p < cs.len() && char_whitespace(cs[p as int]) {
        lemma_code_step(cs, p);
        lemma_code_skip_ws(cs, p + 1);
    }
}

proof fn lemma_code_ident(cs: Seq<char>, p: nat)
    requires
        is_ascii_chars(cs),
        code_from(cs, p),
    ensures
        code_from(cs, ident_end(cs, p)),
    decreases cs.len() - p,
{
    if p < cs.len() && (alphanumeric(cs[p as int]) || cs[p as int] == '_') {
        assert(cs[p as int] <= '\u{7f}');
        lemma_code_step(cs, p);
        lemma_code_ident(cs, p + 1);
    }
}

proof fn lemma_code_number(cs: Seq<char>, p: nat, dot: bool)
    requires
        code_from(cs, p),
    ensures
        code_from(cs, number_end(cs, p, dot)),
    decreases cs.len() - p,
{
    if p < cs.len() && is_ascii_digit(cs[p as int]) {
        lemma_code_step(cs, p);
        lemma_code_number(cs, p + 1, dot);
    } else if p < cs.len() && cs[p as int] == '.' && !dot {
        lemma_code_step(cs, p);
        lemma_code_number(cs, p + 1, true);
    }
}

proof fn lemma_next_token_code(cs: Seq<char>, p: nat)
    requires
        is_ascii_chars(cs),
        p <= cs.len() + 1,
        code_from(cs, p),
    ensures
        next_token(cs, p) matches Some((t, q)) && (t.kind != TokenType::EOF ==> code_from(cs, q)),
    decreases cs.len() + 2 - p,
{
    lemma_skip_ws(cs, p);
    lemma_code_skip_ws(cs, p);
    let start = skip_ws(cs, p);
    if start < cs.len() {
        let ch = cs[start as int];
        assert(ch <= '\u{7f}');
        if ch == '/' && char_at(cs, start + 1) == Some('/') {
            lemma_comment_end(cs, start + 2);
            lemma_next_token_code(cs, comment_end(cs, start + 2));
        } else if ch == '"' {
            lemma_string_end(cs, start + 1);
            lemma_ascii_slice(cs, start + 1, string_end(cs, start + 1));
        } else if numeric(ch) {
            lemma_number_end(cs, start, false);
            lemma_number_end(cs, start + 1, false);
            lemma_code_number(cs, start, false);
            lemma_ascii_slice(cs, start, number_end(cs, start, false));
        } else if is_ident_start(ch) {
            lemma_code_step(cs, start);
            lemma_ident_end(cs, start + 1);
            lemma_code_ident(cs, start + 1);
            lemma_ascii_slice(cs, start, ident_end(cs, start + 1));
        } else if two_char_kind(ch, char_at(cs, start + 1)) is Some {
            if ch != '&' && ch != '|' {
                lemma_code_step(cs, start);
                lemma_code_step(cs, start + 1);
            }
        }
    }
}

proof fn lemma_lex_code(cs: Seq<char>, p: nat)
    requires
        is_ascii_chars(cs),
        p <= cs.len() + 1,
        code_from(cs, p),
    ensures
        lex_from(cs, p) is Some,
    decreases cs.len() + 2 - p,
{
    lemma_next_token_code(cs, p);
    lemma_next_token(cs, p);
    match next_token(cs, p) {
        Some((t, q)) => {
            if t.kind != TokenType::EOF {
                lemma_lex_code(cs, q);
            }
        },
        None => {},
    }
}

/// Lexing finishes on every source of the lexing domain: `tokenize` can be
/// called on it, and gives at most one token more than the source has
/// characters.
pub proof fn law_lexing_finishes(cs: Seq<char>)
    requires
        in_lexing_domain(cs),
    ensures
        lex_from(cs, 0) matches Some(ts) && ts.len() <= cs.len() + 1,
{
    lemma_lex_code(cs, 0);
    law_tokens(cs, 0);
}

/// A character boundary before a boundary `b` is one of the text up to `b`.
proof fn lemma_prefix_boundary(bs: Seq<u8>, a: int, b: int)
    requires
        valid_utf8(bs),
        0 <= a <= b,
        is_char_boundary(bs, a),
        is_char_boundary(bs, b),
    ensures
        b <= bs.len(),
        is_char_boundary(bs.subrange(0, b), a),
{
    reveal_with_fuel(is_char_boundary, 1);
    if b > bs.len() {
        assert(!is_char_boundary(bs, b));
    }
    valid_utf8_split(bs, b);
    let pre = bs.subrange(0, b);
    if a == b {
        is_char_boundary_start_end_of_seq(pre);
    } else if a > 0 {
        is_char_boundary_iff_not_is_continuation_byte(bs, a);
        is_char_boundary_iff_not_is_continuation_byte(pre, a);
        assert(pre[a] == bs[a]);
    }
}

/// The kind of the word `w`.
fn keyword(w: &String) -> (k: TokenType)
    ensures
        k == keyword_kind(w@),
{
    let cs = chars_of(w);
    let end = cs.len();
    assert(cs@.subrange(0, end as int) =~= w@);
    if spells(&cs, 0, end, "let") {
        TokenType::Let
    } else if spells(&cs, 0, end, "true") {
        TokenType::True
    } else if spells(&cs, 0, end, "false") {
        TokenType::False
    } else if spells(&cs, 0, end, "and") {
        TokenType::And
    } else if spells(&cs, 0, end, "or") {
        TokenType::Or
    } else if spells(&cs, 0, end, "if") {
        TokenType::If
    } else if spells(&cs, 0, end, "elif") {
        TokenType::Elif
    } else if spells(&cs, 0, end, "else") {
        TokenType::Else
    } else if spells(&cs, 0, end, "for") {
        TokenType::For
    } else if spells(&cs, 0, end, "while") {
        TokenType::While
    } else if spells(&cs, 0, end, "break") {
        TokenType::Break
    } else if spells(&cs, 0, end, "continue") {
        TokenType::Continue
    } else if spells(&cs, 0, end, "fn") {
        TokenType::Fn
    } else if spells(&cs, 0, end, "return") {
        TokenType::Return
    } else {
        TokenType::Identifier
    }
}

/// Turns source text into tokens.
pub struct Lexer {
    src: String,
    chars: Vec<char>,
    pos: usize,
}

impl Lexer {
    /// The characters of the source.
    pub closed spec fn text(&self) -> Seq<char> {
        self.chars@
    }

    /// The position the lexer has reached.
    pub closed spec fn cursor(&self) -> nat {
        self.pos as nat
    }

    pub closed spec fn wf(&self) -> bool {
        &&& self.chars@ == self.src@
        &&& self.chars@.len() < usize::MAX
        &&& self.pos <= self.chars@.len() + 1
    }

    /// Whether lexing from the current position finishes.
    pub open spec fn lexable(&self) -> bool {
        lex_from(self.text(), self.cursor()) is Some
    }

    pub fn new(src: String) -> (l: Self)
        requires
            src@.len() < usize::MAX,
        ensures
            l.wf(),
            l.text() == src@,
            l.cursor() == 0,
    {
        let chars = chars_of(&src);
        Self { src, chars, pos: 0 }
    }


    /// The token at the current position (after whitespace and comments), or
    /// `None` where the lexer would make no progress.
    fn next_tok(&mut self) -> (r: Option<Token>)
        requires
            old(self).wf(),
        ensures
            final(self).wf(),
            final(self).chars@ == old(self).chars@,
            match next_token(old(self).chars@, old(self).pos as nat) {
                None => r is None,
                Some((t, q)) => r matches Some(tok) && tok@ == t && final(self).pos == q,
            },
    {
        let ghost cs = self.chars@;
        let ghost p0 = self.pos as nat;
        loop
            invariant
                self.wf(),
                self.chars@ == cs,
                cs == old(self).chars@,
                p0 == old(self).pos,
                next_token(cs, p0) == next_token(cs, self.pos as nat),
            decreases cs.len() + 2 - self.pos,
        {
            let ghost p = self.pos as nat;
            self.skip_whitespace();
            let start = self.pos;
            proof {
                lemma_skip_ws(cs, p);
            }
            let ch = match self.peek() {
                Some(ch) => ch,
                None => {
                    return Some(self.make_token(TokenType::EOF, String::from_str("EOF"), start, self.pos));
                },
            };
            if ch == '/' && self.peek_n(1) == Some('/') {
                self.next();
                self.next();
                proof {
                    lemma_comment_end(cs, start as nat + 2);
                }
                self.skip_comment();
                continue;
            }
            if ch == '"' {
                return self.bag_string();
            }
            if ch.is_numeric() {
                return self.bag_number();
            }
            if ascii_alpha(ch) || ch == '_' {
                return self.bag_identifer_or_keyword();
            }
            let nc = self.peek_n(1);
            if let Some(kind) = self.try_two_char(ch) {
                self.next();
                self.next();
                let mut lexeme = String::new();
                lexeme.push(ch);
                lexeme.push(match nc { Some(c) => c, None => '\0' });
                assert(lexeme@ =~= seq![ch, cs[start + 1 as int]]);
                return Some(self.make_token(kind, lexeme, start, self.pos));
            }
            if let Some(kind) = self.single_char_tok(ch) {
                self.next();
                let mut lexeme = String::new();
                lexeme.push(ch);
                assert(lexeme@ =~= seq![ch]);
                return Some(self.make_token(kind, lexeme, start, self.pos));
            }
            return None;
        }
    }

    fn try_two_char(&self, ch: char) -> (r: Option<TokenType>)
        requires
            self.wf(),
            self.pos < self.chars@.len(),
        ensures
            r == two_char_kind(ch, char_at(self.chars@, self.pos as nat + 1)),
    {
        match (ch, self.peek_n(1)) {
            ('<', Some('=')) => Some(TokenType::LessEqual),
            ('>', Some('=')) => Some(TokenType::GreaterEqual),
            ('=', Some('=')) => Some(TokenType::EqualEqual),
            ('!', Some('=')) => Some(TokenType::NotEqual),
            ('&', Some('&')) => Some(TokenType::And),
            ('|', Some('|')) => Some(TokenType::Or),
            _ => None,
        }
    }

    fn single_char_tok(&self, ch: char) -> (r: Option<TokenType>)
        ensures
            r == single_char_kind(ch),
    {
        match ch {
            '(' => Some(TokenType::LParen),
            ')' => Some(TokenType::RParen),
            '{' => Some(TokenType::LBrace),
            '}' => Some(TokenType::RBrace),
            ',' => Some(TokenType::Comma),
            ';' => Some(TokenType::Semicolon),
            ':' => Some(TokenType::Colon),
            '.' => Some(TokenType::Dot),
            '+' => Some(TokenType::Plus),
            '-' => Some(TokenType::Minus),
            '*' => Some(TokenType::Times),
            '/' => Some(TokenType::Divide),
            '%' => Some(TokenType::Modulo),
            '!' => Some(TokenType::Bang),
            '<' => Some(TokenType::Less),
            '>' => Some(TokenType::Greater),
            '=' => Some(TokenType::Assign),
            _ => None,
        }
    }

    fn skip_whitespace(&mut self)
        requires
            old(self).wf(),
        ensures
            final(self).wf(),
            final(self).chars@ == old(self).chars@,
            final(self).pos == skip_ws(old(self).chars@, old(self).pos as nat),
    {
        let ghost cs = self.chars@;
        let ghost p0 = self.pos as nat;
        loop
            invariant_except_break
                self.wf(),
                self.chars@ == cs,
                skip_ws(cs, p0) == skip_ws(cs, self.pos as nat),
            ensures
                self.wf(),
                self.chars@ == cs,
                skip_ws(cs, p0) == self.pos,
            decreases cs.len() + 2 - self.pos,
        {
            match self.peek() {
                Some(ch) => {
                    if ch.is_whitespace() {
                        self.next();
                    } else {
                        break;
                    }
                },
                None => break,
            }
        }
    }

    fn skip_comment(&mut self)
        requires
            old(self).wf(),
            old(self).pos <= old(self).chars@.len(),
        ensures
            final(self).wf(),
            final(self).chars@ == old(self).chars@,
            final(self).pos == comment_end(old(self).chars@, old(self).pos as nat),
    {
        let ghost cs = self.chars@;
        let ghost p0 = self.pos as nat;
        loop
            invariant_except_break
                self.wf(),
                self.chars@ == cs,
                self.pos <= cs.len(),
                comment_end(cs, p0) == comment_end(cs, self.pos as nat),
            ensures
                self.wf(),
                self.chars@ == cs,
                comment_end(cs, p0) == self.pos,
            decreases cs.len() + 2 - self.pos,
        {
            match self.next() {
                Some(ch) => {
                    if ch == '\n' {
                        break;
                    }
                },
                None => break,
            }
        }
    }

    /// The text `&src[a..b]`, the character positions `a` and `b` taken as
    /// byte offsets; `None` where they do not fall on character boundaries.
    fn slice(&self, a: usize, b: usize) -> (r: Option<String>)
        requires
            self.wf(),
            a <= b <= self.chars@.len(),
        ensures
            match r {
                Some(t) => slice_ok(self.chars@, a as nat, b as nat) && t@ == byte_slice(self.chars@, a as nat, b as nat),
                None => !slice_ok(self.chars@, a as nat, b as nat),
            },
    {
        let s = self.src.as_str();
        let ghost bs = encode_utf8(self.chars@);
        proof {
            encode_utf8_valid_utf8(self.chars@);
        }
        if !s.is_char_boundary(a) || !s.is_char_boundary(b) {
            return None;
        }
        proof {
            lemma_prefix_boundary(bs, a as int, b as int);
        }
        let (left, _) = s.split_at(b);
        let (_, mid) = left.split_at(a);
        proof {
            assert(mid.spec_bytes() =~= bs.subrange(a as int, b as int));
            encode_utf8_decode_utf8(mid@);
        }
        Some(String::from_str(mid))
    }

    fn bag_identifer_or_keyword(&mut self) -> (r: Option<Token>)
        requires
            old(self).wf(),
            old(self).pos < old(self).chars@.len(),
        ensures
            final(self).wf(),
            final(self).chars@ == old(self).chars@,
            ({
                let cs = old(self).chars@;
                let start = old(self).pos as nat;
                let e = ident_end(cs, start + 1);
                if slice_ok(cs, start, e) {
                    let w = byte_slice(cs, start, e);
                    &&& r matches Some(t)
                    &&& t@ == mk_token(keyword_kind(w), w, start, e)
                    &&& final(self).pos == e
                } else {
                    r is None
                }
            }),
    {
        let ghost cs = self.chars@;
        let start = self.pos;
        self.next();
        loop
            invariant_except_break
                self.wf(),
                self.chars@ == cs,
                start < self.pos <= cs.len(),
                ident_end(cs, start as nat + 1) == ident_end(cs, self.pos as nat),
            ensures
                self.wf(),
                self.chars@ == cs,
                start < self.pos <= cs.len(),
                ident_end(cs, start as nat + 1) == self.pos,
            decreases cs.len() + 2 - self.pos,
        {
            match self.peek() {
                Some(ch) => {
                    if ch.is_alphanumeric() || ch == '_' {
                        self.next();
                    } else {
                        break;
                    }
                },
                None => break,
            }
        }
        let ident = match self.slice(start, self.pos) {
            Some(w) => w,
            None => {
                return None;
            },
        };
        let kind = keyword(&ident);
        Some(self.make_token(kind, ident, start, self.pos))
    }

    fn bag_string(&mut self) -> (r: Option<Token>)
        requires
            old(self).wf(),
            old(self).pos < old(self).chars@.len(),
        ensures
            final(self).wf(),
            final(self).chars@ == old(self).chars@,
            ({
                let cs = old(self).chars@;
                let q = old(self).pos as nat + 1;
                let e = string_end(cs, q);
                if slice_ok(cs, q, e) {
                    &&& r matches Some(t)
                    &&& t@ == mk_token(TokenType::String, byte_slice(cs, q, e), q, e + 1)
                    &&& final(self).pos == e + 1
                } else {
                    r is None
                }
            }),
    {
        let ghost cs = self.chars@;
        self.next();
        let start = self.pos;
        loop
            invariant_except_break
                self.wf(),
                self.chars@ == cs,
                start <= self.pos <= cs.len(),
                string_end(cs, start as nat) == string_end(cs, self.pos as nat),
            ensures
                self.wf(),
                self.chars@ == cs,
                start <= self.pos <= cs.len(),
                string_end(cs, start as nat) == self.pos,
            decreases cs.len() + 2 - self.pos,
        {
            match self.peek() {
                Some(ch) => {
                    if ch == '"' {
                        break;
                    }
                    self.next();
                },
                None => break,
            }
        }
        let text = match self.slice(start, self.pos) {
            Some(t) => t,
            None => {
                return None;
            },
        };
        self.next();
        Some(self.make_token(TokenType::String, text, start, self.pos))
    }

    /// A number token, or `None` where no character of a number follows.
    fn bag_number(&mut self) -> (r: Option<Token>)
        requires
            old(self).wf(),
            old(self).pos < old(self).chars@.len(),
        ensures
            final(self).wf(),
            final(self).chars@ == old(self).chars@,
            ({
                let cs = old(self).chars@;
                let start = old(self).pos as nat;
                let e = number_end(cs, start, false);
                if e == start || !slice_ok(cs, start, e) {
                    r is None
                } else {
                    &&& r matches Some(t)
                    &&& t@ == mk_token(TokenType::Number, byte_slice(cs, start, e), start, e)
                    &&& final(self).pos == e
                }
            }),
    {
        let ghost cs = self.chars@;
        let start = self.pos;
        let mut found_decimal = false;
        loop
            invariant_except_break
                self.wf(),
                self.chars@ == cs,
                start <= self.pos <= cs.len(),
                number_end(cs, start as nat, false) == number_end(cs, self.pos as nat, found_decimal),
            ensures
                self.wf(),
                self.chars@ == cs,
                start <= self.pos <= cs.len(),
                number_end(cs, start as nat, false) == self.pos,
            decreases cs.len() + 2 - self.pos,
        {
            match self.peek() {
                Some(ch) => {
                    if ascii_digit(ch) {
                        self.next();
                    } else if ch == '.' && !found_decimal {
                        found_decimal = true;
                        self.next();
                    } else {
                        break;
                    }
                },
                None => break,
            }
        }
        if self.pos == start {
            return None;
        }
        let text = match self.slice(start, self.pos) {
            Some(t) => t,
            None => {
                return None;
            },
        };
        Some(self.make_token(TokenType::Number, text, start, self.pos))
    }

    fn next(&mut self) -> (r: Option<char>)
        requires
            old(self).wf(),
            old(self).pos <= old(self).chars@.len(),
        ensures
            final(self).wf(),
            final(self).chars@ == old(self).chars@,
            final(self).pos == old(self).pos + 1,
            r == char_at(old(self).chars@, old(self).pos as nat),
    {
        let ch = self.peek();
        self.pos = self.pos + 1;
        ch
    }

    fn peek(&self) -> (r: Option<char>)
        ensures
            r == char_at(self.chars@, self.pos as nat),
    {
        if self.pos < self.chars.len() {
            Some(self.chars[self.pos])
        } else {
            None
        }
    }

    fn peek_n(&self, n: usize) -> (r: Option<char>)
        requires
            self.wf(),
            n <= 1,
            self.pos < self.chars@.len(),
        ensures
            r == char_at(self.chars@, (self.pos + n) as nat),
    {
        if self.pos + n < self.chars.len() {
            Some(self.chars[self.pos + n])
        } else {
            None
        }
    }

    fn make_token(&self, kind: TokenType, lexeme: String, start: usize, end: usize) -> (t: Token)
        ensures
            t@ == mk_token(kind, lexeme@, start as nat, end as nat),
    {
        Token { kind, span: start..end, lexeme: lexeme }
    }

    /// All tokens from the current position to the end, the last being `EOF`.
    pub fn tokenize(&mut self) -> (tokens: Vec<Token>)
        requires
            old(self).wf(),
            old(self).lexable(),
        ensures
            final(self).wf(),
            final(self).text() == old(self).text(),
            tokens_view(tokens@) == lex_from(old(self).text(), old(self).cursor())->0,
            final(self).cursor() >= old(self).text().len(),
    {
        match self.lex_all() {
            Some(tokens) => tokens,
            None => {
                proof {
                    assert(false);
                }
                Vec::new()
            },
        }
    }

    /// Whether lexing from the current position finishes; the lexer itself
    /// is left as it is.
    pub fn can_tokenize(&self) -> (b: bool)
        requires
            self.wf(),
        ensures
            b == self.lexable(),
    {
        let mut probe = Lexer { src: self.src.clone(), chars: chars_of(&self.src), pos: self.pos };
        probe.lex_all().is_some()
    }

    /// All tokens from the current position to the end, or `None` (the lexer
    /// left as it is) where the lexer would make no progress at some character.
    pub fn try_tokenize(&mut self) -> (tokens: Option<Vec<Token>>)
        requires
            old(self).wf(),
        ensures
            final(self).wf(),
            final(self).text() == old(self).text(),
            match lex_from(old(self).text(), old(self).cursor()) {
                None => tokens is None && final(self).cursor() == old(self).cursor(),
                Some(ts) => tokens matches Some(v) && tokens_view(v@) == ts
                    && final(self).cursor() >= old(self).text().len(),
            },
    {
        if self.can_tokenize() {
            Some(self.tokenize())
        } else {
            None
        }
    }

    /// The tokens from the current position to the end, or `None` where the
    /// lexer would make no progress at some character.
    fn lex_all(&mut self) -> (tokens: Option<Vec<Token>>)
        requires
            old(self).wf(),
        ensures
            final(self).wf(),
            final(self).text() == old(self).text(),
            match lex_from(old(self).text(), old(self).cursor()) {
                None => tokens is None,
                Some(ts) => tokens matches Some(v) && tokens_view(v@) == ts,
            },
            tokens is Some ==> final(self).cursor() >= old(self).text().len(),
    {
        let mut tokens: Vec<Token> = Vec::new();
        let ghost cs = self.chars@;
        let ghost p0 = self.pos as nat;
        loop
            invariant
                self.wf(),
                self.chars@ == cs,
                cs == old(self).chars@,
                p0 == old(self).pos,
                lex_from(cs, p0) == match lex_from(cs, self.pos as nat) {
                    None => None,
                    Some(rest) => Some(tokens_view(tokens@) + rest),
                },
            decreases cs.len() + 2 - self.pos,
        {
            let ghost p = self.pos as nat;
            proof {
                lemma_next_token(cs, p);
            }
            match self.next_tok() {
                None => {
                    return None;
                },
                Some(tok) => {
                    let is_eof = tok.kind == TokenType::EOF;
                    let ghost tv = tok@;
                    let ghost before = tokens@;
                    tokens.push(tok);
                    proof {
                        assert(tokens_view(tokens@) =~= tokens_view(before) + seq![tv]);
                    }
                    if is_eof {
                        return Some(tokens);
                    }
                },
            }
        }
    }
}

} // verus!
