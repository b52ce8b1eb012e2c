//! Lexical analysis: a cursor over the source bytes that skips whitespace and
//! (nested) comments, folds identifiers to upper case and normalises the
//! Unicode operator aliases to their ASCII spelling.
use vstd::prelude::*;
use vstd::string::StringSliceAdditionalSpecFns;
use vstd::utf8::{encode_utf8, valid_utf8};

verus! {

/// ASCII whitespace: space, tab, line feed, vertical tab, form feed, carriage return.
pub open spec fn is_ws(b: u8) -> bool {
    b == 32 || (9 <= b && b <= 13)
}

/// A three-byte Unicode alias at `i`: `≤ ≠ ≥ ∧ ∨`.
pub open spec fn is_symbol3(s: Seq<u8>, i: int) -> bool {
    0 <= i && i + 3 <= s.len() && s[i] == 0xE2u8 && (
        (s[i + 1] == 0x89u8 && (s[i + 2] == 0xA4u8 || s[i + 2] == 0xA0u8 || s[i + 2] == 0xA5u8))
        || (s[i + 1] == 0x88u8 && (s[i + 2] == 0xA7u8 || s[i + 2] == 0xA8u8))
    )
}

/// A two-byte symbol: `¬ <= <> >= := .. (. .) // (* *)`.
pub open spec fn is_pair(a: u8, b: u8) -> bool {
    (a == 0xC2u8 && b == 0xACu8)
    || (a == 60 && (b == 61 || b == 62))
    || (a == 62 && b == 61)
    || (a == 58 && b == 61)
    || (a == 46 && (b == 46 || b == 41))
    || (a == 40 && (b == 46 || b == 42))
    || (a == 47 && b == 47)
    || (a == 42 && b == 41)
}

/// A one-byte symbol: `+ - * / < = > ~ , ; : ' . ( ) [ ] { }`.
pub open spec fn is_single(a: u8) -> bool {
    a == 43 || a == 45 || a == 42 || a == 47 || a == 60 || a == 61 || a == 62
    || a == 126 || a == 44 || a == 59 || a == 58 || a == 39 || a == 46
    || a == 40 || a == 41 || a == 91 || a == 93 || a == 123 || a == 125
}

/// Length of the longest punctuation symbol that starts at `i` (0 if none).
pub open spec fn symbol_len(s: Seq<u8>, i: int) -> int {
    if is_symbol3(s, i) {
        3
    } else if 0 <= i && i + 2 <= s.len() && is_pair(s[i], s[i + 1]) {
        2
    } else if 0 <= i && i + 1 <= s.len() && is_single(s[i]) {
        1
    } else {
        0
    }
}

/// Number of whitespace bytes starting at `i`.
pub open spec fn ws_len(s: Seq<u8>, i: int) -> nat
    decreases s.len() - i,
{
    if 0 <= i < s.len() && is_ws(s[i]) {
        1 + ws_len(s, i + 1)
    } else {
        0
    }
}

/// Number of bytes from `i` up to (not including) the next line feed or the end.
pub open spec fn line_len(s: Seq<u8>, i: int) -> nat
    decreases s.len() - i,
{
    if 0 <= i < s.len() && s[i] != 10u8 {
        1 + line_len(s, i + 1)
    } else {
        0
    }
}

/// Number of bytes of a word starting at `i`: neither whitespace nor punctuation.
pub open spec fn word_len(s: Seq<u8>, i: int) -> nat
    decreases s.len() - i,
{
    if 0 <= i < s.len() && !is_ws(s[i]) && symbol_len(s, i) == 0 {
        1 + word_len(s, i + 1)
    } else {
        0
    }
}

/// Position just after the next `'` at or after `i`, if there is one.
pub open spec fn quote_end(s: Seq<u8>, i: int) -> Option<int>
    decreases s.len() - i,
{
    if i < 0 || i >= s.len() {
        None
    } else if s[i] == 39u8 {
        Some(i + 1)
    } else {
        quote_end(s, i + 1)
    }
}

pub open spec fn upper_byte(b: u8) -> u8 {
    if 97 <= b && b <= 122 {
        (b - 32) as u8
    } else {
        b
    }
}

/// ASCII upper-case folding of a word.
pub open spec fn upper(t: Seq<u8>) -> Seq<u8> {
    t.map_values(|b: u8| upper_byte(b))
}

/// The token that a punctuation symbol stands for.
pub open spec fn normalize(sym: Seq<u8>) -> Seq<u8> {
    if sym.len() == 3 && sym[0] == 0xE2u8 && sym[1] == 0x89u8 && sym[2] == 0xA4u8 {
        seq![60u8, 61u8]
    } else if sym.len() == 3 && sym[0] == 0xE2u8 && sym[1] == 0x89u8 && sym[2] == 0xA0u8 {
        seq![60u8, 62u8]
    } else if sym.len() == 3 && sym[0] == 0xE2u8 && sym[1] == 0x89u8 && sym[2] == 0xA5u8 {
        seq![62u8, 61u8]
    } else if sym.len() == 3 && sym[0] == 0xE2u8 && sym[1] == 0x88u8 && sym[2] == 0xA7u8 {
        seq![65u8, 78u8, 68u8]
    } else if sym.len() == 3 && sym[0] == 0xE2u8 && sym[1] == 0x88u8 && sym[2] == 0xA8u8 {
        seq![79u8, 82u8]
    } else if (sym.len() == 2 && sym[0] == 0xC2u8 && sym[1] == 0xACu8) || (sym.len() == 1
        && sym[0] == 126u8) {
        seq![78u8, 79u8, 84u8]
    } else if sym.len() == 2 && sym[0] == 40u8 && sym[1] == 46u8 {
        seq![91u8]
    } else if sym.len() == 2 && sym[0] == 46u8 && sym[1] == 41u8 {
        seq![93u8]
    } else {
        sym
    }
}

/// The token that starts at `i`, with the position just after it; `None` when a
/// quoted literal is not closed. With `ignore_quotes` a `'` is plain punctuation,
/// as it is inside comments. An empty token means the end of the input.
pub open spec fn lex(s: Seq<u8>, i: int, ignore_quotes: bool) -> Option<(Seq<u8>, int)>
    decreases s.len() - i, 1int,
{
    if i < 0 || i > s.len() {
        None
    } else {
        let j = i + ws_len(s, i);
        let n = symbol_len(s, j);
        let sym = s.subrange(j, j + n);
        let k = j + n;
        if n == 1 && s[j] == 123u8 {
            lex_after_comment(s, i, k, seq![125u8])
        } else if n == 2 && s[j] == 40u8 && s[j + 1] == 42u8 {
            lex_after_comment(s, i, k, seq![42u8, 41u8])
        } else if n == 2 && s[j] == 47u8 && s[j + 1] == 47u8 {
            let q = k + line_len(s, k) + 1;
            if q < s.len() {
                lex(s, q, false)
            } else {
                Some((Seq::empty(), s.len() as int))
            }
        } else if n == 1 && s[j] == 39u8 && !ignore_quotes {
            match quote_end(s, k) {
                Some(e) => Some((s.subrange(j, e), e)),
                None => None,
            }
        } else if n > 0 {
            Some((normalize(sym), k))
        } else {
            let e = j + word_len(s, j);
            Some((upper(s.subrange(j, e)), e))
        }
    }
}

/// After a comment opener that ends at `k` (the token search began at `i`):
/// skip to the matching `close`, then go on with the next token.
pub open spec fn lex_after_comment(s: Seq<u8>, i: int, k: int, close: Seq<u8>) -> Option<(Seq<u8>, int)>
    decreases s.len() - i, 0int,
{
    if i < k && k <= s.len() {
        match skip_comment(s, k, close) {
            Some(d) => {
                let q = k + d;
                if q < s.len() {
                    lex(s, q, false)
                } else {
                    Some((Seq::empty(), q))
                }
            },
            None => None,
        }
    } else {
        None
    }
}

/// Number of bytes from `i` through the token `close` that ends a comment
/// (or through the end of the input); tokens inside are read with quotes
/// as plain punctuation.
pub open spec fn skip_comment(s: Seq<u8>, i: int, close: Seq<u8>) -> Option<nat>
    decreases s.len() - i, 2int,
{
    if i < 0 || i >= s.len() {
        Some(0)
    } else {
        match lex(s, i, true) {
            Some((t, p)) => if t == close || p <= i || p > s.len() {
                Some((p - i) as nat)
            } else {
                match skip_comment(s, p, close) {
                    Some(d) => Some((p - i + d) as nat),
                    None => None,
                }
            },
            None => None,
        }
    }
}

/// Why the tokenizer could not produce a token.
#[derive(Debug, Clone, Copy, PartialEq, Eq)]
pub enum LexError {
    /// A token was required, but only whitespace and comments were left.
    UnexpectedEnd,
    /// A quoted literal was opened and never closed.
    UnmatchedQuote,
}

/// Length of the longest punctuation symbol at `i`.
pub fn get_symbol(code: &[u8], i: usize) -> (n: usize)
    ensures
        n as int == symbol_len(code@, i as int),
{
    let len = code.len();
    if i < len && len - i >= 3 && code[i] == 0xE2u8 {
        let b1 = code[i + 1];
        let b2 = code[i + 2];
        if (b1 == 0x89u8 && (b2 == 0xA4u8 || b2 == 0xA0u8 || b2 == 0xA5u8))
            || (b1 == 0x88u8 && (b2 == 0xA7u8 || b2 == 0xA8u8)) {
            return 3;
        }
    }
    if i < len && len - i >= 2 {
        let a = code[i];
        let b = code[i + 1];
        if (a == 0xC2u8 && b == 0xACu8)
            || (a == 60 && (b == 61 || b == 62))
            || (a == 62 && b == 61)
            || (a == 58 && b == 61)
            || (a == 46 && (b == 46 || b == 41))
            || (a == 40 && (b == 46 || b == 42))
            || (a == 47 && b == 47)
            || (a == 42 && b == 41) {
            return 2;
        }
    }
    if i < len {
        let a = code[i];
        if a == 43 || a == 45 || a == 42 || a == 47 || a == 60 || a == 61 || a == 62
            || a == 126 || a == 44 || a == 59 || a == 58 || a == 39 || a == 46
            || a == 40 || a == 41 || a == 91 || a == 93 || a == 123 || a == 125 {
            return 1;
        }
    }
    0
}

fn skip_whitespace(code: &[u8], i: usize) -> (j: usize)
    requires
        i <= code.len(),
    ensures
        j == i + ws_len(code@, i as int),
        j <= code.len(),
{
    let mut j = i;
    while j < code.len() && (code[j] == 32 || (9 <= code[j] && code[j] <= 13))
        invariant
            i <= j <= code.len(),
            i + ws_len(code@, i as int) == j + ws_len(code@, j as int),
        decreases code.len() - j,
    {
        j = j + 1;
    }
    j
}

fn line_end(code: &[u8], i: usize) -> (j: usize)
    requires
        i <= code.len(),
    ensures
        j == i + line_len(code@, i as int),
        j <= code.len(),
{
    let mut j = i;
    while j < code.len() && code[j] != 10
        invariant
            i <= j <= code.len(),
            i + line_len(code@, i as int) == j + line_len(code@, j as int),
        decreases code.len() - j,
    {
        j = j + 1;
    }
    j
}

fn word_end(code: &[u8], i: usize) -> (j: usize)
    requires
        i <= code.len(),
    ensures
        j == i + word_len(code@, i as int),
        j <= code.len(),
{
    let mut j = i;
    while j < code.len() && !(code[j] == 32 || (9 <= code[j] && code[j] <= 13)) && get_symbol(code, j) == 0
        invariant
            i <= j <= code.len(),
            i + word_len(code@, i as int) == j + word_len(code@, j as int),
        decreases code.len() - j,
    {
        j = j + 1;
    }
    j
}

fn find_quote_end(code: &[u8], i: usize) -> (r: Option<usize>)
    requires
        i <= code.len(),
    ensures
        match quote_end(code@, i as int) {
            Some(e) => r == Some(e as usize) && i < e <= code.len(),
            None => r is None,
        },
{
    let mut j = i;
    while j < code.len()
        invariant
            i <= j <= code.len(),
            quote_end(code@, i as int) == quote_end(code@, j as int),
        decreases code.len() - j,
    {
        if code[j] == 39 {
            return Some(j + 1);
        }
        j = j + 1;
    }
    None
}

/// The bytes `code[start..end]`, each folded to upper case when `fold` holds.
fn copy_range(code: &[u8], start: usize, end: usize, fold: bool) -> (r: Vec<u8>)
    requires
        start <= end <= code.len(),
    ensures
        fold ==> r@ == upper(code@.subrange(start as int, end as int)),
        !fold ==> r@ == code@.subrange(start as int, end as int),
{
    let mut r: Vec<u8> = Vec::new();
    let mut j = start;
    while j < end
        invariant
            start <= j <= end <= code.len(),
            fold ==> r@ == upper(code@.subrange(start as int, j as int)),
            !fold ==> r@ == code@.subrange(start as int, j as int),
        decreases end - j,
    {
        let b = code[j];
        if fold && 97 <= b && b <= 122 {
            r.push(b - 32);
        } else {
            r.push(b);
        }
        j = j + 1;
        assert(code@.subrange(start as int, j as int) == code@.subrange(start as int, j - 1).push(b));
    }
    r
}

/// The bytes of `t` with ASCII letters folded to upper case.
pub fn upper_copy(t: &[u8]) -> (r: Vec<u8>)
    ensures
        r@ == upper(t@),
{
    let r = copy_range(t, 0, t.len(), true);
    assert(t@.subrange(0, t.len() as int) == t@);
    r
}

fn normalize_symbol(code: &[u8], j: usize, n: usize) -> (r: Vec<u8>)
    requires
        j + n <= code.len(),
        1 <= n <= 3,
    ensures
        r@ == normalize(code@.subrange(j as int, (j + n) as int)),
{
    let ghost sym = code@.subrange(j as int, (j + n) as int);
    let a = code[j];
    if n == 3 {
        let b1 = code[j + 1];
        let b2 = code[j + 2];
        if a == 0xE2u8 && b1 == 0x89u8 && b2 == 0xA4u8 {
            return vec![60u8, 61u8];
        } else if a == 0xE2u8 && b1 == 0x89u8 && b2 == 0xA0u8 {
            return vec![60u8, 62u8];
        } else if a == 0xE2u8 && b1 == 0x89u8 && b2 == 0xA5u8 {
            return vec![62u8, 61u8];
        } else if a == 0xE2u8 && b1 == 0x88u8 && b2 == 0xA7u8 {
            return vec![65u8, 78u8, 68u8];
        } else if a == 0xE2u8 && b1 == 0x88u8 && b2 == 0xA8u8 {
            return vec![79u8, 82u8];
        }
    } else if n == 2 {
        let b1 = code[j + 1];
        if a == 0xC2u8 && b1 == 0xACu8 {
            return vec![78u8, 79u8, 84u8];
        } else if a == 40 && b1 == 46 {
            return vec![91u8];
        } else if a == 46 && b1 == 41 {
            return vec![93u8];
        }
    } else {
        if a == 126 {
            return vec![78u8, 79u8, 84u8];
        }
    }
    copy_range(code, j, j + n, false)
}

/// Whether the token `t` is exactly the text `s`.
pub fn token_is(t: &[u8], s: &str) -> (r: bool)
    ensures
        r == (t@ == s.spec_bytes()),
{
    let b = s.as_bytes();
    if t.len() != b.len() {
        return false;
    }
    let mut j: usize = 0;
    while j < t.len()
        invariant
            j <= t.len() == b@.len(),
            b@ == s.spec_bytes(),
            forall|k: int| 0 <= k < j ==> t@[k] == b@[k],
        decreases t.len() - j,
    {
        if t[j] != b[j] {
            return false;
        }
        j = j + 1;
    }
    assert(t@ == b@);
    true
}

fn same_bytes(t: &[u8], c: &[u8]) -> (r: bool)
    ensures
        r == (t@ == c@),
{
    if t.len() != c.len() {
        return false;
    }
    let mut j: usize = 0;
    while j < t.len()
        invariant
            j <= t.len() == c@.len(),
            forall|k: int| 0 <= k < j ==> t@[k] == c@[k],
        decreases t.len() - j,
    {
        if t[j] != c[j] {
            return false;
        }
        j = j + 1;
    }
    assert(t@ == c@);
    true
}

/// Skips a comment whose opener ends at `*i`, through the token `close` that
/// ends it; `false` when a quoted literal inside it is left open.
fn skip_comment_exec(code: &[u8], i: &mut usize, close: &[u8]) -> (ok: bool)
    requires
        *old(i) <= code.len(),
    ensures
        match skip_comment(code@, *old(i) as int, close@) {
            Some(d) => ok && *final(i) == *old(i) + d,
            None => !ok,
        },
        *final(i) <= code.len(),
    decreases code.len() - *old(i), 2int,
{
    let ghost i0 = *i as int;
    loop
        invariant
            i0 == *old(i),
            i0 <= *i <= code.len(),
            skip_comment(code@, i0, close@) == match skip_comment(code@, *i as int, close@) {
                Some(d) => Some((*i - i0 + d) as nat),
                None => None::<nat>,
            },
        decreases code.len() - *i,
    {
        if *i >= code.len() {
            return true;
        }
        let ghost before = *i as int;
        let t = next_token_runner(code, i, true);
        match t {
            None => {
                return false;
            },
            Some(t) => {
                if same_bytes(&t, close) {
                    return true;
                }
            },
        }
        assert(skip_comment(code@, before, close@) == match skip_comment(code@, *i as int, close@) {
            Some(d) => Some((*i - before + d) as nat),
            None => None::<nat>,
        });
    }
}

fn lex_after_comment_exec(code: &[u8], i: &mut usize, k: usize, close: &[u8]) -> (r: Option<Vec<u8>>)
    requires
        *old(i) < k <= code.len(),
    ensures
        match lex_after_comment(code@, *old(i) as int, k as int, close@) {
            Some((t, p)) => r is Some && r->0@ == t && *final(i) == p,
            None => r is None,
        },
        *final(i) <= code.len(),
        r is Some ==> *final(i) > *old(i),
    decreases code.len() - *old(i), 0int,
{
    *i = k;
    if !skip_comment_exec(code, i, close) {
        return None;
    }
    if *i < code.len() {
        next_token_runner(code, i, false)
    } else {
        Some(Vec::new())
    }
}

/// The token at `*i`, moving `*i` just past it; `None` on an unclosed quote.
pub fn next_token_runner(code: &[u8], i: &mut usize, ignore_special: bool) -> (r: Option<Vec<u8>>)
    requires
        *old(i) <= code.len(),
    ensures
        match lex(code@, *old(i) as int, ignore_special) {
            Some((t, p)) => r is Some && r->0@ == t && *final(i) == p,
            None => r is None,
        },
        *final(i) <= code.len(),
        r is Some && *old(i) < code.len() ==> *final(i) > *old(i),
    decreases code.len() - *old(i), 1int,
{
    let i0 = *i;
    let j = skip_whitespace(code, i0);
    let n = get_symbol(code, j);
    let k = j + n;
    if n == 1 && code[j] == 123 {
        let close: Vec<u8> = vec![125u8];
        assert(close@ == seq![125u8]);
        lex_after_comment_exec(code, i, k, close.as_slice())
    } else if n == 2 && code[j] == 40 && code[j + 1] == 42 {
        let close: Vec<u8> = vec![42u8, 41u8];
        assert(close@ == seq![42u8, 41u8]);
        lex_after_comment_exec(code, i, k, close.as_slice())
    } else if n == 2 && code[j] == 47 && code[j + 1] == 47 {
        let e = line_end(code, k);
        if e < code.len() && e + 1 < code.len() {
            *i = e + 1;
            next_token_runner(code, i, false)
        } else {
            *i = code.len();
            Some(Vec::new())
        }
    } else if n == 1 && code[j] == 39 && !ignore_special {
        match find_quote_end(code, k) {
            Some(e) => {
                *i = e;
                Some(copy_range(code, j, e, false))
            },
            None => None,
        }
    } else if n > 0 {
        *i = k;
        Some(normalize_symbol(code, j, n))
    } else {
        let e = word_end(code, j);
        *i = e;
        Some(copy_range(code, j, e, true))
    }
}

/// The token that a parser reads at cursor `i`, and where the cursor then
/// stands. Reaching the end while a token is required is an error.
pub open spec fn token_at(s: Seq<u8>, i: int) -> Result<(Seq<u8>, int), LexError> {
    if i < 0 || i > s.len() {
        Err(LexError::UnexpectedEnd)
    } else {
        match lex(s, i, false) {
            None => Err(LexError::UnmatchedQuote),
            Some((t, p)) => if t.len() == 0 {
                Err(LexError::UnexpectedEnd)
            } else {
                Ok((t, p))
            },
        }
    }
}

/// Reads the token at `*i` and moves the cursor just past it.
pub fn advance(code: &[u8], i: &mut usize) -> (r: Result<Vec<u8>, LexError>)
    ensures
        match token_at(code@, *old(i) as int) {
            Ok((t, p)) => r is Ok && r->Ok_0@ == t && *final(i) == p,
            Err(e) => r == Err::<Vec<u8>, LexError>(e) && *final(i) == *old(i),
        },
        *old(i) <= code.len() ==> *final(i) <= code.len(),
        r is Ok ==> *old(i) < *final(i),
{
    if *i > code.len() {
        return Err(LexError::UnexpectedEnd);
    }
    let start = *i;
    match next_token_runner(code, i, false) {
        None => {
            *i = start;
            Err(LexError::UnmatchedQuote)
        },
        Some(t) => {
            if t.len() == 0 {
                *i = start;
                Err(LexError::UnexpectedEnd)
            } else {
                Ok(t)
            }
        },
    }
}

/// Reads the token at `i` without moving any cursor.
pub fn peek(code: &[u8], i: usize) -> (r: Result<Vec<u8>, LexError>)
    ensures
        match token_at(code@, i as int) {
            Ok((t, p)) => r is Ok && r->Ok_0@ == t && i < p <= code.len(),
            Err(e) => r == Err::<Vec<u8>, LexError>(e),
        },
{
    let mut j = i;
    advance(code, &mut j)
}

/// The text that `String::from_utf8_lossy` decodes from `b`.
pub uninterp spec fn lossy_text(b: Seq<u8>) -> Seq<char>;

/// Relies on String::from_utf8_lossy: the text depends on the bytes alone, and
/// well-formed UTF-8 is decoded unchanged.
#[verifier::external_body]
pub(crate) fn text_of(b: &[u8]) -> (r: String)
    ensures
        r@ == lossy_text(b@),
        valid_utf8(b@) ==> encode_utf8(r@) == b@,
{
    String::from_utf8_lossy(b).into_owned()
}

/// Reads the next token of `code` at byte offset `*i` and moves `*i` just past it.
pub fn next_token(code: &str, i: &mut usize) -> (r: Result<String, LexError>)
    ensures
        match token_at(code.spec_bytes(), *old(i) as int) {
            Ok((t, p)) => r is Ok && r->Ok_0@ == lossy_text(t) && (valid_utf8(t) ==> encode_utf8(
                r->Ok_0@,
            ) == t) && *final(i) == p,
            Err(e) => r == Err::<String, LexError>(e) && *final(i) == *old(i),
        },
        r is Ok ==> *old(i) < *final(i) <= code.spec_bytes().len(),
{
    let bytes = code.as_bytes();
    match advance(bytes, i) {
        Ok(t) => Ok(text_of(t.as_slice())),
        Err(e) => Err(e),
    }
}

/// The token that `next_token` would read at `*i`; the cursor does not move.
pub fn last_token(code: &str, i: &mut usize) -> (r: Result<String, LexError>)
    ensures
        *final(i) == *old(i),
        match token_at(code.spec_bytes(), *old(i) as int) {
            Ok((t, p)) => r is Ok && r->Ok_0@ == lossy_text(t) && (valid_utf8(t) ==> encode_utf8(
                r->Ok_0@,
            ) == t),
            Err(e) => r == Err::<String, LexError>(e),
        },
{
    let mut j = *i;
    next_token(code, &mut j)
}

/// A punctuation alias and the ASCII symbol it stands for:
/// `≤ <=`, `≠ <>`, `≥ >=`, `(. [`, `.) ]`.
pub open spec fn symbol_alias(alias: Seq<u8>, ascii: Seq<u8>) -> bool {
    (alias == seq![0xE2u8, 0x89u8, 0xA4u8] && ascii == seq![60u8, 61u8])
    || (alias == seq![0xE2u8, 0x89u8, 0xA0u8] && ascii == seq![60u8, 62u8])
    || (alias == seq![0xE2u8, 0x89u8, 0xA5u8] && ascii == seq![62u8, 61u8])
    || (alias == seq![40u8, 46u8] && ascii == seq![91u8])
    || (alias == seq![46u8, 41u8] && ascii == seq![93u8])
}

/// A word alias and the reserved word it stands for:
/// `∧ AND`, `∨ OR`, `¬ NOT`, `~ NOT`.
pub open spec fn word_alias(alias: Seq<u8>, word: Seq<u8>) -> bool {
    (alias == seq![0xE2u8, 0x88u8, 0xA7u8] && word == seq![65u8, 78u8, 68u8])
    || (alias == seq![0xE2u8, 0x88u8, 0xA8u8] && word == seq![79u8, 82u8])
    || (alias == seq![0xC2u8, 0xACu8] && word == seq![78u8, 79u8, 84u8])
    || (alias == seq![126u8] && word == seq![78u8, 79u8, 84u8])
}

/// Unicode alias equivalence for punctuation: a token that starts with an
/// alias is read as the same token as its ASCII spelling, whatever follows.
pub proof fn lemma_symbol_alias(a: Seq<u8>, b: Seq<u8>, alias: Seq<u8>, ascii: Seq<u8>, q: bool)
    requires
        symbol_alias(alias, ascii),
    ensures
        lex(a + alias + b, a.len() as int, q) == Some((ascii, (a.len() + alias.len()) as int)),
        lex(a + ascii + b, a.len() as int, q) == Some((ascii, (a.len() + ascii.len()) as int)),
{
    let s1 = a + alias + b;
    let s2 = a + ascii + b;
    let j = a.len() as int;
    assert(s1[j] == alias[0]);
    assert(s1[j + 1] == alias[1]);
    assert(s2[j] == ascii[0]);
    assert(ws_len(s1, j) == 0);
    assert(ws_len(s2, j) == 0);
    if alias.len() == 3 {
        assert(s1[j + 2] == alias[2]);
        assert(s1.subrange(j, j + 3) == alias);
    } else {
        assert(s1.subrange(j, j + 2) == alias);
    }
    if ascii.len() == 2 {
        assert(s2[j + 1] == ascii[1]);
        assert(s2.subrange(j, j + 2) == ascii);
    } else {
        assert(s2.subrange(j, j + 1) == ascii);
    }
}

/// Unicode alias equivalence for words: a token that starts with `∧ ∨ ¬ ~`
/// is read as the same token as the reserved word it stands for, written
/// where the next byte ends a word (or at the end).
pub proof fn lemma_word_alias(a: Seq<u8>, b: Seq<u8>, alias: Seq<u8>, word: Seq<u8>, q: bool)
    requires
        word_alias(alias, word),
        b.len() == 0 || is_ws(b[0]) || symbol_len(b, 0) > 0,
    ensures
        lex(a + alias + b, a.len() as int, q) == Some((word, (a.len() + alias.len()) as int)),
        lex(a + word + b, a.len() as int, q) == Some((word, (a.len() + word.len()) as int)),
{
    let s1 = a + alias + b;
    let s2 = a + word + b;
    let j = a.len() as int;
    let e = j + word.len();
    assert(s1[j] == alias[0]);
    assert(ws_len(s1, j) == 0);
    assert(ws_len(s2, j) == 0);
    if alias.len() == 3 {
        assert(s1[j + 1] == alias[1]);
        assert(s1[j + 2] == alias[2]);
        assert(s1.subrange(j, j + 3) == alias);
    } else if alias.len() == 2 {
        assert(s1[j + 1] == alias[1]);
        assert(s1.subrange(j, j + 2) == alias);
    } else {
        assert(s1.subrange(j, j + 1) == alias);
    }
    assert forall|k: int| 0 <= k < word.len() implies s2[j + k] == word[k] && !is_ws(s2[j + k])
        && symbol_len(s2, j + k) == 0 by {
        assert(s2[j + k] == word[k]);
    }
    if b.len() > 0 {
        assert(s2[e] == b[0]);
        if b.len() > 1 {
            assert(s2[e + 1] == b[1]);
        }
        if b.len() > 2 {
            assert(s2[e + 2] == b[2]);
        }
    }
    assert(word_len(s2, e) == 0);
    if word.len() == 3 {
        assert(word_len(s2, j + 2) == 1);
        assert(word_len(s2, j + 1) == 2);
    } else {
        assert(word_len(s2, j + 1) == 1);
    }
    assert(word_len(s2, j) == word.len());
    assert(s2.subrange(j, e) == word);
    assert(upper(word) == word);
}

/// An ASCII letter or digit.
pub open spec fn is_alnum(b: u8) -> bool {
    (48 <= b && b <= 57) || (65 <= b && b <= 90) || (97 <= b && b <= 122)
}

proof fn lemma_word_len(s: Seq<u8>, j: int, n: int)
    requires
        0 <= j,
        0 <= n,
        j + n <= s.len(),
        forall|k: int| 0 <= k < n ==> is_alnum(#[trigger] s[j + k]),
        j + n == s.len() || is_ws(s[j + n]) || symbol_len(s, j + n) > 0,
    ensures
        word_len(s, j) == n,
    decreases n,
{
    if n > 0 {
        assert(is_alnum(s[j + 0]));
        assert forall|k: int| 0 <= k < n - 1 implies is_alnum(#[trigger] s[(j + 1) + k]) by {
            assert(is_alnum(s[j + (k + 1)]));
        }
        lemma_word_len(s, j + 1, n - 1);
    }
}

/// Case folding: a word of ASCII letters and digits is read as its upper-case
/// form, so two spellings that differ only in letter case are read as the same
/// token, wherever they stand and whatever word-ending text follows.
pub proof fn lemma_case_folding(a: Seq<u8>, b: Seq<u8>, w1: Seq<u8>, w2: Seq<u8>, q: bool)
    requires
        w1.len() == w2.len(),
        w1.len() > 0,
        forall|k: int| 0 <= k < w1.len() ==> is_alnum(#[trigger] w1[k]) && is_alnum(w2[k]),
        forall|k: int| 0 <= k < w1.len() ==> upper_byte(#[trigger] w1[k]) == upper_byte(w2[k]),
        b.len() == 0 || is_ws(b[0]) || symbol_len(b, 0) > 0,
    ensures
        lex(a + w1 + b, a.len() as int, q) == Some((upper(w1), (a.len() + w1.len()) as int)),
        lex(a + w2 + b, a.len() as int, q) == Some((upper(w1), (a.len() + w2.len()) as int)),
{
    assert(upper(w1) == upper(w2));
    assert forall|k: int| 0 <= k < w2.len() implies is_alnum(#[trigger] w2[k]) by {
        assert(is_alnum(w1[k]));
    }
    lemma_word_read(a, b, w1, q);
    lemma_word_read(a, b, w2, q);
}

proof fn lemma_word_read(a: Seq<u8>, b: Seq<u8>, w: Seq<u8>, q: bool)
    requires
        w.len() > 0,
        forall|k: int| 0 <= k < w.len() ==> is_alnum(#[trigger] w[k]),
        b.len() == 0 || is_ws(b[0]) || symbol_len(b, 0) > 0,
    ensures
        lex(a + w + b, a.len() as int, q) == Some((upper(w), (a.len() + w.len()) as int)),
{
    let s = a + w + b;
    let j = a.len() as int;
    let e = j + w.len();
    assert forall|k: int| 0 <= k < w.len() implies is_alnum(#[trigger] s[j + k]) by {
        assert(s[j + k] == w[k]);
    }
    assert(s[j] == w[0]);
    assert(ws_len(s, j) == 0);
    if b.len() > 0 {
        assert(s[e] == b[0]);
        if b.len() > 1 {
            assert(s[e + 1] == b[1]);
        }
        if b.len() > 2 {
            assert(s[e + 2] == b[2]);
        }
    }
    lemma_word_len(s, j, w.len() as int);
    assert(s.subrange(j, e) == w);
}

/// The comment closer `close` (`}` or `*)`) stands at `e`.
pub open spec fn closes_at(s: Seq<u8>, e: int, close: Seq<u8>) -> bool {
    (close == seq![125u8] && 0 <= e < s.len() && s[e] == 125u8) || (close == seq![42u8, 41u8] && 0
        <= e && e + 1 < s.len() && s[e] == 42u8 && s[e + 1] == 41u8)
}

/// Bytes `[k, e)` of `s` are whitespace, letters and digits, and `close` stands at `e`.
pub open spec fn plain_until_close(s: Seq<u8>, k: int, e: int, close: Seq<u8>) -> bool {
    &&& 0 <= k <= e
    &&& closes_at(s, e, close)
    &&& forall|m: int| k <= m < e ==> is_ws(#[trigger] s[m]) || is_alnum(s[m])
}

proof fn lemma_plain_ws(s: Seq<u8>, k: int, e: int, close: Seq<u8>)
    requires
        plain_until_close(s, k, e, close),
    ensures
        k + ws_len(s, k) <= e,
        k + ws_len(s, k) == e || is_alnum(s[k + ws_len(s, k)]),
    decreases e - k,
{
    if k < e && is_ws(s[k]) {
        lemma_plain_ws(s, k + 1, e, close);
    }
}

proof fn lemma_plain_word(s: Seq<u8>, k: int, e: int, close: Seq<u8>)
    requires
        plain_until_close(s, k, e, close),
        k < e,
        is_alnum(s[k]),
    ensures
        1 <= word_len(s, k),
        k + word_len(s, k) <= e,
    decreases e - k,
{
    assert(symbol_len(s, k) == 0);
    assert(symbol_len(s, e) >= 1);
    if k + 1 < e && is_alnum(s[k + 1]) {
        lemma_plain_word(s, k + 1, e, close);
    } else {
        assert(word_len(s, k + 1) == 0);
    }
}

proof fn lemma_skip_plain(s: Seq<u8>, k: int, e: int, close: Seq<u8>)
    requires
        plain_until_close(s, k, e, close),
    ensures
        skip_comment(s, k, close) == Some((e + close.len() - k) as nat),
    decreases e - k,
{
    lemma_plain_ws(s, k, e, close);
    let j = k + ws_len(s, k);
    if j == e {
        assert(symbol_len(s, e) == close.len());
        assert(s.subrange(j, j + close.len()) == close);
        assert(normalize(close) == close);
        assert(lex(s, k, true) == Some((close, e + close.len())));
    } else {
        lemma_plain_word(s, j, e, close);
        assert(symbol_len(s, j) == 0);
        let p = j + word_len(s, j);
        let t = upper(s.subrange(j, p));
        assert(t[0] == upper_byte(s[j]));
        assert(t != close);
        assert(lex(s, k, true) == Some((t, p)));
        lemma_skip_plain(s, p, e, close);
    }
}

/// Comment transparency for plain-text brace comments: reading a token where
/// `{ ... }` starts gives what reading just after the comment gives, when the
/// comment holds only whitespace, letters and digits.
pub proof fn lemma_comment_transparent(a: Seq<u8>, c: Seq<u8>, b: Seq<u8>)
    requires
        forall|m: int| 0 <= m < c.len() ==> is_ws(#[trigger] c[m]) || is_alnum(c[m]),
        b.len() > 0,
    ensures
        lex(a + seq![123u8] + c + seq![125u8] + b, a.len() as int, false) == lex(
            a + seq![123u8] + c + seq![125u8] + b,
            (a.len() + c.len() + 2) as int,
            false,
        ),
{
    let s = a + seq![123u8] + c + seq![125u8] + b;
    let j = a.len() as int;
    let e = j + 1 + c.len();
    assert(s[j] == 123u8);
    assert(s[e] == 125u8);
    assert forall|m: int| j + 1 <= m < e implies is_ws(#[trigger] s[m]) || is_alnum(s[m]) by {
        assert(s[m] == c[m - j - 1]);
    }
    assert(ws_len(s, j) == 0);
    assert(symbol_len(s, j) == 1);
    lemma_skip_plain(s, j + 1, e, seq![125u8]);
    assert(lex(s, j, false) == lex_after_comment(s, j, j + 1, seq![125u8]));
}

/// Comment transparency for plain-text `(* ... *)` comments, as for braces.
pub proof fn lemma_paren_comment_transparent(a: Seq<u8>, c: Seq<u8>, b: Seq<u8>)
    requires
        forall|m: int| 0 <= m < c.len() ==> is_ws(#[trigger] c[m]) || is_alnum(c[m]),
        b.len() > 0,
    ensures
        lex(a + seq![40u8, 42u8] + c + seq![42u8, 41u8] + b, a.len() as int, false) == lex(
            a + seq![40u8, 42u8] + c + seq![42u8, 41u8] + b,
            (a.len() + c.len() + 4) as int,
            false,
        ),
{
    let s = a + seq![40u8, 42u8] + c + seq![42u8, 41u8] + b;
    let j = a.len() as int;
    let e = j + 2 + c.len();
    assert(s[j] == 40u8);
    assert(s[j + 1] == 42u8);
    assert(s[e] == 42u8);
    assert(s[e + 1] == 41u8);
    assert forall|m: int| j + 2 <= m < e implies is_ws(#[trigger] s[m]) || is_alnum(s[m]) by {
        assert(s[m] == c[m - j - 2]);
    }
    assert(ws_len(s, j) == 0);
    assert(symbol_len(s, j) == 2);
    lemma_skip_plain(s, j + 2, e, seq![42u8, 41u8]);
    assert(lex(s, j, false) == lex_after_comment(s, j, j + 2, seq![42u8, 41u8]));
}

proof fn lemma_line_len(s: Seq<u8>, k: int, n: int)
    requires
        0 <= k,
        0 <= n,
        k + n < s.len(),
        forall|m: int| 0 <= m < n ==> #[trigger] s[k + m] != 10u8,
        s[k + n] == 10u8,
    ensures
        line_len(s, k) == n,
    decreases n,
{
    if n > 0 {
        assert(s[k + 0] != 10u8);
        assert forall|m: int| 0 <= m < n - 1 implies #[trigger] s[(k + 1) + m] != 10u8 by {
            assert(s[k + (m + 1)] != 10u8);
        }
        lemma_line_len(s, k + 1, n - 1);
    }
}

/// Comment transparency for `//` comments: reading a token where `//` starts
/// gives what reading just after the comment's line feed gives, whatever the
/// comment holds other than a line feed.
pub proof fn lemma_line_comment_transparent(a: Seq<u8>, c: Seq<u8>, b: Seq<u8>)
    requires
        forall|m: int| 0 <= m < c.len() ==> #[trigger] c[m] != 10u8,
        b.len() > 0,
    ensures
        lex(a + seq![47u8, 47u8] + c + seq![10u8] + b, a.len() as int, false) == lex(
            a + seq![47u8, 47u8] + c + seq![10u8] + b,
            (a.len() + c.len() + 3) as int,
            false,
        ),
{
    let s = a + seq![47u8, 47u8] + c + seq![10u8] + b;
    let j = a.len() as int;
    assert(s[j] == 47u8);
    assert(s[j + 1] == 47u8);
    assert(s[j + 2 + c.len()] == 10u8);
    assert forall|m: int| 0 <= m < c.len() implies #[trigger] s[(j + 2) + m] != 10u8 by {
        assert(s[(j + 2) + m] == c[m]);
    }
    assert(ws_len(s, j) == 0);
    assert(symbol_len(s, j) == 2);
    lemma_line_len(s, j + 2, c.len() as int);
}

} // verus!
