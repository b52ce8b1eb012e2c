//! Recursive-descent parser: source bytes to the syntax tree of `definitions`.
//! The first syntax error ends parsing and is returned with its span.
use vstd::prelude::*;
use vstd::string::{is_ascii, StringSliceAdditionalSpecFns};
use vstd::utf8::{is_leading_byte_width_1, partial_valid_utf8_extend_ascii_block, valid_utf8};
use crate::definitions::{
    is_digit, is_identifier, is_letter, is_name, is_reserved, block_wf, expression_wf, factor_wf, item_wf, simple_wf, statement_wf, supertype_wf, term_wf,
    copy_expression, copy_simple_expression, copy_supertype, Block, Constant, Expression,
    ExpressionOrRange, Factor, Program, SimpleExpression, Statement, SuperType, Term,
    UnsignedConstant, Variable,
};
use crate::tokenizer::{lossy_text, upper, upper_copy, advance, peek, text_of, token_at, token_is, LexError};

verus! {

/// What a syntax error says.
#[derive(Debug, Clone, Copy, PartialEq, Eq)]
pub enum SyntaxMessage {
    UnexpectedEnd,
    UnmatchedQuote,
    MissingProgram,
    InvalidIdentifier,
    ExpectedSemicolon,
    InvalidTerminator,
    MultipleConst,
    MultipleVar,
    ExpectedEquals,
    ExpectedColonOrComma,
    ExpectedArray,
    ExpectedOpenBracket,
    ExpectedRange,
    ExpectedCloseBracket,
    ExpectedOf,
    FailedType,
    ExpectedAssign,
    UnrecognizedStatement,
    EmptyStatementList,
    ExpectedSemicolonOrEnd,
    ExpectedSemicolonOrUntil,
    MissingThen,
    MissingDo,
    ExpectedToOrDownto,
    ExpectedDo,
    ExpectedOpenParen,
    UnclosedParen,
    ExpectedNumber,
    FailedFactor,
}

impl SyntaxMessage {
    /// The text shown to the user.
    pub fn text(&self) -> &'static str {
        match self {
            SyntaxMessage::UnexpectedEnd => "Unexpected end of input",
            SyntaxMessage::UnmatchedQuote => "Unmatched ' found",
            SyntaxMessage::MissingProgram => "Missing PROGRAM keyword",
            SyntaxMessage::InvalidIdentifier => "Invalid identifier",
            SyntaxMessage::ExpectedSemicolon => "Expected ;",
            SyntaxMessage::InvalidTerminator => "Invalid program terminator",
            SyntaxMessage::MultipleConst => "Multiple CONST blocks encountered",
            SyntaxMessage::MultipleVar => "Multiple VAR blocks encountered",
            SyntaxMessage::ExpectedEquals => "Expected =",
            SyntaxMessage::ExpectedColonOrComma => "Expected : or ,",
            SyntaxMessage::ExpectedArray => "Expected ARRAY",
            SyntaxMessage::ExpectedOpenBracket => "Expected [",
            SyntaxMessage::ExpectedRange => "Expected ..",
            SyntaxMessage::ExpectedCloseBracket => "Expected ]",
            SyntaxMessage::ExpectedOf => "Expected OF",
            SyntaxMessage::FailedType => "Failed to parse type",
            SyntaxMessage::ExpectedAssign => "Expected :=",
            SyntaxMessage::UnrecognizedStatement => "Unrecognized statement",
            SyntaxMessage::EmptyStatementList => "Empty statement list",
            SyntaxMessage::ExpectedSemicolonOrEnd => "Expected ; or END",
            SyntaxMessage::ExpectedSemicolonOrUntil => "Expected ; or UNTIL",
            SyntaxMessage::MissingThen => "Missing THEN after IF",
            SyntaxMessage::MissingDo => "Missing DO after WHILE",
            SyntaxMessage::ExpectedToOrDownto => "Expected TO or DOWNTO",
            SyntaxMessage::ExpectedDo => "Expected DO",
            SyntaxMessage::ExpectedOpenParen => "Expected (",
            SyntaxMessage::UnclosedParen => "Unclosed (",
            SyntaxMessage::ExpectedNumber => "Expected number",
            SyntaxMessage::FailedFactor => "Failed to parse factor",
        }
    }
}

/// A syntax error and the span `[start, end)` of the token it points at.
#[derive(Debug, Clone, Copy, PartialEq, Eq)]
pub struct SyntaxError {
    pub message: SyntaxMessage,
    pub start: usize,
    pub end: usize,
}

/// The message of a syntax error found at cursor `i`: `m`, unless no token can
/// be read there.
pub open spec fn message_at(s: Seq<u8>, i: int, m: SyntaxMessage) -> SyntaxMessage {
    match token_at(s, i) {
        Ok(_) => m,
        Err(LexError::UnexpectedEnd) => SyntaxMessage::UnexpectedEnd,
        Err(LexError::UnmatchedQuote) => SyntaxMessage::UnmatchedQuote,
    }
}

pub open spec fn is_relational(t: Seq<u8>) -> bool {
    t == "<".spec_bytes() || t == "<=".spec_bytes() || t == "=".spec_bytes()
    || t == "<>".spec_bytes() || t == ">=".spec_bytes() || t == ">".spec_bytes()
    || t == "IN".spec_bytes()
}

fn is_reserved_bytes(t: &[u8]) -> (r: bool)
    ensures
        r == is_reserved(t@),
{
    token_is(t, "AND") || token_is(t, "ARRAY") || token_is(t, "BEGIN") || token_is(t, "CASE")
    || token_is(t, "CONST") || token_is(t, "DIV") || token_is(t, "DO") || token_is(t, "DOWNTO")
    || token_is(t, "ELSE") || token_is(t, "END") || token_is(t, "FILE") || token_is(t, "FOR")
    || token_is(t, "FUNCTION") || token_is(t, "GOTO") || token_is(t, "IF") || token_is(t, "IN")
    || token_is(t, "LABEL") || token_is(t, "MOD") || token_is(t, "NIL") || token_is(t, "NOT")
    || token_is(t, "OF") || token_is(t, "OR") || token_is(t, "PACKED")
    || token_is(t, "PROCEDURE") || token_is(t, "PROGRAM") || token_is(t, "RECORD")
    || token_is(t, "REPEAT") || token_is(t, "SET") || token_is(t, "THEN") || token_is(t, "TO")
    || token_is(t, "TYPE") || token_is(t, "UNTIL") || token_is(t, "VAR") || token_is(t, "WHILE")
    || token_is(t, "WITH")
}

fn identifier_bytes(t: &[u8]) -> (r: bool)
    ensures
        r == is_identifier(t@),
{
    if t.len() == 0 {
        return false;
    }
    let c = t[0];
    if !((65 <= c && c <= 90) || (97 <= c && c <= 122)) {
        return false;
    }
    let mut k: usize = 1;
    while k < t.len()
        invariant
            1 <= k <= t.len(),
            forall|m: int| 1 <= m < k ==> is_letter(#[trigger] t@[m]) || is_digit(t@[m]),
        decreases t.len() - k,
    {
        let c = t[k];
        if !((65 <= c && c <= 90) || (97 <= c && c <= 122) || (48 <= c && c <= 57)) {
            return false;
        }
        k = k + 1;
    }
    let folded = upper_copy(t);
    !is_reserved_bytes(folded.as_slice())
}

proof fn lemma_identifier_utf8(t: Seq<u8>)
    requires
        is_identifier(t),
    ensures
        valid_utf8(t),
{
    assert forall|k: int| 0 <= k < t.len() implies #[trigger] is_leading_byte_width_1(t[k]) by {
        if k > 0 {
            assert(is_letter(t[k]) || is_digit(t[k]));
        }
    }
    assert(t.subrange(0, 0) == Seq::<u8>::empty());
    partial_valid_utf8_extend_ascii_block(t, 0, t.len() as int);
    assert(t.subrange(0, t.len() as int) == t);
}

/// The text of an identifier token.
fn identifier_text(t: &[u8]) -> (r: String)
    requires
        is_identifier(t@),
    ensures
        is_name(r),
        r@ == lossy_text(t@),
{
    proof {
        lemma_identifier_utf8(t@);
    }
    text_of(t)
}

/// Whether `token` can name a variable, constant or program: a letter, then
/// letters and digits, and not a reserved word.
pub fn is_valid_identifier(token: &str) -> (r: bool)
    ensures
        r == is_identifier(token.spec_bytes()),
{
    identifier_bytes(token.as_bytes())
}

/// Whether `token` is a relational operator.
pub fn is_equality_operator(token: &str) -> (r: bool)
    ensures
        r == is_relational(token.spec_bytes()),
{
    is_equality_operator_bytes(token.as_bytes())
}

/// The value of a string of decimal digits.
pub open spec fn digits_value(t: Seq<u8>) -> nat
    decreases t.len(),
{
    if t.len() == 0 {
        0
    } else {
        digits_value(t.drop_last()) * 10 + (t.last() - 48) as nat
    }
}

pub open spec fn all_digits(t: Seq<u8>) -> bool {
    forall|k: int| 0 <= k < t.len() ==> is_digit(#[trigger] t[k])
}

/// The unsigned 64-bit integer a token spells, if it spells one.
pub fn parse_u64(t: &[u8]) -> (r: Option<u64>)
    ensures
        r == (if t@.len() > 0 && all_digits(t@) && digits_value(t@) <= u64::MAX {
            Some(digits_value(t@) as u64)
        } else {
            None::<u64>
        }),
{
    if t.len() == 0 {
        return None;
    }
    let mut acc: u64 = 0;
    let mut k: usize = 0;
    while k < t.len()
        invariant
            k <= t.len(),
            all_digits(t@.subrange(0, k as int)),
            acc as nat == digits_value(t@.subrange(0, k as int)),
        decreases t.len() - k,
    {
        let c = t[k];
        assert(t@.subrange(0, k + 1).drop_last() == t@.subrange(0, k as int));
        if !(48 <= c && c <= 57) {
            assert(!all_digits(t@)) by {
                assert(!is_digit(t@[k as int]));
            }
            return None;
        }
        let d = (c - 48) as u64;
        if acc > 1844674407370955161 || (acc == 1844674407370955161 && d > 5) {
            assert(digits_value(t@.subrange(0, k + 1)) > u64::MAX);
            proof {
                lemma_digits_value_monotone(t@, k + 1);
            }
            return None;
        }
        acc = acc * 10 + d;
        k = k + 1;
    }
    assert(t@.subrange(0, t.len() as int) == t@);
    Some(acc)
}

proof fn lemma_digits_value_monotone(t: Seq<u8>, k: int)
    requires
        0 <= k <= t.len(),
        all_digits(t.subrange(0, k)),
    ensures
        all_digits(t) ==> digits_value(t) >= digits_value(t.subrange(0, k)),
    decreases t.len() - k,
{
    if k < t.len() && all_digits(t) {
        assert(t.subrange(0, k + 1).drop_last() == t.subrange(0, k));
        lemma_digits_value_monotone(t, k + 1);
    } else if all_digits(t) {
        assert(t.subrange(0, k) == t);
    }
}

/// The token at cursor `i`, and the cursor after it.
pub open spec fn tok(s: Seq<u8>, i: int) -> Seq<u8> {
    token_at(s, i)->Ok_0.0
}

pub open spec fn after(s: Seq<u8>, i: int) -> int {
    token_at(s, i)->Ok_0.1
}

/// A token that spells an unsigned 64-bit integer.
pub open spec fn is_number(t: Seq<u8>) -> bool {
    t.len() > 0 && all_digits(t) && digits_value(t) <= u64::MAX
}

proof fn lemma_literal_bytes()
    ensures
        "(".spec_bytes() == seq![40u8],
        "[".spec_bytes() == seq![91u8],
        ".".spec_bytes() == seq![46u8],
        "NOT".spec_bytes() == seq![78u8, 79u8, 84u8],
        "NIL".spec_bytes() == seq![78u8, 73u8, 76u8],
{
    broadcast use vstd::string::is_ascii_spec_bytes;
    reveal_strlit("(");
    reveal_strlit("[");
    reveal_strlit(".");
    reveal_strlit("NOT");
    reveal_strlit("NIL");
    assert(is_ascii("("));
    assert(is_ascii("["));
    assert(is_ascii("."));
    assert(is_ascii("NOT"));
    assert(is_ascii("NIL"));
    assert("(".spec_bytes() =~= seq![40u8]);
    assert("[".spec_bytes() =~= seq![91u8]);
    assert(".".spec_bytes() =~= seq![46u8]);
    assert("NOT".spec_bytes() =~= seq![78u8, 79u8, 84u8]);
    assert("NIL".spec_bytes() =~= seq![78u8, 73u8, 76u8]);
}

/// The cursor after the two tokens at `i`.
pub open spec fn after2(s: Seq<u8>, i: int) -> int {
    after(s, after(s, i))
}

/// A quoted token without its quotes.
pub open spec fn unquoted(t: Seq<u8>) -> Seq<u8> {
    t.subrange(1, t.len() - 1)
}

/// The constant that a quoted token `t` stands for: one ASCII byte is a
/// `Char`, other text a `Quote` of that text.
pub open spec fn quote_result(r: Result<Factor, SyntaxError>, t: Seq<u8>) -> bool {
    if unquoted(t).len() == 1 && unquoted(t)[0] < 128 {
        r == Ok::<Factor, SyntaxError>(Factor::Constant(UnsignedConstant::Char(unquoted(t)[0])))
    } else {
        r matches Ok(Factor::Constant(UnsignedConstant::Quote(x))) && x@ == lossy_text(unquoted(t))
    }
}

/// `f` indexes the array named by token `t`, over the span `[st, en)`.
pub open spec fn is_array_index(f: Factor, t: Seq<u8>, st: int, en: int) -> bool {
    f matches Factor::ArrayIndex(n, _, a, b) && n@ == lossy_text(t) && a == st && b == en
}

/// `r` is the identifier named by token `t`, with no arguments, over `[st, en)`.
pub open spec fn is_plain_identifier(r: Result<Factor, SyntaxError>, t: Seq<u8>, st: int, en: int) -> bool {
    r matches Ok(Factor::Identifier(n, args, a, b)) && n@ == lossy_text(t) && args.len() == 0
        && a == st && b == en
}

proof fn lemma_keyword_bytes()
    ensures
        "BEGIN".spec_bytes() == seq![66u8, 69u8, 71u8, 73u8, 78u8],
        "END".spec_bytes() == seq![69u8, 78u8, 68u8],
        "CONST".spec_bytes() == seq![67u8, 79u8, 78u8, 83u8, 84u8],
        "VAR".spec_bytes() == seq![86u8, 65u8, 82u8],
        ";".spec_bytes() == seq![59u8],
        "(".spec_bytes() == seq![40u8],
        !is_identifier("CONST".spec_bytes()),
        !is_identifier("VAR".spec_bytes()),
{
    broadcast use vstd::string::is_ascii_spec_bytes;
    reveal_strlit("BEGIN");
    reveal_strlit("END");
    reveal_strlit("CONST");
    reveal_strlit("VAR");
    reveal_strlit(";");
    reveal_strlit("(");
    assert(is_ascii("BEGIN"));
    assert(is_ascii("END"));
    assert(is_ascii("CONST"));
    assert(is_ascii("VAR"));
    assert(is_ascii(";"));
    assert(is_ascii("("));
    assert("BEGIN".spec_bytes() =~= seq![66u8, 69u8, 71u8, 73u8, 78u8]);
    assert("END".spec_bytes() =~= seq![69u8, 78u8, 68u8]);
    assert("CONST".spec_bytes() =~= seq![67u8, 79u8, 78u8, 83u8, 84u8]);
    assert("VAR".spec_bytes() =~= seq![86u8, 65u8, 82u8]);
    assert(";".spec_bytes() =~= seq![59u8]);
    assert("(".spec_bytes() =~= seq![40u8]);
    assert(upper("CONST".spec_bytes()) =~= "CONST".spec_bytes());
    assert(upper("VAR".spec_bytes()) =~= "VAR".spec_bytes());
}

proof fn lemma_semicolon_bytes()
    ensures
        ";".spec_bytes() != "(".spec_bytes(),
{
    lemma_keyword_bytes();
    assert(";".spec_bytes()[0] != "(".spec_bytes()[0]);
}

/// Whether the token at `i` is `t`.
pub open spec fn is_tok(s: Seq<u8>, i: int, t: Seq<u8>) -> bool {
    token_at(s, i) is Ok && tok(s, i) == t
}

/// Whether a token can be read at `i`, and it moves the cursor forward.
pub open spec fn steps(s: Seq<u8>, i: int) -> bool {
    token_at(s, i) is Ok && i < after(s, i) <= s.len()
}

pub open spec fn is_mulop(t: Seq<u8>) -> bool {
    t == "*".spec_bytes() || t == "/".spec_bytes() || t == "DIV".spec_bytes() || t
        == "MOD".spec_bytes() || t == "AND".spec_bytes()
}

pub open spec fn is_addop(t: Seq<u8>) -> bool {
    t == "+".spec_bytes() || t == "-".spec_bytes() || t == "OR".spec_bytes()
}

/// Where a literal constant whose token `t` was read ends, the cursor standing
/// at `p` after it: a number, optionally `. digits`, or a quoted literal.
pub open spec fn constant_end(t: Seq<u8>, s: Seq<u8>, p: int) -> Option<int> {
    if is_number(t) {
        if !steps(s, p) {
            None
        } else if tok(s, p) == ".".spec_bytes() {
            if steps(s, after(s, p)) && is_number(tok(s, after(s, p))) {
                Some(after2(s, p))
            } else {
                None
            }
        } else {
            Some(p)
        }
    } else if t.len() >= 2 && t[0] == 39u8 {
        Some(p)
    } else {
        None
    }
}

/// Where the factor that starts at `i` ends, or `None` on a syntax error.
pub open spec fn factor_end(s: Seq<u8>, i: int) -> Option<int>
    decreases s.len() - i, 0int,
{
    if i < 0 || !steps(s, i) {
        None
    } else {
        let t = tok(s, i);
        let p = after(s, i);
        if is_identifier(t) {
            named_end(s, p)
        } else if t == "(".spec_bytes() {
            match expression_end(s, p) {
                Some(e) => if e >= p && steps(s, e) && tok(s, e) == ")".spec_bytes() {
                    Some(after(s, e))
                } else {
                    None
                },
                None => None,
            }
        } else if t == "NOT".spec_bytes() {
            factor_end(s, p)
        } else if t == "[".spec_bytes() {
            list_end(s, p)
        } else if t == "NIL".spec_bytes() {
            Some(p)
        } else {
            constant_end(t, s, p)
        }
    }
}

/// After an identifier, at `p`: an index in brackets, arguments, or nothing.
pub open spec fn named_end(s: Seq<u8>, p: int) -> Option<int>
    decreases s.len() - p, 4int,
{
    if p < 0 || !steps(s, p) {
        None
    } else if tok(s, p) == "[".spec_bytes() {
        match expression_end(s, after(s, p)) {
            Some(e) => if e >= p && steps(s, e) && tok(s, e) == "]".spec_bytes() {
                Some(after(s, e))
            } else {
                None
            },
            None => None,
        }
    } else if tok(s, p) == "(".spec_bytes() {
        arguments_end(s, after(s, p))
    } else {
        Some(p)
    }
}

/// Arguments `expression ("," expression)* ")"` from `i`, through the `)`.
pub open spec fn arguments_end(s: Seq<u8>, i: int) -> Option<int>
    decreases s.len() - i, 4int,
{
    if i < 0 || i > s.len() {
        None
    } else {
        match expression_end(s, i) {
            Some(e) => if e <= i || !steps(s, e) {
                None
            } else if tok(s, e) == ")".spec_bytes() {
                Some(after(s, e))
            } else {
                arguments_end(s, after(s, e))
            },
            None => None,
        }
    }
}

/// List items from `i` through the closing `]`.
pub open spec fn list_end(s: Seq<u8>, i: int) -> Option<int>
    decreases s.len() - i, 4int,
{
    if i < 0 || i > s.len() {
        None
    } else {
        match expression_end(s, i) {
            Some(e1) => if e1 <= i || !steps(s, e1) {
                None
            } else if tok(s, e1) == "..".spec_bytes() {
                match expression_end(s, after(s, e1)) {
                    Some(e2) => if e2 <= i || !steps(s, e2) {
                        None
                    } else if tok(s, e2) == "]".spec_bytes() {
                        Some(after(s, e2))
                    } else {
                        list_end(s, after(s, e2))
                    },
                    None => None,
                }
            } else if tok(s, e1) == "]".spec_bytes() {
                Some(after(s, e1))
            } else {
                list_end(s, after(s, e1))
            },
            None => None,
        }
    }
}

/// Where the term that starts at `i` ends.
pub open spec fn term_end(s: Seq<u8>, i: int) -> Option<int>
    decreases s.len() - i, 1int,
{
    if i < 0 || i > s.len() {
        None
    } else {
        match factor_end(s, i) {
            Some(f) => if f <= i || f > s.len() {
                None
            } else {
                term_rest(s, f)
            },
            None => None,
        }
    }
}

/// The rest of a term from `j`: `(mulop factor)*`.
pub open spec fn term_rest(s: Seq<u8>, j: int) -> Option<int>
    decreases s.len() - j, 1int,
{
    if j < 0 || !steps(s, j) {
        None
    } else if is_mulop(tok(s, j)) {
        match factor_end(s, after(s, j)) {
            Some(f) => if f <= j || f > s.len() {
                None
            } else {
                term_rest(s, f)
            },
            None => None,
        }
    } else {
        Some(j)
    }
}

/// Where the simple expression that starts at `i` ends.
pub open spec fn simple_end(s: Seq<u8>, i: int) -> Option<int>
    decreases s.len() - i, 2int,
{
    if i < 0 || !steps(s, i) {
        None
    } else {
        let j = if tok(s, i) == "+".spec_bytes() || tok(s, i) == "-".spec_bytes() {
            after(s, i)
        } else {
            i
        };
        match term_end(s, j) {
            Some(t) => if t <= i || t > s.len() {
                None
            } else {
                simple_rest(s, t)
            },
            None => None,
        }
    }
}

/// The rest of a simple expression from `j`: `(addop term)*`.
pub open spec fn simple_rest(s: Seq<u8>, j: int) -> Option<int>
    decreases s.len() - j, 2int,
{
    if j < 0 || !steps(s, j) {
        None
    } else if is_addop(tok(s, j)) {
        match term_end(s, after(s, j)) {
            Some(t) => if t <= j || t > s.len() {
                None
            } else {
                simple_rest(s, t)
            },
            None => None,
        }
    } else {
        Some(j)
    }
}

/// Where the expression that starts at `i` ends.
pub open spec fn expression_end(s: Seq<u8>, i: int) -> Option<int>
    decreases s.len() - i, 3int,
{
    if i < 0 || i > s.len() {
        None
    } else {
        match simple_end(s, i) {
            Some(o) => if o <= i || !steps(s, o) {
                None
            } else if is_relational(tok(s, o)) {
                simple_end(s, after(s, o))
            } else {
                Some(o)
            },
            None => None,
        }
    }
}

pub open spec fn is_simple_type(t: Seq<u8>) -> bool {
    t == "INTEGER".spec_bytes() || t == "BOOLEAN".spec_bytes() || t == "REAL".spec_bytes() || t
        == "CHAR".spec_bytes() || t == "STRING".spec_bytes() || t == "TEXT".spec_bytes()
}

/// Where the type that starts at `i` ends.
pub open spec fn type_end(s: Seq<u8>, i: int) -> Option<int>
    decreases s.len() - i,
{
    if i < 0 || !steps(s, i) {
        None
    } else {
        let t = tok(s, i);
        let p = after(s, i);
        if is_simple_type(t) {
            Some(p)
        } else if t == "PACKED".spec_bytes() {
            if steps(s, p) && tok(s, p) == "ARRAY".spec_bytes() {
                type_end(s, p)
            } else {
                None
            }
        } else if t == "ARRAY".spec_bytes() {
            if !steps(s, p) || tok(s, p) != "[".spec_bytes() {
                None
            } else {
                match expression_end(s, after(s, p)) {
                    Some(e1) => if e1 <= p || !steps(s, e1) || tok(s, e1) != "..".spec_bytes() {
                        None
                    } else {
                        match expression_end(s, after(s, e1)) {
                            Some(e2) => if e2 <= p || !steps(s, e2) || tok(s, e2) != "]".spec_bytes()
                                || !steps(s, after(s, e2)) || tok(s, after(s, e2)) != "OF".spec_bytes() {
                                None
                            } else {
                                type_end(s, after2(s, e2))
                            },
                            None => None,
                        }
                    },
                    None => None,
                }
            }
        } else {
            None
        }
    }
}

/// Where the definitions `(identifier "=" expression ";")*` from `i` end.
pub open spec fn const_end(s: Seq<u8>, i: int) -> Option<int>
    decreases s.len() - i,
{
    if i < 0 || !steps(s, i) {
        None
    } else if !is_identifier(tok(s, i)) {
        Some(i)
    } else {
        let p = after(s, i);
        if !steps(s, p) || tok(s, p) != "=".spec_bytes() {
            None
        } else {
            match expression_end(s, after(s, p)) {
                Some(e) => if e <= i || !steps(s, e) || tok(s, e) != ";".spec_bytes() {
                    None
                } else {
                    const_end(s, after(s, e))
                },
                None => None,
            }
        }
    }
}

/// Where the names `("," identifier)*` after a first name end, from `i`.
pub open spec fn names_end(s: Seq<u8>, i: int) -> Option<int>
    decreases s.len() - i,
{
    if i < 0 || !steps(s, i) {
        None
    } else if tok(s, i) == ",".spec_bytes() {
        let q = after(s, i);
        if !steps(s, q) || !is_identifier(tok(s, q)) {
            None
        } else {
            names_end(s, after(s, q))
        }
    } else {
        Some(i)
    }
}

/// Where the declarations `(identifier ("," identifier)* ":" type ";")*` from `i` end.
pub open spec fn var_end(s: Seq<u8>, i: int) -> Option<int>
    decreases s.len() - i,
{
    if i < 0 || !steps(s, i) {
        None
    } else if !is_identifier(tok(s, i)) {
        Some(i)
    } else {
        match names_end(s, after(s, i)) {
            Some(n) => if n <= i || !steps(s, n) || tok(s, n) != ":".spec_bytes() {
                None
            } else {
                match type_end(s, after(s, n)) {
                    Some(t) => if t <= i || !steps(s, t) || tok(s, t) != ";".spec_bytes() {
                        None
                    } else {
                        var_end(s, after(s, t))
                    },
                    None => None,
                }
            },
            None => None,
        }
    }
}

/// How the declarations of a block end.
pub enum BlockHead {
    /// At `BEGIN`; the statement list starts at the position held.
    Begin(int),
    /// At a second `CONST` section; the position just after that keyword.
    MultipleConst(int),
    /// At a second `VAR` section; the position just after that keyword.
    MultipleVar(int),
    /// At some other syntax error.
    Failed,
}

/// The declarations of a block from `i`, up to `BEGIN`: `CONST` and `VAR`
/// sections (each at most once), other tokens skipped.
#[verifier::opaque]
pub open spec fn sections(s: Seq<u8>, i: int, seen_const: bool, seen_var: bool) -> BlockHead
    decreases s.len() - i,
{
    if i < 0 || !steps(s, i) {
        BlockHead::Failed
    } else {
        let t = tok(s, i);
        let p = after(s, i);
        if t == "BEGIN".spec_bytes() {
            BlockHead::Begin(p)
        } else if t == "CONST".spec_bytes() {
            if seen_const {
                BlockHead::MultipleConst(p)
            } else {
                match const_end(s, p) {
                    Some(q) => if q < p || q > s.len() {
                        BlockHead::Failed
                    } else {
                        sections(s, q, true, seen_var)
                    },
                    None => BlockHead::Failed,
                }
            }
        } else if t == "VAR".spec_bytes() {
            if seen_var {
                BlockHead::MultipleVar(p)
            } else {
                match var_end(s, p) {
                    Some(q) => if q < p || q > s.len() {
                        BlockHead::Failed
                    } else {
                        sections(s, q, seen_const, true)
                    },
                    None => BlockHead::Failed,
                }
            }
        } else {
            sections(s, p, seen_const, seen_var)
        }
    }
}

/// An error found at cursor `i` points at the token there: it ends where that
/// token ends and starts its length before.
pub open spec fn token_span(e: SyntaxError, s: Seq<u8>, i: int) -> bool {
    token_at(s, i) is Ok ==> e.end == after(s, i) && e.start == (if tok(s, i).len() <= after(s, i) {
        after(s, i) - tok(s, i).len()
    } else {
        0
    })
}

/// `i - n`, or 0 where `n` is larger.
fn back(i: usize, n: usize) -> (r: usize)
    ensures
        r <= i,
        r == (if n <= i {
            i - n
        } else {
            0
        }),
{
    if n <= i {
        i - n
    } else {
        0
    }
}

fn lex_message(e: LexError) -> (m: SyntaxMessage)
    ensures
        e == LexError::UnexpectedEnd ==> m == SyntaxMessage::UnexpectedEnd,
        e == LexError::UnmatchedQuote ==> m == SyntaxMessage::UnmatchedQuote,
{
    match e {
        LexError::UnexpectedEnd => SyntaxMessage::UnexpectedEnd,
        LexError::UnmatchedQuote => SyntaxMessage::UnmatchedQuote,
    }
}

/// The error `m`, pointing at the token at `i`.
fn syntax_error(code: &[u8], i: usize, m: SyntaxMessage) -> (e: SyntaxError)
    ensures
        e.message == message_at(code@, i as int, m),
        token_span(e, code@, i as int),
{
    let mut j = i;
    match advance(code, &mut j) {
        Ok(t) => SyntaxError { message: m, start: back(j, t.len()), end: j },
        Err(x) => SyntaxError { message: lex_message(x), start: i, end: i },
    }
}

/// Fails with `m` at `i` unless `cond` holds.
fn check(cond: bool, code: &[u8], i: usize, m: SyntaxMessage) -> (r: Result<(), SyntaxError>)
    ensures
        cond <==> r is Ok,
        r is Err ==> r->Err_0.message == message_at(code@, i as int, m),
        r is Err ==> token_span(r->Err_0, code@, i as int),
{
    if cond {
        Ok(())
    } else {
        Err(syntax_error(code, i, m))
    }
}

/// Reads the token at `*i`, moving past it.
fn next(code: &[u8], i: &mut usize) -> (r: Result<Vec<u8>, SyntaxError>)
    requires
        *old(i) <= code.len(),
    ensures
        *final(i) <= code.len(),
        r is Ok ==> *old(i) < *final(i) && token_at(code@, *old(i) as int) == Ok::<
            (Seq<u8>, int),
            LexError,
        >((r->Ok_0@, *final(i) as int)),
        r is Err ==> *final(i) == *old(i) && token_at(code@, *old(i) as int) is Err
            && r->Err_0.message == message_at(code@, *old(i) as int, SyntaxMessage::UnexpectedEnd),
{
    let start = *i;
    match advance(code, i) {
        Ok(t) => Ok(t),
        Err(e) => Err(SyntaxError { message: lex_message(e), start, end: start }),
    }
}

/// The token at `i`; nothing moves.
fn look(code: &[u8], i: usize) -> (r: Result<Vec<u8>, SyntaxError>)
    ensures
        r is Ok ==> token_at(code@, i as int) is Ok && token_at(code@, i as int)->Ok_0.0
            == r->Ok_0@ && steps(code@, i as int),
        r is Err ==> token_at(code@, i as int) is Err && r->Err_0.message == message_at(
            code@,
            i as int,
            SyntaxMessage::UnexpectedEnd,
        ),
{
    match peek(code, i) {
        Ok(t) => Ok(t),
        Err(e) => Err(SyntaxError { message: lex_message(e), start: i, end: i }),
    }
}

/// Whether the token at `i` is `s`.
fn look_is(code: &[u8], i: usize, s: &str) -> (r: Result<bool, SyntaxError>)
    ensures
        r is Ok ==> token_at(code@, i as int) is Ok && r->Ok_0 == (token_at(
            code@,
            i as int,
        )->Ok_0.0 == s.spec_bytes()),
        r is Ok ==> steps(code@, i as int),
        r is Err ==> token_at(code@, i as int) is Err,
{
    let t = look(code, i)?;
    Ok(token_is(&t, s))
}

/// Parses `expression = simple_expression (rel_op simple_expression)?`.
fn parse_expression(code: &[u8], i: &mut usize) -> (r: Result<Expression, SyntaxError>)
    requires
        *old(i) <= code.len(),
    ensures
        *old(i) <= *final(i) <= code.len(),
        r is Ok ==> *old(i) < *final(i) && r->Ok_0.start == *old(i) && r->Ok_0.end == *final(i)
            && expression_wf(r->Ok_0),
        match expression_end(code@, *old(i) as int) {
            Some(e) => r is Ok && *final(i) == e,
            None => r is Err,
        },
    decreases code.len() - *old(i), 3int,
{
    let start = *i;
    let operand1 = parse_simple_expression(code, i)?;
    let t = look(code, *i)?;
    let is_rel = is_equality_operator_bytes(&t);
    let (operator, operand2) = if is_rel {
        let op = next(code, i)?;
        let operand2 = parse_simple_expression(code, i)?;
        (text_of(op.as_slice()), operand2)
    } else {
        ("NONE".to_owned(), copy_simple_expression(&operand1))
    };
    let end = *i;
    Ok(Expression { start, end, operand1, operand2, operator })
}

fn is_equality_operator_bytes(t: &[u8]) -> (r: bool)
    ensures
        r == is_relational(t@),
{
    token_is(t, "<") || token_is(t, "<=") || token_is(t, "=") || token_is(t, "<>")
    || token_is(t, ">=") || token_is(t, ">") || token_is(t, "IN")
}

/// Parses `simple_expression = ("+"|"-")? term (addop term)*`.
fn parse_simple_expression(code: &[u8], i: &mut usize) -> (r: Result<SimpleExpression, SyntaxError>)
    requires
        *old(i) <= code.len(),
    ensures
        *old(i) <= *final(i) <= code.len(),
        r is Ok ==> *old(i) < *final(i) && r->Ok_0.start == *old(i) && r->Ok_0.end == *final(i)
            && simple_wf(r->Ok_0),
        match simple_end(code@, *old(i) as int) {
            Some(e) => r is Ok && *final(i) == e,
            None => r is Err,
        },
    decreases code.len() - *old(i), 2int,
{
    let start = *i;
    let t = look(code, *i)?;
    let positive = if token_is(&t, "+") {
        next(code, i)?;
        true
    } else if token_is(&t, "-") {
        next(code, i)?;
        false
    } else {
        true
    };
    let mut operators: Vec<String> = Vec::new();
    let mut operands: Vec<Term> = Vec::new();
    operands.push(parse_term(code, i)?);
    loop
        invariant
            start < *i <= code.len(),
            start == *old(i),
            operands.len() == operators.len() + 1,
            forall|j: int| #![trigger operands@[j]] 0 <= j < operands.len() ==> term_wf(operands@[j]),
            simple_end(code@, start as int) == simple_rest(code@, *i as int),
        ensures
            start < *i <= code.len(),
            operands.len() == operators.len() + 1,
            forall|j: int| #![trigger operands@[j]] 0 <= j < operands.len() ==> term_wf(operands@[j]),
            simple_end(code@, start as int) == Some(*i as int),
        decreases code.len() - *i,
    {
        let t = look(code, *i)?;
        if !(token_is(&t, "+") || token_is(&t, "-") || token_is(&t, "OR")) {
            break;
        }
        let op = next(code, i)?;
        operators.push(text_of(op.as_slice()));
        operands.push(parse_term(code, i)?);
    }
    let end = *i;
    Ok(SimpleExpression { start, end, positive, operands, operators })
}

/// Parses `term = factor (mulop factor)*`.
fn parse_term(code: &[u8], i: &mut usize) -> (r: Result<Term, SyntaxError>)
    requires
        *old(i) <= code.len(),
    ensures
        *old(i) <= *final(i) <= code.len(),
        r is Ok ==> *old(i) < *final(i) && r->Ok_0.start == *old(i) && r->Ok_0.end == *final(i)
            && term_wf(r->Ok_0),
        match term_end(code@, *old(i) as int) {
            Some(e) => r is Ok && *final(i) == e,
            None => r is Err,
        },
    decreases code.len() - *old(i), 1int,
{
    let start = *i;
    let mut operators: Vec<String> = Vec::new();
    let mut operands: Vec<Factor> = Vec::new();
    operands.push(parse_factor(code, i)?);
    loop
        invariant
            start < *i <= code.len(),
            start == *old(i),
            operands.len() == operators.len() + 1,
            forall|j: int| #![trigger operands@[j]] 0 <= j < operands.len() ==> factor_wf(operands@[j]),
            term_end(code@, start as int) == term_rest(code@, *i as int),
        ensures
            start < *i <= code.len(),
            operands.len() == operators.len() + 1,
            forall|j: int| #![trigger operands@[j]] 0 <= j < operands.len() ==> factor_wf(operands@[j]),
            term_end(code@, start as int) == Some(*i as int),
        decreases code.len() - *i,
    {
        let t = look(code, *i)?;
        if !(token_is(&t, "*") || token_is(&t, "/") || token_is(&t, "DIV") || token_is(&t, "MOD")
            || token_is(&t, "AND")) {
            break;
        }
        let op = next(code, i)?;
        operators.push(text_of(op.as_slice()));
        operands.push(parse_factor(code, i)?);
    }
    let end = *i;
    Ok(Term { start, end, operands, operators })
}

/// Parses the arguments `expression ("," expression)* ")"` after a `(`.
fn parse_arguments(code: &[u8], i: &mut usize) -> (r: Result<Vec<Expression>, SyntaxError>)
    requires
        *old(i) <= code.len(),
    ensures
        *old(i) <= *final(i) <= code.len(),
        r is Ok ==> *old(i) < *final(i) && forall|j: int| #![trigger r->Ok_0@[j]]
            0 <= j < r->Ok_0.len() ==> expression_wf(r->Ok_0@[j]),
        match arguments_end(code@, *old(i) as int) {
            Some(e) => r is Ok && *final(i) == e,
            None => r is Err,
        },
    decreases code.len() - *old(i), 5int,
{
    let mut arguments: Vec<Expression> = Vec::new();
    loop
        invariant_except_break
            arguments_end(code@, *old(i) as int) == arguments_end(code@, *i as int),
        invariant
            *old(i) <= *i <= code.len(),
            arguments.len() > 0 ==> *old(i) < *i,
            forall|j: int| #![trigger arguments@[j]] 0 <= j < arguments.len() ==> expression_wf(arguments@[j]),
        ensures
            *old(i) < *i <= code.len(),
            forall|j: int| #![trigger arguments@[j]] 0 <= j < arguments.len() ==> expression_wf(arguments@[j]),
            arguments_end(code@, *old(i) as int) == Some(*i as int),
        decreases code.len() - *i,
    {
        let (argument, done) = argument_step(code, i)?;
        arguments.push(argument);
        if done {
            break;
        }
    }
    Ok(arguments)
}

/// One argument and the `,` or `)` after it; `true` when that was the `)`.
fn argument_step(code: &[u8], i: &mut usize) -> (r: Result<(Expression, bool), SyntaxError>)
    requires
        *old(i) <= code.len(),
    ensures
        *old(i) <= *final(i) <= code.len(),
        r is Ok ==> *old(i) < *final(i) && expression_wf(r->Ok_0.0),
        r is Ok && r->Ok_0.1 ==> arguments_end(code@, *old(i) as int) == Some(*final(i) as int),
        r is Ok && !r->Ok_0.1 ==> arguments_end(code@, *old(i) as int) == arguments_end(
            code@,
            *final(i) as int,
        ),
        r is Err ==> arguments_end(code@, *old(i) as int) is None,
    decreases code.len() - *old(i), 4int,
{
    let argument = parse_expression(code, i)?;
    let t = next(code, i)?;
    Ok((argument, token_is(&t, ")")))
}

/// Parses a factor: a constant, an identifier with an index or arguments,
/// a parenthesised expression, `NOT` factor, or a bracketed list.
#[verifier::rlimit(50)]
fn parse_factor(code: &[u8], i: &mut usize) -> (r: Result<Factor, SyntaxError>)
    requires
        *old(i) <= code.len(),
    ensures
        *old(i) <= *final(i) <= code.len(),
        r is Ok ==> *old(i) < *final(i) && factor_wf(r->Ok_0),
        match factor_end(code@, *old(i) as int) {
            Some(e) => r is Ok && *final(i) == e,
            None => r is Err,
        },
        token_at(code@, *old(i) as int) is Ok && is_number(tok(code@, *old(i) as int))
            && token_at(code@, after(code@, *old(i) as int)) is Ok && tok(
            code@,
            after(code@, *old(i) as int),
        ) != ".".spec_bytes() ==> r == Ok::<Factor, SyntaxError>(
            Factor::Constant(
                UnsignedConstant::UnsignedInteger(digits_value(tok(code@, *old(i) as int)) as u64),
            ),
        ) && *final(i) == after(code@, *old(i) as int),
        token_at(code@, *old(i) as int) is Ok && is_number(tok(code@, *old(i) as int))
            && token_at(code@, after(code@, *old(i) as int)) is Ok && tok(
            code@,
            after(code@, *old(i) as int),
        ) == ".".spec_bytes() && token_at(code@, after2(code@, *old(i) as int)) is Ok ==> if is_number(
            tok(code@, after2(code@, *old(i) as int)),
        ) {
            r == Ok::<Factor, SyntaxError>(
                Factor::Constant(
                    UnsignedConstant::UnsignedReal(
                        digits_value(tok(code@, *old(i) as int)) as u64,
                        digits_value(tok(code@, after2(code@, *old(i) as int))) as u64,
                        tok(code@, after2(code@, *old(i) as int)).len() as u64,
                    ),
                ),
            ) && *final(i) == after(code@, after2(code@, *old(i) as int))
        } else {
            r is Err && r->Err_0.message == SyntaxMessage::ExpectedNumber
        },
        token_at(code@, *old(i) as int) is Ok && tok(code@, *old(i) as int).len() >= 2 && tok(
            code@,
            *old(i) as int,
        )[0] == 39u8 ==> quote_result(r, tok(code@, *old(i) as int)) && *final(i) == after(
            code@,
            *old(i) as int,
        ),
        token_at(code@, *old(i) as int) is Ok && is_identifier(tok(code@, *old(i) as int))
            && token_at(code@, after(code@, *old(i) as int)) is Ok && tok(
            code@,
            after(code@, *old(i) as int),
        ) == "[".spec_bytes() ==> (r is Ok ==> is_array_index(
            r->Ok_0,
            tok(code@, *old(i) as int),
            *old(i) as int,
            *final(i) as int,
        )),
        token_at(code@, *old(i) as int) is Ok && is_identifier(tok(code@, *old(i) as int))
            && token_at(code@, after(code@, *old(i) as int)) is Ok && tok(
            code@,
            after(code@, *old(i) as int),
        ) != "[".spec_bytes() && tok(code@, after(code@, *old(i) as int)) != "(".spec_bytes()
            ==> is_plain_identifier(
            r,
            tok(code@, *old(i) as int),
            *old(i) as int,
            after(code@, *old(i) as int),
        ) && *final(i) == after(code@, *old(i) as int),
    decreases code.len() - *old(i), 0int,
{
    proof {
        lemma_literal_bytes();
    }
    let start = *i;
    let t = next(code, i)?;
    if identifier_bytes(&t) {
        parse_named(&t, code, i, start)
    } else if token_is(&t, "(") {
        let e = parse_expression(code, i)?;
        check(look_is(code, *i, ")")?, code, *i, SyntaxMessage::UnclosedParen)?;
        next(code, i)?;
        Ok(Factor::Parenthetical(e))
    } else if token_is(&t, "NOT") {
        let f = parse_factor(code, i)?;
        let end = *i;
        Ok(Factor::NegatedFactor(Box::new(f), start, end))
    } else if token_is(&t, "[") {
        parse_list(code, i)
    } else if token_is(&t, "NIL") {
        Ok(Factor::Constant(UnsignedConstant::Nil(back(*i, 3))))
    } else {
        parse_constant(&t, code, i, start)
    }
}

/// After an identifier token `t` that started at `start`: an array index,
/// a call with arguments, or the bare name.
#[verifier::rlimit(50)]
fn parse_named(t: &Vec<u8>, code: &[u8], i: &mut usize, start: usize) -> (r: Result<Factor, SyntaxError>)
    requires
        *old(i) <= code.len(),
        start < *old(i),
        is_identifier(t@),
    ensures
        *old(i) <= *final(i) <= code.len(),
        r is Ok ==> factor_wf(r->Ok_0),
        match named_end(code@, *old(i) as int) {
            Some(e) => r is Ok && *final(i) == e,
            None => r is Err,
        },
        token_at(code@, *old(i) as int) is Ok && tok(code@, *old(i) as int) == "[".spec_bytes() ==> (
        r is Ok ==> is_array_index(r->Ok_0, t@, start as int, *final(i) as int)),
        token_at(code@, *old(i) as int) is Ok && tok(code@, *old(i) as int) != "[".spec_bytes() && tok(
            code@,
            *old(i) as int,
        ) != "(".spec_bytes() ==> is_plain_identifier(r, t@, start as int, *old(i) as int)
            && *final(i) == *old(i),
    decreases code.len() - *old(i), 5int,
{
    let name = identifier_text(t.as_slice());
    if look_is(code, *i, "[")? {
        next(code, i)?;
        let index = parse_expression(code, i)?;
        check(look_is(code, *i, "]")?, code, *i, SyntaxMessage::ExpectedCloseBracket)?;
        next(code, i)?;
        let end = *i;
        Ok(Factor::ArrayIndex(name, index, start, end))
    } else {
        let arguments = if look_is(code, *i, "(")? {
            next(code, i)?;
            parse_arguments(code, i)?
        } else {
            Vec::new()
        };
        let end = *i;
        Ok(Factor::Identifier(name, arguments, start, end))
    }
}

/// After a `[`: the items of a list, each an expression or a range, up to `]`.
fn parse_list(code: &[u8], i: &mut usize) -> (r: Result<Factor, SyntaxError>)
    requires
        *old(i) <= code.len(),
    ensures
        *old(i) <= *final(i) <= code.len(),
        r is Ok ==> factor_wf(r->Ok_0),
        match list_end(code@, *old(i) as int) {
            Some(e) => r is Ok && *final(i) == e,
            None => r is Err,
        },
    decreases code.len() - *old(i), 5int,
{
    let mut items: Vec<ExpressionOrRange> = Vec::new();
    loop
        invariant_except_break
            list_end(code@, *old(i) as int) == list_end(code@, *i as int),
        invariant
            *old(i) <= *i <= code.len(),
            forall|j: int| #![trigger items@[j]] 0 <= j < items.len() ==> item_wf(items@[j]),
        ensures
            *old(i) <= *i <= code.len(),
            forall|j: int| #![trigger items@[j]] 0 <= j < items.len() ==> item_wf(items@[j]),
            list_end(code@, *old(i) as int) == Some(*i as int),
        decreases code.len() - *i,
    {
        let (item, done) = list_step(code, i)?;
        items.push(item);
        if done {
            break;
        }
    }
    Ok(Factor::List(items))
}

/// One list item, an expression or a range, and the token after it; `true`
/// when that was the closing `]`.
fn list_step(code: &[u8], i: &mut usize) -> (r: Result<(ExpressionOrRange, bool), SyntaxError>)
    requires
        *old(i) <= code.len(),
    ensures
        *old(i) <= *final(i) <= code.len(),
        r is Ok ==> *old(i) < *final(i) && item_wf(r->Ok_0.0),
        r is Ok && r->Ok_0.1 ==> list_end(code@, *old(i) as int) == Some(*final(i) as int),
        r is Ok && !r->Ok_0.1 ==> list_end(code@, *old(i) as int) == list_end(code@, *final(i) as int),
        r is Err ==> list_end(code@, *old(i) as int) is None,
    decreases code.len() - *old(i), 4int,
{
    let e1 = parse_expression(code, i)?;
    let sep = next(code, i)?;
    if token_is(&sep, "..") {
        let e2 = parse_expression(code, i)?;
        let after = next(code, i)?;
        Ok((ExpressionOrRange::Range(e1, e2), token_is(&after, "]")))
    } else {
        Ok((ExpressionOrRange::Expression(e1), token_is(&sep, "]")))
    }
}

/// A literal constant read as token `t` (the cursor stands after it): an
/// integer, a real `digits . digits`, or a quoted char or text.
fn parse_constant(t: &Vec<u8>, code: &[u8], i: &mut usize, start: usize) -> (r: Result<Factor, SyntaxError>)
    requires
        *old(i) <= code.len(),
    ensures
        *old(i) <= *final(i) <= code.len(),
        r is Ok ==> factor_wf(r->Ok_0),
        is_number(t@) && token_at(code@, *old(i) as int) is Ok && tok(code@, *old(i) as int)
            != ".".spec_bytes() ==> r == Ok::<Factor, SyntaxError>(
            Factor::Constant(UnsignedConstant::UnsignedInteger(digits_value(t@) as u64)),
        ) && *final(i) == *old(i),
        is_number(t@) && token_at(code@, *old(i) as int) is Ok && tok(code@, *old(i) as int)
            == ".".spec_bytes() && token_at(code@, after(code@, *old(i) as int)) is Ok ==> if is_number(
            tok(code@, after(code@, *old(i) as int)),
        ) {
            r == Ok::<Factor, SyntaxError>(
                Factor::Constant(
                    UnsignedConstant::UnsignedReal(
                        digits_value(t@) as u64,
                        digits_value(tok(code@, after(code@, *old(i) as int))) as u64,
                        tok(code@, after(code@, *old(i) as int)).len() as u64,
                    ),
                ),
            ) && *final(i) == after2(code@, *old(i) as int)
        } else {
            r is Err && r->Err_0.message == SyntaxMessage::ExpectedNumber
        },
        t@.len() >= 2 && t@[0] == 39u8 ==> quote_result(r, t@) && *final(i) == *old(i),
        match constant_end(t@, code@, *old(i) as int) {
            Some(e) => r is Ok && *final(i) == e,
            None => r is Err,
        },
{
    match parse_u64(t) {
        Some(n) => {
            if look_is(code, *i, ".")? {
                next(code, i)?;
                let before = *i;
                let d = look(code, *i)?;
                match parse_u64(&d) {
                    Some(f) => {
                        next(code, i)?;
                        Ok(Factor::Constant(UnsignedConstant::UnsignedReal(n, f, d.len() as u64)))
                    },
                    None => Err(syntax_error(code, before, SyntaxMessage::ExpectedNumber)),
                }
            } else {
                Ok(Factor::Constant(UnsignedConstant::UnsignedInteger(n)))
            }
        },
        None => {
            if t.len() < 2 || t[0] != 39 {
                return Err(syntax_error(code, start, SyntaxMessage::FailedFactor));
            }
            let inner = slice_bytes(t, 1, t.len() - 1);
            if inner.len() == 1 && inner[0] < 128 {
                Ok(Factor::Constant(UnsignedConstant::Char(inner[0])))
            } else {
                Ok(Factor::Constant(UnsignedConstant::Quote(text_of(inner.as_slice()))))
            }
        },
    }
}

/// The bytes `t[a..b]`.
fn slice_bytes(t: &[u8], a: usize, b: usize) -> (r: Vec<u8>)
    requires
        a <= b <= t.len(),
    ensures
        r@ == t@.subrange(a as int, b as int),
{
    let mut r: Vec<u8> = Vec::new();
    let mut k = a;
    while k < b
        invariant
            a <= k <= b <= t.len(),
            r@ == t@.subrange(a as int, k as int),
        decreases b - k,
    {
        r.push(t[k]);
        k = k + 1;
        assert(t@.subrange(a as int, k as int) == t@.subrange(a as int, k - 1).push(t@[k - 1]));
    }
    r
}

/// Parses a type: a simple type name, or `PACKED`? `ARRAY [lo .. hi] OF` type.
fn parse_type(code: &[u8], i: &mut usize) -> (r: Result<SuperType, SyntaxError>)
    requires
        *old(i) <= code.len(),
    ensures
        *old(i) <= *final(i) <= code.len(),
        r is Ok ==> *old(i) < *final(i) && supertype_wf(r->Ok_0),
        match type_end(code@, *old(i) as int) {
            Some(e) => r is Ok && *final(i) == e,
            None => r is Err,
        },
    decreases code.len() - *old(i), 5int,
{
    let before = *i;
    let t = next(code, i)?;
    if token_is(&t, "INTEGER") {
        Ok(SuperType::Integer)
    } else if token_is(&t, "BOOLEAN") {
        Ok(SuperType::Boolean)
    } else if token_is(&t, "REAL") {
        Ok(SuperType::Real)
    } else if token_is(&t, "CHAR") {
        Ok(SuperType::Char)
    } else if token_is(&t, "STRING") {
        Ok(SuperType::Stryng)
    } else if token_is(&t, "TEXT") {
        Ok(SuperType::Text)
    } else if token_is(&t, "PACKED") {
        check(look_is(code, *i, "ARRAY")?, code, *i, SyntaxMessage::ExpectedArray)?;
        parse_type(code, i)
    } else if token_is(&t, "ARRAY") {
        check(look_is(code, *i, "[")?, code, *i, SyntaxMessage::ExpectedOpenBracket)?;
        next(code, i)?;
        let low = parse_expression(code, i)?;
        check(look_is(code, *i, "..")?, code, *i, SyntaxMessage::ExpectedRange)?;
        next(code, i)?;
        let high = parse_expression(code, i)?;
        check(look_is(code, *i, "]")?, code, *i, SyntaxMessage::ExpectedCloseBracket)?;
        next(code, i)?;
        check(look_is(code, *i, "OF")?, code, *i, SyntaxMessage::ExpectedOf)?;
        next(code, i)?;
        let element = parse_type(code, i)?;
        Ok(SuperType::Array(Box::new(element), low, high))
    } else {
        Err(syntax_error(code, before, SyntaxMessage::FailedType))
    }
}

/// Parses one statement.
fn parse_statement(code: &[u8], i: &mut usize) -> (r: Result<Statement, SyntaxError>)
    requires
        *old(i) <= code.len(),
    ensures
        *old(i) <= *final(i) <= code.len(),
        r is Ok ==> *old(i) < *final(i) && statement_wf(r->Ok_0),
    decreases code.len() - *old(i), 6int,
{
    let before = *i;
    let t = next(code, i)?;
    if token_is(&t, "BEGIN") {
        parse_statement_list(code, i)
    } else if token_is(&t, "IF") {
        parse_if_statement(code, i)
    } else if token_is(&t, "WHILE") {
        parse_while_loop(code, i)
    } else if token_is(&t, "REPEAT") {
        parse_repeat_loop(code, i)
    } else if token_is(&t, "FOR") {
        parse_for_loop(code, i)
    } else if identifier_bytes(&t) {
        let start = back(*i, t.len());
        if look_is(code, *i, ":=")? {
            next(code, i)?;
            let value = parse_expression(code, i)?;
            let end = *i;
            Ok(Statement::Assignment(identifier_text(t.as_slice()), value, start, end))
        } else if look_is(code, *i, "[")? {
            next(code, i)?;
            let index = parse_expression(code, i)?;
            check(look_is(code, *i, "]")?, code, *i, SyntaxMessage::ExpectedCloseBracket)?;
            next(code, i)?;
            check(look_is(code, *i, ":=")?, code, *i, SyntaxMessage::ExpectedAssign)?;
            next(code, i)?;
            let value = parse_expression(code, i)?;
            let end = *i;
            Ok(Statement::ElementAssignment(identifier_text(t.as_slice()), index, value, start, end))
        } else if token_is(&t, "READ") || token_is(&t, "READLN") {
            parse_read_call(code, i, start)
        } else {
            parse_procedure_call(&t, code, i, start)
        }
    } else {
        Err(syntax_error(code, before, SyntaxMessage::UnrecognizedStatement))
    }
}

/// Parses `statement (";" statement)* "END"` after a `BEGIN`; the list may
/// not be empty.
fn parse_statement_list(code: &[u8], i: &mut usize) -> (r: Result<Statement, SyntaxError>)
    requires
        *old(i) <= code.len(),
    ensures
        *old(i) <= *final(i) <= code.len(),
        r is Ok ==> *old(i) < *final(i),
        token_at(code@, *old(i) as int) is Ok && token_at(code@, *old(i) as int)->Ok_0.0
            == "END".spec_bytes() ==> r is Err && r->Err_0.message
            == SyntaxMessage::EmptyStatementList && token_span(r->Err_0, code@, *old(i) as int),
        r is Ok ==> r->Ok_0 is StatementList && statement_wf(r->Ok_0),
    decreases code.len() - *old(i), 7int,
{
    let mut statements: Vec<Statement> = Vec::new();
    let is_end = look_is(code, *i, "END")?;
    check(!is_end, code, *i, SyntaxMessage::EmptyStatementList)?;
    loop
        invariant
            !(token_at(code@, *old(i) as int)->Ok_0.0 == "END".spec_bytes()),
            *old(i) <= *i <= code.len(),
            statements.len() > 0 ==> *old(i) < *i,
            forall|j: int| #![trigger statements@[j]] 0 <= j < statements.len() ==> statement_wf(statements@[j]),
        ensures
            *old(i) < *i <= code.len(),
        decreases code.len() - *i,
    {
        statements.push(parse_statement(code, i)?);
        let sep = look(code, *i)?;
        check(token_is(&sep, ";") || token_is(&sep, "END"), code, *i,
            SyntaxMessage::ExpectedSemicolonOrEnd)?;
        next(code, i)?;
        if token_is(&sep, "END") {
            break;
        }
    }
    Ok(Statement::StatementList(statements))
}

/// Parses `expression "THEN" statement ("ELSE" statement)?` after an `IF`.
fn parse_if_statement(code: &[u8], i: &mut usize) -> (r: Result<Statement, SyntaxError>)
    requires
        *old(i) <= code.len(),
    ensures
        *old(i) <= *final(i) <= code.len(),
        r is Ok ==> *old(i) < *final(i) && statement_wf(r->Ok_0),
    decreases code.len() - *old(i), 7int,
{
    let condition_start = *i;
    let condition = parse_expression(code, i)?;
    let condition_end = *i;
    check(look_is(code, *i, "THEN")?, code, *i, SyntaxMessage::MissingThen)?;
    next(code, i)?;
    let true_body = parse_statement(code, i)?;
    let false_body = if look_is(code, *i, "ELSE")? {
        next(code, i)?;
        parse_statement(code, i)?
    } else {
        Statement::DoNothing
    };
    assert(statement_wf(false_body));
    Ok(Statement::IfStatement(condition, Box::new(true_body), Box::new(false_body),
        condition_start, condition_end))
}

/// Parses `expression "DO" statement` after a `WHILE`.
fn parse_while_loop(code: &[u8], i: &mut usize) -> (r: Result<Statement, SyntaxError>)
    requires
        *old(i) <= code.len(),
    ensures
        *old(i) <= *final(i) <= code.len(),
        r is Ok ==> *old(i) < *final(i) && statement_wf(r->Ok_0),
    decreases code.len() - *old(i), 7int,
{
    let condition_start = *i;
    let condition = parse_expression(code, i)?;
    let condition_end = *i;
    check(look_is(code, *i, "DO")?, code, *i, SyntaxMessage::MissingDo)?;
    next(code, i)?;
    let body = parse_statement(code, i)?;
    Ok(Statement::WhileLoop(condition, Box::new(body), condition_start, condition_end))
}

/// Parses `statement (";" statement)* "UNTIL" expression` after a `REPEAT`.
fn parse_repeat_loop(code: &[u8], i: &mut usize) -> (r: Result<Statement, SyntaxError>)
    requires
        *old(i) <= code.len(),
    ensures
        *old(i) <= *final(i) <= code.len(),
        r is Ok ==> *old(i) < *final(i) && statement_wf(r->Ok_0),
    decreases code.len() - *old(i), 7int,
{
    let mut statements: Vec<Statement> = Vec::new();
    let is_until = look_is(code, *i, "UNTIL")?;
    check(!is_until, code, *i, SyntaxMessage::EmptyStatementList)?;
    loop
        invariant
            *old(i) <= *i <= code.len(),
            statements.len() > 0 ==> *old(i) < *i,
            forall|j: int| #![trigger statements@[j]] 0 <= j < statements.len() ==> statement_wf(statements@[j]),
        ensures
            *old(i) < *i <= code.len(),
        decreases code.len() - *i,
    {
        statements.push(parse_statement(code, i)?);
        let sep = look(code, *i)?;
        check(token_is(&sep, ";") || token_is(&sep, "UNTIL"), code, *i,
            SyntaxMessage::ExpectedSemicolonOrUntil)?;
        next(code, i)?;
        if token_is(&sep, "UNTIL") {
            break;
        }
    }
    let body = Statement::StatementList(statements);
    assert(statement_wf(body));
    let condition_start = *i;
    let condition = parse_expression(code, i)?;
    let condition_end = *i;
    Ok(Statement::RepeatLoop(condition, Box::new(body), condition_start, condition_end))
}

/// Parses `identifier ":=" expression ("TO"|"DOWNTO") expression "DO" statement`
/// after a `FOR`.
fn parse_for_loop(code: &[u8], i: &mut usize) -> (r: Result<Statement, SyntaxError>)
    requires
        *old(i) <= code.len(),
    ensures
        *old(i) <= *final(i) <= code.len(),
        r is Ok ==> *old(i) < *final(i) && statement_wf(r->Ok_0),
    decreases code.len() - *old(i), 7int,
{
    let name_start = *i;
    let name = look(code, *i)?;
    check(identifier_bytes(&name), code, *i, SyntaxMessage::InvalidIdentifier)?;
    next(code, i)?;
    let name_end = *i;
    check(look_is(code, *i, ":=")?, code, *i, SyntaxMessage::ExpectedAssign)?;
    next(code, i)?;
    let range_start = *i;
    let start = parse_expression(code, i)?;
    let direction = look(code, *i)?;
    let ascending = token_is(&direction, "TO");
    check(ascending || token_is(&direction, "DOWNTO"), code, *i,
        SyntaxMessage::ExpectedToOrDownto)?;
    next(code, i)?;
    let end = parse_expression(code, i)?;
    let range_end = *i;
    check(look_is(code, *i, "DO")?, code, *i, SyntaxMessage::ExpectedDo)?;
    next(code, i)?;
    let body = parse_statement(code, i)?;
    Ok(Statement::ForLoop(identifier_text(name.as_slice()), name_start, name_end, start, end, range_start,
        range_end, ascending, Box::new(body)))
}

/// Parses the optional `"(" expression ("," expression)* ")"` after a
/// procedure name that started at `start`.
fn parse_procedure_call(name: &[u8], code: &[u8], i: &mut usize, start: usize) -> (r: Result<
    Statement,
    SyntaxError,
>)
    requires
        *old(i) <= code.len(),
        start <= *old(i),
    ensures
        *old(i) <= *final(i) <= code.len(),
        r is Ok ==> statement_wf(r->Ok_0),
    decreases code.len() - *old(i), 7int,
{
    check(identifier_bytes(name), code, start, SyntaxMessage::InvalidIdentifier)?;
    let arguments = if look_is(code, *i, "(")? {
        next(code, i)?;
        parse_arguments(code, i)?
    } else {
        Vec::new()
    };
    let end = *i;
    Ok(Statement::ProcedureCall(identifier_text(name), arguments, start, end))
}

/// Parses `"(" identifier ("," identifier)* ")"` after `READ` or `READLN`,
/// which started at `start`.
fn parse_read_call(code: &[u8], i: &mut usize, start: usize) -> (r: Result<Statement, SyntaxError>)
    requires
        *old(i) <= code.len(),
        start <= *old(i),
    ensures
        *old(i) <= *final(i) <= code.len(),
        r is Ok ==> statement_wf(r->Ok_0),
    decreases code.len() - *old(i), 7int,
{
    let mut variables: Vec<String> = Vec::new();
    check(look_is(code, *i, "(")?, code, *i, SyntaxMessage::ExpectedOpenParen)?;
    next(code, i)?;
    loop
        invariant
            *old(i) <= *i <= code.len(),
            forall|j: int| #![trigger variables@[j]] 0 <= j < variables.len() ==> is_name(variables@[j]),
        decreases code.len() - *i,
    {
        let name = look(code, *i)?;
        check(identifier_bytes(&name), code, *i, SyntaxMessage::InvalidIdentifier)?;
        next(code, i)?;
        variables.push(identifier_text(name.as_slice()));
        let sep = next(code, i)?;
        if token_is(&sep, ")") {
            break;
        }
    }
    let end = *i;
    Ok(Statement::ReadCall(variables, start, end))
}

/// Parses the definitions `(identifier "=" expression ";")*` after `CONST`.
fn parse_const_section(code: &[u8], i: &mut usize, constants: &mut Vec<Constant>) -> (r: Result<
    (),
    SyntaxError,
>)
    requires
        *old(i) <= code.len(),
        forall|j: int| #![trigger old(constants)@[j]]
            0 <= j < old(constants).len() ==> is_name(old(constants)@[j].name) && expression_wf(old(constants)@[j].value),
    ensures
        *old(i) <= *final(i) <= code.len(),
        forall|j: int| #![trigger final(constants)@[j]]
            0 <= j < final(constants).len() ==> is_name(final(constants)@[j].name) && expression_wf(final(constants)@[j].value),
        match const_end(code@, *old(i) as int) {
            Some(e) => r is Ok && *final(i) == e,
            None => r is Err,
        },
{
    loop
        invariant_except_break
            const_end(code@, *old(i) as int) == const_end(code@, *i as int),
        invariant
            *old(i) <= *i <= code.len(),
            forall|j: int| #![trigger constants@[j]]
                0 <= j < constants.len() ==> is_name(constants@[j].name) && expression_wf(constants@[j].value),
        ensures
            *old(i) <= *i <= code.len(),
            forall|j: int| #![trigger constants@[j]]
                0 <= j < constants.len() ==> is_name(constants@[j].name) && expression_wf(constants@[j].value),
            const_end(code@, *old(i) as int) == Some(*i as int),
        decreases code.len() - *i,
    {
        match const_step(code, i)? {
            Some(c) => constants.push(c),
            None => break,
        }
    }
    Ok(())
}

/// One definition `identifier "=" expression ";"`, or `None` (the cursor
/// unmoved) when no identifier stands at the cursor.
fn const_step(code: &[u8], i: &mut usize) -> (r: Result<Option<Constant>, SyntaxError>)
    requires
        *old(i) <= code.len(),
    ensures
        *old(i) <= *final(i) <= code.len(),
        r matches Ok(Some(c)) ==> is_name(c.name) && expression_wf(c.value),
        r matches Ok(Some(_)) ==> *old(i) < *final(i) && const_end(code@, *old(i) as int)
            == const_end(code@, *final(i) as int),
        r matches Ok(None) ==> *final(i) == *old(i) && const_end(code@, *old(i) as int) == Some(
            *old(i) as int,
        ),
        r is Err ==> const_end(code@, *old(i) as int) is None,
{
    let name = look(code, *i)?;
    if !identifier_bytes(&name) {
        return Ok(None);
    }
    next(code, i)?;
    check(look_is(code, *i, "=")?, code, *i, SyntaxMessage::ExpectedEquals)?;
    next(code, i)?;
    let value = parse_expression(code, i)?;
    check(look_is(code, *i, ";")?, code, *i, SyntaxMessage::ExpectedSemicolon)?;
    next(code, i)?;
    Ok(Some(Constant { name: identifier_text(name.as_slice()), value }))
}

/// Parses the declarations `(identifier ("," identifier)* ":" type ";")*`
/// after `VAR`; each name gets its own copy of the type.
fn parse_var_section(code: &[u8], i: &mut usize, variables: &mut Vec<Variable>) -> (r: Result<
    (),
    SyntaxError,
>)
    requires
        *old(i) <= code.len(),
        forall|j: int| #![trigger old(variables)@[j]]
            0 <= j < old(variables).len() ==> is_name(old(variables)@[j].name) && supertype_wf(old(variables)@[j].tipe),
    ensures
        *old(i) <= *final(i) <= code.len(),
        forall|j: int| #![trigger final(variables)@[j]]
            0 <= j < final(variables).len() ==> is_name(final(variables)@[j].name) && supertype_wf(final(variables)@[j].tipe),
        match var_end(code@, *old(i) as int) {
            Some(e) => r is Ok && *final(i) == e,
            None => r is Err,
        },
{
    loop
        invariant_except_break
            var_end(code@, *old(i) as int) == var_end(code@, *i as int),
        invariant
            *old(i) <= *i <= code.len(),
            forall|j: int| #![trigger variables@[j]]
                0 <= j < variables.len() ==> is_name(variables@[j].name) && supertype_wf(variables@[j].tipe),
        ensures
            *old(i) <= *i <= code.len(),
            forall|j: int| #![trigger variables@[j]]
                0 <= j < variables.len() ==> is_name(variables@[j].name) && supertype_wf(variables@[j].tipe),
            var_end(code@, *old(i) as int) == Some(*i as int),
        decreases code.len() - *i,
    {
        if !var_step(code, i, variables)? {
            break;
        }
    }
    Ok(())
}

/// One declaration `identifier ("," identifier)* ":" type ";"`, each name
/// appended with its own copy of the type; `false` (the cursor unmoved) when
/// no identifier stands at the cursor.
fn var_step(code: &[u8], i: &mut usize, variables: &mut Vec<Variable>) -> (r: Result<bool, SyntaxError>)
    requires
        *old(i) <= code.len(),
        forall|j: int| #![trigger old(variables)@[j]]
            0 <= j < old(variables).len() ==> is_name(old(variables)@[j].name) && supertype_wf(old(variables)@[j].tipe),
    ensures
        *old(i) <= *final(i) <= code.len(),
        forall|j: int| #![trigger final(variables)@[j]]
            0 <= j < final(variables).len() ==> is_name(final(variables)@[j].name) && supertype_wf(final(variables)@[j].tipe),
        r == Ok::<bool, SyntaxError>(true) ==> *old(i) < *final(i) && var_end(code@, *old(i) as int)
            == var_end(code@, *final(i) as int),
        r == Ok::<bool, SyntaxError>(false) ==> *final(i) == *old(i) && var_end(code@, *old(i) as int)
            == Some(*old(i) as int),
        r is Err ==> var_end(code@, *old(i) as int) is None,
{
    let first = look(code, *i)?;
    if !identifier_bytes(&first) {
        return Ok(false);
    }
    next(code, i)?;
    let names = parse_more_names(code, i, identifier_text(first.as_slice()))?;
    check(look_is(code, *i, ":")?, code, *i, SyntaxMessage::ExpectedColonOrComma)?;
    next(code, i)?;
    let tipe = parse_type(code, i)?;
    check(look_is(code, *i, ";")?, code, *i, SyntaxMessage::ExpectedSemicolon)?;
    next(code, i)?;
    let mut k: usize = 0;
    while k < names.len()
        invariant
            k <= names.len(),
            supertype_wf(tipe),
            forall|j: int| #![trigger names@[j]] 0 <= j < names.len() ==> is_name(names@[j]),
            forall|j: int| #![trigger variables@[j]]
                0 <= j < variables.len() ==> is_name(variables@[j].name) && supertype_wf(variables@[j].tipe),
        decreases names.len() - k,
    {
        variables.push(Variable { name: names[k].clone(), tipe: copy_supertype(&tipe) });
        k = k + 1;
    }
    Ok(true)
}

/// The names `first ("," identifier)*` of one declaration.
fn parse_more_names(code: &[u8], i: &mut usize, first: String) -> (r: Result<
    Vec<String>,
    SyntaxError,
>)
    requires
        *old(i) <= code.len(),
        is_name(first),
    ensures
        *old(i) <= *final(i) <= code.len(),
        r is Ok ==> forall|j: int| #![trigger r->Ok_0@[j]] 0 <= j < r->Ok_0.len() ==> is_name(r->Ok_0@[j]),
        match names_end(code@, *old(i) as int) {
            Some(e) => r is Ok && *final(i) == e,
            None => r is Err,
        },
{
    let mut names: Vec<String> = Vec::new();
    names.push(first);
    while look_is(code, *i, ",")?
        invariant_except_break
            names_end(code@, *old(i) as int) == names_end(code@, *i as int),
        invariant
            *old(i) <= *i <= code.len(),
            forall|j: int| #![trigger names@[j]] 0 <= j < names.len() ==> is_name(names@[j]),
        ensures
            *old(i) <= *i <= code.len(),
            forall|j: int| #![trigger names@[j]] 0 <= j < names.len() ==> is_name(names@[j]),
            names_end(code@, *old(i) as int) == Some(*i as int),
        decreases code.len() - *i,
    {
        next(code, i)?;
        let name = look(code, *i)?;
        check(identifier_bytes(&name), code, *i, SyntaxMessage::InvalidIdentifier)?;
        next(code, i)?;
        names.push(identifier_text(name.as_slice()));
    }
    Ok(names)
}

/// Parses a block: any `CONST` and `VAR` sections (each at most once), then
/// `BEGIN` and the statement list. Other tokens before `BEGIN` are skipped.
fn parse_block(code: &[u8], i: &mut usize) -> (r: Result<Block, SyntaxError>)
    requires
        *old(i) <= code.len(),
    ensures
        *old(i) <= *final(i) <= code.len(),
        r is Ok ==> *old(i) < *final(i) && r->Ok_0.body is StatementList && block_wf(r->Ok_0),
        match sections(code@, *old(i) as int, false, false) {
            BlockHead::Failed => r is Err,
            BlockHead::MultipleConst(p) => r is Err && r->Err_0.message == message_at(
                code@,
                p,
                SyntaxMessage::MultipleConst,
            ),
            BlockHead::MultipleVar(p) => r is Err && r->Err_0.message == message_at(
                code@,
                p,
                SyntaxMessage::MultipleVar,
            ),
            BlockHead::Begin(p) => is_tok(code@, p, "END".spec_bytes()) ==> r is Err
                && r->Err_0.message == SyntaxMessage::EmptyStatementList && token_span(
                r->Err_0,
                code@,
                p,
            ),
        },
    decreases code.len() - *old(i), 8int,
{
    let mut constants: Vec<Constant> = Vec::new();
    let mut local_variables: Vec<Variable> = Vec::new();
    let mut seen_const = false;
    let mut seen_var = false;
    loop
        invariant_except_break
            sections(code@, *old(i) as int, false, false) == sections(
                code@,
                *i as int,
                seen_const,
                seen_var,
            ),
        invariant
            *old(i) <= *i <= code.len(),
            forall|j: int| #![trigger constants@[j]]
                0 <= j < constants.len() ==> is_name(constants@[j].name) && expression_wf(constants@[j].value),
            forall|j: int| #![trigger local_variables@[j]]
                0 <= j < local_variables.len() ==> is_name(local_variables@[j].name) && supertype_wf(local_variables@[j].tipe),
        ensures
            *old(i) < *i <= code.len(),
            forall|j: int| #![trigger constants@[j]]
                0 <= j < constants.len() ==> is_name(constants@[j].name) && expression_wf(constants@[j].value),
            forall|j: int| #![trigger local_variables@[j]]
                0 <= j < local_variables.len() ==> is_name(local_variables@[j].name) && supertype_wf(local_variables@[j].tipe),
            sections(code@, *old(i) as int, false, false) == BlockHead::Begin(*i as int),
        decreases code.len() - *i,
    {
        proof {
            lemma_keyword_bytes();
            reveal(sections);
        }
        let t = next(code, i)?;
        if token_is(&t, "BEGIN") {
            break;
        }
        if token_is(&t, "CONST") {
            check(!seen_const, code, *i, SyntaxMessage::MultipleConst)?;
            seen_const = true;
            parse_const_section(code, i, &mut constants)?;
        } else if token_is(&t, "VAR") {
            check(!seen_var, code, *i, SyntaxMessage::MultipleVar)?;
            seen_var = true;
            parse_var_section(code, i, &mut local_variables)?;
        }
    }
    let body = parse_statement_list(code, i)?;
    Ok(Block { constants, local_variables, body })
}

/// Skips the program's parameter list, through its `)`.
fn skip_program_parameters(code: &[u8], i: &mut usize) -> (r: Result<(), SyntaxError>)
    requires
        *old(i) <= code.len(),
    ensures
        *old(i) <= *final(i) <= code.len(),
{
    loop
        invariant
            *old(i) <= *i <= code.len(),
        decreases code.len() - *i,
    {
        let t = next(code, i)?;
        if token_is(&t, ")") {
            break;
        }
    }
    Ok(())
}

/// The source reads `PROGRAM name ; BEGIN END`: a program whose statement
/// list is empty.
pub open spec fn empty_program(s: Seq<u8>) -> bool {
    &&& token_at(s, 0) is Ok && tok(s, 0) == "PROGRAM".spec_bytes()
    &&& token_at(s, after(s, 0)) is Ok && is_identifier(tok(s, after(s, 0)))
    &&& token_at(s, after2(s, 0)) is Ok && tok(s, after2(s, 0)) == ";".spec_bytes()
    &&& token_at(s, after(s, after2(s, 0))) is Ok && tok(s, after(s, after2(s, 0))) == "BEGIN".spec_bytes()
    &&& token_at(s, after2(s, after2(s, 0))) is Ok && tok(s, after2(s, after2(s, 0))) == "END".spec_bytes()
}

proof fn lemma_sections_begin(s: Seq<u8>, i: int)
    requires
        0 <= i,
        is_tok(s, i, "BEGIN".spec_bytes()),
        steps(s, i),
    ensures
        sections(s, i, false, false) == BlockHead::Begin(after(s, i)),
{
    reveal(sections);
}

/// Parses `";" block "."`, the rest of a program after its header.
#[verifier::rlimit(50)]
fn parse_body(code: &[u8], i: &mut usize) -> (r: Result<Block, SyntaxError>)
    requires
        *old(i) <= code.len(),
    ensures
        r is Ok ==> r->Ok_0.body is StatementList && block_wf(r->Ok_0),
        token_at(code@, *old(i) as int) is Ok && tok(code@, *old(i) as int) == ";".spec_bytes()
            && token_at(code@, after(code@, *old(i) as int)) is Ok && tok(
            code@,
            after(code@, *old(i) as int),
        ) == "BEGIN".spec_bytes() && token_at(code@, after2(code@, *old(i) as int)) is Ok && tok(
            code@,
            after2(code@, *old(i) as int),
        ) == "END".spec_bytes() ==> r is Err && r->Err_0.message == SyntaxMessage::EmptyStatementList
            && token_span(r->Err_0, code@, after2(code@, *old(i) as int)),
{
    check(look_is(code, *i, ";")?, code, *i, SyntaxMessage::ExpectedSemicolon)?;
    next(code, i)?;
    look(code, *i)?;
    proof {
        if is_tok(code@, *i as int, "BEGIN".spec_bytes()) {
            lemma_sections_begin(code@, *i as int);
        }
    }
    let body = parse_block(code, i)?;
    check(look_is(code, *i, ".")?, code, *i, SyntaxMessage::InvalidTerminator)?;
    Ok(body)
}

/// Parses a whole program:
/// `"PROGRAM" identifier ("(" identifier ("," identifier)* ")")? ";" block "."`.
pub fn parse_program(code: &str) -> (r: Result<Program, SyntaxError>)
    ensures
        token_at(code.spec_bytes(), 0) is Err ==> r is Err,
        token_at(code.spec_bytes(), 0) is Ok && token_at(code.spec_bytes(), 0)->Ok_0.0
            != "PROGRAM".spec_bytes() ==> r is Err && r->Err_0.message
            == SyntaxMessage::MissingProgram,
        r is Ok ==> r->Ok_0.body.body is StatementList && block_wf(r->Ok_0.body),
        empty_program(code.spec_bytes()) ==> r is Err && r->Err_0.message
            == SyntaxMessage::EmptyStatementList && token_span(
            r->Err_0,
            code.spec_bytes(),
            after2(code.spec_bytes(), after2(code.spec_bytes(), 0)),
        ),
{
    let bytes = code.as_bytes();
    proof {
        lemma_semicolon_bytes();
    }
    let mut i: usize = 0;
    check(look_is(bytes, i, "PROGRAM")?, bytes, i, SyntaxMessage::MissingProgram)?;
    next(bytes, &mut i)?;
    let name = look(bytes, i)?;
    check(identifier_bytes(&name), bytes, i, SyntaxMessage::InvalidIdentifier)?;
    next(bytes, &mut i)?;
    if look_is(bytes, i, "(")? {
        skip_program_parameters(bytes, &mut i)?;
    }
    let body = parse_body(bytes, &mut i)?;
    Ok(Program { body })
}

} // verus!
