//! The code generator's rules that do not depend on how reals are computed:
//! type promotion, integer constant folding, read-only data interning,
//! materialisation of constants, type sizes and the stack frame layout,
//! and the typing rules of assignments and built-in functions.
use vstd::prelude::*;
use vstd::string::{StringExecFns, StringSliceAdditionalSpecFns};
use crate::definitions::Type;
use crate::tokenizer::token_is;

verus! {

/// The type of a binary operation on operands of types `a` and `b`.
pub open spec fn promote(a: Type, b: Type) -> Type {
    if a == b {
        a
    } else if (a == Type::Integer && b == Type::Real) || (a == Type::Real && b == Type::Integer) {
        Type::Real
    } else if (a == Type::Integer && b == Type::Char) || (a == Type::Char && b == Type::Integer) {
        Type::Char
    } else {
        Type::Undefined
    }
}

/// Equal types unify to themselves, an integer with a real gives a real,
/// an integer with a char gives a char; anything else is `Undefined`.
pub fn evaluate_type(tipe1: Type, tipe2: Type) -> (r: Type)
    ensures
        r == promote(tipe1, tipe2),
{
    if tipe1 == tipe2 {
        tipe1
    } else if (tipe1 == Type::Integer && tipe2 == Type::Real) || (tipe1 == Type::Real && tipe2
        == Type::Integer) {
        Type::Real
    } else if (tipe1 == Type::Integer && tipe2 == Type::Char) || (tipe1 == Type::Char && tipe2
        == Type::Integer) {
        Type::Char
    } else {
        Type::Undefined
    }
}

/// The integer value of `a op b` where it is defined in 64 bits: `+ - *`,
/// `DIV` (truncating), `MOD` (remainder with the sign of `a`), and the bitwise
/// `AND` and `OR`. Overflow and a zero divisor give `None`.
pub open spec fn fold_int(op: Seq<u8>, a: i64, b: i64) -> Option<i64> {
    if op == "+".spec_bytes() {
        a.checked_add(b)
    } else if op == "-".spec_bytes() {
        a.checked_sub(b)
    } else if op == "*".spec_bytes() {
        a.checked_mul(b)
    } else if op == "DIV".spec_bytes() {
        a.checked_div(b)
    } else if op == "MOD".spec_bytes() {
        a.checked_rem(b)
    } else if op == "AND".spec_bytes() {
        Some(a & b)
    } else if op == "OR".spec_bytes() {
        Some(a | b)
    } else {
        None
    }
}

/// Folds an integer operation on two constants.
pub fn fold_integer(op: &str, a: i64, b: i64) -> (r: Option<i64>)
    ensures
        r == fold_int(op.spec_bytes(), a, b),
{
    let o = op.as_bytes();
    if token_is(o, "+") {
        a.checked_add(b)
    } else if token_is(o, "-") {
        a.checked_sub(b)
    } else if token_is(o, "*") {
        a.checked_mul(b)
    } else if token_is(o, "DIV") {
        a.checked_div(b)
    } else if token_is(o, "MOD") {
        a.checked_rem(b)
    } else if token_is(o, "AND") {
        Some(a & b)
    } else if token_is(o, "OR") {
        Some(a | b)
    } else {
        None
    }
}

pub open spec fn digit_char(d: nat) -> char {
    if d == 0 { '0' }
    else if d == 1 { '1' }
    else if d == 2 { '2' }
    else if d == 3 { '3' }
    else if d == 4 { '4' }
    else if d == 5 { '5' }
    else if d == 6 { '6' }
    else if d == 7 { '7' }
    else if d == 8 { '8' }
    else { '9' }
}

/// The decimal digits of `n`, without leading zeros.
pub open spec fn decimal(n: nat) -> Seq<char>
    decreases n,
{
    if n < 10 {
        seq![digit_char(n)]
    } else {
        decimal(n / 10) + seq![digit_char(n % 10)]
    }
}

fn digit_text(d: u64) -> (r: &'static str)
    requires
        d < 10,
    ensures
        r@ == seq![digit_char(d as nat)],
{
    let r = if d == 0 { "0" }
    else if d == 1 { "1" }
    else if d == 2 { "2" }
    else if d == 3 { "3" }
    else if d == 4 { "4" }
    else if d == 5 { "5" }
    else if d == 6 { "6" }
    else if d == 7 { "7" }
    else if d == 8 { "8" }
    else { "9" };
    proof {
        reveal_strlit("0");
        reveal_strlit("1");
        reveal_strlit("2");
        reveal_strlit("3");
        reveal_strlit("4");
        reveal_strlit("5");
        reveal_strlit("6");
        reveal_strlit("7");
        reveal_strlit("8");
        reveal_strlit("9");
    }
    r
}

/// Appends the decimal digits of `n` to `s`.
pub fn push_decimal(s: &mut String, n: u64)
    ensures
        final(s)@ == old(s)@ + decimal(n as nat),
    decreases n,
{
    if n >= 10 {
        push_decimal(s, n / 10);
    }
    s.append(digit_text(n % 10));
}

/// The first label, from position `k` on, whose literal is `v`.
pub open spec fn find_label(rodata: Seq<(u32, String)>, v: Seq<char>, k: int) -> Option<u32>
    decreases rodata.len() - k,
{
    if k < 0 || k >= rodata.len() {
        None
    } else if rodata[k].1@ == v {
        Some(rodata[k].0)
    } else {
        find_label(rodata, v, k + 1)
    }
}

/// How requesting a label for `v` changes the literal table and the label
/// counter: nothing when `v` is already there; else `v` is appended under the
/// next label, and the counter goes up by one.
pub open spec fn interned(
    before: Seq<(u32, String)>,
    next_label: u32,
    v: Seq<char>,
    after: Seq<(u32, String)>,
    after_next: u32,
) -> bool {
    match find_label(before, v, 0) {
        Some(_) => after == before && after_next == next_label,
        None => after.len() == before.len() + 1 && after.drop_last() == before && after.last().0
            == next_label && after.last().1@ == v && after_next == next_label + 1,
    }
}

/// The label of the read-only literal `value`: the one it already has, or
/// the next label, which is then recorded with it.
pub fn request_label(label_idx: &mut u32, rodata: &mut Vec<(u32, String)>, value: &str) -> (r: u32)
    requires
        find_label(old(rodata)@, value@, 0) is None ==> *old(label_idx) < u32::MAX,
    ensures
        match find_label(old(rodata)@, value@, 0) {
            Some(l) => r == l && final(rodata)@ == old(rodata)@ && *final(label_idx)
                == *old(label_idx),
            None => r == *old(label_idx) && *final(label_idx) == *old(label_idx) + 1
                && final(rodata)@.len() == old(rodata)@.len() + 1
                && final(rodata)@.drop_last() == old(rodata)@
                && final(rodata)@.last().0 == r && final(rodata)@.last().1@ == value@,
        },
        r == label_for(old(rodata)@, *old(label_idx), value@),
        interned(old(rodata)@, *old(label_idx), value@, final(rodata)@, *final(label_idx)),
{
    let text = String::from_str(value);
    let mut k: usize = 0;
    while k < rodata.len()
        invariant
            k <= rodata.len(),
            text@ == value@,
            rodata@ == old(rodata)@,
            *label_idx == *old(label_idx),
            find_label(rodata@, value@, 0) == find_label(rodata@, value@, k as int),
        decreases rodata.len() - k,
    {
        if rodata[k].1 == text {
            return rodata[k].0;
        }
        k = k + 1;
    }
    let r = *label_idx;
    rodata.push((r, text));
    *label_idx = r + 1;
    r
}

/// The label that `request_label` hands out for `v`.
pub open spec fn label_for(rodata: Seq<(u32, String)>, next_label: u32, v: Seq<char>) -> u32 {
    match find_label(rodata, v, 0) {
        Some(l) => l,
        None => next_label,
    }
}

proof fn lemma_find_label_push_found(rodata: Seq<(u32, String)>, v: Seq<char>, x: (u32, String), k: int)
    requires
        0 <= k,
        find_label(rodata, v, k) is Some,
    ensures
        find_label(rodata.push(x), v, k) == find_label(rodata, v, k),
    decreases rodata.len() - k,
{
    if k < rodata.len() && rodata[k].1@ != v {
        lemma_find_label_push_found(rodata, v, x, k + 1);
    }
}

proof fn lemma_find_label_push_new(rodata: Seq<(u32, String)>, v: Seq<char>, x: (u32, String), k: int)
    requires
        0 <= k <= rodata.len(),
        find_label(rodata, v, k) is None,
        x.1@ == v,
    ensures
        find_label(rodata.push(x), v, k) == Some(x.0),
    decreases rodata.len() - k,
{
    if k < rodata.len() {
        lemma_find_label_push_new(rodata, v, x, k + 1);
    }
}

/// Label interning: once a literal has been given a label, it keeps it while
/// other literals are recorded after it.
pub proof fn lemma_label_kept(rodata: Seq<(u32, String)>, v: Seq<char>, x: (u32, String))
    requires
        find_label(rodata, v, 0) is Some,
    ensures
        find_label(rodata.push(x), v, 0) == find_label(rodata, v, 0),
{
    lemma_find_label_push_found(rodata, v, x, 0);
}

/// Label interning: after `request_label` for a literal (table `before`,
/// next label `next_label`, table `after`), the literal is found under the
/// label handed out, so every later request for it returns that label.
pub proof fn lemma_same_literal_same_label(
    before: Seq<(u32, String)>,
    next_label: u32,
    v: Seq<char>,
    after: Seq<(u32, String)>,
)
    requires
        find_label(before, v, 0) is Some ==> after == before,
        find_label(before, v, 0) is None ==> after.len() == before.len() + 1 && after.drop_last()
            == before && after.last().0 == next_label && after.last().1@ == v,
    ensures
        find_label(after, v, 0) == Some(label_for(before, next_label, v)),
{
    if find_label(before, v, 0) is None {
        assert(after == before.push(after.last()));
        lemma_find_label_push_new(before, v, after.last(), 0);
    }
}

/// The text of a constant's value: `true` prints as 1, anything else as 0.
pub open spec fn boolean_digit(value: Seq<char>) -> Seq<char> {
    if value == "true"@ {
        "1"@
    } else {
        "0"@
    }
}

/// Types whose constants can be loaded into a register.
pub open spec fn is_materializable(t: Type) -> bool {
    t == Type::Integer || t == Type::Char || t == Type::Boolean || t == Type::Real || t
        == Type::Stryng
}

/// The assembly that loads the constant `value` of type `tipe`: integers into
/// `%rax`, chars and booleans into `%al`, reals from a `.double` literal into
/// `%xmm0`, strings as the address of a `.string` literal into `%rax`.
pub fn evaluate_constant(
    label_idx: &mut u32,
    rodata: &mut Vec<(u32, String)>,
    value: String,
    tipe: &Type,
) -> (r: String)
    requires
        is_materializable(*tipe),
        (*tipe == Type::Real || *tipe == Type::Stryng) ==> *old(label_idx) < u32::MAX,
    ensures
        *tipe == Type::Real ==> interned(old(rodata)@, *old(label_idx), ".double "@ + value@,
            final(rodata)@, *final(label_idx)),
        *tipe == Type::Stryng ==> interned(old(rodata)@, *old(label_idx), ".string \""@ + value@
            + "\""@, final(rodata)@, *final(label_idx)),
        *tipe == Type::Integer ==> r@ == "\tmovq\t$"@ + value@ + ", %rax\n"@,
        *tipe == Type::Char ==> r@ == "\tmovb\t$"@ + value@ + ", %al\n"@,
        *tipe == Type::Boolean ==> r@ == "\tmovb\t$"@ + boolean_digit(value@) + ", %al\n"@,
        *tipe == Type::Real ==> r@ == "\tmovsd\tl"@ + decimal(
            label_for(old(rodata)@, *old(label_idx), ".double "@ + value@) as nat,
        ) + "(%rip), %xmm0\n"@,
        *tipe == Type::Stryng ==> r@ == "\tleaq\tl"@ + decimal(
            label_for(old(rodata)@, *old(label_idx), ".string \""@ + value@ + "\""@) as nat,
        ) + "(%rip), %rax\n"@,
        (*tipe == Type::Integer || *tipe == Type::Char || *tipe == Type::Boolean) ==> final(rodata)@
            == old(rodata)@ && *final(label_idx) == *old(label_idx),
{
    match tipe {
        Type::Integer => {
            let mut out = String::from_str("\tmovq\t$");
            out.append(value.as_str());
            out.append(", %rax\n");
            out
        },
        Type::Char => {
            let mut out = String::from_str("\tmovb\t$");
            out.append(value.as_str());
            out.append(", %al\n");
            out
        },
        Type::Boolean => {
            let mut out = String::from_str("\tmovb\t$");
            let t = String::from_str("true");
            if value == t {
                out.append("1");
            } else {
                out.append("0");
            }
            out.append(", %al\n");
            out
        },
        Type::Real => {
            let mut literal = String::from_str(".double ");
            literal.append(value.as_str());
            let label = request_label(label_idx, rodata, literal.as_str());
            let mut out = String::from_str("\tmovsd\tl");
            push_decimal(&mut out, label as u64);
            out.append("(%rip), %xmm0\n");
            out
        },
        _ => {
            let mut literal = String::from_str(".string \"");
            literal.append(value.as_str());
            literal.append("\"");
            let label = request_label(label_idx, rodata, literal.as_str());
            let mut out = String::from_str("\tleaq\tl");
            push_decimal(&mut out, label as u64);
            out.append("(%rip), %rax\n");
            out
        },
    }
}

/// Bytes a value of type `t` occupies in the frame.
pub open spec fn size_of(t: Type) -> int
    decreases t,
{
    match t {
        Type::Integer => 8,
        Type::Real => 8,
        Type::Stryng => 8,
        Type::Boolean => 1,
        Type::Char => 1,
        Type::Array(e, lo, hi) => (hi - lo + 1) * size_of(*e),
        _ => 0,
    }
}

/// Whether `t` has a size: no `Text` or `Undefined` in it, no array with fewer
/// than zero elements, and every size fits a `usize`.
pub open spec fn has_size(t: Type) -> bool
    decreases t,
{
    match t {
        Type::Integer | Type::Real | Type::Stryng | Type::Boolean | Type::Char => true,
        Type::Array(e, lo, hi) => hi - lo + 1 >= 0 && has_size(*e) && size_of(t) <= usize::MAX,
        _ => false,
    }
}

proof fn lemma_size_nonneg(t: Type)
    requires
        has_size(t),
    ensures
        0 <= size_of(t) <= usize::MAX,
    decreases t,
{
    if let Type::Array(e, lo, hi) = t {
        lemma_size_nonneg(*e);
        assert((hi - lo + 1) * size_of(*e) >= 0) by (nonlinear_arith)
            requires
                hi - lo + 1 >= 0,
                size_of(*e) >= 0,
        ;
    }
}

/// The size of a value of type `tipe`, where it has one.
pub fn get_size(tipe: &Type) -> (r: Option<usize>)
    ensures
        r == (if has_size(*tipe) {
            Some(size_of(*tipe) as usize)
        } else {
            None::<usize>
        }),
    decreases tipe,
{
    match tipe {
        Type::Integer => Some(8),
        Type::Real => Some(8),
        Type::Stryng => Some(8),
        Type::Boolean => Some(1),
        Type::Char => Some(1),
        Type::Array(e, lo, hi) => {
            let inner = match get_size(&**e) {
                Some(n) => n,
                None => {
                    return None;
                },
            };
            proof {
                lemma_size_nonneg(**e);
            }
            let count: i128 = (*hi as i128) - (*lo as i128) + 1;
            if count < 0 {
                return None;
            }
            let c = count as u128;
            let n = inner as u128;
            assert(c * n <= 0x1_0000_0000_0000_0000u128 * 0xFFFF_FFFF_FFFF_FFFFu128) by (
            nonlinear_arith)
                requires
                    c <= 0x1_0000_0000_0000_0000u128,
                    n <= 0xFFFF_FFFF_FFFF_FFFFu128,
            ;
            let total = c * n;
            if total > usize::MAX as u128 {
                return None;
            }
            Some(total as usize)
        },
        _ => None,
    }
}

/// The lowest index of an array type (0 for other types).
pub open spec fn low_index(t: Type) -> int {
    match t {
        Type::Array(_, lo, _) => lo as int,
        _ => 0,
    }
}

/// Bytes taken by the first `k` variables.
pub open spec fn total_size(ts: Seq<Type>, k: int) -> int
    decreases k,
{
    if k <= 0 || k > ts.len() {
        0
    } else {
        total_size(ts, k - 1) + size_of(ts[k - 1])
    }
}

/// `n` rounded up to a multiple of 16.
pub open spec fn round_up16(n: int) -> int {
    if n % 16 > 0 {
        (n / 16 + 1) * 16
    } else {
        n
    }
}

/// The frame offset of variable `k`: the bytes of the variables up to and
/// including it, plus its lowest index when it is an array.
pub open spec fn slot_offset(ts: Seq<Type>, k: int) -> int {
    total_size(ts, k + 1) + low_index(ts[k])
}

/// Whether the variables of types `ts` can be laid out in a frame: each has a
/// size, the frame fits an `i64` once rounded, and so does every offset.
pub open spec fn layout_fits(ts: Seq<Type>) -> bool {
    &&& forall|k: int| 0 <= k < ts.len() ==> has_size(#[trigger] ts[k])
    &&& total_size(ts, ts.len() as int) <= i64::MAX - 15
    &&& forall|k: int|
        0 <= k < ts.len() ==> i64::MIN <= #[trigger] slot_offset(ts, k) <= i64::MAX
}

proof fn lemma_total_size_monotone(ts: Seq<Type>, a: int, b: int)
    requires
        0 <= a <= b <= ts.len(),
        forall|k: int| 0 <= k < ts.len() ==> has_size(#[trigger] ts[k]),
    ensures
        total_size(ts, a) <= total_size(ts, b),
    decreases b - a,
{
    if a < b {
        lemma_total_size_monotone(ts, a, b - 1);
        lemma_size_nonneg(ts[b - 1]);
    }
}

/// Lays out the variables of types `types` in the frame: the offset of each
/// from `%rbp`, and the bytes the frame reserves. `None` when some type has no
/// size or the frame does not fit.
pub fn frame_layout(types: &Vec<Type>) -> (r: Option<(Vec<i64>, u64)>)
    ensures
        r is Some <==> layout_fits(types@),
        r is Some ==> {
            let (offsets, frame) = r->Some_0;
            &&& offsets.len() == types.len()
            &&& forall|k: int|
                0 <= k < types.len() ==> offsets@[k] as int == #[trigger] slot_offset(types@, k)
            &&& frame as int == round_up16(total_size(types@, types.len() as int))
        },
{
    let mut offsets: Vec<i64> = Vec::new();
    let mut total: u64 = 0;
    let mut k: usize = 0;
    while k < types.len()
        invariant
            k <= types.len(),
            offsets.len() == k,
            total as int == total_size(types@, k as int),
            total <= i64::MAX - 15,
            forall|j: int| 0 <= j < k ==> has_size(#[trigger] types@[j]),
            forall|j: int|
                0 <= j < k ==> offsets@[j] as int == #[trigger] slot_offset(types@, j),
        decreases types.len() - k,
    {
        let size = match get_size(&types[k]) {
            Some(n) => n,
            None => {
                return None;
            },
        };
        proof {
            lemma_size_nonneg(types@[k as int]);
        }
        assert(size as int == size_of(types@[k as int]));
        assert(total_size(types@, k + 1) == total_size(types@, k as int) + size_of(types@[k as int]));
        if size as u64 > (i64::MAX - 15) as u64 - total {
            proof {
                if layout_fits(types@) {
                    lemma_total_size_monotone(types@, k + 1, types.len() as int);
                }
            }
            return None;
        }
        total = total + size as u64;
        let offset: i128 = total as i128 + match &types[k] {
            Type::Array(_, lo, _) => *lo as i128,
            _ => 0,
        };
        if offset < i64::MIN as i128 || offset > i64::MAX as i128 {
            assert(!(i64::MIN <= slot_offset(types@, k as int) <= i64::MAX));
            return None;
        }
        offsets.push(offset as i64);
        k = k + 1;
    }
    let frame = if total % 16 > 0 {
        (total / 16 + 1) * 16
    } else {
        total
    };
    Some((offsets, frame))
}

/// Stack alignment: the frame that a block reserves is a multiple of 16, and
/// holds all of its variables with less than 16 bytes to spare.
pub proof fn lemma_frame_aligned(types: Seq<Type>)
    requires
        layout_fits(types),
    ensures
        round_up16(total_size(types, types.len() as int)) % 16 == 0,
        total_size(types, types.len() as int) <= round_up16(total_size(types, types.len() as int))
            < total_size(types, types.len() as int) + 16,
{
}

/// Whether a value of type `value` may be stored in a variable of type
/// `target`: equal types, an integer into a real, or a char into a string.
pub open spec fn assignable(target: Type, value: Type) -> bool {
    value == target || (value == Type::Integer && target == Type::Real) || (value == Type::Char
        && target == Type::Stryng)
}

/// Whether `variable := value` type-checks; otherwise the statement is
/// reported as "Mismatched types".
pub fn assignment_allowed(target: &Type, value: &Type) -> (r: bool)
    ensures
        r == assignable(*target, *value),
{
    *value == *target || (*value == Type::Integer && *target == Type::Real) || (*value
        == Type::Char && *target == Type::Stryng)
}

/// Whether `array[index] := value` type-checks for arrays of `element`:
/// equal types, or an integer into a real.
pub fn element_assignment_allowed(element: &Type, value: &Type) -> (r: bool)
    ensures
        r == (*element == *value || (*element == Type::Real && *value == Type::Integer)),
{
    *element == *value || (*element == Type::Real && *value == Type::Integer)
}

/// Why a built-in function rejects its argument.
#[derive(Debug, Clone, Copy, PartialEq, Eq)]
pub enum ArgumentError {
    ExpectedChar,
    ExpectedInteger,
    ExpectedNumber,
}

impl ArgumentError {
    /// The text of the diagnostic.
    pub fn text(&self) -> &'static str {
        match self {
            ArgumentError::ExpectedChar => "Expected char as argument",
            ArgumentError::ExpectedInteger => "Expected integer as argument",
            ArgumentError::ExpectedNumber => "Expected integer or real as argument",
        }
    }
}

pub open spec fn is_number(t: Type) -> bool {
    t == Type::Integer || t == Type::Real
}

/// The result type of built-in function `name` applied to one argument of
/// type `arg`, and the error it reports, if any; `None` for other names.
pub open spec fn builtin_rule(name: Seq<u8>, arg: Type) -> Option<(Type, Option<ArgumentError>)> {
    if name == "ORD".spec_bytes() {
        Some((Type::Integer, if arg == Type::Char || arg == Type::Undefined {
            None
        } else {
            Some(ArgumentError::ExpectedChar)
        }))
    } else if name == "CHR".spec_bytes() {
        Some((Type::Char, if arg == Type::Integer {
            None
        } else {
            Some(ArgumentError::ExpectedInteger)
        }))
    } else if name == "SQRT".spec_bytes() {
        Some((Type::Real, if is_number(arg) {
            None
        } else {
            Some(ArgumentError::ExpectedNumber)
        }))
    } else if name == "SQR".spec_bytes() || name == "ABS".spec_bytes() {
        if is_number(arg) {
            Some((arg, None))
        } else {
            Some((Type::Undefined, Some(ArgumentError::ExpectedNumber)))
        }
    } else {
        None
    }
}

/// Type-checks a call of a built-in function (`ORD`, `CHR`, `SQRT`, `SQR`,
/// `ABS`) on an argument of type `arg`.
pub fn check_builtin(name: &str, arg: &Type) -> (r: Option<(Type, Option<ArgumentError>)>)
    ensures
        r == builtin_rule(name.spec_bytes(), *arg),
{
    let n = name.as_bytes();
    let number = *arg == Type::Integer || *arg == Type::Real;
    if token_is(n, "ORD") {
        Some((Type::Integer, if *arg == Type::Char || *arg == Type::Undefined {
            None
        } else {
            Some(ArgumentError::ExpectedChar)
        }))
    } else if token_is(n, "CHR") {
        Some((Type::Char, if *arg == Type::Integer {
            None
        } else {
            Some(ArgumentError::ExpectedInteger)
        }))
    } else if token_is(n, "SQRT") {
        Some((Type::Real, if number {
            None
        } else {
            Some(ArgumentError::ExpectedNumber)
        }))
    } else if token_is(n, "SQR") || token_is(n, "ABS") {
        if number {
            Some((arg.clone(), None))
        } else {
            Some((Type::Undefined, Some(ArgumentError::ExpectedNumber)))
        }
    } else {
        None
    }
}

/// Whether `needle` occurs in `hay` at position `k`.
pub open spec fn occurs_at(hay: Seq<u8>, needle: Seq<u8>, k: int) -> bool {
    0 <= k && k + needle.len() <= hay.len() && hay.subrange(k, k + needle.len()) == needle
}

/// The read-only data lines `l<label>:` / `<literal>` of each entry, in order.
pub open spec fn rodata_text(rodata: Seq<(u32, String)>) -> Seq<char>
    decreases rodata.len(),
{
    if rodata.len() == 0 {
        Seq::empty()
    } else {
        rodata_text(rodata.drop_last()) + "l"@ + decimal(rodata.last().0 as nat) + ":\n\t"@
            + rodata.last().1@ + "\n"@
    }
}

/// The bytes of `eof`, the name of the end-of-input flag.
pub open spec fn eof_bytes() -> Seq<u8> {
    seq![101u8, 111u8, 102u8]
}

/// The whole assembly file around the code of the program's block.
pub open spec fn program_text(body: &str, rodata: Seq<(u32, String)>) -> Seq<char> {
    (if exists|k: int| occurs_at(body.spec_bytes(), eof_bytes(), k) {
        ".section .data\neof:\n\t.int 0\n"@
    } else {
        Seq::empty()
    }) + (if rodata.len() > 0 {
        ".section .rodata\n"@ + rodata_text(rodata)
    } else {
        Seq::empty()
    }) + ".text\n.globl main\nmain:\n\tpushq\t%rbp\n\tmovq\t%rsp, %rbp\n"@ + body@
        + "\tmovl\t$0, %eax\n\tleave\n\tret\n\n"@
}

fn mentions_eof(body: &str) -> (r: bool)
    ensures
        r == exists|k: int| occurs_at(body.spec_bytes(), eof_bytes(), k),
{
    let b = body.as_bytes();
    let ghost needle = eof_bytes();
    let mut k: usize = 0;
    while b.len() >= 3 && k <= b.len() - 3
        invariant
            b@ == body.spec_bytes(),
            needle == eof_bytes(),
            forall|j: int| 0 <= j < k ==> !occurs_at(b@, needle, j),
        decreases b.len() - k,
    {
        if b[k] == 101 && b[k + 1] == 111 && b[k + 2] == 102 {
            assert(b@.subrange(k as int, k + 3) == needle);
            assert(occurs_at(b@, needle, k as int));
            return true;
        }
        assert(!occurs_at(b@, needle, k as int)) by {
            if occurs_at(b@, needle, k as int) {
                assert(b@.subrange(k as int, k + 3)[0] == b@[k as int]);
                assert(b@.subrange(k as int, k + 3)[1] == b@[k + 1]);
                assert(b@.subrange(k as int, k + 3)[2] == b@[k + 2]);
            }
        }
        k = k + 1;
    }
    false
}

/// Frames the code of the program's block as an assembly file: a `.data`
/// section with `eof` when the code uses it, the read-only literals, then
/// `main` with its prologue, the code and the epilogue.
pub fn frame_program(body: &str, rodata: &Vec<(u32, String)>) -> (r: String)
    ensures
        r@ == program_text(body, rodata@),
{
    let mut out = String::new();
    if mentions_eof(body) {
        out.append(".section .data\neof:\n\t.int 0\n");
    }
    if rodata.len() > 0 {
        out.append(".section .rodata\n");
        let ghost start = out@;
        let mut k: usize = 0;
        while k < rodata.len()
            invariant
                k <= rodata.len(),
                out@ == start + rodata_text(rodata@.subrange(0, k as int)),
            decreases rodata.len() - k,
        {
            assert(rodata@.subrange(0, k + 1).drop_last() == rodata@.subrange(0, k as int));
            out.append("l");
            push_decimal(&mut out, rodata[k].0 as u64);
            out.append(":\n\t");
            out.append(rodata[k].1.as_str());
            out.append("\n");
            k = k + 1;
        }
        assert(rodata@.subrange(0, rodata.len() as int) == rodata@);
    }
    out.append(".text\n.globl main\nmain:\n\tpushq\t%rbp\n\tmovq\t%rsp, %rbp\n");
    out.append(body);
    out.append("\tmovl\t$0, %eax\n\tleave\n\tret\n\n");
    out
}

/// The outcome of `a op b` for a relational operator other than `IN`.
pub open spec fn compare_int(op: Seq<u8>, a: int, b: int) -> Option<bool> {
    if op == "<".spec_bytes() {
        Some(a < b)
    } else if op == "<=".spec_bytes() {
        Some(a <= b)
    } else if op == "=".spec_bytes() {
        Some(a == b)
    } else if op == "<>".spec_bytes() {
        Some(a != b)
    } else if op == ">".spec_bytes() {
        Some(a > b)
    } else if op == ">=".spec_bytes() {
        Some(a >= b)
    } else {
        None
    }
}

/// Folds a comparison of two integer (or char) constants.
pub fn compare_integers(op: &str, a: i64, b: i64) -> (r: Option<bool>)
    ensures
        r == compare_int(op.spec_bytes(), a as int, b as int),
{
    let o = op.as_bytes();
    if token_is(o, "<") {
        Some(a < b)
    } else if token_is(o, "<=") {
        Some(a <= b)
    } else if token_is(o, "=") {
        Some(a == b)
    } else if token_is(o, "<>") {
        Some(a != b)
    } else if token_is(o, ">") {
        Some(a > b)
    } else if token_is(o, ">=") {
        Some(a >= b)
    } else {
        None
    }
}

/// The conditional jump that skips setting the result of `op` when the
/// comparison fails: signed jumps after an integer or char compare, the
/// unordered ones after `ucomisd` on reals. `IN` jumps unconditionally.
pub open spec fn jump_mnemonic(op: Seq<u8>, on_reals: bool) -> Option<Seq<char>> {
    if op == "<".spec_bytes() {
        Some(if on_reals { "jae"@ } else { "jge"@ })
    } else if op == "<=".spec_bytes() {
        Some(if on_reals { "ja"@ } else { "jg"@ })
    } else if op == "=".spec_bytes() {
        Some("jne"@)
    } else if op == "<>".spec_bytes() {
        Some("je"@)
    } else if op == ">=".spec_bytes() {
        Some(if on_reals { "jb"@ } else { "jl"@ })
    } else if op == ">".spec_bytes() {
        Some(if on_reals { "jbe"@ } else { "jle"@ })
    } else if op == "IN".spec_bytes() {
        Some("jmp"@)
    } else {
        None
    }
}

fn mnemonic(op: &str, on_reals: bool) -> (r: Option<&'static str>)
    ensures
        match jump_mnemonic(op.spec_bytes(), on_reals) {
            Some(m) => r is Some && r->0@ == m,
            None => r is None,
        },
{
    let o = op.as_bytes();
    if token_is(o, "<") {
        Some(if on_reals { "jae" } else { "jge" })
    } else if token_is(o, "<=") {
        Some(if on_reals { "ja" } else { "jg" })
    } else if token_is(o, "=") {
        Some("jne")
    } else if token_is(o, "<>") {
        Some("je")
    } else if token_is(o, ">=") {
        Some(if on_reals { "jb" } else { "jl" })
    } else if token_is(o, ">") {
        Some(if on_reals { "jbe" } else { "jle" })
    } else if token_is(o, "IN") {
        Some("jmp")
    } else {
        None
    }
}

/// The jump line of a relational operator to label `label`; `IN` carries a
/// note that it has no code. `None` for an operator that is not relational.
pub fn relational_jump(op: &str, on_reals: bool, label: u32) -> (r: Option<String>)
    ensures
        match jump_mnemonic(op.spec_bytes(), on_reals) {
            Some(m) => r is Some && r->0@ == "\t"@ + m + "\tl"@ + decimal(label as nat) + (if op.spec_bytes()
                == "IN".spec_bytes() {
                " # Error: IN not implemented \n"@
            } else {
                "\n"@
            }),
            None => r is None,
        },
{
    match mnemonic(op, on_reals) {
        None => None,
        Some(m) => {
            let mut out = String::from_str("\t");
            out.append(m);
            out.append("\tl");
            push_decimal(&mut out, label as u64);
            if token_is(op.as_bytes(), "IN") {
                out.append(" # Error: IN not implemented \n");
            } else {
                out.append("\n");
            }
            Some(out)
        },
    }
}

/// The read-only directive for the text `text`, with an escaped line feed
/// after it when `new_line` holds: `.string "<text>\n"`.
pub open spec fn string_directive_text(text: Seq<char>, new_line: bool) -> Seq<char> {
    ".string \""@ + text + (if new_line {
        "\\n"@
    } else {
        Seq::empty()
    }) + "\""@
}

/// The `.string` directive of a `printf` format or literal text; `WRITELN`
/// asks for the line feed after its last argument.
pub fn string_directive(text: &str, new_line: bool) -> (r: String)
    ensures
        r@ == string_directive_text(text@, new_line),
{
    let mut out = String::from_str(".string \"");
    out.append(text);
    if new_line {
        out.append("\\n");
    }
    out.append("\"");
    out
}

/// The instructions of a multiplicative operator on operands already in
/// `%rax`/`%rdx` (or `%xmm0`/`%xmm1`) of the promoted type `t`, the type of
/// the result, and whether the operator draws a warning (`/` on integers,
/// `DIV` on reals). `None` for an operation the language does not define.
pub open spec fn multiplicative_rule(op: Seq<u8>, t: Type) -> Option<(Seq<char>, Type, bool)> {
    if t == Type::Undefined {
        Some((Seq::empty(), Type::Undefined, false))
    } else if op == "*".spec_bytes() && t == Type::Integer {
        Some(("\timulq\t%rdx\n"@, Type::Integer, false))
    } else if op == "*".spec_bytes() && t == Type::Real {
        Some(("\tmulsd\t%xmm1, %xmm0\n"@, Type::Real, false))
    } else if op == "DIV".spec_bytes() && t == Type::Integer {
        Some(("\tmovq\t%rdx, %rcx\n\tmovq\t$0, %rdx\n\tidivq\t%rcx\n"@, Type::Integer, false))
    } else if op == "/".spec_bytes() && t == Type::Integer {
        Some(("\tcvtsi2sd %rax, %xmm0\n\tcvtsi2sd %rdx, %xmm1\n\tdivsd\t%xmm1, %xmm0\n"@, Type::Real, true))
    } else if op == "/".spec_bytes() && t == Type::Real {
        Some(("\tdivsd\t%xmm1, %xmm0\n"@, Type::Real, false))
    } else if op == "DIV".spec_bytes() && t == Type::Real {
        Some(("\tdivsd\t%xmm1, %xmm0\n"@, Type::Real, true))
    } else if op == "MOD".spec_bytes() && t == Type::Integer {
        Some(("\tmovq\t%rdx, %rcx\n\tmovq\t$0, %rdx\n\tidivq\t%rcx\n\tmovq\t%rdx, %rax\n"@, Type::Integer, false))
    } else if op == "MOD".spec_bytes() && t == Type::Real {
        Some(("\tcall\tfmod\n"@, Type::Real, false))
    } else if op == "AND".spec_bytes() && t == Type::Integer {
        Some(("\tandq\t%rdx, %rax\n"@, Type::Integer, false))
    } else if op == "AND".spec_bytes() && t == Type::Boolean {
        Some(("\tandb\t%dl, %al\n"@, Type::Boolean, false))
    } else {
        None
    }
}

/// The code of a multiplicative operator on runtime operands.
pub fn multiplicative_code(op: &str, tipe: &Type) -> (r: Option<(&'static str, Type, bool)>)
    ensures
        match multiplicative_rule(op.spec_bytes(), *tipe) {
            Some((code, t, warns)) => r matches Some(x) && x.0@ == code && x.1 == t && x.2 == warns,
            None => r is None,
        },
{
    proof {
        reveal_strlit("");
    }
    let o = op.as_bytes();
    let integer = *tipe == Type::Integer;
    let reals = *tipe == Type::Real;
    if *tipe == Type::Undefined {
        Some(("", Type::Undefined, false))
    } else if token_is(o, "*") && integer {
        Some(("\timulq\t%rdx\n", Type::Integer, false))
    } else if token_is(o, "*") && reals {
        Some(("\tmulsd\t%xmm1, %xmm0\n", Type::Real, false))
    } else if token_is(o, "DIV") && integer {
        Some(("\tmovq\t%rdx, %rcx\n\tmovq\t$0, %rdx\n\tidivq\t%rcx\n", Type::Integer, false))
    } else if token_is(o, "/") && integer {
        Some(("\tcvtsi2sd %rax, %xmm0\n\tcvtsi2sd %rdx, %xmm1\n\tdivsd\t%xmm1, %xmm0\n", Type::Real, true))
    } else if token_is(o, "/") && reals {
        Some(("\tdivsd\t%xmm1, %xmm0\n", Type::Real, false))
    } else if token_is(o, "DIV") && reals {
        Some(("\tdivsd\t%xmm1, %xmm0\n", Type::Real, true))
    } else if token_is(o, "MOD") && integer {
        Some(("\tmovq\t%rdx, %rcx\n\tmovq\t$0, %rdx\n\tidivq\t%rcx\n\tmovq\t%rdx, %rax\n", Type::Integer, false))
    } else if token_is(o, "MOD") && reals {
        Some(("\tcall\tfmod\n", Type::Real, false))
    } else if token_is(o, "AND") && integer {
        Some(("\tandq\t%rdx, %rax\n", Type::Integer, false))
    } else if token_is(o, "AND") && *tipe == Type::Boolean {
        Some(("\tandb\t%dl, %al\n", Type::Boolean, false))
    } else {
        None
    }
}

/// The instructions of an additive operator on runtime operands of the
/// promoted type `t`; `None` for an operation the language does not define.
pub open spec fn additive_rule(op: Seq<u8>, t: Type) -> Option<Seq<char>> {
    if t == Type::Undefined {
        Some(Seq::empty())
    } else if op == "+".spec_bytes() && t == Type::Integer {
        Some("\taddq\t%rdx, %rax\n"@)
    } else if op == "+".spec_bytes() && t == Type::Real {
        Some("\taddsd\t%xmm1, %xmm0\n"@)
    } else if op == "+".spec_bytes() && t == Type::Char {
        Some("\taddb\t%dl, %al\n"@)
    } else if op == "-".spec_bytes() && t == Type::Integer {
        Some("\tsubq\t%rdx, %rax\n"@)
    } else if op == "-".spec_bytes() && t == Type::Real {
        Some("\tsubsd\t%xmm1, %xmm0\n"@)
    } else if op == "-".spec_bytes() && t == Type::Char {
        Some("\tsubb\t%dl, %al\n"@)
    } else if op == "OR".spec_bytes() && t == Type::Integer {
        Some("\torq\t%rdx, %rax\n"@)
    } else if op == "OR".spec_bytes() && t == Type::Boolean {
        Some("\torb\t%dl, %al\n"@)
    } else {
        None
    }
}

/// The code of an additive operator on runtime operands.
pub fn additive_code(op: &str, tipe: &Type) -> (r: Option<&'static str>)
    ensures
        match additive_rule(op.spec_bytes(), *tipe) {
            Some(code) => r is Some && r->0@ == code,
            None => r is None,
        },
{
    proof {
        reveal_strlit("");
    }
    let o = op.as_bytes();
    if *tipe == Type::Undefined {
        Some("")
    } else if token_is(o, "+") && *tipe == Type::Integer {
        Some("\taddq\t%rdx, %rax\n")
    } else if token_is(o, "+") && *tipe == Type::Real {
        Some("\taddsd\t%xmm1, %xmm0\n")
    } else if token_is(o, "+") && *tipe == Type::Char {
        Some("\taddb\t%dl, %al\n")
    } else if token_is(o, "-") && *tipe == Type::Integer {
        Some("\tsubq\t%rdx, %rax\n")
    } else if token_is(o, "-") && *tipe == Type::Real {
        Some("\tsubsd\t%xmm1, %xmm0\n")
    } else if token_is(o, "-") && *tipe == Type::Char {
        Some("\tsubb\t%dl, %al\n")
    } else if token_is(o, "OR") && *tipe == Type::Integer {
        Some("\torq\t%rdx, %rax\n")
    } else if token_is(o, "OR") && *tipe == Type::Boolean {
        Some("\torb\t%dl, %al\n")
    } else {
        None
    }
}

/// The decimal text of a signed number.
pub open spec fn signed_decimal(n: int) -> Seq<char> {
    if n < 0 {
        "-"@ + decimal((-n) as nat)
    } else {
        decimal(n as nat)
    }
}

/// Appends the decimal text of `n` to `s`.
pub fn push_signed_decimal(s: &mut String, n: i64)
    ensures
        final(s)@ == old(s)@ + signed_decimal(n as int),
{
    if n < 0 {
        s.append("-");
        let m: u64 = if n == i64::MIN {
            0x8000_0000_0000_0000u64
        } else {
            (-n) as u64
        };
        push_decimal(s, m);
    } else {
        push_decimal(s, n as u64);
    }
}

/// The address of the frame slot at `offset`: `-<offset>(%rbp)`.
pub open spec fn slot_text(offset: int) -> Seq<char> {
    "-"@ + signed_decimal(offset) + "(%rbp)"@
}

fn push_slot(s: &mut String, offset: i64)
    ensures
        final(s)@ == old(s)@ + slot_text(offset as int),
{
    s.append("-");
    push_signed_decimal(s, offset);
    s.append("(%rbp)");
}

/// How a value of type `t` is loaded from `location` into its register:
/// booleans and chars into `%al`, integers and string pointers into `%rax`,
/// reals into `%xmm0`. `None` for the other types.
pub open spec fn load_text(t: Type, location: Seq<char>) -> Option<Seq<char>> {
    if t == Type::Boolean || t == Type::Char {
        Some("\tmovb\t"@ + location + ", %al\n"@)
    } else if t == Type::Integer || t == Type::Stryng {
        Some("\tmovq\t"@ + location + ", %rax\n"@)
    } else if t == Type::Real {
        Some("\tmovsd\t"@ + location + ", %xmm0\n"@)
    } else {
        None
    }
}

/// The instruction that loads a variable of type `tipe` from `location`.
pub fn load_code(tipe: &Type, location: &str) -> (r: Option<String>)
    ensures
        match load_text(*tipe, location@) {
            Some(t) => r is Some && r->0@ == t,
            None => r is None,
        },
{
    if *tipe == Type::Boolean || *tipe == Type::Char {
        let mut out = String::from_str("\tmovb\t");
        out.append(location);
        out.append(", %al\n");
        Some(out)
    } else if *tipe == Type::Integer || *tipe == Type::Stryng {
        let mut out = String::from_str("\tmovq\t");
        out.append(location);
        out.append(", %rax\n");
        Some(out)
    } else if *tipe == Type::Real {
        let mut out = String::from_str("\tmovsd\t");
        out.append(location);
        out.append(", %xmm0\n");
        Some(out)
    } else {
        None
    }
}

/// How the value of type `value`, in its register, is stored into a variable
/// of type `target` at frame offset `offset`: an integer stored into a real is
/// converted first, a char stored into a string is followed by a NUL byte.
/// `None` where no store exists.
pub open spec fn store_text(target: Type, value: Type, offset: int) -> Option<Seq<char>> {
    if target == Type::Char || target == Type::Boolean {
        Some("\tmovb\t%al, "@ + slot_text(offset) + "\n"@)
    } else if target == Type::Stryng && value == Type::Stryng {
        Some("\tmovq\t%rax, "@ + slot_text(offset) + "\n"@)
    } else if target == Type::Stryng && value == Type::Char && offset < i64::MAX {
        Some("\tmovb\t%al, "@ + slot_text(offset) + "\n\tmovb\t$0, "@ + slot_text(offset + 1)
            + "\n"@)
    } else if target == Type::Integer {
        Some("\tmovq\t%rax, "@ + slot_text(offset) + "\n"@)
    } else if target == Type::Real && value == Type::Real {
        Some("\tmovq\t%xmm0, "@ + slot_text(offset) + "\n"@)
    } else if target == Type::Real && value == Type::Integer {
        Some("\tcvtsi2sd %rax, %xmm0\n\tmovq\t%xmm0, "@ + slot_text(offset) + "\n"@)
    } else {
        None
    }
}

/// The instructions that store an assigned value into its variable.
pub fn store_code(target: &Type, value: &Type, offset: i64) -> (r: Option<String>)
    ensures
        match store_text(*target, *value, offset as int) {
            Some(t) => r is Some && r->0@ == t,
            None => r is None,
        },
{
    let mut out = String::new();
    if *target == Type::Char || *target == Type::Boolean {
        out.append("\tmovb\t%al, ");
        push_slot(&mut out, offset);
        out.append("\n");
    } else if *target == Type::Stryng && *value == Type::Stryng {
        out.append("\tmovq\t%rax, ");
        push_slot(&mut out, offset);
        out.append("\n");
    } else if *target == Type::Stryng && *value == Type::Char && offset < i64::MAX {
        out.append("\tmovb\t%al, ");
        push_slot(&mut out, offset);
        out.append("\n\tmovb\t$0, ");
        push_slot(&mut out, offset + 1);
        out.append("\n");
    } else if *target == Type::Integer {
        out.append("\tmovq\t%rax, ");
        push_slot(&mut out, offset);
        out.append("\n");
    } else if *target == Type::Real && *value == Type::Real {
        out.append("\tmovq\t%xmm0, ");
        push_slot(&mut out, offset);
        out.append("\n");
    } else if *target == Type::Real && *value == Type::Integer {
        out.append("\tcvtsi2sd %rax, %xmm0\n\tmovq\t%xmm0, ");
        push_slot(&mut out, offset);
        out.append("\n");
    } else {
        return None;
    }
    Some(out)
}

/// The line that defines label `l`.
pub open spec fn label_line(l: u32) -> Seq<char> {
    "l"@ + decimal(l as nat) + ":\n"@
}

/// The test of a boolean in `%al` that jumps to label `l` when it is false.
pub open spec fn jump_if_false(l: u32) -> Seq<char> {
    "\ttestb\t%al, %al\n\tje\tl"@ + decimal(l as nat) + "\n"@
}

fn push_label_line(s: &mut String, l: u32)
    ensures
        final(s)@ == old(s)@ + label_line(l),
{
    s.append("l");
    push_decimal(s, l as u64);
    s.append(":\n");
}

fn push_jump_if_false(s: &mut String, l: u32)
    ensures
        final(s)@ == old(s)@ + jump_if_false(l),
{
    s.append("\ttestb\t%al, %al\n\tje\tl");
    push_decimal(s, l as u64);
    s.append("\n");
}

/// `IF`: the condition, a jump to `l1` when it is false, the then-branch; with
/// an else-branch, a jump to `l2` past it, `l1`, the else-branch and `l2`;
/// without one, just `l1`.
pub open spec fn if_text(cond: Seq<char>, then_code: Seq<char>, else_code: Option<Seq<char>>, l1: u32, l2: u32) -> Seq<char> {
    match else_code {
        Some(e) => cond + jump_if_false(l1) + then_code + "\tjmp\tl"@ + decimal(l2 as nat) + "\n"@
            + label_line(l1) + e + label_line(l2),
        None => cond + jump_if_false(l1) + then_code + label_line(l1),
    }
}

/// The code of an `IF` statement from the code of its parts and its labels.
pub fn if_code(cond: &str, then_code: &str, else_code: Option<&str>, l1: u32, l2: u32) -> (r: String)
    ensures
        r@ == if_text(cond@, then_code@, match else_code {
            Some(e) => Some(e@),
            None => None,
        }, l1, l2),
{
    let mut out = String::from_str(cond);
    push_jump_if_false(&mut out, l1);
    out.append(then_code);
    match else_code {
        Some(e) => {
            out.append("\tjmp\tl");
            push_decimal(&mut out, l2 as u64);
            out.append("\n");
            push_label_line(&mut out, l1);
            out.append(e);
            push_label_line(&mut out, l2);
        },
        None => {
            push_label_line(&mut out, l1);
        },
    }
    out
}

/// `WHILE`: `l1`, the condition, a jump to `l2` when it is false, the body, a
/// jump back to `l1`, and `l2`.
pub open spec fn while_text(cond: Seq<char>, body: Seq<char>, l1: u32, l2: u32) -> Seq<char> {
    label_line(l1) + cond + jump_if_false(l2) + body + "\tjmp\tl"@ + decimal(l1 as nat) + "\n"@
        + label_line(l2)
}

/// The code of a `WHILE` loop from the code of its parts and its labels.
pub fn while_code(cond: &str, body: &str, l1: u32, l2: u32) -> (r: String)
    ensures
        r@ == while_text(cond@, body@, l1, l2),
{
    let mut out = String::new();
    push_label_line(&mut out, l1);
    out.append(cond);
    push_jump_if_false(&mut out, l2);
    out.append(body);
    out.append("\tjmp\tl");
    push_decimal(&mut out, l1 as u64);
    out.append("\n");
    push_label_line(&mut out, l2);
    out
}

/// `REPEAT`: `l1`, the body, the condition, and a jump back to `l1` while it
/// is false.
pub open spec fn repeat_text(body: Seq<char>, cond: Seq<char>, l1: u32) -> Seq<char> {
    label_line(l1) + body + cond + jump_if_false(l1)
}

/// The code of a `REPEAT` loop from the code of its parts and its label.
pub fn repeat_code(body: &str, cond: &str, l1: u32) -> (r: String)
    ensures
        r@ == repeat_text(body@, cond@, l1),
{
    let mut out = String::new();
    push_label_line(&mut out, l1);
    out.append(body);
    out.append(cond);
    push_jump_if_false(&mut out, l1);
    out
}

/// `FOR`: the start value stored into the variable's slot; the end value moved
/// one step past the range and pushed with a zero word (which keeps `%rsp`
/// 16-byte aligned); at `l1`, leave for `l2` when the variable reaches it;
/// the body; a step of the variable and a jump back to `l1`; at `l2`, drop
/// the two words.
pub open spec fn for_text(start: Seq<char>, end: Seq<char>, body: Seq<char>, offset: int, ascending: bool, l1: u32, l2: u32) -> Seq<char> {
    start + "\tmovq\t%rax, "@ + slot_text(offset) + "\n"@ + end + (if ascending {
        "\tincq\t%rax\n"@
    } else {
        "\tdecq\t%rax\n"@
    }) + "\tpushq\t$0\n\tpushq\t%rax\n"@ + label_line(l1) + "\tmovq\t(%rsp), %rax\n\tmovq\t"@
        + slot_text(offset) + ", %rdx\n\tcmpq\t%rax, %rdx\n\tje\tl"@ + decimal(l2 as nat) + "\n"@
        + body + (if ascending {
        "\tincq\t"@
    } else {
        "\tdecq\t"@
    }) + slot_text(offset) + "\n\tjmp\tl"@ + decimal(l1 as nat) + "\n"@ + label_line(l2)
        + "\taddq\t$16, %rsp\n"@
}

/// The code of a `FOR` loop over the variable at frame offset `offset`.
pub fn for_code(start: &str, end: &str, body: &str, offset: i64, ascending: bool, l1: u32, l2: u32) -> (r: String)
    ensures
        r@ == for_text(start@, end@, body@, offset as int, ascending, l1, l2),
{
    let mut out = String::from_str(start);
    out.append("\tmovq\t%rax, ");
    push_slot(&mut out, offset);
    out.append("\n");
    out.append(end);
    if ascending {
        out.append("\tincq\t%rax\n");
    } else {
        out.append("\tdecq\t%rax\n");
    }
    out.append("\tpushq\t$0\n\tpushq\t%rax\n");
    push_label_line(&mut out, l1);
    out.append("\tmovq\t(%rsp), %rax\n\tmovq\t");
    push_slot(&mut out, offset);
    out.append(", %rdx\n\tcmpq\t%rax, %rdx\n\tje\tl");
    push_decimal(&mut out, l2 as u64);
    out.append("\n");
    out.append(body);
    if ascending {
        out.append("\tincq\t");
    } else {
        out.append("\tdecq\t");
    }
    push_slot(&mut out, offset);
    out.append("\n\tjmp\tl");
    push_decimal(&mut out, l1 as u64);
    out.append("\n");
    push_label_line(&mut out, l2);
    out.append("\taddq\t$16, %rsp\n");
    out
}

/// `scanf` into the slot at `offset` with the format at label `l`.
pub open spec fn scan_text(offset: int, l: u32) -> Seq<char> {
    "\tleaq\t"@ + slot_text(offset) + ", %rsi\n\tleaq\tl"@ + decimal(l as nat)
        + "(%rip), %rdi\n\tmovq\t$0, %rax\n\tcall\tscanf\n"@
}

/// Reading a char: `getchar` at `l1`, setting `eof` on end of input (past
/// `l2`), skipping line feeds, then storing the byte.
pub open spec fn read_char_text(offset: int, l1: u32, l2: u32) -> Seq<char> {
    label_line(l1) + "\tcall\tgetchar\n\tcmpl\t$-1, %eax\n\tjne\tl"@ + decimal(l2 as nat)
        + "\n\tmovl\t$1, eof(%rip)\n"@ + label_line(l2) + "\tcmpb\t$10, %al\n\tje\tl"@ + decimal(
        l1 as nat,
    ) + "\n\tmovb\t%al, "@ + slot_text(offset) + "\n"@
}

/// Reading a string: a zeroed 256-byte buffer from `calloc`, its address
/// stored in the slot, then one line read into it with the format at `l`.
pub open spec fn read_string_text(offset: int, l: u32) -> Seq<char> {
    "\tmovq\t$256, %rdi\n\tmovq\t$1, %rsi\n\tcall\tcalloc\n\tmovq\t%rax, "@ + slot_text(offset)
        + "\n\tmovq\t%rax, %rsi\n\tleaq\tl"@ + decimal(l as nat)
        + "(%rip), %rdi\n\tmovq\t$0, %rax\n\tcall\tscanf\n"@
}

/// The code of `READ` into a variable of type `tipe` at frame offset `offset`:
/// chars through `getchar` (two new labels), integers and reals through
/// `scanf` with `%ld` and `%lf`, strings into a fresh buffer with ` %[^\n]s`.
/// `None` for other types.
pub fn read_variable(label_idx: &mut u32, rodata: &mut Vec<(u32, String)>, tipe: &Type, offset: i64) -> (r: Option<String>)
    requires
        *old(label_idx) < u32::MAX - 1,
    ensures
        *tipe == Type::Char ==> r is Some && r->0@ == read_char_text(offset as int, *old(label_idx), (*old(label_idx) + 1) as u32)
            && *final(label_idx) == *old(label_idx) + 2 && final(rodata)@ == old(rodata)@,
        *tipe == Type::Integer ==> r is Some && r->0@ == scan_text(offset as int, label_for(old(rodata)@, *old(label_idx), ".string \"%ld\""@))
            && interned(old(rodata)@, *old(label_idx), ".string \"%ld\""@, final(rodata)@, *final(label_idx)),
        *tipe == Type::Real ==> r is Some && r->0@ == scan_text(offset as int, label_for(old(rodata)@, *old(label_idx), ".string \"%lf\""@))
            && interned(old(rodata)@, *old(label_idx), ".string \"%lf\""@, final(rodata)@, *final(label_idx)),
        *tipe == Type::Stryng ==> r is Some && r->0@ == read_string_text(offset as int, label_for(old(rodata)@, *old(label_idx), ".string \" %[^\\n]s\""@))
            && interned(old(rodata)@, *old(label_idx), ".string \" %[^\\n]s\""@, final(rodata)@, *final(label_idx)),
        !(*tipe == Type::Char || *tipe == Type::Integer || *tipe == Type::Real || *tipe == Type::Stryng) ==> r is None && *final(label_idx) == *old(label_idx) && final(rodata)@ == old(rodata)@,
{
    if *tipe == Type::Char {
        let l1 = *label_idx;
        let l2 = l1 + 1;
        *label_idx = l1 + 2;
        let mut out = String::new();
        push_label_line(&mut out, l1);
        out.append("\tcall\tgetchar\n\tcmpl\t$-1, %eax\n\tjne\tl");
        push_decimal(&mut out, l2 as u64);
        out.append("\n\tmovl\t$1, eof(%rip)\n");
        push_label_line(&mut out, l2);
        out.append("\tcmpb\t$10, %al\n\tje\tl");
        push_decimal(&mut out, l1 as u64);
        out.append("\n\tmovb\t%al, ");
        push_slot(&mut out, offset);
        out.append("\n");
        Some(out)
    } else if *tipe == Type::Integer || *tipe == Type::Real {
        let label = if *tipe == Type::Integer {
            request_label(label_idx, rodata, ".string \"%ld\"")
        } else {
            request_label(label_idx, rodata, ".string \"%lf\"")
        };
        let mut out = String::from_str("\tleaq\t");
        push_slot(&mut out, offset);
        out.append(", %rsi\n\tleaq\tl");
        push_decimal(&mut out, label as u64);
        out.append("(%rip), %rdi\n\tmovq\t$0, %rax\n\tcall\tscanf\n");
        Some(out)
    } else if *tipe == Type::Stryng {
        let label = request_label(label_idx, rodata, ".string \" %[^\\n]s\"");
        let mut out = String::from_str("\tmovq\t$256, %rdi\n\tmovq\t$1, %rsi\n\tcall\tcalloc\n\tmovq\t%rax, ");
        push_slot(&mut out, offset);
        out.append("\n\tmovq\t%rax, %rsi\n\tleaq\tl");
        push_decimal(&mut out, label as u64);
        out.append("(%rip), %rdi\n\tmovq\t$0, %rax\n\tcall\tscanf\n");
        Some(out)
    } else {
        None
    }
}

proof fn lemma_find_label_push_other(rodata: Seq<(u32, String)>, v: Seq<char>, x: (u32, String), k: int)
    requires
        0 <= k <= rodata.len(),
        x.1@ != v,
    ensures
        find_label(rodata.push(x), v, k) == find_label(rodata, v, k),
    decreases rodata.len() - k,
{
    if k < rodata.len() {
        assert(rodata.push(x)[k] == rodata[k]);
        lemma_find_label_push_other(rodata, v, x, k + 1);
    } else {
        assert(rodata.push(x)[k] == x);
        assert(find_label(rodata.push(x), v, k + 1) == None::<u32>);
    }
}

/// The label counter after `request_label` for `v`.
pub open spec fn next_label_after(rodata: Seq<(u32, String)>, next_label: u32, v: Seq<char>) -> int {
    if find_label(rodata, v, 0) is Some {
        next_label as int
    } else {
        next_label + 1
    }
}

/// `printf` of the format at label `l`, after `setup` has put the argument in
/// place; `floats` is the number of vector registers used (`%al`).
pub open spec fn printf_text(setup: Seq<char>, l: u32, floats: Seq<char>) -> Seq<char> {
    setup + "\tleaq\tl"@ + decimal(l as nat) + "(%rip), %rdi\n\tmovq\t$"@ + floats
        + ", %rax\n\tcall\tprintf\n"@
}

fn push_printf(s: &mut String, setup: &str, l: u32, floats: &str)
    ensures
        final(s)@ == old(s)@ + printf_text(setup@, l, floats@),
{
    s.append(setup);
    s.append("\tleaq\tl");
    push_decimal(s, l as u64);
    s.append("(%rip), %rdi\n\tmovq\t$");
    s.append(floats);
    s.append(", %rax\n\tcall\tprintf\n");
}

/// Printing literal text (a constant string, or nothing): its format is the
/// text itself. `WRITELN` with no arguments prints the empty text with a line feed.
pub fn print_literal(label_idx: &mut u32, rodata: &mut Vec<(u32, String)>, text: &str, new_line: bool) -> (r: String)
    requires
        *old(label_idx) < u32::MAX,
    ensures
        r@ == printf_text(Seq::empty(), label_for(old(rodata)@, *old(label_idx), string_directive_text(text@, new_line)), "0"@),
        interned(old(rodata)@, *old(label_idx), string_directive_text(text@, new_line), final(rodata)@, *final(label_idx)),
{
    let directive = string_directive(text, new_line);
    let label = request_label(label_idx, rodata, directive.as_str());
    let mut out = String::new();
    push_printf(&mut out, "", label, "0");
    proof {
        reveal_strlit("");
    }
    out
}

/// The `printf` format of a value of type `t` printed by `WRITE`.
pub open spec fn print_format(t: Type) -> Seq<char> {
    if t == Type::Integer {
        "%ld"@
    } else if t == Type::Real {
        "%lf"@
    } else if t == Type::Char {
        "%c"@
    } else {
        "%s"@
    }
}

/// The code that prints a value of type `t` whose format has label `l`:
/// integers and string pointers from `%rax`, chars from `%al`, reals from
/// `%xmm0`.
pub open spec fn print_value_text(t: Type, l: u32) -> Seq<char> {
    if t == Type::Real {
        printf_text(Seq::empty(), l, "1"@)
    } else if t == Type::Char {
        printf_text("\tmovb\t%al, %sil\n"@, l, "0"@)
    } else {
        printf_text("\tmovq\t%rax, %rsi\n"@, l, "0"@)
    }
}

/// The code that prints a boolean in `%al`: the `FALSE` format at `lf`, or
/// the `TRUE` one at `lt` when it is set, chosen with a jump to `j`.
pub open spec fn print_boolean_text(lf: u32, lt: u32, j: u32) -> Seq<char> {
    "\tleaq\tl"@ + decimal(lf as nat) + "(%rip), %rdi\n\ttestb\t%al, %al\n\tje\tl"@ + decimal(
        j as nat,
    ) + "\n\tleaq\tl"@ + decimal(lt as nat) + "(%rip), %rdi\n"@ + label_line(j)
        + "\tmovq\t$0, %rax\n\tcall\tprintf\n"@
}

/// Printing a runtime value of type `tipe` for `WRITE` (`WRITELN` asks for the
/// line feed after its last argument); `None` for types that cannot be printed.
pub fn print_value(label_idx: &mut u32, rodata: &mut Vec<(u32, String)>, tipe: &Type, new_line: bool) -> (r: Option<String>)
    requires
        *old(label_idx) < u32::MAX - 2,
    ensures
        (*tipe == Type::Integer || *tipe == Type::Real || *tipe == Type::Char || *tipe
            == Type::Stryng) ==> r is Some && r->0@ == print_value_text(
            *tipe,
            label_for(old(rodata)@, *old(label_idx), string_directive_text(print_format(*tipe), new_line)),
        ) && interned(old(rodata)@, *old(label_idx), string_directive_text(print_format(*tipe), new_line),
            final(rodata)@, *final(label_idx)),
        *tipe == Type::Boolean ==> {
            let f = string_directive_text("FALSE"@, new_line);
            let t = string_directive_text("TRUE"@, new_line);
            let first = next_label_after(old(rodata)@, *old(label_idx), f);
            let second = if find_label(old(rodata)@, t, 0) is Some { first } else { first + 1 };
            &&& r is Some
            &&& r->0@ == print_boolean_text(
                label_for(old(rodata)@, *old(label_idx), f),
                label_for(old(rodata)@, first as u32, t),
                second as u32,
            )
            &&& *final(label_idx) == second + 1
            &&& exists|mid: Seq<(u32, String)>| #[trigger] interned(old(rodata)@, *old(label_idx), f, mid, first as u32)
                && interned(mid, first as u32, t, final(rodata)@, second as u32)
        },
        !(*tipe == Type::Integer || *tipe == Type::Real || *tipe == Type::Char || *tipe
            == Type::Stryng || *tipe == Type::Boolean) ==> r is None && final(rodata)@ == old(rodata)@
            && *final(label_idx) == *old(label_idx),
{
    if *tipe == Type::Boolean {
        let f = string_directive("FALSE", new_line);
        let t = string_directive("TRUE", new_line);
        let ghost before = rodata@;
        let ghost idx0 = *label_idx;
        let lf = request_label(label_idx, rodata, f.as_str());
        let ghost mid = rodata@;
        let ghost first_next = *label_idx;
        proof {
            reveal_strlit(".string \"");
            reveal_strlit("FALSE");
            reveal_strlit("TRUE");
            assert(f@[9] != t@[9]);
            if find_label(before, f@, 0) is None {
                assert(mid == before.push(mid.last()));
                lemma_find_label_push_other(before, t@, mid.last(), 0);
            }
        }
        let lt = request_label(label_idx, rodata, t.as_str());
        assert(interned(before, idx0, f@, mid, first_next));
        let j = *label_idx;
        *label_idx = j + 1;
        let mut out = String::from_str("\tleaq\tl");
        push_decimal(&mut out, lf as u64);
        out.append("(%rip), %rdi\n\ttestb\t%al, %al\n\tje\tl");
        push_decimal(&mut out, j as u64);
        out.append("\n\tleaq\tl");
        push_decimal(&mut out, lt as u64);
        out.append("(%rip), %rdi\n");
        push_label_line(&mut out, j);
        out.append("\tmovq\t$0, %rax\n\tcall\tprintf\n");
        Some(out)
    } else if *tipe == Type::Integer || *tipe == Type::Real || *tipe == Type::Char || *tipe
        == Type::Stryng {
        let format = if *tipe == Type::Integer {
            "%ld"
        } else if *tipe == Type::Real {
            "%lf"
        } else if *tipe == Type::Char {
            "%c"
        } else {
            "%s"
        };
        let directive = string_directive(format, new_line);
        let label = request_label(label_idx, rodata, directive.as_str());
        let mut out = String::new();
        if *tipe == Type::Real {
            push_printf(&mut out, "", label, "1");
        } else if *tipe == Type::Char {
            push_printf(&mut out, "\tmovb\t%al, %sil\n", label, "0");
        } else {
            push_printf(&mut out, "\tmovq\t%rax, %rsi\n", label, "0");
        }
        proof {
            reveal_strlit("");
        }
        Some(out)
    } else {
        None
    }
}

/// The address of element `%<index>` (scaled by `scale`) of the array whose
/// slot is at `offset`.
pub open spec fn element_text(offset: int, index: Seq<char>, scale: Seq<char>) -> Seq<char> {
    "-"@ + signed_decimal(offset) + "(%rbp, "@ + index + ", "@ + scale + ")"@
}

fn push_element(s: &mut String, offset: i64, index: &str, scale: &str)
    ensures
        final(s)@ == old(s)@ + element_text(offset as int, index@, scale@),
{
    s.append("-");
    push_signed_decimal(s, offset);
    s.append("(%rbp, ");
    s.append(index);
    s.append(", ");
    s.append(scale);
    s.append(")");
}

/// Loading element `%rax` of an array of `element`s at `offset`: bytes for
/// booleans and chars, quad words for integers, string pointers and reals.
pub open spec fn element_load_text(element: Type, offset: int) -> Option<Seq<char>> {
    if element == Type::Boolean || element == Type::Char {
        Some("\tmovq\t%rax, %rdx\n\tmovb\t"@ + element_text(offset, "%rdx"@, "1"@) + ", %al\n"@)
    } else if element == Type::Integer || element == Type::Stryng {
        Some("\tmovq\t%rax, %rdx\n\tmovq\t"@ + element_text(offset, "%rdx"@, "8"@) + ", %rax\n"@)
    } else if element == Type::Real {
        Some("\tmovsd\t"@ + element_text(offset, "%rax"@, "8"@) + ", %xmm0\n"@)
    } else {
        None
    }
}

/// The code that loads an array element once its index is in `%rax`.
pub fn element_load_code(element: &Type, offset: i64) -> (r: Option<String>)
    ensures
        match element_load_text(*element, offset as int) {
            Some(t) => r is Some && r->0@ == t,
            None => r is None,
        },
{
    let mut out = String::new();
    if *element == Type::Boolean || *element == Type::Char {
        out.append("\tmovq\t%rax, %rdx\n\tmovb\t");
        push_element(&mut out, offset, "%rdx", "1");
        out.append(", %al\n");
    } else if *element == Type::Integer || *element == Type::Stryng {
        out.append("\tmovq\t%rax, %rdx\n\tmovq\t");
        push_element(&mut out, offset, "%rdx", "8");
        out.append(", %rax\n");
    } else if *element == Type::Real {
        out.append("\tmovsd\t");
        push_element(&mut out, offset, "%rax", "8");
        out.append(", %xmm0\n");
    } else {
        return None;
    }
    Some(out)
}

/// Storing the value (of type `value`) into element `%rdx` of an array of
/// `element`s at `offset`; an integer stored into a real is converted first.
pub open spec fn element_store_text(element: Type, value: Type, offset: int) -> Option<Seq<char>> {
    if element == Type::Char || element == Type::Boolean {
        Some("\tmovb\t%al, "@ + element_text(offset, "%rdx"@, "1"@) + "\n"@)
    } else if element == Type::Stryng || element == Type::Integer {
        Some("\tmovq\t%rax, "@ + element_text(offset, "%rdx"@, "8"@) + "\n"@)
    } else if element == Type::Real && value == Type::Real {
        Some("\tmovq\t%xmm0, "@ + element_text(offset, "%rdx"@, "8"@) + "\n"@)
    } else if element == Type::Real && value == Type::Integer {
        Some("\tcvtsi2sd %rax, %xmm0\n\tmovq\t%xmm0, "@ + element_text(offset, "%rdx"@, "8"@)
            + "\n"@)
    } else {
        None
    }
}

/// The code that stores an assigned array element once its index is in `%rdx`.
pub fn element_store_code(element: &Type, value: &Type, offset: i64) -> (r: Option<String>)
    ensures
        match element_store_text(*element, *value, offset as int) {
            Some(t) => r is Some && r->0@ == t,
            None => r is None,
        },
{
    let mut out = String::new();
    if *element == Type::Char || *element == Type::Boolean {
        out.append("\tmovb\t%al, ");
        push_element(&mut out, offset, "%rdx", "1");
    } else if *element == Type::Stryng || *element == Type::Integer {
        out.append("\tmovq\t%rax, ");
        push_element(&mut out, offset, "%rdx", "8");
    } else if *element == Type::Real && *value == Type::Real {
        out.append("\tmovq\t%xmm0, ");
        push_element(&mut out, offset, "%rdx", "8");
    } else if *element == Type::Real && *value == Type::Integer {
        out.append("\tcvtsi2sd %rax, %xmm0\n\tmovq\t%xmm0, ");
        push_element(&mut out, offset, "%rdx", "8");
    } else {
        return None;
    }
    out.append("\n");
    Some(out)
}

/// Loading character `%rax` (counted from 1) of the string whose pointer is in
/// the slot at `offset`.
pub open spec fn string_index_text(offset: int) -> Seq<char> {
    "\taddq\t"@ + slot_text(offset) + ", %rax\n\tdecq\t%rax\n\tmovzbl\t(%rax), %eax\n"@
}

/// The code that loads a character of a string once its index is in `%rax`.
pub fn string_index_code(offset: i64) -> (r: String)
    ensures
        r@ == string_index_text(offset as int),
{
    let mut out = String::from_str("\taddq\t");
    push_slot(&mut out, offset);
    out.append(", %rax\n\tdecq\t%rax\n\tmovzbl\t(%rax), %eax\n");
    out
}

/// `NOT` on a runtime value: a boolean in `%al` is flipped, an integer in
/// `%rax` complemented. `None` for other types.
pub open spec fn not_text(t: Type) -> Option<Seq<char>> {
    if t == Type::Boolean {
        Some("\tsubb\t$1, %al\n\tnegb\t%al\n"@)
    } else if t == Type::Integer {
        Some("\tnotq\t%rax\n"@)
    } else {
        None
    }
}

/// The code of `NOT` on a runtime value of type `tipe`.
pub fn not_code(tipe: &Type) -> (r: Option<&'static str>)
    ensures
        match not_text(*tipe) {
            Some(t) => r is Some && r->0@ == t,
            None => r is None,
        },
{
    if *tipe == Type::Boolean {
        Some("\tsubb\t$1, %al\n\tnegb\t%al\n")
    } else if *tipe == Type::Integer {
        Some("\tnotq\t%rax\n")
    } else {
        None
    }
}

/// `NOT` on a constant: booleans flip; integers take the bitwise complement.
pub fn fold_not(a: i64) -> (r: i64)
    ensures
        r == !a,
{
    !a
}

/// A unary minus on a runtime value: integers negated in `%rax`, reals by
/// flipping the sign bit of `%xmm0`; nothing more for a value already in
/// error. `None` for other types.
pub open spec fn negate_text(t: Type) -> Option<Seq<char>> {
    if t == Type::Integer {
        Some("\tnegq\t%rax\n"@)
    } else if t == Type::Real {
        Some("\tmovq\t$0x8000000000000000, %rax\n\tmovq\t%rax, %xmm2\n\txorpd\t%xmm2, %xmm0\n"@)
    } else if t == Type::Undefined {
        Some(Seq::empty())
    } else {
        None
    }
}

/// The code of a unary minus on a runtime value of type `tipe`.
pub fn negate_code(tipe: &Type) -> (r: Option<&'static str>)
    ensures
        match negate_text(*tipe) {
            Some(t) => r is Some && r->0@ == t,
            None => r is None,
        },
{
    proof {
        reveal_strlit("");
    }
    if *tipe == Type::Integer {
        Some("\tnegq\t%rax\n")
    } else if *tipe == Type::Real {
        Some("\tmovq\t$0x8000000000000000, %rax\n\tmovq\t%rax, %xmm2\n\txorpd\t%xmm2, %xmm0\n")
    } else if *tipe == Type::Undefined {
        Some("")
    } else {
        None
    }
}

/// The code a built-in function adds after its argument when that is not
/// constant: `ORD` widens the char in `%al`; `SQRT` calls `sqrt` (converting an
/// integer first); `SQR` multiplies; `ABS` calls `abs` or `fabs`. `None` where
/// the argument's type is not accepted.
pub open spec fn builtin_code_text(name: Seq<u8>, arg: Type) -> Option<Seq<char>> {
    if name == "ORD".spec_bytes() {
        Some("\tcbtw\n\tcwtl\n\tcltq\n"@)
    } else if name == "SQRT".spec_bytes() && arg == Type::Integer {
        Some("\tcvtsi2sd %rax, %xmm0\n\tcall\tsqrt\n"@)
    } else if name == "SQRT".spec_bytes() && arg == Type::Real {
        Some("\tcall\tsqrt\n"@)
    } else if name == "SQR".spec_bytes() && arg == Type::Integer {
        Some("\tmovq\t%rax, %rdx\n\timulq\t%rdx\n"@)
    } else if name == "SQR".spec_bytes() && arg == Type::Real {
        Some("\tmulsd\t%xmm0, %xmm0\n"@)
    } else if name == "ABS".spec_bytes() && arg == Type::Integer {
        Some("\tmovq\t%rax, %rdi\n\tcall\tabs\n"@)
    } else if name == "ABS".spec_bytes() && arg == Type::Real {
        Some("\tcall\tfabs\n"@)
    } else {
        None
    }
}

/// The runtime code of a built-in function on an argument of type `arg`.
pub fn builtin_code(name: &str, arg: &Type) -> (r: Option<&'static str>)
    ensures
        match builtin_code_text(name.spec_bytes(), *arg) {
            Some(t) => r is Some && r->0@ == t,
            None => r is None,
        },
{
    let n = name.as_bytes();
    if token_is(n, "ORD") {
        Some("\tcbtw\n\tcwtl\n\tcltq\n")
    } else if token_is(n, "SQRT") && *arg == Type::Integer {
        Some("\tcvtsi2sd %rax, %xmm0\n\tcall\tsqrt\n")
    } else if token_is(n, "SQRT") && *arg == Type::Real {
        Some("\tcall\tsqrt\n")
    } else if token_is(n, "SQR") && *arg == Type::Integer {
        Some("\tmovq\t%rax, %rdx\n\timulq\t%rdx\n")
    } else if token_is(n, "SQR") && *arg == Type::Real {
        Some("\tmulsd\t%xmm0, %xmm0\n")
    } else if token_is(n, "ABS") && *arg == Type::Integer {
        Some("\tmovq\t%rax, %rdi\n\tcall\tabs\n")
    } else if token_is(n, "ABS") && *arg == Type::Real {
        Some("\tcall\tfabs\n")
    } else {
        None
    }
}

/// Saving `%xmm0` on the stack, and taking it back into `%xmm1`.
pub open spec fn save_xmm0() -> Seq<char> {
    "\tsubq\t$8, %rsp\n\tmovsd\t%xmm0, (%rsp)\n"@
}

pub open spec fn restore_xmm1() -> Seq<char> {
    "\tmovsd\t(%rsp), %xmm1\n\taddq\t$8, %rsp\n"@
}

/// The operands of a multiplicative operator of promoted type `t`: the second
/// operand's code first, kept on the stack while the first one's runs, so that
/// the first ends in `%rax` (or `%xmm0`) and the second in `%rdx` (or `%xmm1`),
/// an integer converted when the result is real.
pub open spec fn multiplicative_operands_text(v1: Seq<char>, v2: Seq<char>, t1: Type, t2: Type, t: Type) -> Seq<char> {
    if t == Type::Real {
        if t1 == Type::Integer {
            v2 + save_xmm0() + v1 + "\tcvtsi2sd %rax, %xmm0\n"@ + restore_xmm1()
        } else if t2 == Type::Integer {
            v2 + "\tpushq\t%rax\n"@ + v1 + "\tpopq\t%rax\n\tcvtsi2sd %rax, %xmm1\n"@
        } else {
            v2 + save_xmm0() + v1 + restore_xmm1()
        }
    } else {
        v2 + "\tpushq\t%rax\n"@ + v1 + "\tpopq\t%rdx\n"@
    }
}

/// The operand code of a multiplicative operator on runtime operands.
pub fn multiplicative_operands(value1: &str, value2: &str, tipe1: &Type, tipe2: &Type, tipe: &Type) -> (r: String)
    ensures
        r@ == multiplicative_operands_text(value1@, value2@, *tipe1, *tipe2, *tipe),
{
    let mut out = String::from_str(value2);
    if *tipe == Type::Real {
        if *tipe1 == Type::Integer {
            out.append("\tsubq\t$8, %rsp\n\tmovsd\t%xmm0, (%rsp)\n");
            out.append(value1);
            out.append("\tcvtsi2sd %rax, %xmm0\n");
            out.append("\tmovsd\t(%rsp), %xmm1\n\taddq\t$8, %rsp\n");
        } else if *tipe2 == Type::Integer {
            out.append("\tpushq\t%rax\n");
            out.append(value1);
            out.append("\tpopq\t%rax\n\tcvtsi2sd %rax, %xmm1\n");
        } else {
            out.append("\tsubq\t$8, %rsp\n\tmovsd\t%xmm0, (%rsp)\n");
            out.append(value1);
            out.append("\tmovsd\t(%rsp), %xmm1\n\taddq\t$8, %rsp\n");
        }
    } else {
        out.append("\tpushq\t%rax\n");
        out.append(value1);
        out.append("\tpopq\t%rdx\n");
    }
    out
}

/// The operands of an additive operator of promoted type `t`, laid out like
/// those of a multiplicative one but for the conversions of integers.
pub open spec fn additive_operands_text(v1: Seq<char>, v2: Seq<char>, t1: Type, t2: Type, t: Type) -> Seq<char> {
    if t == Type::Real {
        if t1 == Type::Integer {
            v2 + "\tpushq\t%rax\n"@ + v1 + "\tpopq\t%rax\n\tcvtsi2sd %rax, %xmm1\n"@
        } else if t2 == Type::Integer {
            v2 + v1 + "\tcvtsi2sd %rax, %xmm1\n"@
        } else {
            v2 + save_xmm0() + v1 + restore_xmm1()
        }
    } else {
        v2 + "\tpushq\t%rax\n"@ + v1 + "\tpopq\t%rdx\n"@
    }
}

/// The operand code of an additive operator on runtime operands.
pub fn additive_operands(value1: &str, value2: &str, tipe1: &Type, tipe2: &Type, tipe: &Type) -> (r: String)
    ensures
        r@ == additive_operands_text(value1@, value2@, *tipe1, *tipe2, *tipe),
{
    let mut out = String::from_str(value2);
    if *tipe == Type::Real {
        if *tipe1 == Type::Integer {
            out.append("\tpushq\t%rax\n");
            out.append(value1);
            out.append("\tpopq\t%rax\n\tcvtsi2sd %rax, %xmm1\n");
        } else if *tipe2 == Type::Integer {
            out.append(value1);
            out.append("\tcvtsi2sd %rax, %xmm1\n");
        } else {
            out.append("\tsubq\t$8, %rsp\n\tmovsd\t%xmm0, (%rsp)\n");
            out.append(value1);
            out.append("\tmovsd\t(%rsp), %xmm1\n\taddq\t$8, %rsp\n");
        }
    } else {
        out.append("\tpushq\t%rax\n");
        out.append(value1);
        out.append("\tpopq\t%rdx\n");
    }
    out
}

/// A comparison of runtime operands of types `t1` and `t2` (promoted to `t`):
/// the first operand saved on the stack while the second runs, `%al` cleared,
/// then `ucomisd` when a real is involved, else `cmpb` for chars or `cmpq` for
/// integers; the flags are left for the relational jump.
pub open spec fn comparison_text(v1: Seq<char>, v2: Seq<char>, t1: Type, t2: Type, t: Type) -> Seq<char> {
    v1 + (if t1 == Type::Real {
        save_xmm0()
    } else {
        "\tpushq\t%rax\n"@
    }) + v2 + (if t1 == Type::Real {
        restore_xmm1() + (if t2 == Type::Integer {
            "\tcvtsi2sd %rax, %xmm0\n"@
        } else {
            Seq::empty()
        }) + "\txorb\t%al, %al\n\tucomisd\t%xmm0, %xmm1\n"@
    } else if t2 == Type::Real {
        "\tpopq\t%rax\n\tcvtsi2sd %rax, %xmm1\n\txorb\t%al, %al\n\tucomisd\t%xmm0, %xmm1\n"@
    } else if t == Type::Char {
        "\tpopq\t%rdx\n\tmovb\t%al, %cl\n\txorb\t%al, %al\n\tcmpb\t%cl, %dl\n"@
    } else if t == Type::Integer {
        "\tpopq\t%rdx\n\tmovq\t%rax, %rcx\n\txorb\t%al, %al\n\tcmpq\t%rcx, %rdx\n"@
    } else {
        Seq::empty()
    })
}

/// The code of a comparison of runtime operands, up to the relational jump.
pub fn comparison_code(value1: &str, value2: &str, tipe1: &Type, tipe2: &Type, tipe: &Type) -> (r: String)
    ensures
        r@ == comparison_text(value1@, value2@, *tipe1, *tipe2, *tipe),
{
    let mut out = String::from_str(value1);
    if *tipe1 == Type::Real {
        out.append("\tsubq\t$8, %rsp\n\tmovsd\t%xmm0, (%rsp)\n");
    } else {
        out.append("\tpushq\t%rax\n");
    }
    out.append(value2);
    if *tipe1 == Type::Real {
        out.append("\tmovsd\t(%rsp), %xmm1\n\taddq\t$8, %rsp\n");
        if *tipe2 == Type::Integer {
            out.append("\tcvtsi2sd %rax, %xmm0\n");
        }
        out.append("\txorb\t%al, %al\n\tucomisd\t%xmm0, %xmm1\n");
    } else if *tipe2 == Type::Real {
        out.append("\tpopq\t%rax\n\tcvtsi2sd %rax, %xmm1\n\txorb\t%al, %al\n\tucomisd\t%xmm0, %xmm1\n");
    } else if *tipe == Type::Char {
        out.append("\tpopq\t%rdx\n\tmovb\t%al, %cl\n\txorb\t%al, %al\n\tcmpb\t%cl, %dl\n");
    } else if *tipe == Type::Integer {
        out.append("\tpopq\t%rdx\n\tmovq\t%rax, %rcx\n\txorb\t%al, %al\n\tcmpq\t%rcx, %rdx\n");
    }
    proof {
        reveal_strlit("");
    }
    out
}

} // verus!
