//! Where a diagnostic points: the line and column of a byte offset.
use vstd::prelude::*;
use vstd::string::StringSliceAdditionalSpecFns;

verus! {

/// Number of line feeds among the first `n` bytes.
pub open spec fn lines_before(s: Seq<u8>, n: int) -> nat
    decreases n,
{
    if n <= 0 || n > s.len() {
        0
    } else {
        lines_before(s, n - 1) + if s[n - 1] == 10u8 {
            1nat
        } else {
            0nat
        }
    }
}

/// Number of bytes between the last line feed before `n` (or the start) and `n`.
pub open spec fn column_before(s: Seq<u8>, n: int) -> nat
    decreases n,
{
    if n <= 0 || n > s.len() {
        0
    } else if s[n - 1] == 10u8 {
        0
    } else {
        column_before(s, n - 1) + 1
    }
}

/// The 1-based line and column of byte `offset` of `code`: lines are counted
/// by line feeds, columns in bytes from the start of the line.
pub fn line_and_column(code: &str, offset: usize) -> (r: (usize, usize))
    requires
        offset <= code.spec_bytes().len(),
        offset < usize::MAX,
    ensures
        r.0 == lines_before(code.spec_bytes(), offset as int) + 1,
        r.1 == column_before(code.spec_bytes(), offset as int) + 1,
{
    let b = code.as_bytes();
    let mut line: usize = 0;
    let mut column: usize = 0;
    let mut k: usize = 0;
    while k < offset
        invariant
            k <= offset <= b.len(),
            b@ == code.spec_bytes(),
            line == lines_before(b@, k as int),
            column == column_before(b@, k as int),
            line <= k,
            column <= k,
        decreases offset - k,
    {
        if b[k] == 10 {
            line = line + 1;
            column = 0;
        } else {
            column = column + 1;
        }
        k = k + 1;
    }
    (line + 1, column + 1)
}

} // verus!
