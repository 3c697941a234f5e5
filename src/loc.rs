//! Source positions.
use vstd::prelude::*;
use vstd::string::StringSliceAdditionalSpecFns;

verus! {

/// The number of newline bytes among the first `k` bytes of `b`.
pub open spec fn newlines_before(b: Seq<u8>, k: int) -> nat
    decreases k,
{
    if k <= 0 || b.len() == 0 {
        0
    } else if k > b.len() {
        newlines_before(b, b.len() as int)
    } else {
        newlines_before(b, k - 1) + if b[k - 1] == 10u8 {
            1nat
        } else {
            0nat
        }
    }
}

/// The 1-based line on which byte `offset` of `input` stands: one more than
/// the number of newlines before it. An offset past the end counts every
/// newline. (A newline byte never occurs inside a longer UTF-8 character.)
pub fn line_from_offset(input: &str, offset: usize) -> (r: usize)
    requires
        input.spec_bytes().len() < usize::MAX,
    ensures
        r == 1 + newlines_before(input.spec_bytes(), offset as int),
{
    let bytes = input.as_bytes();
    let n = bytes.len();
    let end = if offset < n {
        offset
    } else {
        n
    };
    let mut line: usize = 1;
    let mut i: usize = 0;
    while i < end
        invariant
            bytes@ == input.spec_bytes(),
            n == bytes@.len(),
            n < usize::MAX,
            end <= n,
            i <= end,
            line == 1 + newlines_before(bytes@, i as int),
            newlines_before(bytes@, i as int) <= i,
        decreases end - i,
    {
        if bytes[i] == 10u8 {
            line = line + 1;
        }
        i = i + 1;
    }
    proof {
        if offset > n {
            assert(newlines_before(bytes@, offset as int) == newlines_before(bytes@, n as int));
        }
    }
    line
}


/// Whether byte `b` continues a multi-byte UTF-8 character.
pub open spec fn is_continuation(b: u8) -> bool {
    0x80u8 <= b < 0xC0u8
}

/// The 1-based line and column after the first `k` bytes of `b`: a newline
/// starts a new line at column 1; every other character moves one column.
pub open spec fn line_col(b: Seq<u8>, k: int) -> (int, int)
    decreases k,
{
    if k <= 0 || b.len() == 0 {
        (1, 1)
    } else if k > b.len() {
        line_col(b, b.len() as int)
    } else {
        let (l, c) = line_col(b, k - 1);
        if b[k - 1] == 10u8 {
            (l + 1, 1)
        } else if is_continuation(b[k - 1]) {
            (l, c)
        } else {
            (l, c + 1)
        }
    }
}

/// The 1-based line and column of byte `offset` of `input`, counting
/// characters; an offset past the end gives the position after the last
/// character.
pub fn offset_to_line_col(input: &str, offset: usize) -> (r: (usize, usize))
    requires
        input.spec_bytes().len() < usize::MAX,
    ensures
        (r.0 as int, r.1 as int) == line_col(input.spec_bytes(), offset as int),
{
    let bytes = input.as_bytes();
    let n = bytes.len();
    let end = if offset < n {
        offset
    } else {
        n
    };
    let mut line: usize = 1;
    let mut col: usize = 1;
    let mut i: usize = 0;
    while i < end
        invariant
            bytes@ == input.spec_bytes(),
            n == bytes@.len(),
            n < usize::MAX,
            end <= n,
            i <= end,
            (line as int, col as int) == line_col(bytes@, i as int),
            1 <= line <= i + 1,
            1 <= col <= i + 1,
        decreases end - i,
    {
        let b = bytes[i];
        if b == 10u8 {
            line = line + 1;
            col = 1;
        } else if 0x80u8 <= b && b < 0xC0u8 {
        } else {
            col = col + 1;
        }
        i = i + 1;
    }
    proof {
        if offset > n {
            assert(line_col(bytes@, offset as int) == line_col(bytes@, n as int));
        }
    }
    (line, col)
}

} // verus!
