//! Checked arithmetic on sizes and offsets.
use crate::errors::FormatError;
use crate::format::TAR_BLOCK_LEN;
use vstd::prelude::*;

verus! {

/// `n / d`, rounded up.
pub open spec fn spec_ceil_div(n: int, d: int) -> int {
    (n + d - 1) / d
}

/// Outcome of a computation whose exact value is `v` and which has to fit below `max`.
pub open spec fn fit_u64(v: int, field: &'static str) -> Result<u64, FormatError> {
    if v <= u64::MAX {
        Ok(v as u64)
    } else {
        Err(FormatError::WriterUnsupported(field))
    }
}

pub open spec fn fit_usize(v: int, field: &'static str) -> Result<usize, FormatError> {
    if v <= usize::MAX {
        Ok(v as usize)
    } else {
        Err(FormatError::WriterUnsupported(field))
    }
}

pub open spec fn fit_u32(v: int, field: &'static str) -> Result<u32, FormatError> {
    if v <= u32::MAX {
        Ok(v as u32)
    } else {
        Err(FormatError::WriterUnsupported(field))
    }
}

pub fn checked_u64_add(lhs: u64, rhs: u64, field: &'static str) -> (r: Result<u64, FormatError>)
    ensures
        r == fit_u64(lhs + rhs, field),
{
    match lhs.checked_add(rhs) {
        Some(value) => Ok(value),
        None => Err(FormatError::WriterUnsupported(field)),
    }
}

pub fn checked_u64_mul(lhs: u64, rhs: u64, field: &'static str) -> (r: Result<u64, FormatError>)
    ensures
        r == fit_u64(lhs * rhs, field),
{
    match lhs.checked_mul(rhs) {
        Some(value) => Ok(value),
        None => Err(FormatError::WriterUnsupported(field)),
    }
}

pub fn checked_usize_add(lhs: usize, rhs: usize, field: &'static str) -> (r: Result<
    usize,
    FormatError,
>)
    ensures
        r == fit_usize(lhs + rhs, field),
{
    match lhs.checked_add(rhs) {
        Some(value) => Ok(value),
        None => Err(FormatError::WriterUnsupported(field)),
    }
}

pub fn u32_len(value: usize, field: &'static str) -> (r: Result<u32, FormatError>)
    ensures
        r == fit_u32(value as int, field),
{
    if value as u64 <= u32::MAX as u64 {
        Ok(value as u32)
    } else {
        Err(FormatError::WriterUnsupported(field))
    }
}

pub fn to_usize_writer(value: u64, field: &'static str) -> (r: Result<usize, FormatError>)
    ensures
        r == fit_usize(value as int, field),
{
    if value <= usize::MAX as u64 {
        Ok(value as usize)
    } else {
        Err(FormatError::WriterUnsupported(field))
    }
}

/// `numerator / denominator`, rounded up.
pub open spec fn ceil_div_outcome(numerator: int, denominator: int) -> Result<u64, FormatError> {
    if denominator == 0 {
        Err(FormatError::WriterUnsupported("division by zero"))
    } else if numerator + denominator - 1 > u64::MAX {
        Err(FormatError::WriterUnsupported("ceiling division overflow"))
    } else {
        Ok(spec_ceil_div(numerator, denominator) as u64)
    }
}

pub fn ceil_div(numerator: u64, denominator: u64) -> (r: Result<u64, FormatError>)
    ensures
        r == ceil_div_outcome(numerator as int, denominator as int),
{
    if denominator == 0 {
        return Err(FormatError::WriterUnsupported("division by zero"));
    }
    match numerator.checked_add(denominator - 1) {
        Some(value) => Ok(value / denominator),
        None => Err(FormatError::WriterUnsupported("ceiling division overflow")),
    }
}

/// A rounded-up quotient is the least whole number of groups of `d` that holds `n`.
pub proof fn ceil_div_is_least_cover(n: int, d: int)
    requires
        n >= 0,
        d > 0,
    ensures
        spec_ceil_div(n, d) >= 0,
        spec_ceil_div(n, d) * d >= n,
        forall|k: int| #![trigger k * d] k * d >= n ==> k >= spec_ceil_div(n, d),
        spec_ceil_div(n, d) <= n,
{
    let q = spec_ceil_div(n, d);
    let r = (n + d - 1) % d;
    assert(n + d - 1 == d * q + r && 0 <= r < d) by {
        vstd::arithmetic::div_mod::lemma_fundamental_div_mod(n + d - 1, d);
        vstd::arithmetic::div_mod::lemma_mod_bound(n + d - 1, d);
    }
    assert(d * q == q * d) by (nonlinear_arith);
    assert(q >= 0) by (nonlinear_arith)
        requires
            q * d >= n,
            n >= 0,
            d > 0,
    ;
    assert forall|k: int| #![trigger k * d] k * d >= n implies k >= q by {
        if k < q {
            assert(k * d <= (q - 1) * d) by (nonlinear_arith)
                requires
                    k <= q - 1,
                    d > 0,
            ;
            assert((q - 1) * d == q * d - d) by (nonlinear_arith);
        }
    }
    assert(n * d >= n) by (nonlinear_arith)
        requires
            n >= 0,
            d >= 1,
    ;
}

/// Rounding up keeps the order of its arguments.
pub proof fn ceil_div_is_monotone(m: int, n: int, d: int)
    requires
        m <= n,
        d > 0,
    ensures
        spec_ceil_div(m, d) <= spec_ceil_div(n, d),
{
    vstd::arithmetic::div_mod::lemma_div_is_ordered(m + d - 1, n + d - 1, d);
}

/// Zero bytes that take `len` up to a whole number of tar records.
pub open spec fn tar_padding(len: int) -> int {
    if len % 512 == 0 {
        0
    } else {
        512 - len % 512
    }
}

/// Padded lengths are whole tar records, and no shorter padding gives one.
pub proof fn tar_padding_fills_the_last_record(len: int)
    requires
        len >= 0,
    ensures
        0 <= tar_padding(len) < 512,
        (len + tar_padding(len)) % 512 == 0,
        forall|p: int| 0 <= p < tar_padding(len) ==> #[trigger] ((len + p) % 512) != 0,
{
}

pub fn padding_to_512(len: usize) -> (r: usize)
    ensures
        r == tar_padding(len as int),
{
    let remainder: usize = len % TAR_BLOCK_LEN;
    if remainder == 0 {
        0
    } else {
        TAR_BLOCK_LEN - remainder
    }
}

pub fn padding_to_512_u64(len: u64) -> (r: u64)
    ensures
        r == tar_padding(len as int),
{
    let remainder: u64 = len % 512;
    if remainder == 0 {
        0
    } else {
        512 - remainder
    }
}

/// Offset of a table: zero where the table is empty, else where it starts.
pub open spec fn table_offset_outcome(len: int, cursor: int) -> Result<u32, FormatError> {
    if len == 0 {
        Ok(0u32)
    } else {
        fit_u32(cursor, "table offset")
    }
}

pub fn table_offset(len: usize, cursor: usize) -> (r: Result<u32, FormatError>)
    ensures
        r == table_offset_outcome(len as int, cursor as int),
{
    if len == 0 {
        Ok(0)
    } else {
        u32_len(cursor, "table offset")
    }
}

} // verus!
