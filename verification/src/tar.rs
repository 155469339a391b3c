//! Tar records: numeric fields, headers, checksums and extended-header lines.
use crate::arith::{padding_to_512, tar_padding};
use crate::bytes::{
    append, decimal, decimal_digits, decimal_reads_back, digits_value, fixed_digits,
    fixed_digits_len, fixed_digits_read_back, overlay, overwrite, to_bytes, zero_vec, zeros,
};
use crate::errors::{bytes_agree, FormatError};
use vstd::arithmetic::power::pow;
use vstd::prelude::*;

verus! {

// ---------------------------------------------------------------------------------------------
// Octal fields
// ---------------------------------------------------------------------------------------------

/// Whether a field of `len` bytes holds a number in octal digits and a closing zero byte.
pub open spec fn octal_fits(len: nat, value: int) -> bool {
    len >= 2 && value < pow(8, (len - 1) as nat)
}

/// A numeric field: octal digits, highest first, and a zero byte.
pub open spec fn octal_field(len: nat, value: int) -> Seq<u8> {
    fixed_digits(value, 8, (len - 1) as nat).push(0u8)
}

/// A numeric field that fits reads back as the number written into it.
pub proof fn octal_field_reads_back(len: nat, value: int)
    requires
        octal_fits(len, value),
        value >= 0,
    ensures
        octal_field(len, value).len() == len,
        digits_value(octal_field(len, value).drop_last(), 8) == value,
{
    fixed_digits_len(value, 8, (len - 1) as nat);
    fixed_digits_read_back(value, 8, (len - 1) as nat);
    assert(octal_field(len, value).drop_last() =~= fixed_digits(value, 8, (len - 1) as nat));
}

pub fn tar_octal_fits(field_len: usize, value: u64) -> (r: bool)
    ensures
        r == octal_fits(field_len as nat, value as int),
{
    if field_len < 2 {
        return false;
    }
    let digits: usize = field_len - 1;
    let mut rest: u64 = value;
    let mut k: usize = 0;
    proof {
        reveal(pow);
        assert(value as int / 1 == value);
    }
    while k < digits && rest > 0
        invariant
            k <= digits,
            rest == value as int / pow(8, k as nat),
        decreases digits - k,
    {
        proof {
            vstd::arithmetic::power::lemma_pow_positive(8, k as nat);
            vstd::arithmetic::div_mod::lemma_div_denominator(value as int, pow(8, k as nat), 8);
            assert(pow(8, (k + 1) as nat) == pow(8, k as nat) * 8) by {
                reveal(pow);
                assert(8 * pow(8, k as nat) == pow(8, k as nat) * 8) by (nonlinear_arith);
            }
        }
        rest = rest / 8;
        k = k + 1;
    }
    proof {
        vstd::arithmetic::power::lemma_pow_positive(8, k as nat);
        vstd::arithmetic::div_mod::lemma_fundamental_div_mod(value as int, pow(8, k as nat));
        vstd::arithmetic::div_mod::lemma_mod_bound(value as int, pow(8, k as nat));
        let p = pow(8, k as nat);
        if rest == 0 {
            assert(p * 0 == 0);
            vstd::arithmetic::power::lemma_pow_increases(8, k as nat, digits as nat);
        } else {
            assert(value >= p) by (nonlinear_arith)
                requires
                    value == p * rest + value as int % p,
                    value as int % p >= 0,
                    rest >= 1,
                    p > 0,
            ;
        }
    }
    rest == 0
}

/// `n` octal digits of a number.
pub fn octal_digits(value: u64, n: usize) -> (r: Vec<u8>)
    ensures
        r@ == fixed_digits(value as int, 8, n as nat),
    decreases n,
{
    if n == 0 {
        let out: Vec<u8> = Vec::new();
        assert(out@ =~= fixed_digits(value as int, 8, 0));
        out
    } else {
        let mut out: Vec<u8> = octal_digits(value / 8, n - 1);
        out.push(48 + (value % 8) as u8);
        out
    }
}

/// Writes a numeric field of `len` bytes at `at`, or leaves the header alone where it does not fit.
pub fn write_tar_octal(header: &mut Vec<u8>, at: usize, len: usize, value: u64) -> (r: Result<
    (),
    FormatError,
>)
    requires
        at + len <= old(header)@.len(),
    ensures
        r == (if octal_fits(len as nat, value as int) {
            Ok(())
        } else {
            Err(FormatError::WriterUnsupported("tar octal field overflow"))
        }),
        final(header)@ == (if octal_fits(len as nat, value as int) {
            overlay(old(header)@, at as int, octal_field(len as nat, value as int))
        } else {
            old(header)@
        }),
{
    if !tar_octal_fits(len, value) {
        return Err(FormatError::WriterUnsupported("tar octal field overflow"));
    }
    let mut field: Vec<u8> = octal_digits(value, len - 1);
    field.push(0);
    proof {
        fixed_digits_len(value as int, 8, (len - 1) as nat);
    }
    overwrite(header, at, field.as_slice());
    Ok(())
}

// ---------------------------------------------------------------------------------------------
// Checksums
// ---------------------------------------------------------------------------------------------

/// Sum of the bytes of a record.
pub open spec fn byte_sum(s: Seq<u8>) -> int
    decreases s.len(),
{
    if s.len() == 0 {
        0
    } else {
        byte_sum(s.drop_last()) + s.last()
    }
}

/// The checksum field: six octal digits, a zero byte and a space.
pub open spec fn checksum_field(sum: int) -> Seq<u8> {
    fixed_digits(sum, 8, 6).push(0u8).push(32u8)
}

/// A header whose checksum field counts as spaces.
pub open spec fn blank_checksum(header: Seq<u8>) -> Seq<u8> {
    overlay(header, 148, seq![32u8, 32u8, 32u8, 32u8, 32u8, 32u8, 32u8, 32u8])
}

/// A header with its checksum filled in.
pub open spec fn with_checksum(header: Seq<u8>) -> Seq<u8> {
    overlay(blank_checksum(header), 148, checksum_field(byte_sum(blank_checksum(header))))
}

pub(crate) proof fn byte_sum_bound(s: Seq<u8>)
    ensures
        0 <= byte_sum(s) <= 255 * s.len(),
    decreases s.len(),
{
    if s.len() > 0 {
        byte_sum_bound(s.drop_last());
    }
}

pub(crate) proof fn six_octal_digits()
    ensures
        pow(8, 6) == 262144,
{
    reveal_with_fuel(pow, 7);
}

pub fn sum_bytes(s: &[u8]) -> (r: u64)
    requires
        s@.len() <= 512,
    ensures
        r == byte_sum(s@),
{
    let mut sum: u64 = 0;
    let mut i: usize = 0;
    assert(s@.take(0) =~= Seq::empty());
    while i < s.len()
        invariant
            i <= s.len(),
            s@.len() <= 512,
            sum == byte_sum(s@.take(i as int)),
            sum <= 255 * i,
        decreases s.len() - i,
    {
        assert(s@.take(i + 1).drop_last() =~= s@.take(i as int));
        sum = sum + s[i] as u64;
        i = i + 1;
    }
    assert(s@.take(i as int) =~= s@);
    sum
}

/// Writes a checksum field at `at`.
pub fn write_tar_checksum(header: &mut Vec<u8>, at: usize, value: u64) -> (r: Result<
    (),
    FormatError,
>)
    requires
        at + 8 <= old(header)@.len(),
    ensures
        r == (if value < pow(8, 6) {
            Ok(())
        } else {
            Err(FormatError::WriterUnsupported("tar checksum field overflow"))
        }),
        final(header)@ == (if value < pow(8, 6) {
            overlay(old(header)@, at as int, checksum_field(value as int))
        } else {
            old(header)@
        }),
{
    proof {
        six_octal_digits();
    }
    if value >= 262144 {
        return Err(FormatError::WriterUnsupported("tar checksum field overflow"));
    }
    let mut field: Vec<u8> = octal_digits(value, 6);
    field.push(0);
    field.push(32);
    proof {
        fixed_digits_len(value as int, 8, 6);
    }
    overwrite(header, at, field.as_slice());
    Ok(())
}

/// Fills in the checksum of a header record.
pub fn finalize_tar_checksum(header: &mut Vec<u8>) -> (r: Result<(), FormatError>)
    requires
        old(header)@.len() == 512,
    ensures
        r == Ok::<(), FormatError>(()),
        final(header)@ == with_checksum(old(header)@),
        final(header)@.len() == 512,
{
    let spaces: [u8; 8] = [32, 32, 32, 32, 32, 32, 32, 32];
    overwrite(header, 148, spaces.as_slice());
    proof {
        assert(spaces@ =~= seq![32u8, 32u8, 32u8, 32u8, 32u8, 32u8, 32u8, 32u8]);
        byte_sum_bound(header@);
        six_octal_digits();
    }
    let checksum: u64 = sum_bytes(header.as_slice());
    write_tar_checksum(header, 148, checksum)
}

// ---------------------------------------------------------------------------------------------
// Headers
// ---------------------------------------------------------------------------------------------

/// The magic and version of a ustar header: `ustar`, a zero byte and two zeros in ASCII.
pub open spec fn ustar_magic() -> Seq<u8> {
    seq![117u8, 115u8, 116u8, 97u8, 114u8, 0u8, 48u8, 48u8]
}

/// A ustar header before its checksum is filled in.
pub open spec fn ustar_fields(path: Seq<u8>, size: int, mode: int, mtime: int, typeflag: u8) -> Seq<
    u8,
> {
    let named = overlay(zeros(512), 0, path);
    let moded = overlay(named, 100, octal_field(8, mode));
    let owned = overlay(overlay(moded, 108, octal_field(8, 0)), 116, octal_field(8, 0));
    let sized = overlay(owned, 124, octal_field(12, size));
    let timed = overlay(sized, 136, octal_field(12, mtime));
    let typed = overlay(timed, 156, seq![typeflag]);
    overlay(typed, 257, ustar_magic())
}

pub open spec fn ustar_header_outcome(
    path: Seq<u8>,
    size: int,
    mode: int,
    mtime: int,
    typeflag: u8,
) -> Result<Seq<u8>, FormatError> {
    if path.len() > 100 {
        Err(FormatError::WriterUnsupported("ustar path exceeds name field"))
    } else if !octal_fits(8, mode) || !octal_fits(12, size) || !octal_fits(12, mtime) {
        Err(FormatError::WriterUnsupported("tar octal field overflow"))
    } else {
        Ok(with_checksum(ustar_fields(path, size, mode, mtime, typeflag)))
    }
}

/// A ustar header for a member without an owner.
#[verifier::rlimit(40)]
pub fn build_ustar_header(path: &[u8], size: u64, mode: u32, mtime: u64, typeflag: u8) -> (r:
    Result<Vec<u8>, FormatError>)
    ensures
        bytes_agree(
            r,
            ustar_header_outcome(path@, size as int, mode as int, mtime as int, typeflag),
        ),
        r matches Ok(header) ==> header@.len() == 512,
{
    if path.len() > 100 {
        return Err(FormatError::WriterUnsupported("ustar path exceeds name field"));
    }
    proof {
        reveal_with_fuel(pow, 8);
    }
    let mut header: Vec<u8> = zero_vec(512);
    overwrite(&mut header, 0, path);
    write_tar_octal(&mut header, 100, 8, mode as u64)?;
    write_tar_octal(&mut header, 108, 8, 0)?;
    write_tar_octal(&mut header, 116, 8, 0)?;
    write_tar_octal(&mut header, 124, 12, size)?;
    write_tar_octal(&mut header, 136, 12, mtime)?;
    let kind: [u8; 1] = [typeflag];
    overwrite(&mut header, 156, kind.as_slice());
    let magic: [u8; 8] = [117, 115, 116, 97, 114, 0, 48, 48];
    overwrite(&mut header, 257, magic.as_slice());
    proof {
        assert(kind@ =~= seq![typeflag]);
        assert(magic@ =~= ustar_magic());
        assert(header@ == ustar_fields(
            path@,
            size as int,
            mode as int,
            mtime as int,
            typeflag,
        ));
    }
    finalize_tar_checksum(&mut header)?;
    Ok(header)
}

/// A finished header still carries its name, its numeric fields and its type: the checksum covers
/// them without touching them.
#[verifier::rlimit(60)]
pub proof fn ustar_header_keeps_its_fields(
    path: Seq<u8>,
    size: int,
    mode: int,
    mtime: int,
    typeflag: u8,
)
    requires
        path.len() <= 100,
        size >= 0,
        mode >= 0,
        mtime >= 0,
    ensures
        ustar_header_outcome(path, size, mode, mtime, typeflag) matches Ok(header) ==> {
            &&& header.len() == 512
            &&& header.subrange(0, path.len() as int) == path
            &&& digits_value(header.subrange(100, 107), 8) == mode
            &&& digits_value(header.subrange(124, 135), 8) == size
            &&& digits_value(header.subrange(136, 147), 8) == mtime
            &&& header[156] == typeflag
        },
{
    if let Ok(header) = ustar_header_outcome(path, size, mode, mtime, typeflag) {
        octal_field_reads_back(8, mode);
        octal_field_reads_back(12, size);
        octal_field_reads_back(12, mtime);
        fixed_digits_len(0, 8, 7);
        let fields = ustar_fields(path, size, mode, mtime, typeflag);
        fixed_digits_len(byte_sum(blank_checksum(fields)), 8, 6);
        assert(header.subrange(0, path.len() as int) =~= path);
        assert(header.subrange(100, 107) =~= octal_field(8, mode).drop_last());
        assert(header.subrange(124, 135) =~= octal_field(12, size).drop_last());
        assert(header.subrange(136, 147) =~= octal_field(12, mtime).drop_last());
    }
}

// ---------------------------------------------------------------------------------------------
// Extended headers
// ---------------------------------------------------------------------------------------------

/// A line of an extended header: its own length, the key and the value.
pub open spec fn pax_line(len: nat, key: Seq<u8>, value: Seq<u8>) -> Seq<u8> {
    decimal(len) + seq![32u8] + key + seq![61u8] + value + seq![10u8]
}

/// Whether `len` is the length of a line that states `len` and has `body` bytes behind the space.
pub open spec fn is_pax_len(len: int, body: int) -> bool {
    len >= 0 && len == decimal(len as nat).len() + 1 + body
}

/// The shortest length that a line can state of itself.
pub open spec fn is_least_pax_len(len: int, body: int) -> bool {
    is_pax_len(len, body) && forall|m: int| #[trigger] is_pax_len(m, body) ==> len <= m
}

pub open spec fn least_pax_len(body: int) -> int {
    choose|len: int| is_least_pax_len(len, body)
}

pub open spec fn pax_body_len(key: Seq<u8>, value: Seq<u8>) -> int {
    (key.len() + 1 + value.len() + 1) as int
}

pub open spec fn pax_record_outcome(key: Seq<u8>, value: Seq<u8>) -> Result<Seq<u8>, FormatError> {
    let body = pax_body_len(key, value);
    if exists|len: int| is_least_pax_len(len, body) && len <= usize::MAX {
        Ok(pax_line(least_pax_len(body) as nat, key, value))
    } else {
        Err(FormatError::WriterUnsupported("PAX record"))
    }
}

proof fn decimal_len_is_monotone(m: nat, n: nat)
    requires
        m <= n,
    ensures
        1 <= decimal(m).len() <= decimal(n).len(),
    decreases n,
{
    if n >= 10 {
        if m >= 10 {
            decimal_len_is_monotone(m / 10, n / 10);
        } else {
            decimal_reads_back(n / 10);
        }
    }
}

/// A line states its own length.
pub proof fn pax_line_states_its_length(key: Seq<u8>, value: Seq<u8>)
    ensures
        pax_record_outcome(key, value) matches Ok(line) ==> line
            == pax_line(line.len(), key, value),
{
    let body = pax_body_len(key, value);
    if pax_record_outcome(key, value) is Ok {
        assert(is_least_pax_len(least_pax_len(body), body));
    }
}

/// One line of an extended header, which counts its own length.
pub fn build_pax_record(key: &[u8], value: &[u8]) -> (r: Result<Vec<u8>, FormatError>)
    ensures
        bytes_agree(r, pax_record_outcome(key@, value@)),
{
    let ghost body = pax_body_len(key@, value@);
    let failure: FormatError = FormatError::WriterUnsupported("PAX record");
    proof {
        assert forall|n: int| #[trigger] is_pax_len(n, body) implies n >= body + 2 by {
            decimal_len_is_monotone(n as nat, n as nat);
        }
    }
    let body_len: usize = match key.len().checked_add(1) {
        Some(len) => match len.checked_add(value.len()) {
            Some(len) => match len.checked_add(1) {
                Some(len) => len,
                None => {
                    return Err(failure);
                },
            },
            None => {
                return Err(failure);
            },
        },
        None => {
            return Err(failure);
        },
    };
    let mut digits: usize = 1;
    proof {
        assert forall|n: int| #[trigger] is_pax_len(n, body) implies decimal(n as nat).len()
            >= 1 by {
            decimal_len_is_monotone(n as nat, n as nat);
        }
        decimal_len_is_monotone((1 + 1 + body) as nat, (1 + 1 + body) as nat);
    }
    loop
        invariant
            body_len == body,
            body == pax_body_len(key@, value@),
            failure == FormatError::WriterUnsupported("PAX record"),
            1 <= digits,
            digits <= decimal((digits + 1 + body) as nat).len(),
            forall|n: int| #[trigger] is_pax_len(n, body) ==> decimal(n as nat).len() >= digits,
        decreases usize::MAX - digits,
    {
        let len: usize = match digits.checked_add(1) {
            Some(len) => match len.checked_add(body_len) {
                Some(len) => len,
                None => {
                    return Err(failure);
                },
            },
            None => {
                return Err(failure);
            },
        };
        let mut out: Vec<u8> = decimal_digits(len as u64);
        let next_digits: usize = out.len();
        proof {
            assert forall|n: int| #[trigger] is_pax_len(n, body) implies decimal(n as nat).len()
                >= next_digits && n >= len by {
                decimal_len_is_monotone(len as nat, n as nat);
            }
        }
        if next_digits == digits {
            proof {
                assert(is_pax_len(len as int, body));
                assert(is_least_pax_len(len as int, body));
                assert(least_pax_len(body) == len);
            }
            out.push(32);
            append(&mut out, key);
            out.push(61);
            append(&mut out, value);
            out.push(10);
            assert(out@ =~= pax_line(len as nat, key@, value@));
            return Ok(out);
        }
        proof {
            decimal_len_is_monotone(len as nat, (next_digits + 1 + body) as nat);
        }
        digits = next_digits;
    }
}

/// Whether a member name needs an extended header.
pub fn path_requires_pax(path: &[u8]) -> (r: bool)
    ensures
        r == (path@.len() > 100),
{
    path.len() > 100
}

// ---------------------------------------------------------------------------------------------
// Plain members: a header, at most preceded by an extended header that carries the name
// ---------------------------------------------------------------------------------------------

pub open spec fn all_ascii(s: Seq<u8>) -> bool {
    forall|i: int| 0 <= i < s.len() ==> #[trigger] s[i] < 128
}

pub fn is_ascii(s: &[u8]) -> (r: bool)
    ensures
        r == all_ascii(s@),
{
    let mut i: usize = 0;
    while i < s.len()
        invariant
            i <= s.len(),
            forall|k: int| 0 <= k < i ==> #[trigger] s@[k] < 128,
        decreases s.len() - i,
    {
        if s[i] >= 128 {
            return false;
        }
        i = i + 1;
    }
    true
}

/// Where the last component of a path starts: behind its last slash.
pub open spec fn last_component_start(path: Seq<u8>) -> int
    decreases path.len(),
{
    if path.len() == 0 {
        0
    } else if path.last() == 47u8 {
        path.len() as int
    } else {
        last_component_start(path.drop_last())
    }
}

/// `pax-file` in ASCII.
pub open spec fn pax_file_name() -> Seq<u8> {
    seq![112u8, 97u8, 120u8, 45u8, 102u8, 105u8, 108u8, 101u8]
}

/// The name that a header carries where an extended header carries the real one.
pub open spec fn fallback_path(path: Seq<u8>) -> Seq<u8> {
    let component = path.skip(last_component_start(path));
    if 0 < component.len() <= 100 && all_ascii(component) {
        component
    } else {
        pax_file_name()
    }
}

pub fn pax_ustar_fallback_path(path: &[u8]) -> (r: Vec<u8>)
    ensures
        r@ == fallback_path(path@),
        r@.len() <= 100,
{
    let mut start: usize = path.len();
    assert(path@.take(start as int) =~= path@);
    while start > 0 && path[start - 1] != 47
        invariant
            start <= path.len(),
            last_component_start(path@.take(start as int)) == last_component_start(path@),
        decreases start,
    {
        assert(path@.take(start as int).drop_last() =~= path@.take(start - 1));
        start = start - 1;
    }
    let component: &[u8] = vstd::slice::slice_subrange(path, start, path.len());
    assert(component@ =~= path@.skip(start as int));
    if 0 < component.len() && component.len() <= 100 && is_ascii(component) {
        to_bytes(component)
    } else {
        let name: [u8; 8] = [112, 97, 120, 45, 102, 105, 108, 101];
        assert(name@ =~= pax_file_name());
        to_bytes(name.as_slice())
    }
}

/// Whether a plain member carries its name in an extended header.
pub open spec fn plain_name_needs_pax(path: Seq<u8>) -> bool {
    path.len() > 100 || !all_ascii(path)
}

/// `path` in ASCII.
pub open spec fn path_key() -> Seq<u8> {
    seq![112u8, 97u8, 116u8, 104u8]
}

/// `PaxHeaders/path` in ASCII.
pub open spec fn pax_header_name() -> Seq<u8> {
    seq![
        80u8,
        97u8,
        120u8,
        72u8,
        101u8,
        97u8,
        100u8,
        101u8,
        114u8,
        115u8,
        47u8,
        112u8,
        97u8,
        116u8,
        104u8,
    ]
}

/// The records before the content of a plain member.
pub open spec fn plain_member_prefix(path: Seq<u8>, size: int, mode: int, mtime: int) -> Result<
    Seq<u8>,
    FormatError,
> {
    if plain_name_needs_pax(path) {
        match pax_record_outcome(path_key(), path) {
            Err(e) => Err(e),
            Ok(line) => match ustar_header_outcome(
                pax_header_name(),
                line.len() as int,
                0o644,
                mtime,
                120u8,
            ) {
                Err(e) => Err(e),
                Ok(extended) => match ustar_header_outcome(
                    fallback_path(path),
                    size,
                    mode,
                    mtime,
                    48u8,
                ) {
                    Err(e) => Err(e),
                    Ok(header) => Ok(
                        extended + line + zeros(tar_padding(line.len() as int)) + header,
                    ),
                },
            },
        }
    } else {
        ustar_header_outcome(path, size, mode, mtime, 48u8)
    }
}

/// The records before the content of a regular file that carries no metadata but its mode and its
/// modification time in whole seconds.
pub fn build_plain_member_prefix(path: &[u8], file_size: u64, mode: u32, mtime: u64) -> (r: Result<
    Vec<u8>,
    FormatError,
>)
    ensures
        bytes_agree(r, plain_member_prefix(path@, file_size as int, mode as int, mtime as int)),
{
    if path.len() > 100 || !is_ascii(path) {
        let key: [u8; 4] = [112, 97, 116, 104];
        assert(key@ =~= path_key());
        let line: Vec<u8> = build_pax_record(key.as_slice(), path)?;
        let name: [u8; 15] = [
            80,
            97,
            120,
            72,
            101,
            97,
            100,
            101,
            114,
            115,
            47,
            112,
            97,
            116,
            104,
        ];
        assert(name@ =~= pax_header_name());
        let mut out: Vec<u8> = build_ustar_header(
            name.as_slice(),
            line.len() as u64,
            0o644,
            mtime,
            120,
        )?;
        let header_path: Vec<u8> = pax_ustar_fallback_path(path);
        let header: Vec<u8> = build_ustar_header(
            header_path.as_slice(),
            file_size,
            mode,
            mtime,
            48,
        )?;
        append(&mut out, line.as_slice());
        let padding: Vec<u8> = zero_vec(padding_to_512(line.len()));
        append(&mut out, padding.as_slice());
        append(&mut out, header.as_slice());
        Ok(out)
    } else {
        build_ustar_header(path, file_size, mode, mtime, 48)
    }
}

/// A plain member: its records, its content and the padding that completes the last record.
pub open spec fn plain_member_group(path: Seq<u8>, content: Seq<u8>, mode: int, mtime: int) -> Result<
    Seq<u8>,
    FormatError,
> {
    match plain_member_prefix(path, content.len() as int, mode, mtime) {
        Err(e) => Err(e),
        Ok(prefix) => Ok(prefix + content + zeros(tar_padding(content.len() as int))),
    }
}

pub fn build_plain_member_group(path: &[u8], contents: &[u8], mode: u32, mtime: u64) -> (r: Result<
    Vec<u8>,
    FormatError,
>)
    ensures
        bytes_agree(r, plain_member_group(path@, contents@, mode as int, mtime as int)),
{
    let mut out: Vec<u8> = build_plain_member_prefix(path, contents.len() as u64, mode, mtime)?;
    append(&mut out, contents);
    let padding: Vec<u8> = zero_vec(padding_to_512(contents.len()));
    append(&mut out, padding.as_slice());
    Ok(out)
}

/// Plain members consist of whole records.
pub proof fn plain_member_group_is_whole_records(
    path: Seq<u8>,
    content: Seq<u8>,
    mode: int,
    mtime: int,
)
    ensures
        plain_member_group(path, content, mode, mtime) matches Ok(group) ==> group.len() % 512 == 0,
{
    if let Ok(prefix) = plain_member_prefix(path, content.len() as int, mode, mtime) {
        crate::arith::tar_padding_fills_the_last_record(content.len() as int);
        if let Ok(line) = pax_record_outcome(path_key(), path) {
            crate::arith::tar_padding_fills_the_last_record(line.len() as int);
        }
        assert(prefix.len() % 512 == 0);
    }
}

} // verus!
