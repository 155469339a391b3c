//! Byte strings: building them, writing numbers into them and ordering them.
use vstd::arithmetic::power::pow;
use vstd::prelude::*;

verus! {

/// `n` zero bytes.
pub open spec fn zeros(n: int) -> Seq<u8> {
    Seq::new(n as nat, |i: int| 0u8)
}

/// `s` with the bytes from `at` on replaced by `b`.
pub open spec fn overlay(s: Seq<u8>, at: int, b: Seq<u8>) -> Seq<u8> {
    Seq::new(
        s.len(),
        |i: int|
            if at <= i < at + b.len() {
                b[i - at]
            } else {
                s[i]
            },
    )
}

/// The `n` lowest bytes of a number, lowest first.
pub open spec fn le_bytes(value: int, n: nat) -> Seq<u8>
    decreases n,
{
    if n == 0 {
        Seq::empty()
    } else {
        seq![(value % 256) as u8] + le_bytes(value / 256, (n - 1) as nat)
    }
}

/// A number in decimal digits.
pub open spec fn decimal(value: nat) -> Seq<u8>
    decreases value,
{
    if value < 10 {
        seq![(48 + value) as u8]
    } else {
        decimal(value / 10).push((48 + value % 10) as u8)
    }
}

/// The number that a string of digits of a base stands for.
pub open spec fn digits_value(digits: Seq<u8>, base: int) -> int
    decreases digits.len(),
{
    if digits.len() == 0 {
        0
    } else {
        digits_value(digits.drop_last(), base) * base + (digits.last() - 48)
    }
}

/// `n` digits of a number in a base, highest first.
pub open spec fn fixed_digits(value: int, base: int, n: nat) -> Seq<u8>
    decreases n,
{
    if n == 0 {
        Seq::empty()
    } else {
        fixed_digits(value / base, base, (n - 1) as nat).push((48 + value % base) as u8)
    }
}

/// Whether `a` comes before `b` in byte order.
pub open spec fn lex_lt(a: Seq<u8>, b: Seq<u8>) -> bool
    decreases a.len(),
{
    if b.len() == 0 {
        false
    } else if a.len() == 0 {
        true
    } else if a[0] != b[0] {
        a[0] < b[0]
    } else {
        lex_lt(a.skip(1), b.skip(1))
    }
}

pub fn append(out: &mut Vec<u8>, bytes: &[u8])
    ensures
        final(out)@ == old(out)@ + bytes@,
{
    out.extend_from_slice(bytes);
    assert(out@ =~= old(out)@ + bytes@);
}

pub fn append_zeros(out: &mut Vec<u8>, count: usize)
    requires
        old(out)@.len() + count <= usize::MAX,
    ensures
        final(out)@ == old(out)@ + zeros(count as int),
{
    let len: usize = out.len();
    out.resize(len + count, 0u8);
    assert(out@ =~= old(out)@ + zeros(count as int));
}

pub fn zero_vec(count: usize) -> (r: Vec<u8>)
    ensures
        r@ == zeros(count as int),
{
    let v: Vec<u8> = vec![0u8; count];
    assert(v@ =~= zeros(count as int));
    v
}

pub fn overwrite(out: &mut Vec<u8>, at: usize, bytes: &[u8])
    requires
        at + bytes@.len() <= old(out)@.len(),
    ensures
        final(out)@ == overlay(old(out)@, at as int, bytes@),
{
    let total: usize = out.len();
    let mut i: usize = 0;
    while i < bytes.len()
        invariant
            i <= bytes.len(),
            at + bytes@.len() <= total,
            out@.len() == total,
            total == old(out)@.len(),
            out@ == overlay(old(out)@, at as int, bytes@.take(i as int)),
        decreases bytes.len() - i,
    {
        out[at + i] = bytes[i];
        i = i + 1;
        assert(out@ =~= overlay(old(out)@, at as int, bytes@.take(i as int)));
    }
    assert(bytes@.take(i as int) =~= bytes@);
}

pub fn to_bytes(bytes: &[u8]) -> (r: Vec<u8>)
    ensures
        r@ == bytes@,
{
    vstd::slice::slice_to_vec(bytes)
}

pub fn same_bytes(a: &[u8], b: &[u8]) -> (r: bool)
    ensures
        r == (a@ == b@),
{
    if a.len() != b.len() {
        return false;
    }
    let mut i: usize = 0;
    while i < a.len()
        invariant
            i <= a.len(),
            a@.len() == b@.len(),
            forall|k: int| 0 <= k < i ==> a@[k] == b@[k],
        decreases a.len() - i,
    {
        if a[i] != b[i] {
            return false;
        }
        i = i + 1;
    }
    assert(a@ =~= b@);
    true
}

pub fn append_le(out: &mut Vec<u8>, value: u64, n: usize)
    ensures
        final(out)@ == old(out)@ + le_bytes(value as int, n as nat),
{
    let mut rest: u64 = value;
    let mut i: usize = 0;
    while i < n
        invariant
            i <= n,
            out@ + le_bytes(rest as int, (n - i) as nat) == old(out)@ + le_bytes(
                value as int,
                n as nat,
            ),
        decreases n - i,
    {
        let ghost before = out@;
        let ghost tail = le_bytes(rest as int / 256, (n - i - 1) as nat);
        out.push((rest % 256) as u8);
        rest = rest / 256;
        i = i + 1;
        assert(out@ + tail =~= before + (seq![out@.last()] + tail));
    }
    assert(out@ =~= old(out)@ + le_bytes(value as int, n as nat));
}

/// The `n` lowest bytes of a number, highest first.
pub open spec fn be_bytes(value: int, n: nat) -> Seq<u8> {
    le_bytes(value, n).reverse()
}

pub fn be_vec(value: u64, n: usize) -> (r: Vec<u8>)
    ensures
        r@ == be_bytes(value as int, n as nat),
{
    let mut low_first: Vec<u8> = Vec::new();
    append_le(&mut low_first, value, n);
    let ghost le = le_bytes(value as int, n as nat);
    assert(low_first@ =~= le);
    let mut out: Vec<u8> = Vec::new();
    let mut i: usize = low_first.len();
    while i > 0
        invariant
            i <= low_first@.len(),
            low_first@ == le,
            out@.len() == le.len() - i,
            forall|k: int| 0 <= k < out@.len() ==> out@[k] == le[le.len() - 1 - k],
        decreases i,
    {
        i = i - 1;
        out.push(low_first[i]);
    }
    assert(out@ =~= le.reverse());
    out
}

/// Little-endian bytes hold a number below `256^n` in full.
pub proof fn le_bytes_len(value: int, n: nat)
    ensures
        le_bytes(value, n).len() == n,
    decreases n,
{
    if n > 0 {
        le_bytes_len(value / 256, (n - 1) as nat);
    }
}

pub fn decimal_digits(value: u64) -> (r: Vec<u8>)
    ensures
        r@ == decimal(value as nat),
    decreases value,
{
    if value < 10 {
        let mut out: Vec<u8> = Vec::new();
        out.push(48 + value as u8);
        assert(out@ =~= decimal(value as nat));
        out
    } else {
        let mut out: Vec<u8> = decimal_digits(value / 10);
        out.push(48 + (value % 10) as u8);
        out
    }
}

/// Decimal digits stand for the number that they were written for.
pub proof fn decimal_reads_back(value: nat)
    ensures
        digits_value(decimal(value), 10) == value,
        decimal(value).len() >= 1,
    decreases value,
{
    if value < 10 {
        assert(decimal(value).drop_last() =~= Seq::empty());
        assert(digits_value(Seq::empty(), 10) == 0);
    } else {
        decimal_reads_back(value / 10);
        assert(decimal(value).drop_last() =~= decimal(value / 10));
    }
}

pub proof fn fixed_digits_len(value: int, base: int, n: nat)
    ensures
        fixed_digits(value, base, n).len() == n,
    decreases n,
{
    if n > 0 {
        fixed_digits_len(value / base, base, (n - 1) as nat);
    }
}

/// A fixed number of digits stands for the number, where they suffice for it.
pub proof fn fixed_digits_read_back(value: int, base: int, n: nat)
    requires
        2 <= base <= 16,
        0 <= value < pow(base, n),
    ensures
        digits_value(fixed_digits(value, base, n), base) == value,
    decreases n,
{
    reveal(pow);
    if n > 0 {
        let m = (n - 1) as nat;
        vstd::arithmetic::div_mod::lemma_fundamental_div_mod(value, base);
        vstd::arithmetic::div_mod::lemma_mod_bound(value, base);
        assert(0 <= value / base < pow(base, m)) by {
            vstd::arithmetic::div_mod::lemma_div_pos_is_pos(value, base);
            assert(value / base < pow(base, m)) by (nonlinear_arith)
                requires
                    value < base * pow(base, m),
                    value == base * (value / base) + value % base,
                    0 <= value % base,
                    base > 0,
            ;
        }
        fixed_digits_read_back(value / base, base, m);
        assert(fixed_digits(value, base, n).drop_last() =~= fixed_digits(value / base, base, m));
        assert((value / base) * base == base * (value / base)) by (nonlinear_arith);
    } else {
        assert(digits_value(Seq::empty(), base) == 0);
    }
}

/// Byte order is total and tells every two different strings apart.
pub proof fn lex_lt_is_total(a: Seq<u8>, b: Seq<u8>)
    ensures
        lex_lt(a, b) || lex_lt(b, a) || a == b,
        !(lex_lt(a, b) && lex_lt(b, a)),
        a == b ==> !lex_lt(a, b),
    decreases a.len(),
{
    if a.len() > 0 && b.len() > 0 {
        lex_lt_is_total(a.skip(1), b.skip(1));
        if a[0] == b[0] && a.skip(1) == b.skip(1) {
            assert(a =~= seq![a[0]] + a.skip(1));
            assert(b =~= seq![b[0]] + b.skip(1));
        }
    } else if a.len() == 0 && b.len() == 0 {
        assert(a =~= b);
    }
}

/// Byte order is transitive.
pub proof fn lex_lt_is_transitive(a: Seq<u8>, b: Seq<u8>, c: Seq<u8>)
    requires
        lex_lt(a, b),
        lex_lt(b, c),
    ensures
        lex_lt(a, c),
    decreases a.len(),
{
    if a.len() > 0 && b.len() > 0 && c.len() > 0 {
        if a[0] == b[0] && b[0] == c[0] {
            lex_lt_is_transitive(a.skip(1), b.skip(1), c.skip(1));
        }
    }
}

/// The three ways in which two byte strings can be ordered.
#[derive(Debug, Clone, Copy, PartialEq, Eq, Structural)]
pub enum Order {
    Before,
    Same,
    After,
}

pub open spec fn order_of(a: Seq<u8>, b: Seq<u8>) -> Order {
    if lex_lt(a, b) {
        Order::Before
    } else if a == b {
        Order::Same
    } else {
        Order::After
    }
}

pub fn order_bytes(a: &[u8], b: &[u8]) -> (r: Order)
    ensures
        r == order_of(a@, b@),
{
    let mut i: usize = 0;
    assert(a@.skip(0) =~= a@);
    assert(b@.skip(0) =~= b@);
    while i < a.len() && i < b.len()
        invariant
            i <= a.len(),
            i <= b.len(),
            lex_lt(a@, b@) == lex_lt(a@.skip(i as int), b@.skip(i as int)),
            forall|k: int| 0 <= k < i ==> a@[k] == b@[k],
        decreases a.len() - i,
    {
        let ghost x = a@.skip(i as int);
        let ghost y = b@.skip(i as int);
        assert(x.skip(1) =~= a@.skip(i + 1));
        assert(y.skip(1) =~= b@.skip(i + 1));
        if a[i] < b[i] {
            return Order::Before;
        }
        if a[i] > b[i] {
            assert(a@ != b@);
            return Order::After;
        }
        i = i + 1;
    }
    if i < b.len() {
        Order::Before
    } else if i < a.len() {
        assert(a@ != b@);
        Order::After
    } else {
        assert(a@ =~= b@);
        Order::Same
    }
}

} // verus!
