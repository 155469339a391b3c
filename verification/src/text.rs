//! Text in metadata: hexadecimal and decimal numbers, normal forms, tokens, ordered name lists.
use crate::bytes::{append, lex_lt, lex_lt_is_total, lex_lt_is_transitive, same_bytes, to_bytes};
use unicode_normalization::UnicodeNormalization;
use vstd::prelude::*;

verus! {

/// The bytes of a text.
pub open spec fn text(s: &str) -> Seq<u8> {
    vstd::utf8::encode_utf8(s@)
}

/// Copies the bytes of a text.
pub fn text_bytes(s: &str) -> (r: Vec<u8>)
    ensures
        r@ == text(s),
{
    to_bytes(s.as_bytes())
}

// ---------------------------------------------------------------------------------------------
// Hexadecimal
// ---------------------------------------------------------------------------------------------

/// The lower-case digit of a number below sixteen.
pub open spec fn hex_digit(n: int) -> u8 {
    if n < 10 {
        (48 + n) as u8
    } else {
        (87 + n) as u8
    }
}

/// Two lower-case digits for each byte, the high half first.
pub open spec fn hex_text(bytes: Seq<u8>) -> Seq<u8> {
    Seq::new(
        2 * bytes.len(),
        |i: int|
            if i % 2 == 0 {
                hex_digit(bytes[i / 2] as int / 16)
            } else {
                hex_digit(bytes[i / 2] as int % 16)
            },
    )
}

/// `hex::encode`, its text taken as bytes: two lower-case digits for each byte.
#[verifier::external_body]
pub(crate) fn hex_encode(bytes: &[u8]) -> (r: Vec<u8>)
    ensures
        r@ == hex_text(bytes@),
{
    hex::encode(bytes).into_bytes()
}

/// The value of a hexadecimal digit of either case.
pub open spec fn hex_value(digit: u8) -> Option<int> {
    if 48 <= digit <= 57 {
        Some(digit - 48)
    } else if 97 <= digit <= 102 {
        Some(digit - 87)
    } else if 65 <= digit <= 70 {
        Some(digit - 55)
    } else {
        None
    }
}

/// The value of a digit in a base of ten or sixteen.
pub open spec fn digit_value(digit: u8, base: int) -> Option<int> {
    match hex_value(digit) {
        Some(v) => if v < base {
            Some(v)
        } else {
            None
        },
        None => None,
    }
}

/// The number that a string of digits stands for.
pub open spec fn digits_number(s: Seq<u8>, base: int) -> Option<int>
    decreases s.len(),
{
    if s.len() == 0 {
        Some(0)
    } else {
        match (digits_number(s.drop_last(), base), digit_value(s.last(), base)) {
            (Some(high), Some(low)) => Some(high * base + low),
            _ => None,
        }
    }
}

/// A string without the plus sign that may stand in front of digits.
pub open spec fn without_plus(s: Seq<u8>) -> Seq<u8> {
    if s.len() > 1 && s[0] == 43 {
        s.skip(1)
    } else {
        s
    }
}

/// The number that `s` writes in a base, if it writes one of at most `limit`.
pub open spec fn parsed_number(s: Seq<u8>, base: int, limit: int) -> Option<int> {
    if s.len() == 0 {
        None
    } else {
        match digits_number(without_plus(s), base) {
            Some(n) => if n <= limit {
                Some(n)
            } else {
                None
            },
            None => None,
        }
    }
}

fn read_digit(digit: u8, base: u64) -> (r: Option<u64>)
    ensures
        match r {
            Some(v) => digit_value(digit, base as int) == Some(v as int) && v < base && v < 16,
            None => digit_value(digit, base as int) is None,
        },
{
    let v: u64 = if digit >= 48 && digit <= 57 {
        (digit - 48) as u64
    } else if digit >= 97 && digit <= 102 {
        (digit - 87) as u64
    } else if digit >= 65 && digit <= 70 {
        (digit - 55) as u64
    } else {
        return None;
    };
    if v < base {
        Some(v)
    } else {
        None
    }
}

proof fn digits_number_is_monotone(s: Seq<u8>, n: int, base: int)
    requires
        0 <= n <= s.len(),
        base >= 1,
    ensures
        digits_number(s.take(n), base) is None ==> digits_number(s, base) is None,
        digits_number(s, base) matches Some(total) ==> (digits_number(s.take(n), base) matches Some(
            part,
        ) && 0 <= part <= total),
    decreases s.len(),
{
    if n == s.len() {
        assert(s.take(n) =~= s);
        if n > 0 {
            digits_number_is_monotone(s.drop_last(), 0, base);
            assert(s.drop_last().take(0) =~= Seq::empty());
            if let Some(total) = digits_number(s, base) {
                let high = digits_number(s.drop_last(), base)->Some_0;
                assert(high * base >= 0) by (nonlinear_arith)
                    requires
                        high >= 0,
                        base >= 1,
                ;
            }
        }
    } else {
        digits_number_is_monotone(s.drop_last(), n, base);
        assert(s.drop_last().take(n) =~= s.take(n));
        if let Some(total) = digits_number(s, base) {
            let high = digits_number(s.drop_last(), base)->Some_0;
            assert(high * base >= high) by (nonlinear_arith)
                requires
                    high >= 0,
                    base >= 1,
            ;
        }
    }
}

/// Reads a number in base ten or sixteen.
#[verifier::loop_isolation(false)]
pub fn parse_number(s: &[u8], base: u64, limit: u64) -> (r: Option<u64>)
    requires
        base == 10 || base == 16,
    ensures
        match r {
            Some(n) => parsed_number(s@, base as int, limit as int) == Some(n as int),
            None => parsed_number(s@, base as int, limit as int) is None,
        },
{
    if s.len() == 0 {
        return None;
    }
    let start: usize = if s.len() > 1 && s[0] == 43 {
        1
    } else {
        0
    };
    let ghost digits = without_plus(s@);
    assert(digits =~= s@.skip(start as int));
    let mut value: u64 = 0;
    let mut i: usize = start;
    assert(digits.take(0) =~= Seq::empty());
    while i < s.len()
        invariant
            start <= i <= s@.len(),
            digits_number(digits.take(i - start), base as int) == Some(value as int),
            value <= limit,
        decreases s.len() - i,
    {
        proof {
            assert(digits.take(i + 1 - start).drop_last() =~= digits.take(i - start));
            assert(digits.take(i + 1 - start).last() == s@[i as int]);
            digits_number_is_monotone(digits, i + 1 - start, base as int);
        }
        let digit: u64 = match read_digit(s[i], base) {
            Some(v) => v,
            None => {
                return None;
            },
        };
        let shifted: u64 = match value.checked_mul(base) {
            Some(v) => v,
            None => {
                return None;
            },
        };
        value = match shifted.checked_add(digit) {
            Some(v) => v,
            None => {
                return None;
            },
        };
        if value > limit {
            return None;
        }
        i = i + 1;
    }
    assert(digits.take(i - start) =~= digits);
    Some(value)
}

// ---------------------------------------------------------------------------------------------
// Unicode
// ---------------------------------------------------------------------------------------------

/// The Unicode Normalization Form C of a text.
pub uninterp spec fn nfc(s: Seq<char>) -> Seq<char>;

/// `unicode_normalization::UnicodeNormalization::nfc`, collected: the text in Normalization
/// Form C.
#[verifier::external_body]
pub(crate) fn normal_form_c(s: &str) -> (r: String)
    ensures
        r@ == nfc(s@),
{
    s.nfc().collect::<String>()
}

/// `core::str::from_utf8`: whether the bytes are UTF-8.
#[verifier::external_body]
pub(crate) fn is_utf8(bytes: &[u8]) -> (r: bool)
    ensures
        r == vstd::utf8::valid_utf8(bytes@),
{
    core::str::from_utf8(bytes).is_ok()
}

// ---------------------------------------------------------------------------------------------
// Prefixes and tokens
// ---------------------------------------------------------------------------------------------

pub open spec fn starts_with(s: Seq<u8>, prefix: Seq<u8>) -> bool {
    s.len() >= prefix.len() && s.take(prefix.len() as int) == prefix
}

pub fn has_prefix(s: &[u8], prefix: &str) -> (r: bool)
    ensures
        r == starts_with(s@, text(prefix)),
{
    let p: &[u8] = prefix.as_bytes();
    if s.len() < p.len() {
        return false;
    }
    let head: &[u8] = vstd::slice::slice_subrange(s, 0, p.len());
    assert(head@ =~= s@.take(p@.len() as int));
    same_bytes(head, p)
}

pub fn is_text(s: &[u8], t: &str) -> (r: bool)
    ensures
        r == (s@ == text(t)),
{
    same_bytes(s, t.as_bytes())
}

/// The byte of a comma.
pub const COMMA: u8 = 44;

/// Whether `s[i..j]` is one of the parts that commas separate.
pub open spec fn is_token(s: Seq<u8>, i: int, j: int) -> bool {
    &&& 0 <= i <= j <= s.len()
    &&& i == 0 || s[i - 1] == COMMA
    &&& j == s.len() || s[j] == COMMA
    &&& forall|k: int| i <= k < j ==> s[k] != COMMA
}

/// The bytes of some part that commas separate.
pub open spec fn has_token_among(s: Seq<u8>, wanted: Seq<Seq<u8>>) -> bool {
    exists|i: int, j: int| #[trigger]
        is_token(s, i, j) && wanted.contains(s.subrange(i, j))
}

/// The texts of a list.
pub open spec fn texts(list: Seq<&str>) -> Seq<Seq<u8>> {
    list.map_values(|t: &str| text(t))
}

/// Whether a text of the list has these bytes.
pub fn is_one_of(s: &[u8], list: &[&'static str]) -> (r: bool)
    ensures
        r == texts(list@).contains(s@),
{
    let mut i: usize = 0;
    while i < list.len()
        invariant
            i <= list@.len(),
            forall|k: int| 0 <= k < i ==> #[trigger] texts(list@)[k] != s@,
        decreases list.len() - i,
    {
        if is_text(s, list[i]) {
            assert(texts(list@)[i as int] == s@);
            return true;
        }
        i = i + 1;
    }
    assert(forall|k: int| 0 <= k < texts(list@).len() ==> texts(list@)[k] != s@);
    false
}

proof fn tokens_start_apart(s: Seq<u8>, start: int, i: int, j: int, end: int)
    requires
        is_token(s, i, j),
        is_token(s, start, end),
        i >= start,
        i <= end,
    ensures
        i == start && j == end,
{
    if i > start {
        assert(s[i - 1] == COMMA);
        assert(s[i - 1] != COMMA);
    }
    if j < end {
        assert(s[j] != COMMA);
    } else if end < j {
        assert(s[end] != COMMA);
    }
}

/// Whether a part that commas separate is one of the list.
pub fn any_token_of(s: &[u8], list: &[&'static str]) -> (r: bool)
    ensures
        r == has_token_among(s@, texts(list@)),
{
    let mut start: usize = 0;
    let total: usize = s.len();
    loop
        invariant
            total == s@.len(),
            start <= total,
            start == 0 || s@[start - 1] == COMMA,
            forall|i: int, j: int| #[trigger]
                is_token(s@, i, j) && i < start ==> !texts(list@).contains(s@.subrange(i, j)),
        decreases total + 1 - start,
    {
        let mut end: usize = start;
        while end < total && s[end] != COMMA
            invariant
                total == s@.len(),
                start <= end <= total,
                forall|k: int| start <= k < end ==> s@[k] != COMMA,
            decreases total - end,
        {
            end = end + 1;
        }
        assert(is_token(s@, start as int, end as int));
        if is_one_of(vstd::slice::slice_subrange(s, start, end), list) {
            return true;
        }
        proof {
            assert forall|i: int, j: int| #[trigger]
                is_token(s@, i, j) && i <= end implies !texts(list@).contains(
                s@.subrange(i, j),
            ) by {
                if i >= start {
                    tokens_start_apart(s@, start as int, i, j, end as int);
                }
            }
        }
        if end == total {
            return false;
        }
        start = end + 1;
    }
}

// ---------------------------------------------------------------------------------------------
// Ordered lists of names
// ---------------------------------------------------------------------------------------------

/// Whether the names of a list come one after the other in byte order.
pub open spec fn ascends(s: Seq<Seq<u8>>) -> bool {
    forall|i: int, j: int|
        0 <= i < j < s.len() ==> lex_lt(#[trigger] s[i], #[trigger] s[j])
}

/// The names of a set in byte order.
pub open spec fn in_byte_order(names: Set<Seq<u8>>) -> Seq<Seq<u8>> {
    choose|s: Seq<Seq<u8>>| #[trigger] ascends(s) && s.to_set() == names
}

proof fn last_is_last(s: Seq<Seq<u8>>, t: Seq<Seq<u8>>)
    requires
        ascends(s),
        ascends(t),
        s.len() > 0,
        t.len() > 0,
        s.to_set() == t.to_set(),
    ensures
        s.last() == t.last(),
{
    assert(s.to_set().contains(s.last()));
    assert(t.to_set().contains(t.last()));
    assert(t.contains(s.last()));
    assert(s.contains(t.last()));
    let a = choose|a: int| 0 <= a < t.len() && t[a] == s.last();
    let b = choose|b: int| 0 <= b < s.len() && s[b] == t.last();
    if a < t.len() - 1 {
        assert(lex_lt(t[a], t[t.len() - 1]));
        if b < s.len() - 1 {
            assert(lex_lt(s[b], s[s.len() - 1]));
            lex_lt_is_transitive(s.last(), t.last(), s.last());
            lex_lt_is_total(s.last(), s.last());
        }
    }
}

/// A set of names has one list in byte order.
pub proof fn byte_order_is_unique(s: Seq<Seq<u8>>, t: Seq<Seq<u8>>)
    requires
        ascends(s),
        ascends(t),
        s.to_set() == t.to_set(),
    ensures
        s == t,
    decreases s.len(),
{
    if s.len() == 0 {
        if t.len() > 0 {
            assert(t.to_set().contains(t[0]));
            assert(s.contains(t[0]));
        }
        assert(s =~= t);
    } else if t.len() == 0 {
        assert(s.to_set().contains(s[0]));
        assert(t.contains(s[0]));
    } else {
        last_is_last(s, t);
        let s1 = s.drop_last();
        let t1 = t.drop_last();
        assert forall|x: Seq<u8>| s1.to_set().contains(x) implies t1.to_set().contains(x) by {
            drop_last_keeps(s, t, x);
        }
        assert forall|x: Seq<u8>| t1.to_set().contains(x) implies s1.to_set().contains(x) by {
            drop_last_keeps(t, s, x);
        }
        assert(s1.to_set() =~= t1.to_set());
        byte_order_is_unique(s1, t1);
        assert(s =~= s1.push(s.last()));
        assert(t =~= t1.push(t.last()));
    }
}

proof fn drop_last_keeps(s: Seq<Seq<u8>>, t: Seq<Seq<u8>>, x: Seq<u8>)
    requires
        ascends(s),
        s.len() > 0,
        t.len() > 0,
        s.to_set() == t.to_set(),
        s.last() == t.last(),
        s.drop_last().to_set().contains(x),
    ensures
        t.drop_last().to_set().contains(x),
{
    let i = choose|i: int| 0 <= i < s.drop_last().len() && s.drop_last()[i] == x;
    assert(s[i] == x);
    assert(lex_lt(s[i], s[s.len() - 1]));
    lex_lt_is_total(x, x);
    assert(s.contains(x));
    assert(s.to_set().contains(x));
    assert(t.contains(x));
    let j = choose|j: int| 0 <= j < t.len() && t[j] == x;
    assert(j < t.len() - 1);
    assert(t.drop_last()[j] == x);
    assert(t.drop_last().contains(x));
}

/// Names with commas between them.
pub open spec fn joined(names: Seq<Seq<u8>>) -> Seq<u8>
    decreases names.len(),
{
    if names.len() == 0 {
        Seq::empty()
    } else if names.len() == 1 {
        names[0]
    } else {
        joined(names.drop_last()) + seq![COMMA] + names.last()
    }
}

/// Appends a name and, where one came before, a comma.
pub fn join_names(names: &Vec<Vec<u8>>) -> (r: Vec<u8>)
    ensures
        r@ == joined(crate::codec::contents_of(names@)),
{
    let ghost all = crate::codec::contents_of(names@);
    let mut out: Vec<u8> = Vec::new();
    let mut i: usize = 0;
    assert(all.take(0) =~= Seq::empty());
    while i < names.len()
        invariant
            i <= names.len(),
            all == crate::codec::contents_of(names@),
            out@ == joined(all.take(i as int)),
        decreases names.len() - i,
    {
        proof {
            assert(all.take(i + 1).drop_last() =~= all.take(i as int));
            assert(all.take(i + 1).last() == names@[i as int]@);
        }
        if i > 0 {
            out.push(COMMA);
        }
        let ghost before = out@;
        append(&mut out, names[i].as_slice());
        proof {
            if i == 0 {
                assert(out@ =~= names@[0]@);
            } else {
                assert(before =~= joined(all.take(i as int)) + seq![COMMA]);
            }
        }
        i = i + 1;
    }
    assert(all.take(i as int) =~= all);
    out
}

} // verus!
