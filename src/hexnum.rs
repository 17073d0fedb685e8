//! Hexadecimal quantities (`0x5208`) and their decimal rendering (`21000`).
use vstd::prelude::*;

verus! {

/// Largest value a `u128` holds, plus one.
pub open spec fn u128_limit() -> nat {
    0x1_0000_0000_0000_0000_0000_0000_0000_0000nat
}

pub open spec fn is_hex_digit(c: char) -> bool {
    ('0' <= c && c <= '9') || ('a' <= c && c <= 'f') || ('A' <= c && c <= 'F')
}

pub open spec fn hex_digit_value(c: char) -> nat {
    if '0' <= c && c <= '9' {
        (c as nat - '0' as nat) as nat
    } else if 'a' <= c && c <= 'f' {
        (c as nat - 'a' as nat + 10) as nat
    } else {
        (c as nat - 'A' as nat + 10) as nat
    }
}

/// The number written by a sequence of hex digits, most significant first.
pub open spec fn hex_value(s: Seq<char>) -> nat
    decreases s.len(),
{
    if s.len() == 0 {
        0
    } else {
        hex_value(s.drop_last()) * 16 + hex_digit_value(s.last())
    }
}

/// The digits of a quantity: the text after an optional `0x` prefix.
pub open spec fn hex_digits(s: Seq<char>) -> Seq<char> {
    if s.len() >= 2 && s[0] == '0' && s[1] == 'x' {
        s.subrange(2, s.len() as int)
    } else {
        s
    }
}

/// A well-formed quantity: at least one hex digit and nothing else, of any length.
pub open spec fn is_quantity(s: Seq<char>) -> bool {
    let d = hex_digits(s);
    &&& d.len() > 0
    &&& forall|i: int| 0 <= i < d.len() ==> is_hex_digit(#[trigger] d[i])
}

/// The number written by base-16 digit values, most significant first.
pub open spec fn digits_value(ds: Seq<u8>) -> nat
    decreases ds.len(),
{
    if ds.len() == 0 {
        0
    } else {
        digits_value(ds.drop_last()) * 16 + ds.last() as nat
    }
}

pub open spec fn all_base16(ds: Seq<u8>) -> bool {
    forall|i: int| 0 <= i < ds.len() ==> #[trigger] ds[i] < 16
}

pub open spec fn quantity_value(s: Seq<char>) -> nat {
    hex_value(hex_digits(s))
}

pub open spec fn decimal_char(d: nat) -> char {
    if d == 0 { '0' }
    else if d == 1 { '1' }
    else if d == 2 { '2' }
    else if d == 3 { '3' }
    else if d == 4 { '4' }
    else if d == 5 { '5' }
    else if d == 6 { '6' }
    else if d == 7 { '7' }
    else if d == 8 { '8' }
    else { '9' }
}

/// The decimal text of a number, without leading zeros.
pub open spec fn decimal_of(n: nat) -> Seq<char>
    decreases n,
{
    if n < 10 {
        seq![decimal_char(n)]
    } else {
        decimal_of(n / 10) + seq![decimal_char(n % 10)]
    }
}

/// What normalization makes of a quantity field: its decimal text, exact at
/// any size; an empty field (one the node left out) stays empty; anything else
/// is malformed.
pub open spec fn normalized(s: Seq<char>) -> Option<Seq<char>> {
    if s.len() == 0 {
        Some(s)
    } else if is_quantity(s) {
        Some(decimal_of(quantity_value(s)))
    } else {
        None
    }
}

/// The text with every double quote taken out.
pub open spec fn without_quotes(s: Seq<char>) -> Seq<char>
    decreases s.len(),
{
    if s.len() == 0 {
        s
    } else if s.last() == '"' {
        without_quotes(s.drop_last())
    } else {
        without_quotes(s.drop_last()).push(s.last())
    }
}

proof fn lemma_hex_value_grows(s: Seq<char>, i: int, j: int)
    requires
        0 <= i <= j <= s.len(),
    ensures
        hex_value(s.subrange(0, i)) <= hex_value(s.subrange(0, j)),
    decreases j - i,
{
    if i < j {
        lemma_hex_value_grows(s, i, j - 1);
        assert(s.subrange(0, j).drop_last() =~= s.subrange(0, j - 1));
    }
}

fn digit_of(c: char) -> (r: Option<u128>)
    ensures
        is_hex_digit(c) ==> r == Some(hex_digit_value(c) as u128),
        !is_hex_digit(c) ==> r is None,
{
    if '0' <= c && c <= '9' {
        Some((c as u32 - '0' as u32) as u128)
    } else if 'a' <= c && c <= 'f' {
        Some((c as u32 - 'a' as u32 + 10) as u128)
    } else if 'A' <= c && c <= 'F' {
        Some((c as u32 - 'A' as u32 + 10) as u128)
    } else {
        None
    }
}

/// Reads a quantity such as `0x5208` as an integer; `None` when it is not well
/// formed or does not fit in 128 bits.
pub fn parse_quantity(s: &str) -> (r: Option<u128>)
    ensures
        r == (if is_quantity(s@) && quantity_value(s@) < u128_limit() {
            Some(quantity_value(s@) as u128)
        } else {
            None::<u128>
        }),
{
    let len = s.unicode_len();
    let start: usize = if len >= 2 && s.get_char(0) == '0' && s.get_char(1) == 'x' { 2 } else { 0 };
    let ghost d = hex_digits(s@);
    assert(d =~= s@.subrange(start as int, len as int));
    if start == len {
        return None;
    }
    let mut acc: u128 = 0;
    let mut i: usize = start;
    while i < len
        invariant
            start <= i <= len,
            len == s@.len(),
            d =~= s@.subrange(start as int, len as int),
            d == hex_digits(s@),
            forall|k: int| 0 <= k < i - start ==> is_hex_digit(#[trigger] d[k]),
            acc as nat == hex_value(d.subrange(0, i - start)),
        decreases len - i,
    {
        let c = s.get_char(i);
        let ghost k = i - start;
        assert(d.subrange(0, k + 1).drop_last() =~= d.subrange(0, k));
        assert(d[k] == c);
        match digit_of(c) {
            None => {
                assert(!is_hex_digit(d[k]));
                return None;
            },
            Some(v) => {
                if acc > (u128::MAX - v) / 16 {
                    proof {
                        assert(hex_value(d.subrange(0, k + 1)) == acc * 16 + v);
                        let m = u128::MAX as int;
                        assert(acc * 16 + v > m) by (nonlinear_arith)
                            requires acc > (m - v) / 16, v <= m, acc >= 0;
                        lemma_hex_value_grows(d, k + 1, d.len() as int);
                        assert(d.subrange(0, d.len() as int) =~= d);
                    }
                    return None;
                }
                acc = acc * 16 + v;
            },
        }
        i = i + 1;
    }
    assert(d.subrange(0, d.len() as int) =~= d);
    Some(acc)
}

fn decimal_digit(d: u128) -> (r: String)
    requires
        d < 10,
    ensures
        r@ == seq![decimal_char(d as nat)],
{
    if d == 0 { proof { reveal_strlit("0"); } String::from_str("0") }
    else if d == 1 { proof { reveal_strlit("1"); } String::from_str("1") }
    else if d == 2 { proof { reveal_strlit("2"); } String::from_str("2") }
    else if d == 3 { proof { reveal_strlit("3"); } String::from_str("3") }
    else if d == 4 { proof { reveal_strlit("4"); } String::from_str("4") }
    else if d == 5 { proof { reveal_strlit("5"); } String::from_str("5") }
    else if d == 6 { proof { reveal_strlit("6"); } String::from_str("6") }
    else if d == 7 { proof { reveal_strlit("7"); } String::from_str("7") }
    else if d == 8 { proof { reveal_strlit("8"); } String::from_str("8") }
    else { proof { reveal_strlit("9"); } String::from_str("9") }
}

/// The decimal text of `n`.
pub fn to_decimal(n: u128) -> (r: String)
    ensures
        r@ == decimal_of(n as nat),
    decreases n,
{
    if n < 10 {
        decimal_digit(n)
    } else {
        let mut s = to_decimal(n / 10);
        s.append(decimal_digit(n % 10).as_str());
        s
    }
}

proof fn lemma_zero_digits(ds: Seq<u8>)
    ensures
        (digits_value(ds) == 0) <==> (forall|i: int| 0 <= i < ds.len() ==> #[trigger] ds[i] == 0),
    decreases ds.len(),
{
    if ds.len() > 0 {
        lemma_zero_digits(ds.drop_last());
        if digits_value(ds) == 0 {
            assert forall|i: int| 0 <= i < ds.len() implies #[trigger] ds[i] == 0 by {
                if i < ds.len() - 1 {
                    assert(ds[i] == ds.drop_last()[i]);
                }
            }
        }
        if forall|i: int| 0 <= i < ds.len() ==> #[trigger] ds[i] == 0 {
            assert forall|i: int| 0 <= i < ds.drop_last().len() implies #[trigger] ds.drop_last()[i] == 0 by {
                assert(ds[i] == 0);
            }
            assert(ds[ds.len() - 1] == 0);
        }
    }
}

/// The base-16 digit values of a quantity's digits; `None` when it is not a quantity.
fn quantity_digits(s: &str) -> (r: Option<Vec<u8>>)
    ensures
        r is Some <==> is_quantity(s@),
        r matches Some(ds) ==> all_base16(ds@) && digits_value(ds@) == quantity_value(s@),
{
    let len = s.unicode_len();
    let start: usize = if len >= 2 && s.get_char(0) == '0' && s.get_char(1) == 'x' { 2 } else { 0 };
    let ghost d = hex_digits(s@);
    assert(d =~= s@.subrange(start as int, len as int));
    if start == len {
        return None;
    }
    let mut ds: Vec<u8> = Vec::new();
    let mut i: usize = start;
    while i < len
        invariant
            start <= i <= len,
            len == s@.len(),
            d =~= s@.subrange(start as int, len as int),
            d == hex_digits(s@),
            ds@.len() == i - start,
            all_base16(ds@),
            forall|k: int| 0 <= k < i - start ==> is_hex_digit(#[trigger] d[k]),
            digits_value(ds@) == hex_value(d.subrange(0, i - start)),
        decreases len - i,
    {
        let c = s.get_char(i);
        let ghost k = i - start;
        assert(d.subrange(0, k + 1).drop_last() =~= d.subrange(0, k));
        assert(d[k] == c);
        match digit_of(c) {
            None => {
                assert(!is_hex_digit(d[k]));
                return None;
            },
            Some(v) => {
                let ghost before = ds@;
                ds.push(v as u8);
                assert(ds@.drop_last() =~= before);
            },
        }
        i = i + 1;
    }
    assert(d.subrange(0, d.len() as int) =~= d);
    Some(ds)
}

/// Divides a base-16 number by ten: the quotient's digits and the remainder.
fn div10(ds: &Vec<u8>) -> (r: (Vec<u8>, u8))
    requires
        all_base16(ds@),
    ensures
        all_base16(r.0@),
        r.1 < 10,
        digits_value(ds@) == digits_value(r.0@) * 10 + r.1 as nat,
{
    let mut q: Vec<u8> = Vec::new();
    let mut rem: u8 = 0;
    let mut i: usize = 0;
    while i < ds.len()
        invariant
            i <= ds@.len(),
            all_base16(ds@),
            all_base16(q@),
            rem < 10,
            digits_value(ds@.subrange(0, i as int)) == digits_value(q@) * 10 + rem as nat,
        decreases ds@.len() - i,
    {
        assert(ds@.subrange(0, i + 1).drop_last() =~= ds@.subrange(0, i as int));
        let cur: u8 = rem * 16 + ds[i];
        let ghost before = q@;
        q.push(cur / 10);
        assert(q@.drop_last() =~= before);
        proof {
            let a = digits_value(before);
            let c = cur as int;
            assert(c == (c / 10) * 10 + c % 10);
            assert((a * 10 + rem) * 16 + ds@[i as int] == (a * 16 + c / 10) * 10 + c % 10) by (nonlinear_arith)
                requires c == rem * 16 + ds@[i as int], c == (c / 10) * 10 + c % 10;
        }
        rem = cur % 10;
        i = i + 1;
    }
    assert(ds@.subrange(0, ds@.len() as int) =~= ds@);
    (q, rem)
}

fn is_zero(ds: &Vec<u8>) -> (r: bool)
    ensures
        r == (digits_value(ds@) == 0),
{
    proof { lemma_zero_digits(ds@); }
    let mut i: usize = 0;
    while i < ds.len()
        invariant
            i <= ds@.len(),
            forall|k: int| 0 <= k < i ==> #[trigger] ds@[k] == 0,
            (digits_value(ds@) == 0) <==> (forall|k: int| 0 <= k < ds@.len() ==> #[trigger] ds@[k] == 0),
        decreases ds@.len() - i,
    {
        if ds[i] != 0 {
            assert(ds@[i as int] != 0);
            return false;
        }
        i = i + 1;
    }
    true
}

/// The decimal text of a base-16 number of any length.
fn digits_to_decimal(ds: Vec<u8>) -> (r: String)
    requires
        all_base16(ds@),
    ensures
        r@ == decimal_of(digits_value(ds@)),
    decreases digits_value(ds@),
{
    let (q, rem) = div10(&ds);
    let ghost n = digits_value(ds@);
    if is_zero(&q) {
        decimal_digit(rem as u128)
    } else {
        let ghost m = digits_value(q@);
        assert(n / 10 == m && n % 10 == rem as nat) by (nonlinear_arith)
            requires n == m * 10 + rem as nat, rem < 10;
        let mut s = digits_to_decimal(q);
        s.append(decimal_digit(rem as u128).as_str());
        s
    }
}

/// Rewrites a hex quantity as exact decimal text, whatever its size; an empty
/// field stays empty; `None` when the text is not a quantity.
pub fn quantity_to_decimal(s: &str) -> (r: Option<String>)
    ensures
        r matches Some(t) ==> normalized(s@) == Some(t@),
        r is None <==> normalized(s@) is None,
{
    if s.unicode_len() == 0 {
        return Some(String::new());
    }
    match quantity_digits(s) {
        Some(ds) => Some(digits_to_decimal(ds)),
        None => None,
    }
}

/// Takes every double quote out of `s`.
pub fn clean(s: String) -> (r: String)
    ensures
        r@ == without_quotes(s@),
{
    let len = s.as_str().unicode_len();
    let mut r = String::new();
    let mut i: usize = 0;
    while i < len
        invariant
            i <= len,
            len == s@.len(),
            r@ == without_quotes(s@.subrange(0, i as int)),
        decreases len - i,
    {
        assert(s@.subrange(0, i + 1).drop_last() =~= s@.subrange(0, i as int));
        let c = s.as_str().get_char(i);
        if c != '"' {
            r.append(s.as_str().substring_char(i, i + 1));
            assert(s@.subrange(i as int, i + 1) =~= seq![c]);
        }
        i = i + 1;
    }
    assert(s@.subrange(0, len as int) =~= s@);
    r
}

} // verus!
