//! Verified text codecs used throughout the crate: lowercase hexadecimal
//! encoding and decoding of byte strings, and decimal rendering and parsing
//! of unsigned integers (both appear in the `"<hex txid>#<decimal index>"`
//! key format of the UTXO set).
use vstd::prelude::*;

verus! {

/// Relies on `String::push`: appends exactly one character at the end.
#[verifier::external_body]
pub fn push_char(s: &mut String, c: char)
    ensures
        final(s)@ == old(s)@ + seq![c],
{
    s.push(c);
}

/// The lowercase hexadecimal digit for a value in 0..16.
pub open spec fn hex_digit(n: int) -> char {
    if n == 0 { '0' }
    else if n == 1 { '1' }
    else if n == 2 { '2' }
    else if n == 3 { '3' }
    else if n == 4 { '4' }
    else if n == 5 { '5' }
    else if n == 6 { '6' }
    else if n == 7 { '7' }
    else if n == 8 { '8' }
    else if n == 9 { '9' }
    else if n == 10 { 'a' }
    else if n == 11 { 'b' }
    else if n == 12 { 'c' }
    else if n == 13 { 'd' }
    else if n == 14 { 'e' }
    else { 'f' }
}

/// Lowercase hexadecimal rendering of a byte string: two digits per byte,
/// most significant nibble first.
pub open spec fn hex_encoding(bytes: Seq<u8>) -> Seq<char>
    decreases bytes.len(),
{
    if bytes.len() == 0 {
        Seq::<char>::empty()
    } else {
        seq![hex_digit(bytes[0] as int / 16), hex_digit(bytes[0] as int % 16)]
            + hex_encoding(bytes.drop_first())
    }
}

pub open spec fn is_hex_char(c: char) -> bool {
    ('0' <= c && c <= '9') || ('a' <= c && c <= 'f') || ('A' <= c && c <= 'F')
}

/// The value of one hexadecimal digit; both letter cases are accepted.
pub open spec fn hex_char_value(c: char) -> int {
    if '0' <= c && c <= '9' {
        c as int - '0' as int
    } else if 'a' <= c && c <= 'f' {
        c as int - 'a' as int + 10
    } else {
        c as int - 'A' as int + 10
    }
}

pub open spec fn all_hex_chars(s: Seq<char>) -> bool {
    forall|i: int| 0 <= i < s.len() ==> is_hex_char(#[trigger] s[i])
}

/// The bytes spelled by an even-length string of hexadecimal digits.
pub open spec fn hex_bytes_of(s: Seq<char>) -> Seq<u8> {
    Seq::new((s.len() / 2) as nat, |i: int| (hex_char_value(s[2 * i]) * 16 + hex_char_value(s[2 * i + 1])) as u8)
}

/// Hexadecimal decoding: defined exactly on even-length strings of
/// hexadecimal digits (either letter case), and rejecting everything else.
pub open spec fn hex_decoding(s: Seq<char>) -> Option<Seq<u8>> {
    if s.len() % 2 == 0 && all_hex_chars(s) {
        Some(hex_bytes_of(s))
    } else {
        None
    }
}

fn hex_digit_char(n: u8) -> (c: char)
    requires
        n < 16,
    ensures
        c == hex_digit(n as int),
{
    match n {
        0 => '0',
        1 => '1',
        2 => '2',
        3 => '3',
        4 => '4',
        5 => '5',
        6 => '6',
        7 => '7',
        8 => '8',
        9 => '9',
        10 => 'a',
        11 => 'b',
        12 => 'c',
        13 => 'd',
        14 => 'e',
        _ => 'f',
    }
}

/// Renders a byte string as lowercase hexadecimal.
pub fn hex_encode(bytes: &[u8]) -> (r: String)
    ensures
        r@ == hex_encoding(bytes@),
{
    let mut r = String::new();
    let n = bytes.len();
    assert(bytes@.skip(0) == bytes@);
    for i in 0..n
        invariant
            n == bytes@.len(),
            hex_encoding(bytes@) == r@ + hex_encoding(bytes@.skip(i as int)),
            r@.len() == 2 * i,
    {
        let b = bytes[i];
        push_char(&mut r, hex_digit_char(b / 16));
        push_char(&mut r, hex_digit_char(b % 16));
        assert(bytes@.skip(i as int).drop_first() == bytes@.skip(i + 1));
        assert(hex_encoding(bytes@.skip(i as int)) ==
            seq![hex_digit(bytes@[i as int] as int / 16), hex_digit(bytes@[i as int] as int % 16)]
                + hex_encoding(bytes@.skip(i + 1)));
    }
    assert(bytes@.skip(n as int) =~= Seq::<u8>::empty());
    assert(r@ =~= hex_encoding(bytes@));
    r
}

fn is_hex_char_exec(c: char) -> (r: bool)
    ensures
        r == is_hex_char(c),
{
    ('0' <= c && c <= '9') || ('a' <= c && c <= 'f') || ('A' <= c && c <= 'F')
}

fn hex_char_value_exec(c: char) -> (r: u8)
    requires
        is_hex_char(c),
    ensures
        r == hex_char_value(c),
        r < 16,
{
    if '0' <= c && c <= '9' {
        (c as u8) - ('0' as u8)
    } else if 'a' <= c && c <= 'f' {
        (c as u8) - ('a' as u8) + 10
    } else {
        (c as u8) - ('A' as u8) + 10
    }
}

/// Decodes a lowercase or uppercase hexadecimal string into bytes; rejects
/// odd lengths and any character that is not a hexadecimal digit.
pub fn hex_decode(s: &str) -> (r: Option<Vec<u8>>)
    ensures
        match r {
            Some(v) => hex_decoding(s@) == Some(v@),
            None => hex_decoding(s@) is None,
        },
{
    let n = s.unicode_len();
    if n % 2 != 0 {
        return None;
    }
    let mut out: Vec<u8> = Vec::new();
    let mut i: usize = 0;
    while i < n
        invariant
            n == s@.len(),
            n % 2 == 0,
            i % 2 == 0,
            i <= n,
            all_hex_chars(s@.take(i as int)),
            out@ == hex_bytes_of(s@.take(i as int)),
        decreases n - i,
    {
        let hi = s.get_char(i);
        let lo = s.get_char(i + 1);
        if !is_hex_char_exec(hi) || !is_hex_char_exec(lo) {
            return None;
        }
        let b: u8 = hex_char_value_exec(hi) * 16 + hex_char_value_exec(lo);
        out.push(b);
        proof {
            let t0 = s@.take(i as int);
            let t2 = s@.take(i + 2);
            assert forall|k: int| 0 <= k < t2.len() implies is_hex_char(#[trigger] t2[k]) by {
                if k < i {
                    assert(t0[k] == t2[k]);
                }
            }
            assert(out@ =~= hex_bytes_of(t2));
        }
        i = i + 2;
    }
    proof {
        assert(s@.take(n as int) == s@);
    }
    Some(out)
}

/// Every byte string decodes back from its own hexadecimal rendering.
pub proof fn lemma_hex_round_trip(bytes: Seq<u8>)
    ensures
        hex_decoding(hex_encoding(bytes)) == Some(bytes),
    decreases bytes.len(),
{
    if bytes.len() == 0 {
        assert(hex_encoding(bytes).len() == 0);
        assert(hex_bytes_of(hex_encoding(bytes)) =~= bytes);
    } else {
        lemma_hex_round_trip(bytes.drop_first());
        let e = hex_encoding(bytes);
        let et = hex_encoding(bytes.drop_first());
        assert(e == seq![hex_digit(bytes[0] as int / 16), hex_digit(bytes[0] as int % 16)] + et);
        assert(all_hex_chars(et));
        assert forall|i: int| 0 <= i < e.len() implies is_hex_char(#[trigger] e[i]) by {
            if i >= 2 {
                assert(e[i] == et[i - 2]);
            }
        }
        assert(e.len() % 2 == 0);
        assert forall|i: int| 0 <= i < bytes.len() implies hex_bytes_of(e)[i] == bytes[i] by {
            if i == 0 {
                assert(hex_char_value(e[0]) == bytes[0] as int / 16);
                assert(hex_char_value(e[1]) == bytes[0] as int % 16);
            } else {
                assert(e[2 * i] == et[2 * (i - 1)]);
                assert(e[2 * i + 1] == et[2 * (i - 1) + 1]);
                assert(hex_bytes_of(et)[i - 1] == bytes.drop_first()[i - 1]);
            }
        }
        assert(hex_bytes_of(e) =~= bytes);
    }
}

/// The decimal digit for a value in 0..10.
pub open spec fn dec_digit(n: int) -> char {
    if n == 0 { '0' }
    else if n == 1 { '1' }
    else if n == 2 { '2' }
    else if n == 3 { '3' }
    else if n == 4 { '4' }
    else if n == 5 { '5' }
    else if n == 6 { '6' }
    else if n == 7 { '7' }
    else if n == 8 { '8' }
    else { '9' }
}

/// The usual decimal rendering of a natural number, no leading zeros
/// (a single zero renders as "0").
pub open spec fn decimal_rep(n: nat) -> Seq<char>
    decreases n,
{
    if n < 10 {
        seq![dec_digit(n as int)]
    } else {
        decimal_rep(n / 10) + seq![dec_digit((n % 10) as int)]
    }
}

fn dec_digit_char(n: u32) -> (c: char)
    requires
        n < 10,
    ensures
        c == dec_digit(n as int),
{
    match n {
        0 => '0',
        1 => '1',
        2 => '2',
        3 => '3',
        4 => '4',
        5 => '5',
        6 => '6',
        7 => '7',
        8 => '8',
        _ => '9',
    }
}

/// Appends the decimal rendering of `n` to `s`.
pub fn push_decimal(s: &mut String, n: u32)
    ensures
        final(s)@ == old(s)@ + decimal_rep(n as nat),
    decreases n,
{
    if n < 10 {
        push_char(s, dec_digit_char(n));
    } else {
        push_decimal(s, n / 10);
        push_char(s, dec_digit_char(n % 10));
    }
}

pub open spec fn is_dec_char(c: char) -> bool {
    '0' <= c && c <= '9'
}

pub open spec fn dec_char_value(c: char) -> int {
    c as int - '0' as int
}

pub open spec fn all_dec_chars(s: Seq<char>) -> bool {
    forall|i: int| 0 <= i < s.len() ==> is_dec_char(#[trigger] s[i])
}

/// The numeric value of a digit string (most significant digit first).
pub open spec fn dec_value(s: Seq<char>) -> int
    decreases s.len(),
{
    if s.len() == 0 {
        0
    } else {
        dec_value(s.drop_last()) * 10 + dec_char_value(s.last())
    }
}

/// Decimal parsing of a `u32`: defined exactly on nonempty digit strings
/// whose value fits; leading zeros are accepted.
pub open spec fn parse_u32_spec(s: Seq<char>) -> Option<u32> {
    if s.len() > 0 && all_dec_chars(s) && dec_value(s) <= u32::MAX {
        Some(dec_value(s) as u32)
    } else {
        None
    }
}

proof fn lemma_dec_value_nonneg(s: Seq<char>)
    requires
        all_dec_chars(s),
    ensures
        dec_value(s) >= 0,
    decreases s.len(),
{
    if s.len() > 0 {
        assert(all_dec_chars(s.drop_last())) by {
            assert forall|i: int| 0 <= i < s.len() - 1 implies is_dec_char(#[trigger] s.drop_last()[i]) by {
                assert(s.drop_last()[i] == s[i]);
            }
        }
        lemma_dec_value_nonneg(s.drop_last());
    }
}

/// Once a digit-string prefix exceeds `u32::MAX`, every all-digit extension
/// does too.
proof fn lemma_dec_value_grows(s: Seq<char>, i: int)
    requires
        0 <= i < s.len(),
        all_dec_chars(s.take(i + 1)),
        dec_value(s.take(i + 1)) > u32::MAX,
    ensures
        all_dec_chars(s) ==> dec_value(s) > u32::MAX,
    decreases s.len() - i,
{
    if all_dec_chars(s) {
        if i + 1 == s.len() {
            assert(s.take(i + 1) == s);
        } else {
            let t = s.take(i + 2);
            assert(all_dec_chars(t)) by {
                assert forall|k: int| 0 <= k < t.len() implies is_dec_char(#[trigger] t[k]) by {
                    assert(t[k] == s[k]);
                }
            }
            assert(t.drop_last() =~= s.take(i + 1));
            assert(dec_value(t) == dec_value(s.take(i + 1)) * 10 + dec_char_value(t.last()));
            assert(dec_char_value(t.last()) >= 0);
            assert(dec_value(s.take(i + 1)) * 10 > u32::MAX) by (nonlinear_arith)
                requires dec_value(s.take(i + 1)) > u32::MAX;
            lemma_dec_value_grows(s, i + 1);
        }
    }
}

/// Parses a decimal `u32`; rejects the empty string, any non-digit
/// character, and values above `u32::MAX`.
pub fn parse_u32(s: &str) -> (r: Option<u32>)
    ensures
        r == parse_u32_spec(s@),
{
    let n = s.unicode_len();
    if n == 0 {
        return None;
    }
    let mut acc: u32 = 0;
    let mut i: usize = 0;
    while i < n
        invariant
            n == s@.len(),
            i <= n,
            all_dec_chars(s@.take(i as int)),
            acc == dec_value(s@.take(i as int)),
        decreases n - i,
    {
        let c = s.get_char(i);
        if !('0' <= c && c <= '9') {
            return None;
        }
        let d: u32 = (c as u32) - ('0' as u32);
        proof {
            let t1 = s@.take(i + 1);
            assert(t1.drop_last() =~= s@.take(i as int));
            assert forall|k: int| 0 <= k < t1.len() implies is_dec_char(#[trigger] t1[k]) by {
                if k < i {
                    assert(t1[k] == s@.take(i as int)[k]);
                }
            }
        }
        let next = match acc.checked_mul(10) {
            Some(m) => m.checked_add(d),
            None => None,
        };
        match next {
            Some(v) => {
                acc = v;
            }
            None => {
                proof {
                    assert(dec_value(s@.take(i + 1)) > u32::MAX);
                    lemma_dec_value_grows(s@, i as int);
                    assert(s@.take(n as int) == s@);
                }
                return None;
            }
        }
        i = i + 1;
    }
    proof {
        assert(s@.take(n as int) == s@);
    }
    Some(acc)
}

} // verus!
