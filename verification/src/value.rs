use vstd::prelude::*;

verus! {

/// An exact decimal number: the value is `m * 10^e`.
///
/// Decoded register values are decimals, never binary floats: a register's
/// scale is a power of ten, so the adjusted value of an integer register is
/// exactly representable this way, and float registers are converted to a
/// decimal approximation before scaling.
#[derive(Clone, Copy, Debug, PartialEq, Eq, Structural)]
pub struct Dec {
    pub m: i128,
    pub e: i16,
}

/// A decoded register value, as published over MQTT: a bare JSON scalar,
/// string or array. Strings are held as UTF-8 bytes. Arrays only ever hold
/// numbers (or null, where one element could not be represented).
#[derive(Clone, Debug, PartialEq, Eq)]
pub enum RegisterValue {
    Null,
    Num(Dec),
    Str(Vec<u8>),
    Arr(Vec<Option<Dec>>),
}

/// The mathematical model of a `RegisterValue`.
pub enum RegisterValueV {
    Null,
    Num(Dec),
    Str(Seq<u8>),
    Arr(Seq<Option<Dec>>),
}

impl View for RegisterValue {
    type V = RegisterValueV;

    open spec fn view(&self) -> RegisterValueV {
        match self {
            RegisterValue::Null => RegisterValueV::Null,
            RegisterValue::Num(d) => RegisterValueV::Num(*d),
            RegisterValue::Str(s) => RegisterValueV::Str(s@),
            RegisterValue::Arr(a) => RegisterValueV::Arr(a@),
        }
    }
}

/// `10^e`.
pub open spec fn pow10(e: nat) -> nat
    decreases e,
{
    if e == 0 {
        1
    } else {
        10 * pow10((e - 1) as nat)
    }
}

pub proof fn lemma_pow10_positive(e: nat)
    ensures
        pow10(e) >= 1,
    decreases e,
{
    if e > 0 {
        lemma_pow10_positive((e - 1) as nat);
    }
}

pub proof fn lemma_pow10_increases(a: nat, b: nat)
    requires
        a <= b,
    ensures
        pow10(a) <= pow10(b),
    decreases b,
{
    if a < b {
        lemma_pow10_increases(a, (b - 1) as nat);
        lemma_pow10_positive((b - 1) as nat);
    }
}

/// `10^e` in a `u128`, or `None` where it does not fit.
pub fn pow10_u128(e: u32) -> (r: Option<u128>)
    ensures
        match r {
            Some(p) => p == pow10(e as nat),
            None => pow10(e as nat) > u128::MAX,
        },
{
    let mut acc: u128 = 1;
    let mut i: u32 = 0;
    while i < e
        invariant
            i <= e,
            acc == pow10(i as nat),
        decreases e - i,
    {
        if acc > u128::MAX / 10 {
            proof {
                lemma_pow10_increases((i + 1) as nat, e as nat);
                assert(pow10((i + 1) as nat) == 10 * pow10(i as nat));
            }
            return None;
        }
        acc = acc * 10;
        i = i + 1;
    }
    Some(acc)
}

/// The decimal digits of `n`, most significant first, as ASCII bytes.
pub open spec fn dec_digits(n: nat) -> Seq<u8>
    decreases n,
{
    if n < 10 {
        seq![(48 + n) as u8]
    } else {
        dec_digits(n / 10).push((48 + n % 10) as u8)
    }
}

pub proof fn lemma_dec_digits_len(n: nat, k: nat)
    requires
        n < pow10(k),
        k >= 1,
    ensures
        dec_digits(n).len() <= k,
    decreases k,
{
    if n >= 10 {
        assert(pow10(k) == 10 * pow10((k - 1) as nat));
        lemma_dec_digits_len(n / 10, (k - 1) as nat);
    }
}

/// The digits of `n`, zero-padded on the left to at least `k` digits.
pub open spec fn padded_digits(n: nat, k: nat) -> Seq<u8> {
    let d = dec_digits(n);
    if d.len() >= k {
        d
    } else {
        zero_bytes((k - d.len()) as nat) + d
    }
}

pub open spec fn zero_bytes(n: nat) -> Seq<u8>
    decreases n,
{
    if n == 0 {
        Seq::empty()
    } else {
        zero_bytes((n - 1) as nat).push(48u8)
    }
}

/// The JSON text of the decimal `d`: an optional minus sign, the integer
/// digits, and for a negative exponent a point followed by exactly `-e`
/// fractional digits (trailing zeros kept, as exact decimal arithmetic
/// produces them).
pub open spec fn dec_text(d: Dec) -> Seq<u8> {
    let sign: Seq<u8> = if d.m < 0 {
        seq![45u8]
    } else {
        Seq::empty()
    };
    let mag = abs_m(d.m);
    if d.e >= 0 {
        sign + dec_digits(mag) + zero_bytes(d.e as nat)
    } else {
        let k = (-d.e) as nat;
        sign + dec_digits(mag / pow10(k)) + seq![46u8] + padded_digits(mag % pow10(k), k)
    }
}

pub open spec fn abs_m(m: i128) -> nat {
    if m < 0 {
        (-(m as int)) as nat
    } else {
        m as nat
    }
}

/// The decimal digits of `n`, most significant first.
pub fn digits_u128(n: u128) -> (r: Vec<u8>)
    ensures
        r@ == dec_digits(n as nat),
    decreases n,
{
    if n < 10 {
        let mut v: Vec<u8> = Vec::new();
        v.push(48 + (n as u8));
        v
    } else {
        let mut v = digits_u128(n / 10);
        v.push(48 + ((n % 10) as u8));
        v
    }
}

pub fn magnitude_i128(m: i128) -> (r: u128)
    ensures
        r == abs_m(m),
{
    if m >= 0 {
        m as u128
    } else if m == i128::MIN {
        0x8000_0000_0000_0000_0000_0000_0000_0000u128
    } else {
        (-m) as u128
    }
}

fn push_zeros(out: &mut Vec<u8>, n: usize)
    ensures
        final(out)@ == old(out)@ + zero_bytes(n as nat),
{
    let mut i: usize = 0;
    while i < n
        invariant
            i <= n,
            out@ == old(out)@ + zero_bytes(i as nat),
        decreases n - i,
    {
        out.push(48);
        i = i + 1;
    }
}

/// Appends the JSON text of the decimal `d` to `out`.
#[verifier::rlimit(60)]
pub fn push_dec_text(out: &mut Vec<u8>, d: Dec)
    ensures
        final(out)@ == old(out)@ + dec_text(d),
{
    if d.m < 0 {
        out.push(45);
    }
    let mag = magnitude_i128(d.m);
    if d.e >= 0 {
        let mut digits = digits_u128(mag);
        out.append(&mut digits);
        push_zeros(out, d.e as usize);
        proof {
            assert(out@ =~= old(out)@ + dec_text(d));
        }
    } else {
        let k: u32 = if d.e == i16::MIN {
            32768
        } else {
            (-d.e) as u32
        };
        let (ip, fp): (u128, u128) = match pow10_u128(k) {
            Some(p) => {
                proof {
                    lemma_pow10_positive(k as nat);
                }
                (mag / p, mag % p)
            },
            None => {
                // 10^k exceeds u128::MAX >= mag, so the integer part is zero.
                proof {
                    lemma_pow10_mod_small(mag as nat, k as nat);
                }
                (0, mag)
            },
        };
        let mut digits = digits_u128(ip);
        out.append(&mut digits);
        out.push(46);
        let mut frac = digits_u128(fp);
        proof {
            lemma_pow10_positive(k as nat);
            lemma_dec_digits_len(fp as nat, k as nat);
        }
        if frac.len() < k as usize {
            push_zeros(out, (k as usize) - frac.len());
        }
        out.append(&mut frac);
        proof {
            assert(padded_digits(fp as nat, k as nat) == if dec_digits(fp as nat).len() >= k as nat {
                dec_digits(fp as nat)
            } else {
                zero_bytes((k as nat - dec_digits(fp as nat).len()) as nat) + dec_digits(fp as nat)
            });
            assert(out@ =~= old(out)@ + dec_text(d));
        }
    }
}

/// How one byte of a string is written inside a JSON string literal:
/// quote and backslash are escaped, control bytes get their short escape or
/// a `\u00..` escape, everything else (multi-byte UTF-8 included) passes
/// through.
pub open spec fn esc_byte(b: u8) -> Seq<u8> {
    if b == 34 {
        seq![92u8, 34u8]
    } else if b == 92 {
        seq![92u8, 92u8]
    } else if b == 8 {
        seq![92u8, 98u8]
    } else if b == 9 {
        seq![92u8, 116u8]
    } else if b == 10 {
        seq![92u8, 110u8]
    } else if b == 12 {
        seq![92u8, 102u8]
    } else if b == 13 {
        seq![92u8, 114u8]
    } else if b < 32 {
        seq![92u8, 117u8, 48u8, 48u8, hex_digit((b / 16) as nat), hex_digit((b % 16) as nat)]
    } else {
        seq![b]
    }
}

pub open spec fn hex_digit(d: nat) -> u8 {
    if d < 10 {
        (48 + d) as u8
    } else {
        (87 + d) as u8
    }
}

pub open spec fn escaped_bytes(s: Seq<u8>) -> Seq<u8>
    decreases s.len(),
{
    if s.len() == 0 {
        Seq::empty()
    } else {
        escaped_bytes(s.drop_last()) + esc_byte(s.last())
    }
}

pub fn push_escaped(out: &mut Vec<u8>, s: &[u8])
    ensures
        final(out)@ == old(out)@ + escaped_bytes(s@),
{
    let n = s.len();
    let mut i: usize = 0;
    while i < n
        invariant
            i <= n,
            n == s@.len(),
            out@ == old(out)@ + escaped_bytes(s@.take(i as int)),
        decreases n - i,
    {
        let b = s[i];
        if b == 34 {
            out.push(92);
            out.push(34);
        } else if b == 92 {
            out.push(92);
            out.push(92);
        } else if b == 8 {
            out.push(92);
            out.push(98);
        } else if b == 9 {
            out.push(92);
            out.push(116);
        } else if b == 10 {
            out.push(92);
            out.push(110);
        } else if b == 12 {
            out.push(92);
            out.push(102);
        } else if b == 13 {
            out.push(92);
            out.push(114);
        } else if b < 32 {
            out.push(92);
            out.push(117);
            out.push(48);
            out.push(48);
            out.push(if b / 16 < 10 { 48 + b / 16 } else { 87 + b / 16 });
            out.push(if b % 16 < 10 { 48 + b % 16 } else { 87 + b % 16 });
        } else {
            out.push(b);
        }
        proof {
            assert(s@.take(i + 1).drop_last() =~= s@.take(i as int));
            assert(s@.take(i + 1).last() == s@[i as int]);
            assert(out@ =~= old(out)@ + escaped_bytes(s@.take(i + 1)));
        }
        i = i + 1;
    }
    proof {
        assert(s@.take(n as int) =~= s@);
    }
}

/// The JSON text `null`.
pub open spec fn null_text() -> Seq<u8> {
    seq![110u8, 117u8, 108u8, 108u8]
}

/// The JSON text of one array element.
pub open spec fn item_text(it: Option<Dec>) -> Seq<u8> {
    match it {
        Some(d) => dec_text(d),
        None => null_text(),
    }
}

/// The comma-separated JSON texts of the array elements.
pub open spec fn arr_items_text(items: Seq<Option<Dec>>) -> Seq<u8>
    decreases items.len(),
{
    if items.len() == 0 {
        Seq::empty()
    } else if items.len() == 1 {
        item_text(items[0])
    } else {
        arr_items_text(items.drop_last()) + seq![44u8] + item_text(items.last())
    }
}

/// The JSON text of a decoded value: exactly what is published for it.
pub open spec fn json_text(v: RegisterValueV) -> Seq<u8> {
    match v {
        RegisterValueV::Null => null_text(),
        RegisterValueV::Num(d) => dec_text(d),
        RegisterValueV::Str(s) => seq![34u8] + escaped_bytes(s) + seq![34u8],
        RegisterValueV::Arr(a) => seq![91u8] + arr_items_text(a) + seq![93u8],
    }
}

fn push_null(out: &mut Vec<u8>)
    ensures
        final(out)@ == old(out)@ + null_text(),
{
    out.push(110);
    out.push(117);
    out.push(108);
    out.push(108);
    proof {
        assert(out@ =~= old(out)@ + null_text());
    }
}

impl RegisterValue {
    /// Serializes the value as JSON text.
    pub fn to_json_bytes(&self) -> (r: Vec<u8>)
        ensures
            r@ == json_text(self@),
    {
        let mut out: Vec<u8> = Vec::new();
        match self {
            RegisterValue::Null => {
                push_null(&mut out);
            },
            RegisterValue::Num(d) => {
                push_dec_text(&mut out, *d);
            },
            RegisterValue::Str(s) => {
                out.push(34);
                push_escaped(&mut out, s.as_slice());
                out.push(34);
                proof {
                    assert(out@ =~= json_text(self@));
                }
            },
            RegisterValue::Arr(items) => {
                out.push(91);
                let n = items.len();
                let mut i: usize = 0;
                while i < n
                    invariant
                        i <= n,
                        n == items@.len(),
                        out@ == seq![91u8] + arr_items_text(items@.take(i as int)),
                    decreases n - i,
                {
                    if i > 0 {
                        out.push(44);
                    }
                    match &items[i] {
                        Some(d) => push_dec_text(&mut out, *d),
                        None => push_null(&mut out),
                    }
                    proof {
                        assert(items@.take(i + 1).drop_last() =~= items@.take(i as int));
                        assert(items@.take(i + 1).last() == items@[i as int]);
                        assert(out@ =~= seq![91u8] + arr_items_text(items@.take(i + 1)));
                    }
                    i = i + 1;
                }
                out.push(93);
                proof {
                    assert(items@.take(n as int) =~= items@);
                    assert(out@ =~= json_text(self@));
                }
            },
        }
        out
    }
}

/// What `String::from_utf8_lossy` returns for the given bytes, as UTF-8
/// bytes again: a function of the input bytes alone.
pub uninterp spec fn utf8_lossy_of(bytes: Seq<u8>) -> Seq<u8>;

/// Relies on `String::from_utf8_lossy`: the result depends on the bytes
/// alone, is valid UTF-8, and leaves bytes that already are valid UTF-8
/// unchanged.
#[verifier::external_body]
pub fn utf8_lossy(bytes: &[u8]) -> (r: Vec<u8>)
    ensures
        r@ == utf8_lossy_of(bytes@),
        vstd::utf8::valid_utf8(bytes@) ==> r@ == bytes@,
        vstd::utf8::valid_utf8(r@),
{
    String::from_utf8_lossy(bytes).into_owned().into_bytes()
}

proof fn lemma_pow10_mod_small(n: nat, k: nat)
    requires
        n < pow10(k),
    ensures
        n / pow10(k) == 0,
        n % pow10(k) == n,
{
    lemma_pow10_positive(k);
    vstd::arithmetic::div_mod::lemma_basic_div(n as int, pow10(k) as int);
    vstd::arithmetic::div_mod::lemma_small_mod(n, pow10(k));
}

} // verus!
