use vstd::prelude::*;

use crate::value::{
    pow10, Dec, lemma_pow10_positive, lemma_pow10_increases,
};

verus! {

/// Whether a register is read-only (`input`) or read/write (`holding`).
#[derive(Clone, Copy, Debug, PartialEq, Eq, Structural)]
pub enum RegisterType {
    Input,
    Holding,
}

impl Default for RegisterType {
    fn default() -> (r: Self)
        ensures
            r == RegisterType::Input,
    {
        RegisterType::Input
    }
}

/// The numeric adjustment of a register: the decoded raw value is scaled by
/// `10^scale` and then shifted by `offset`.
#[derive(Clone, Copy, Debug, PartialEq, Eq, Structural)]
pub struct RegisterNumericAdjustment {
    pub scale: i8,
    pub offset: i8,
}

impl Default for RegisterNumericAdjustment {
    fn default() -> (r: Self)
        ensures
            r == (RegisterNumericAdjustment { scale: 0, offset: 0 }),
    {
        RegisterNumericAdjustment { scale: 0, offset: 0 }
    }
}

/// The numeric value types a register can decode to.
#[derive(Clone, Copy, Debug, PartialEq, Eq, Structural)]
pub enum RegisterNumeric {
    U8,
    U16,
    U32,
    U64,
    I8,
    I16,
    I32,
    I64,
    F32,
    F64,
}

impl Default for RegisterNumeric {
    fn default() -> (r: Self)
        ensures
            r == RegisterNumeric::U16,
    {
        RegisterNumeric::U16
    }
}

impl RegisterNumeric {
    /// How many 16-bit words the type occupies.
    pub open spec fn spec_size(&self) -> int {
        match self {
            RegisterNumeric::U8 | RegisterNumeric::I8 => 1,
            RegisterNumeric::U16 | RegisterNumeric::I16 => 1,
            RegisterNumeric::U32 | RegisterNumeric::I32 | RegisterNumeric::F32 => 2,
            RegisterNumeric::U64 | RegisterNumeric::I64 | RegisterNumeric::F64 => 4,
        }
    }

    /// The number of registers to read for this type (each register holds
    /// one 16-bit word).
    pub fn size(&self) -> (r: u8)
        ensures
            r as int == self.spec_size(),
    {
        match self {
            RegisterNumeric::U8 | RegisterNumeric::I8 => 1,
            RegisterNumeric::U16 | RegisterNumeric::I16 => 1,
            RegisterNumeric::U32 | RegisterNumeric::I32 | RegisterNumeric::F32 => 2,
            RegisterNumeric::U64 | RegisterNumeric::I64 | RegisterNumeric::F64 => 4,
        }
    }

    pub open spec fn spec_type_label(&self) -> Seq<char> {
        match self {
            RegisterNumeric::U8 => "u8"@,
            RegisterNumeric::U16 => "u16"@,
            RegisterNumeric::U32 => "u32"@,
            RegisterNumeric::U64 => "u64"@,
            RegisterNumeric::I8 => "i8"@,
            RegisterNumeric::I16 => "i16"@,
            RegisterNumeric::I32 => "i32"@,
            RegisterNumeric::I64 => "i64"@,
            RegisterNumeric::F32 => "f32"@,
            RegisterNumeric::F64 => "f64"@,
        }
    }

    /// The lowercase name of the type.
    pub fn type_label(&self) -> (r: String)
        ensures
            r@ == self.spec_type_label(),
    {
        match self {
            RegisterNumeric::U8 => "u8".to_owned(),
            RegisterNumeric::U16 => "u16".to_owned(),
            RegisterNumeric::U32 => "u32".to_owned(),
            RegisterNumeric::U64 => "u64".to_owned(),
            RegisterNumeric::I8 => "i8".to_owned(),
            RegisterNumeric::I16 => "i16".to_owned(),
            RegisterNumeric::I32 => "i32".to_owned(),
            RegisterNumeric::I64 => "i64".to_owned(),
            RegisterNumeric::F32 => "f32".to_owned(),
            RegisterNumeric::F64 => "f64".to_owned(),
        }
    }

    pub open spec fn is_float(&self) -> bool {
        self is F32 || self is F64
    }

    pub open spec fn is_signed(&self) -> bool {
        self is I8 || self is I16 || self is I32 || self is I64
    }
}

/// A string-valued register: `length` is the number of 16-bit words read.
#[derive(Clone, Copy, Debug, PartialEq, Eq, Structural)]
pub struct RegisterString {
    pub length: u8,
}

/// An array-valued register: `count` consecutive numerics of type `of`,
/// each adjusted by `adjust`.
#[derive(Clone, Copy, Debug, PartialEq, Eq, Structural)]
pub struct RegisterArray {
    pub count: u8,
    pub of: RegisterNumeric,
    pub adjust: RegisterNumericAdjustment,
}

impl Default for RegisterArray {
    fn default() -> (r: Self)
        ensures
            r == (RegisterArray {
                count: 1,
                of: RegisterNumeric::U16,
                adjust: RegisterNumericAdjustment { scale: 0, offset: 0 },
            }),
    {
        RegisterArray {
            count: 1,
            of: RegisterNumeric::U16,
            adjust: RegisterNumericAdjustment { scale: 0, offset: 0 },
        }
    }
}

/// What a register's words decode to: a single numeric, an array of
/// numerics, or a string.
#[derive(Clone, Copy, Debug, PartialEq, Eq, Structural)]
pub enum RegisterValueType {
    Numeric { of: RegisterNumeric, adjust: RegisterNumericAdjustment },
    Array(RegisterArray),
    String(RegisterString),
}

impl Default for RegisterValueType {
    fn default() -> (r: Self)
        ensures
            r == (RegisterValueType::Numeric {
                of: RegisterNumeric::U16,
                adjust: RegisterNumericAdjustment { scale: 0, offset: 0 },
            }),
    {
        RegisterValueType::Numeric {
            of: RegisterNumeric::U16,
            adjust: RegisterNumericAdjustment { scale: 0, offset: 0 },
        }
    }
}

impl RegisterValueType {
    /// How many 16-bit words this value type reads.
    pub open spec fn spec_size(&self) -> int {
        match self {
            RegisterValueType::Numeric { of, .. } => of.spec_size(),
            RegisterValueType::String(s) => s.length as int,
            RegisterValueType::Array(a) => a.of.spec_size() * a.count as int,
        }
    }

    /// A parse spec is well formed when its size fits the Modbus limit of
    /// 125 sequentially read registers.
    pub open spec fn wf(&self) -> bool {
        self.spec_size() <= 125
    }

    pub fn size(&self) -> (r: u8)
        requires
            self.wf(),
        ensures
            r as int == self.spec_size(),
    {
        match self {
            RegisterValueType::Numeric { of, .. } => of.size(),
            RegisterValueType::String(s) => s.length,
            RegisterValueType::Array(a) => {
                proof {
                    if a.count > 0 {
                        assert(a.of.spec_size() * a.count as int >= a.of.spec_size() * 1)
                            by (nonlinear_arith)
                            requires a.count as int >= 1, a.of.spec_size() >= 0,
                        ;
                    }
                }
                a.of.size() * a.count
            },
        }
    }

    pub open spec fn spec_type_label(&self) -> Seq<char> {
        match self {
            RegisterValueType::Numeric { of, .. } => of.spec_type_label(),
            RegisterValueType::Array(_) => "array"@,
            RegisterValueType::String(_) => "string"@,
        }
    }

    /// The name of the value type, as it appears in configuration.
    pub fn type_label(&self) -> (r: String)
        ensures
            r@ == self.spec_type_label(),
    {
        match self {
            RegisterValueType::Numeric { of, .. } => of.type_label(),
            RegisterValueType::Array(_) => "array".to_owned(),
            RegisterValueType::String(_) => "string".to_owned(),
        }
    }
}

/// Whether a byte or word swap is applied.
#[derive(Clone, Copy, Debug, PartialEq, Eq, Structural)]
pub struct Swap(pub bool);

impl Default for Swap {
    fn default() -> (r: Self)
        ensures
            r == Swap(false),
    {
        Swap(false)
    }
}

/// A full parse spec: the optional swaps and the value type.
#[derive(Clone, Copy, Debug, PartialEq, Eq, Structural)]
pub struct RegisterParse {
    pub swap_bytes: Swap,
    pub swap_words: Swap,
    pub value_type: RegisterValueType,
}

impl Default for RegisterParse {
    fn default() -> (r: Self)
        ensures
            r == (RegisterParse {
                swap_bytes: Swap(false),
                swap_words: Swap(false),
                value_type: RegisterValueType::Numeric {
                    of: RegisterNumeric::U16,
                    adjust: RegisterNumericAdjustment { scale: 0, offset: 0 },
                },
            }),
    {
        RegisterParse {
            swap_bytes: Swap(false),
            swap_words: Swap(false),
            value_type: RegisterValueType::Numeric {
                of: RegisterNumeric::U16,
                adjust: RegisterNumericAdjustment { scale: 0, offset: 0 },
            },
        }
    }
}

// ---------------------------------------------------------------------------
// Words and bytes
// ---------------------------------------------------------------------------

pub open spec fn word_hi(w: u16) -> u8 {
    (w / 256) as u8
}

pub open spec fn word_lo(w: u16) -> u8 {
    (w % 256) as u8
}

/// Each 16-bit word as its two bytes, most significant first (the Modbus
/// wire convention).
pub open spec fn bytes_of_words(ws: Seq<u16>) -> Seq<u8> {
    Seq::new(
        ws.len() * 2,
        |i: int|
            if i % 2 == 0 {
                word_hi(ws[i / 2])
            } else {
                word_lo(ws[i / 2])
            },
    )
}

/// The bytes of the words, most significant byte of each word first.
pub fn words_to_be_bytes(ws: &[u16]) -> (r: Vec<u8>)
    ensures
        r@ == bytes_of_words(ws@),
{
    let n = ws.len();
    let mut out: Vec<u8> = Vec::new();
    let mut i: usize = 0;
    while i < n
        invariant
            i <= n,
            n == ws@.len(),
            out@ == bytes_of_words(ws@.take(i as int)),
        decreases n - i,
    {
        let w = ws[i];
        out.push((w / 256) as u8);
        out.push((w % 256) as u8);
        proof {
            assert(out@ =~= bytes_of_words(ws@.take(i + 1)));
        }
        i = i + 1;
    }
    proof {
        assert(ws@.take(n as int) =~= ws@);
    }
    out
}

/// `256^n`.
pub open spec fn pow256(n: nat) -> nat
    decreases n,
{
    if n == 0 {
        1
    } else {
        256 * pow256((n - 1) as nat)
    }
}

/// The big-endian unsigned integer held in the bytes.
pub open spec fn be_uint(bs: Seq<u8>) -> nat
    decreases bs.len(),
{
    if bs.len() == 0 {
        0
    } else {
        be_uint(bs.drop_last()) * 256 + bs.last() as nat
    }
}

/// The big-endian two's-complement signed integer held in the bytes.
pub open spec fn be_sint(bs: Seq<u8>) -> int {
    if 2 * be_uint(bs) >= pow256(bs.len()) {
        be_uint(bs) - pow256(bs.len())
    } else {
        be_uint(bs) as int
    }
}

pub proof fn lemma_be_uint_bound(bs: Seq<u8>)
    ensures
        be_uint(bs) < pow256(bs.len()),
    decreases bs.len(),
{
    if bs.len() > 0 {
        lemma_be_uint_bound(bs.drop_last());
    }
}

proof fn lemma_pow256_increases(a: nat, b: nat)
    requires
        a <= b,
    ensures
        pow256(a) <= pow256(b),
    decreases b,
{
    if a < b {
        lemma_pow256_increases(a, (b - 1) as nat);
    }
}

proof fn lemma_pow256_values()
    ensures
        pow256(1) == 0x100,
        pow256(2) == 0x1_0000,
        pow256(3) == 0x100_0000,
        pow256(4) == 0x1_0000_0000,
        pow256(5) == 0x100_0000_0000,
        pow256(6) == 0x1_0000_0000_0000,
        pow256(7) == 0x100_0000_0000_0000,
        pow256(8) == 0x1_0000_0000_0000_0000,
{
    assert(pow256(0) == 1);
    assert(pow256(1) == 0x100);
    assert(pow256(2) == 0x1_0000);
    assert(pow256(3) == 0x100_0000);
    assert(pow256(4) == 0x1_0000_0000);
    assert(pow256(5) == 0x100_0000_0000);
    assert(pow256(6) == 0x1_0000_0000_0000);
    assert(pow256(7) == 0x100_0000_0000_0000);
    assert(pow256(8) == 0x1_0000_0000_0000_0000);
}

/// Reads up to eight bytes as a big-endian unsigned integer.
pub fn be_uint_u64(bs: &[u8]) -> (r: u64)
    requires
        bs@.len() <= 8,
    ensures
        r == be_uint(bs@),
{
    let n = bs.len();
    let mut acc: u64 = 0;
    let mut i: usize = 0;
    while i < n
        invariant
            i <= n,
            n == bs@.len(),
            n <= 8,
            acc == be_uint(bs@.take(i as int)),
        decreases n - i,
    {
        proof {
            lemma_be_uint_bound(bs@.take(i as int));
            lemma_pow256_increases((i + 1) as nat, 8);
            lemma_pow256_values();
            assert(acc * 256 + 255 < pow256((i + 1) as nat)) by (nonlinear_arith)
                requires
                    acc < pow256(i as nat),
                    pow256((i + 1) as nat) == 256 * pow256(i as nat),
            ;
            assert(bs@.take(i + 1).drop_last() =~= bs@.take(i as int));
        }
        acc = acc * 256 + (bs[i] as u64);
        i = i + 1;
    }
    proof {
        assert(bs@.take(n as int) =~= bs@);
    }
    acc
}

/// Reads up to eight bytes as a big-endian two's-complement integer.
pub fn be_sint_i128(bs: &[u8]) -> (r: i128)
    requires
        1 <= bs@.len() <= 8,
    ensures
        r == be_sint(bs@),
{
    let n = bs.len();
    let u = be_uint_u64(bs);
    proof {
        lemma_be_uint_bound(bs@);
        lemma_pow256_increases(bs@.len(), 8);
        lemma_pow256_values();
    }
    let half: u128 = {
        let mut h: u128 = 128;
        let mut k: usize = 1;
        while k < n
            invariant
                1 <= k <= n,
                n <= 8,
                2 * (h as nat) == pow256(k as nat),
            decreases n - k,
        {
            proof {
                lemma_pow256_values();
                lemma_pow256_increases(k as nat, 7);
            }
            h = h * 256;
            k = k + 1;
        }
        h
    };
    if (u as u128) >= half {
        (u as i128) - 2 * (half as i128)
    } else {
        u as i128
    }
}

// ---------------------------------------------------------------------------
// Decimal adjustment
// ---------------------------------------------------------------------------

/// The adjusted value `d * 10^scale + offset`, written as an exact decimal
/// whose exponent is never positive, or `None` where the mantissa would not
/// fit a signed 128-bit integer.
pub open spec fn spec_adjusted(d: Dec, scale: i8, offset: i8) -> Option<Dec> {
    let t = d.e + scale;
    if t >= 0 {
        if d.m == 0 {
            Some(Dec { m: offset as i128, e: 0 })
        } else {
            let p = pow10(t as nat);
            let prod = d.m * p;
            let m = prod + offset;
            if p <= i128::MAX && i128::MIN <= prod <= i128::MAX && i128::MIN <= m <= i128::MAX {
                Some(Dec { m: m as i128, e: 0 })
            } else {
                None
            }
        }
    } else {
        if offset == 0 {
            Some(Dec { m: d.m, e: t as i16 })
        } else {
            let q = pow10((-t) as nat);
            let add = (offset as int) * q;
            let m = d.m + add;
            if q <= i128::MAX && i128::MIN <= add <= i128::MAX && i128::MIN <= m <= i128::MAX {
                Some(Dec { m: m as i128, e: t as i16 })
            } else {
                None
            }
        }
    }
}

/// Applies scale and offset to a decoded decimal.
pub fn adjust_dec(d: Dec, scale: i8, offset: i8) -> (r: Option<Dec>)
    requires
        -32000 <= d.e <= 0,
    ensures
        r == spec_adjusted(d, scale, offset),
{
    let t: i32 = (d.e as i32) + (scale as i32);
    if t >= 0 {
        if d.m == 0 {
            Some(Dec { m: offset as i128, e: 0 })
        } else {
            match pow10_u128_to_i128(t as u32) {
                Some(p) => match d.m.checked_mul(p) {
                    Some(prod) => match prod.checked_add(offset as i128) {
                        Some(m) => Some(Dec { m, e: 0 }),
                        None => None,
                    },
                    None => None,
                },
                None => None,
            }
        }
    } else {
        if offset == 0 {
            Some(Dec { m: d.m, e: t as i16 })
        } else {
            match pow10_u128_to_i128((-t) as u32) {
                Some(q) => match (offset as i128).checked_mul(q) {
                    Some(add) => match d.m.checked_add(add) {
                        Some(m) => Some(Dec { m, e: t as i16 }),
                        None => None,
                    },
                    None => None,
                },
                None => None,
            }
        }
    }
}

/// `10^e` as an `i128`, or `None` where it exceeds `i128::MAX`.
fn pow10_u128_to_i128(e: u32) -> (r: Option<i128>)
    ensures
        match r {
            Some(p) => p == pow10(e as nat) && pow10(e as nat) <= u128::MAX,
            None => pow10(e as nat) > i128::MAX,
        },
{
    match crate::value::pow10_u128(e) {
        Some(p) => {
            if p <= i128::MAX as u128 {
                Some(p as i128)
            } else {
                None
            }
        },
        None => None,
    }
}



// ---------------------------------------------------------------------------
// Swaps
// ---------------------------------------------------------------------------

/// The word with its two bytes exchanged.
pub open spec fn swapped_word(w: u16) -> u16 {
    ((w % 256) * 256 + w / 256) as u16
}

/// Every word's bytes exchanged.
pub open spec fn spec_swap_bytes(ws: Seq<u16>) -> Seq<u16> {
    Seq::new(ws.len(), |i: int| swapped_word(ws[i]))
}

/// Adjacent word pairs exchanged; an odd trailing word stays in place, so
/// that a second application restores the input.
pub open spec fn spec_swap_words(ws: Seq<u16>) -> Seq<u16> {
    Seq::new(
        ws.len(),
        |i: int|
            if i % 2 == 0 {
                if i + 1 < ws.len() {
                    ws[i + 1]
                } else {
                    ws[i]
                }
            } else {
                ws[i - 1]
            },
    )
}

/// The words after the spec's swaps: first the byte swap within each word,
/// then the pairwise word swap.
pub open spec fn spec_apply_swaps(p: RegisterParse, ws: Seq<u16>) -> Seq<u16> {
    let a = if p.swap_bytes.0 {
        spec_swap_bytes(ws)
    } else {
        ws
    };
    if p.swap_words.0 {
        spec_swap_words(a)
    } else {
        a
    }
}

proof fn lemma_swapped_word_twice(w: u16)
    ensures
        swapped_word(swapped_word(w)) == w,
{
    broadcast use vstd::arithmetic::div_mod::lemma_fundamental_div_mod_converse_mod;
    broadcast use vstd::arithmetic::div_mod::lemma_fundamental_div_mod_converse_div;

    let s = swapped_word(w);
    assert((w % 256) * 256 + w / 256 == s);
    assert(s as int == (w % 256) * 256 + (w / 256));
    assert(s % 256 == w / 256);
    assert(s / 256 == w % 256);
    assert(w as int == (w / 256) * 256 + (w % 256));
    assert(w % 256 < 256 && w / 256 < 256);
}

/// Swapping the bytes of every word twice gives back the input.
pub proof fn lemma_swap_bytes_twice(ws: Seq<u16>)
    ensures
        spec_swap_bytes(spec_swap_bytes(ws)) == ws,
{
    assert forall|i: int| 0 <= i < ws.len() implies spec_swap_bytes(spec_swap_bytes(ws))[i]
        == ws[i] by {
        lemma_swapped_word_twice(ws[i]);
    }
    assert(spec_swap_bytes(spec_swap_bytes(ws)) =~= ws);
}

/// Swapping adjacent word pairs twice gives back the input.
pub proof fn lemma_swap_words_twice(ws: Seq<u16>)
    ensures
        spec_swap_words(spec_swap_words(ws)) == ws,
{
    assert(spec_swap_words(spec_swap_words(ws)) =~= ws);
}

fn apply_swaps_exec(p: &RegisterParse, words: &[u16]) -> (r: Vec<u16>)
    ensures
        r@ == spec_apply_swaps(*p, words@),
{
    let n = words.len();
    let mut a: Vec<u16> = Vec::new();
    if p.swap_bytes.0 {
        let mut i: usize = 0;
        while i < n
            invariant
                i <= n,
                n == words@.len(),
                a@ == spec_swap_bytes(words@).take(i as int),
            decreases n - i,
        {
            let w = words[i];
            a.push((w % 256) * 256 + w / 256);
            proof {
                assert(a@ =~= spec_swap_bytes(words@).take(i + 1));
            }
            i = i + 1;
        }
        proof {
            assert(spec_swap_bytes(words@).take(n as int) =~= spec_swap_bytes(words@));
        }
    } else {
        let mut i: usize = 0;
        while i < n
            invariant
                i <= n,
                n == words@.len(),
                a@ == words@.take(i as int),
            decreases n - i,
        {
            a.push(words[i]);
            proof {
                assert(a@ =~= words@.take(i + 1));
            }
            i = i + 1;
        }
        proof {
            assert(words@.take(n as int) =~= words@);
        }
    }
    if p.swap_words.0 {
        let mut b: Vec<u16> = Vec::new();
        let mut i: usize = 0;
        while i < n
            invariant
                i <= n,
                n == a@.len(),
                a@ == if p.swap_bytes.0 { spec_swap_bytes(words@) } else { words@ },
                b@ == spec_swap_words(a@).take(i as int),
            decreases n - i,
        {
            let w = if i % 2 == 0 {
                if i + 1 < n {
                    a[i + 1]
                } else {
                    a[i]
                }
            } else {
                a[i - 1]
            };
            b.push(w);
            proof {
                assert(b@ =~= spec_swap_words(a@).take(i + 1));
            }
            i = i + 1;
        }
        proof {
            assert(spec_swap_words(a@).take(n as int) =~= spec_swap_words(a@));
        }
        b
    } else {
        a
    }
}

// ---------------------------------------------------------------------------
// Integer decoding
// ---------------------------------------------------------------------------

/// The raw integer a non-float numeric register holds, before adjustment:
/// the big-endian interpretation of the words' bytes, two's complement for
/// the signed types; the single-word byte types read the low byte.
pub open spec fn spec_int_raw(of: RegisterNumeric, ws: Seq<u16>) -> int
    recommends
        !of.is_float(),
        ws.len() == of.spec_size(),
{
    match of {
        RegisterNumeric::U8 => word_lo(ws[0]) as int,
        RegisterNumeric::I8 => be_sint(seq![word_lo(ws[0])]),
        RegisterNumeric::U16 | RegisterNumeric::U32 | RegisterNumeric::U64 => be_uint(
            bytes_of_words(ws),
        ) as int,
        _ => be_sint(bytes_of_words(ws)),
    }
}

/// A non-float numeric item after scale and offset.
pub open spec fn spec_int_item(
    of: RegisterNumeric,
    adjust: RegisterNumericAdjustment,
    ws: Seq<u16>,
) -> Option<Dec>
    recommends
        !of.is_float(),
        ws.len() == of.spec_size(),
{
    spec_adjusted(
        Dec { m: spec_int_raw(of, ws) as i128, e: 0 },
        adjust.scale,
        adjust.offset,
    )
}

proof fn lemma_int_raw_bounds(of: RegisterNumeric, ws: Seq<u16>)
    requires
        !of.is_float(),
        ws.len() == of.spec_size(),
    ensures
        -0x8000_0000_0000_0000 <= spec_int_raw(of, ws) < 0x1_0000_0000_0000_0000,
{
    lemma_pow256_values();
    match of {
        RegisterNumeric::U8 => {},
        RegisterNumeric::I8 => {
            lemma_be_uint_bound(seq![word_lo(ws[0])]);
        },
        RegisterNumeric::U16 | RegisterNumeric::U32 | RegisterNumeric::U64 => {
            lemma_be_uint_bound(bytes_of_words(ws));
            lemma_pow256_increases(bytes_of_words(ws).len(), 8);
        },
        _ => {
            lemma_be_uint_bound(bytes_of_words(ws));
            lemma_pow256_increases(bytes_of_words(ws).len(), 8);
        },
    }
}

fn decode_int_raw(of: &RegisterNumeric, words: &[u16]) -> (r: i128)
    requires
        !of.is_float(),
        words@.len() == of.spec_size(),
    ensures
        r as int == spec_int_raw(*of, words@),
{
    let bytes = words_to_be_bytes(words);
    proof {
        lemma_int_raw_bounds(*of, words@);
    }
    match of {
        RegisterNumeric::U8 => {
            proof {
                assert(bytes@[1] == word_lo(words@[0]));
            }
            bytes[1] as i128
        },
        RegisterNumeric::I8 => {
            let b = bytes[1];
            proof {
                assert(bytes@[1] == word_lo(words@[0]));
                assert(seq![b].drop_last() =~= Seq::<u8>::empty());
                assert(be_uint(Seq::<u8>::empty()) == 0);
                assert(be_uint(seq![b]) == b as nat);
                lemma_pow256_values();
            }
            if b >= 128 {
                (b as i128) - 256
            } else {
                b as i128
            }
        },
        RegisterNumeric::U16 | RegisterNumeric::U32 | RegisterNumeric::U64 => {
            be_uint_u64(bytes.as_slice()) as i128
        },
        _ => be_sint_i128(bytes.as_slice()),
    }
}

/// Decodes and adjusts one non-float numeric item.
pub fn decode_int_item(
    of: &RegisterNumeric,
    adjust: &RegisterNumericAdjustment,
    words: &[u16],
) -> (r: Option<Dec>)
    requires
        !of.is_float(),
        words@.len() == of.spec_size(),
    ensures
        r == spec_int_item(*of, *adjust, words@),
{
    proof {
        lemma_int_raw_bounds(*of, words@);
    }
    let raw = decode_int_raw(of, words);
    adjust_dec(Dec { m: raw, e: 0 }, adjust.scale, adjust.offset)
}

// ---------------------------------------------------------------------------
// Strings
// ---------------------------------------------------------------------------

/// The bytes with every trailing NUL removed.
pub open spec fn trim_trailing_nuls(s: Seq<u8>) -> Seq<u8>
    decreases s.len(),
{
    if s.len() > 0 && s.last() == 0 {
        trim_trailing_nuls(s.drop_last())
    } else {
        s
    }
}

proof fn lemma_trim_take(s: Seq<u8>, k: int)
    requires
        0 <= k <= s.len(),
        forall|j: int| k <= j < s.len() ==> s[j] == 0,
        k > 0 ==> s[k - 1] != 0,
    ensures
        trim_trailing_nuls(s) == s.take(k),
    decreases s.len(),
{
    if s.len() == k {
        assert(s.take(k) =~= s);
        if k > 0 {
            assert(s.last() == s[k - 1]);
        }
    } else {
        assert(s.last() == 0);
        lemma_trim_take(s.drop_last(), k);
        assert(s.drop_last().take(k) =~= s.take(k));
    }
}

fn trim_nuls(bytes: Vec<u8>) -> (r: Vec<u8>)
    ensures
        r@ == trim_trailing_nuls(bytes@),
{
    let mut k = bytes.len();
    while k > 0 && bytes[k - 1] == 0
        invariant
            k <= bytes@.len(),
            forall|j: int| k <= j < bytes@.len() ==> bytes@[j] == 0,
        decreases k,
    {
        k = k - 1;
    }
    let mut out: Vec<u8> = Vec::new();
    let mut i: usize = 0;
    while i < k
        invariant
            i <= k,
            k <= bytes@.len(),
            out@ == bytes@.take(i as int),
        decreases k - i,
    {
        out.push(bytes[i]);
        proof {
            assert(out@ =~= bytes@.take(i + 1));
        }
        i = i + 1;
    }
    proof {
        lemma_trim_take(bytes@, k as int);
    }
    out
}


// ---------------------------------------------------------------------------
// Decoding a whole parse spec
// ---------------------------------------------------------------------------

/// The result of decoding a register's words. Float registers cannot be
/// turned into decimals inside the verified library (floating point stays
/// outside it): for them the decoder hands out the raw float bits, and
/// `finish_float` takes the converted decimals back in.
#[derive(Clone, Debug, PartialEq)]
pub enum Decoded {
    Done(crate::value::RegisterValue),
    PendingF32 { bits: Vec<u32>, adjust: RegisterNumericAdjustment, single: bool },
    PendingF64 { bits: Vec<u64>, adjust: RegisterNumericAdjustment, single: bool },
}

/// The `i`-th chunk of `sz` words.
pub open spec fn chunk_of(ws: Seq<u16>, sz: int, i: int) -> Seq<u16> {
    ws.subrange(i * sz, (i + 1) * sz)
}

/// A decoded non-float numeric as a JSON value: the adjusted decimal, or
/// null where the adjusted mantissa cannot be represented.
pub open spec fn spec_int_value(
    of: RegisterNumeric,
    adjust: RegisterNumericAdjustment,
    ws: Seq<u16>,
) -> crate::value::RegisterValueV {
    match spec_int_item(of, adjust, ws) {
        Some(d) => crate::value::RegisterValueV::Num(d),
        None => crate::value::RegisterValueV::Null,
    }
}

/// The raw bits of a float register: the big-endian integer of its bytes.
pub open spec fn spec_float_bits(ws: Seq<u16>) -> nat {
    be_uint(bytes_of_words(ws))
}

/// Exactly what `RegisterValueType::parse_words` returns for the given
/// (already swapped) words.
pub open spec fn parse_result(t: RegisterValueType, ws: Seq<u16>, r: Decoded) -> bool {
    match t {
        RegisterValueType::Numeric { of, adjust } => {
            if of is F32 {
                r matches Decoded::PendingF32 { bits, adjust: a, single }
                    && bits@ == seq![spec_float_bits(ws) as u32] && a == adjust && single
            } else if of is F64 {
                r matches Decoded::PendingF64 { bits, adjust: a, single }
                    && bits@ == seq![spec_float_bits(ws) as u64] && a == adjust && single
            } else {
                r matches Decoded::Done(v) && v@ == spec_int_value(of, adjust, ws)
            }
        },
        RegisterValueType::String(_) => r matches Decoded::Done(v) && v@
            == crate::value::RegisterValueV::Str(
            crate::value::utf8_lossy_of(trim_trailing_nuls(bytes_of_words(ws))),
        ),
        RegisterValueType::Array(a) => {
            let sz = a.of.spec_size();
            if a.of is F32 {
                r matches Decoded::PendingF32 { bits, adjust: adj, single } && adj == a.adjust
                    && !single && bits@ == Seq::new(
                    a.count as nat,
                    |i: int| spec_float_bits(chunk_of(ws, sz, i)) as u32,
                )
            } else if a.of is F64 {
                r matches Decoded::PendingF64 { bits, adjust: adj, single } && adj == a.adjust
                    && !single && bits@ == Seq::new(
                    a.count as nat,
                    |i: int| spec_float_bits(chunk_of(ws, sz, i)) as u64,
                )
            } else {
                r matches Decoded::Done(v) && v@ == crate::value::RegisterValueV::Arr(
                    Seq::new(
                        a.count as nat,
                        |i: int| spec_int_item(a.of, a.adjust, chunk_of(ws, sz, i)),
                    ),
                )
            }
        },
    }
}

proof fn lemma_chunk_len(ws: Seq<u16>, sz: int, count: int, i: int)
    requires
        ws.len() == sz * count,
        0 <= i < count,
        sz >= 0,
    ensures
        0 <= i * sz,
        i * sz <= (i + 1) * sz,
        (i + 1) * sz <= ws.len(),
        chunk_of(ws, sz, i).len() == sz,
{
    assert(0 <= i * sz && (i + 1) * sz == i * sz + sz && (i + 1) * sz <= sz * count)
        by (nonlinear_arith)
        requires 0 <= i < count, sz >= 0,
    ;
}

impl RegisterValueType {
    /// Decodes the (already swapped) words of one read according to this
    /// parse spec.
    pub fn parse_words(&self, words: &[u16]) -> (r: Decoded)
        requires
            self.wf(),
            words@.len() == self.spec_size(),
        ensures
            parse_result(*self, words@, r),
    {
        match self {
            RegisterValueType::Numeric { of, adjust } => match of {
                RegisterNumeric::F32 => {
                    let bytes = words_to_be_bytes(words);
                    let bits = be_uint_u64(bytes.as_slice()) as u32;
                    proof {
                        lemma_be_uint_bound(bytes@);
                        lemma_pow256_values();
                    }
                    let mut v: Vec<u32> = Vec::new();
                    v.push(bits);
                    proof {
                        assert(v@ =~= seq![spec_float_bits(words@) as u32]);
                    }
                    Decoded::PendingF32 { bits: v, adjust: *adjust, single: true }
                },
                RegisterNumeric::F64 => {
                    let bytes = words_to_be_bytes(words);
                    let bits = be_uint_u64(bytes.as_slice());
                    let mut v: Vec<u64> = Vec::new();
                    v.push(bits);
                    proof {
                        assert(v@ =~= seq![spec_float_bits(words@) as u64]);
                    }
                    Decoded::PendingF64 { bits: v, adjust: *adjust, single: true }
                },
                _ => match decode_int_item(of, adjust, words) {
                    Some(d) => Decoded::Done(crate::value::RegisterValue::Num(d)),
                    None => Decoded::Done(crate::value::RegisterValue::Null),
                },
            },
            RegisterValueType::String(_) => {
                let bytes = words_to_be_bytes(words);
                let trimmed = trim_nuls(bytes);
                let text = crate::value::utf8_lossy(trimmed.as_slice());
                Decoded::Done(crate::value::RegisterValue::Str(text))
            },
            RegisterValueType::Array(a) => {
                let sz = a.of.size() as usize;
                let count = a.count as usize;
                let total = words.len();
                proof {
                    assert(words@.len() == a.of.spec_size() * a.count as int);
                }
                match a.of {
                    RegisterNumeric::F32 => {
                        let mut bits: Vec<u32> = Vec::new();
                        let mut i: usize = 0;
                        while i < count
                            invariant
                                i <= count,
                                sz == a.of.spec_size(),
                                a.of is F32,
                                words@.len() == sz * count,
                                words@.len() == total,
                                bits@ == Seq::new(
                                    i as nat,
                                    |j: int| spec_float_bits(chunk_of(words@, sz as int, j)) as u32,
                                ),
                            decreases count - i,
                        {
                            proof {
                                lemma_chunk_len(words@, sz as int, count as int, i as int);
                            }
                            let chunk = vstd::slice::slice_subrange(words, i * sz, (i + 1) * sz);
                            let bytes = words_to_be_bytes(chunk);
                            proof {
                                lemma_be_uint_bound(bytes@);
                                lemma_pow256_values();
                            }
                            let b = be_uint_u64(bytes.as_slice()) as u32;
                            bits.push(b);
                            proof {
                                assert(bits@ =~= Seq::new(
                                    (i + 1) as nat,
                                    |j: int| spec_float_bits(chunk_of(words@, sz as int, j)) as u32,
                                ));
                            }
                            i = i + 1;
                        }
                        Decoded::PendingF32 { bits, adjust: a.adjust, single: false }
                    },
                    RegisterNumeric::F64 => {
                        let mut bits: Vec<u64> = Vec::new();
                        let mut i: usize = 0;
                        while i < count
                            invariant
                                i <= count,
                                sz == a.of.spec_size(),
                                a.of is F64,
                                words@.len() == sz * count,
                                words@.len() == total,
                                bits@ == Seq::new(
                                    i as nat,
                                    |j: int| spec_float_bits(chunk_of(words@, sz as int, j)) as u64,
                                ),
                            decreases count - i,
                        {
                            proof {
                                lemma_chunk_len(words@, sz as int, count as int, i as int);
                            }
                            let chunk = vstd::slice::slice_subrange(words, i * sz, (i + 1) * sz);
                            let bytes = words_to_be_bytes(chunk);
                            let b = be_uint_u64(bytes.as_slice());
                            bits.push(b);
                            proof {
                                assert(bits@ =~= Seq::new(
                                    (i + 1) as nat,
                                    |j: int| spec_float_bits(chunk_of(words@, sz as int, j)) as u64,
                                ));
                            }
                            i = i + 1;
                        }
                        Decoded::PendingF64 { bits, adjust: a.adjust, single: false }
                    },
                    _ => {
                        let mut items: Vec<Option<Dec>> = Vec::new();
                        let mut i: usize = 0;
                        while i < count
                            invariant
                                i <= count,
                                sz == a.of.spec_size(),
                                !a.of.is_float(),
                                words@.len() == sz * count,
                                words@.len() == total,
                                items@ == Seq::new(
                                    i as nat,
                                    |j: int| spec_int_item(a.of, a.adjust, chunk_of(words@, sz as int, j)),
                                ),
                            decreases count - i,
                        {
                            proof {
                                lemma_chunk_len(words@, sz as int, count as int, i as int);
                            }
                            let chunk = vstd::slice::slice_subrange(words, i * sz, (i + 1) * sz);
                            let item = decode_int_item(&a.of, &a.adjust, chunk);
                            items.push(item);
                            proof {
                                assert(items@ =~= Seq::new(
                                    (i + 1) as nat,
                                    |j: int| spec_int_item(a.of, a.adjust, chunk_of(words@, sz as int, j)),
                                ));
                            }
                            i = i + 1;
                        }
                        Decoded::Done(crate::value::RegisterValue::Arr(items))
                    },
                }
            },
        }
    }
}

/// One float item after conversion and adjustment: null where the
/// conversion failed (NaN, infinity) or the adjusted mantissa does not fit.
pub open spec fn spec_float_item(
    d: Option<Dec>,
    adjust: RegisterNumericAdjustment,
) -> Option<Dec> {
    match d {
        Some(d) => spec_adjusted(d, adjust.scale, adjust.offset),
        None => None,
    }
}

/// Turns converted float decimals back into a decoded value; `decs` are the
/// outside conversions of the bits a `Pending` decode handed out, in order.
pub fn finish_float(
    decs: Vec<Option<Dec>>,
    adjust: RegisterNumericAdjustment,
    single: bool,
) -> (r: crate::value::RegisterValue)
    requires
        single ==> decs@.len() == 1,
        forall|i: int|
            0 <= i < decs@.len() ==> (#[trigger] decs@[i] matches Some(d) ==> -32000 <= d.e <= 0),
    ensures
        single ==> r@ == (match spec_float_item(decs@[0], adjust) {
            Some(d) => crate::value::RegisterValueV::Num(d),
            None => crate::value::RegisterValueV::Null,
        }),
        !single ==> r@ == crate::value::RegisterValueV::Arr(
            Seq::new(decs@.len(), |i: int| spec_float_item(decs@[i], adjust)),
        ),
{
    if single {
        match decs[0] {
            Some(d) => match adjust_dec(d, adjust.scale, adjust.offset) {
                Some(d2) => crate::value::RegisterValue::Num(d2),
                None => crate::value::RegisterValue::Null,
            },
            None => crate::value::RegisterValue::Null,
        }
    } else {
        let n = decs.len();
        let mut items: Vec<Option<Dec>> = Vec::new();
        let mut i: usize = 0;
        while i < n
            invariant
                i <= n,
                n == decs@.len(),
                forall|j: int|
                    0 <= j < decs@.len() ==> (#[trigger] decs@[j] matches Some(d) ==> -32000 <= d.e
                        <= 0),
                items@ == Seq::new(i as nat, |j: int| spec_float_item(decs@[j], adjust)),
            decreases n - i,
        {
            let item = match decs[i] {
                Some(d) => adjust_dec(d, adjust.scale, adjust.offset),
                None => None,
            };
            items.push(item);
            proof {
                assert(items@ =~= Seq::new((i + 1) as nat, |j: int| spec_float_item(decs@[j], adjust)));
            }
            i = i + 1;
        }
        crate::value::RegisterValue::Arr(items)
    }
}


// ---------------------------------------------------------------------------
// Registers
// ---------------------------------------------------------------------------

/// One register definition: where to read, how to decode, how often to
/// poll (milliseconds), and under what name to publish.
#[derive(Clone, Debug, PartialEq)]
pub struct Register {
    pub name: Option<String>,
    pub address: u16,
    pub register_type: RegisterType,
    pub parse: RegisterParse,
    /// Poll interval in milliseconds.
    pub interval: u64,
}

pub open spec fn digit_char(d: nat) -> char {
    if d == 0 { '0' }
    else if d == 1 { '1' }
    else if d == 2 { '2' }
    else if d == 3 { '3' }
    else if d == 4 { '4' }
    else if d == 5 { '5' }
    else if d == 6 { '6' }
    else if d == 7 { '7' }
    else if d == 8 { '8' }
    else { '9' }
}

/// The decimal digits of `n` as characters, most significant first.
pub open spec fn dec_chars(n: nat) -> Seq<char>
    decreases n,
{
    if n < 10 {
        seq![digit_char(n)]
    } else {
        dec_chars(n / 10).push(digit_char(n % 10))
    }
}

fn digit_str(d: u8) -> (r: &'static str)
    requires
        d < 10,
    ensures
        r@ == seq![digit_char(d as nat)],
{
    proof {
        reveal_strlit("0");
        reveal_strlit("1");
        reveal_strlit("2");
        reveal_strlit("3");
        reveal_strlit("4");
        reveal_strlit("5");
        reveal_strlit("6");
        reveal_strlit("7");
        reveal_strlit("8");
        reveal_strlit("9");
    }
    let r = match d {
        0 => "0",
        1 => "1",
        2 => "2",
        3 => "3",
        4 => "4",
        5 => "5",
        6 => "6",
        7 => "7",
        8 => "8",
        _ => "9",
    };
    proof {
        assert(r@ =~= seq![digit_char(d as nat)]);
    }
    r
}

/// The decimal text of a register address.
pub fn u16_to_decimal_string(n: u16) -> (r: String)
    ensures
        r@ == dec_chars(n as nat),
    decreases n,
{
    if n < 10 {
        digit_str(n as u8).to_owned()
    } else {
        let mut s = u16_to_decimal_string(n / 10);
        s.append(digit_str((n % 10) as u8));
        proof {
            assert(s@ =~= dec_chars(n as nat));
        }
        s
    }
}

impl Register {
    /// How many 16-bit words one poll of this register reads.
    pub open spec fn spec_size(&self) -> int {
        self.parse.value_type.spec_size()
    }

    pub fn size(&self) -> (r: u8)
        requires
            self.parse.value_type.wf(),
        ensures
            r as int == self.spec_size(),
    {
        self.parse.value_type.size()
    }

    /// The topic path segment the register's values are published under:
    /// its name where it has one, its decimal address otherwise.
    pub open spec fn spec_path(&self) -> Seq<char> {
        match self.name {
            Some(n) => n@,
            None => dec_chars(self.address as nat),
        }
    }

    pub fn path(&self) -> (r: String)
        ensures
            r@ == self.spec_path(),
    {
        match &self.name {
            Some(n) => n.clone(),
            None => u16_to_decimal_string(self.address),
        }
    }

    /// Decodes one poll's words: applies the spec's swaps, then the value
    /// decode.
    pub fn parse_words(&self, words: &[u16]) -> (r: Decoded)
        requires
            self.parse.value_type.wf(),
            words@.len() == self.spec_size(),
        ensures
            parse_result(self.parse.value_type, spec_apply_swaps(self.parse, words@), r),
    {
        let swapped = apply_swaps_exec(&self.parse, words);
        proof {
            assert(spec_apply_swaps(self.parse, words@).len() == words@.len());
        }
        self.parse.value_type.parse_words(swapped.as_slice())
    }
}

// ---------------------------------------------------------------------------
// Encoding, and the decode/encode laws
// ---------------------------------------------------------------------------

/// The `n` big-endian bytes of the unsigned integer `u`.
pub open spec fn be_bytes_of_uint(u: nat, n: nat) -> Seq<u8>
    decreases n,
{
    if n == 0 {
        Seq::empty()
    } else {
        be_bytes_of_uint(u / 256, (n - 1) as nat).push((u % 256) as u8)
    }
}

/// Adjacent byte pairs as big-endian words.
pub open spec fn words_of_bytes(bs: Seq<u8>) -> Seq<u16> {
    Seq::new(bs.len() / 2, |i: int| (bs[2 * i] * 256 + bs[2 * i + 1]) as u16)
}

/// The byte width that carries the sign for a two's-complement encoding.
pub open spec fn sign_width_bytes(of: RegisterNumeric) -> nat {
    match of {
        RegisterNumeric::I8 => 1,
        RegisterNumeric::I16 => 2,
        RegisterNumeric::I32 => 4,
        RegisterNumeric::I64 => 8,
        _ => (2 * of.spec_size()) as nat,
    }
}

/// The values the numeric type can represent.
pub open spec fn in_range(of: RegisterNumeric, v: int) -> bool {
    match of {
        RegisterNumeric::U8 => 0 <= v < 0x100,
        RegisterNumeric::U16 => 0 <= v < 0x1_0000,
        RegisterNumeric::U32 => 0 <= v < 0x1_0000_0000,
        RegisterNumeric::U64 => 0 <= v < 0x1_0000_0000_0000_0000,
        RegisterNumeric::I8 => -0x80 <= v < 0x80,
        RegisterNumeric::I16 => -0x8000 <= v < 0x8000,
        RegisterNumeric::I32 => -0x8000_0000 <= v < 0x8000_0000,
        RegisterNumeric::I64 => -0x8000_0000_0000_0000 <= v < 0x8000_0000_0000_0000,
        _ => false,
    }
}

/// The words that hold `v` in plain big-endian order (no swaps): the
/// inverse of the integer decode.
pub open spec fn spec_encode(of: RegisterNumeric, v: int) -> Seq<u16> {
    let u = if v < 0 {
        v + pow256(sign_width_bytes(of))
    } else {
        v
    };
    words_of_bytes(be_bytes_of_uint(u as nat, (2 * of.spec_size()) as nat))
}

fn bytes_of_uint_exec(u: u64, n: usize) -> (r: Vec<u8>)
    ensures
        r@ == be_bytes_of_uint(u as nat, n as nat),
    decreases n,
{
    if n == 0 {
        Vec::new()
    } else {
        let mut v = bytes_of_uint_exec(u / 256, n - 1);
        v.push((u % 256) as u8);
        v
    }
}

pub(crate) fn words_of_bytes_exec(bs: &[u8]) -> (r: Vec<u16>)
    ensures
        r@ == words_of_bytes(bs@),
{
    let n = bs.len();
    let half = n / 2;
    let mut out: Vec<u16> = Vec::new();
    let mut i: usize = 0;
    while i < half
        invariant
            i <= half,
            n == bs@.len(),
            half == n / 2,
            out@ == words_of_bytes(bs@).take(i as int),
        decreases half - i,
    {
        proof {
            assert(2 * i + 1 < n);
        }
        let w = (bs[2 * i] as u16) * 256 + (bs[2 * i + 1] as u16);
        out.push(w);
        proof {
            assert(out@ =~= words_of_bytes(bs@).take(i + 1));
        }
        i = i + 1;
    }
    proof {
        assert(words_of_bytes(bs@).take(half as int) =~= words_of_bytes(bs@));
    }
    out
}

/// Encodes a representable integer as the words a device would hold for
/// it, big-endian and unswapped.
pub fn encode_be(of: &RegisterNumeric, v: i128) -> (r: Vec<u16>)
    requires
        in_range(*of, v as int),
    ensures
        r@ == spec_encode(*of, v as int),
{
    proof {
        lemma_pow256_values();
    }
    let u: u64 = match of {
        RegisterNumeric::I8 => if v < 0 { (v + 0x100) as u64 } else { v as u64 },
        RegisterNumeric::I16 => if v < 0 { (v + 0x1_0000) as u64 } else { v as u64 },
        RegisterNumeric::I32 => if v < 0 { (v + 0x1_0000_0000) as u64 } else { v as u64 },
        RegisterNumeric::I64 => if v < 0 { (v + 0x1_0000_0000_0000_0000) as u64 } else { v as u64 },
        _ => v as u64,
    };
    let words = match of {
        RegisterNumeric::U8 | RegisterNumeric::I8
        | RegisterNumeric::U16 | RegisterNumeric::I16 => bytes_of_uint_exec(u, 2),
        RegisterNumeric::U32 | RegisterNumeric::I32 | RegisterNumeric::F32 => bytes_of_uint_exec(
            u,
            4,
        ),
        _ => bytes_of_uint_exec(u, 8),
    };
    words_of_bytes_exec(words.as_slice())
}

proof fn lemma_be_uint_of_bytes(u: nat, n: nat)
    requires
        u < pow256(n),
    ensures
        be_bytes_of_uint(u, n).len() == n,
        be_uint(be_bytes_of_uint(u, n)) == u,
    decreases n,
{
    if n == 0 {
    } else {
        assert(u as int == 256 * ((u as int) / 256) + (u as int) % 256) by (nonlinear_arith);
        if u / 256 >= pow256((n - 1) as nat) {
            assert(256 * ((u as int) / 256) >= 256 * pow256((n - 1) as nat));
            assert(false);
        }
        lemma_be_uint_of_bytes(u / 256, (n - 1) as nat);
        let prefix = be_bytes_of_uint(u / 256, (n - 1) as nat);
        let whole = be_bytes_of_uint(u, n);
        assert(whole == prefix.push((u % 256) as u8));
        assert(whole.drop_last() =~= prefix);
        assert(whole.last() == (u % 256) as u8);
    }
}

proof fn lemma_bytes_words_roundtrip(bs: Seq<u8>)
    requires
        bs.len() % 2 == 0,
    ensures
        bytes_of_words(words_of_bytes(bs)) == bs,
{
    broadcast use vstd::arithmetic::div_mod::lemma_fundamental_div_mod_converse_mod;
    broadcast use vstd::arithmetic::div_mod::lemma_fundamental_div_mod_converse_div;

    let ws = words_of_bytes(bs);
    assert forall|j: int| 0 <= j < bs.len() implies bytes_of_words(ws)[j] == bs[j] by {
        if j % 2 == 0 {
            assert(ws[j / 2] as int == bs[j] * 256 + bs[j + 1]);
        } else {
            assert(2 * (j / 2) == j - 1);
            assert(ws[j / 2] as int == bs[j - 1] * 256 + bs[j]);
        }
    }
    assert(bytes_of_words(words_of_bytes(bs)) =~= bs);
}

/// Adjustment by scale 0 and offset 0 is the identity on decoded decimals.
pub proof fn lemma_adjust_identity(d: Dec)
    requires
        d.e <= 0,
    ensures
        spec_adjusted(d, 0, 0) == Some(d),
{
    assert(pow10(0) == 1);
    if d.e == 0 {
        if d.m != 0 {
            assert(d.m * pow10(0) == d.m);
        }
    }
}

/// A register with scale 0 and offset 0 decodes to exactly the plain
/// big-endian integer interpretation of its words.
pub proof fn lemma_plain_decode(of: RegisterNumeric, ws: Seq<u16>)
    requires
        !of.is_float(),
        ws.len() == of.spec_size(),
    ensures
        spec_int_item(of, RegisterNumericAdjustment { scale: 0, offset: 0 }, ws) == Some(
            Dec { m: spec_int_raw(of, ws) as i128, e: 0 },
        ),
{
    lemma_int_raw_bounds(of, ws);
    lemma_adjust_identity(Dec { m: spec_int_raw(of, ws) as i128, e: 0 });
}

/// Encoding a representable integer and decoding the words again gives the
/// integer back (no swaps, integer types).
pub proof fn lemma_decode_encode(of: RegisterNumeric, v: int)
    requires
        !of.is_float(),
        in_range(of, v),
    ensures
        spec_encode(of, v).len() == of.spec_size(),
        spec_int_raw(of, spec_encode(of, v)) == v,
{
    lemma_pow256_values();
    let u: nat = (if v < 0 { v + pow256(sign_width_bytes(of)) } else { v }) as nat;
    let nb = (2 * of.spec_size()) as nat;
    lemma_be_uint_of_bytes(u, nb);
    let bytes = be_bytes_of_uint(u, nb);
    assert(bytes.len() % 2 == 0);
    lemma_bytes_words_roundtrip(bytes);
    let ws = spec_encode(of, v);
    assert(bytes_of_words(ws) == bytes);
    assert(ws.len() == of.spec_size());
    assert(be_uint(bytes_of_words(ws)) == u);
    match of {
        RegisterNumeric::U8 => {
            assert(word_lo(ws[0]) == bytes_of_words(ws)[1]);
            assert(bytes[1] == (u % 256) as u8);
            vstd::arithmetic::div_mod::lemma_small_mod(u, 256);
        },
        RegisterNumeric::I8 => {
            assert(word_lo(ws[0]) == bytes_of_words(ws)[1]);
            assert(bytes[1] == (u % 256) as u8);
            vstd::arithmetic::div_mod::lemma_small_mod(u, 256);
            let b = (u % 256) as u8;
            assert(seq![b].drop_last() =~= Seq::<u8>::empty());
            assert(be_uint(Seq::<u8>::empty()) == 0);
            assert(be_uint(seq![b]) == b as nat);
        },
        RegisterNumeric::U16 | RegisterNumeric::U32 | RegisterNumeric::U64 => {},
        _ => {},
    }
}

/// Decoding what was encoded, with no swaps and the identity adjustment,
/// yields exactly the encoded value.
pub proof fn lemma_round_trip(of: RegisterNumeric, v: int)
    requires
        !of.is_float(),
        in_range(of, v),
    ensures
        spec_int_item(
            of,
            RegisterNumericAdjustment { scale: 0, offset: 0 },
            spec_encode(of, v),
        ) == Some(Dec { m: v as i128, e: 0 }),
{
    lemma_decode_encode(of, v);
    lemma_plain_decode(of, spec_encode(of, v));
}

/// With both swaps off, the words reach the decoder unchanged.
pub proof fn lemma_no_swaps_identity(p: RegisterParse, ws: Seq<u16>)
    requires
        !p.swap_bytes.0,
        !p.swap_words.0,
    ensures
        spec_apply_swaps(p, ws) == ws,
{
}

/// Decoding what was encoded, under any scale and offset, yields exactly
/// the spec's adjusted value of the encoded integer.
pub proof fn lemma_round_trip_adjusted(
    of: RegisterNumeric,
    adjust: RegisterNumericAdjustment,
    v: int,
)
    requires
        !of.is_float(),
        in_range(of, v),
    ensures
        spec_int_item(of, adjust, spec_encode(of, v)) == spec_adjusted(
            Dec { m: v as i128, e: 0 },
            adjust.scale,
            adjust.offset,
        ),
{
    lemma_decode_encode(of, v);
}

} // verus!



