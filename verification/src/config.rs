use vstd::prelude::*;

use crate::codec::{
    dec_chars, digit_char, RegisterNumeric, RegisterNumericAdjustment, RegisterParse,
    RegisterString, RegisterArray, RegisterType, RegisterValueType, Swap, Register,
};
use crate::json::{Json, spec_get, str_eq};

verus! {

// ---------------------------------------------------------------------------
// Field helpers: each reads one configuration field, with a default where
// the grammar has one, and rejects a value of the wrong shape.
// ---------------------------------------------------------------------------

pub open spec fn spec_opt_bool(j: Json, key: Seq<char>, dflt: bool) -> Option<bool> {
    match spec_get(j, key) {
        None => Some(dflt),
        Some(Json::Bool(b)) => Some(b),
        Some(_) => None,
    }
}

pub open spec fn spec_opt_i8(j: Json, key: Seq<char>, dflt: i8) -> Option<i8> {
    match spec_get(j, key) {
        None => Some(dflt),
        Some(Json::Int(i)) => if -128 <= i <= 127 {
            Some(i as i8)
        } else {
            None
        },
        Some(_) => None,
    }
}

pub open spec fn spec_req_u8(j: Json, key: Seq<char>) -> Option<u8> {
    match spec_get(j, key) {
        Some(Json::Int(i)) => if 0 <= i <= 255 {
            Some(i as u8)
        } else {
            None
        },
        _ => None,
    }
}

pub open spec fn spec_req_u16(j: Json, key: Seq<char>) -> Option<u16> {
    match spec_get(j, key) {
        Some(Json::Int(i)) => if 0 <= i <= 65535 {
            Some(i as u16)
        } else {
            None
        },
        _ => None,
    }
}

pub open spec fn spec_opt_u16(j: Json, key: Seq<char>, dflt: u16) -> Option<u16> {
    match spec_get(j, key) {
        None => Some(dflt),
        Some(Json::Int(i)) => if 0 <= i <= 65535 {
            Some(i as u16)
        } else {
            None
        },
        Some(_) => None,
    }
}

pub open spec fn spec_req_u32(j: Json, key: Seq<char>) -> Option<u32> {
    match spec_get(j, key) {
        Some(Json::Int(i)) => if 0 <= i <= 0xffff_ffff {
            Some(i as u32)
        } else {
            None
        },
        _ => None,
    }
}

pub open spec fn spec_opt_u8(j: Json, key: Seq<char>, dflt: u8) -> Option<u8> {
    match spec_get(j, key) {
        None => Some(dflt),
        Some(Json::Int(i)) => if 0 <= i <= 255 {
            Some(i as u8)
        } else {
            None
        },
        Some(_) => None,
    }
}

pub open spec fn spec_req_str(j: Json, key: Seq<char>) -> Option<Seq<char>> {
    match spec_get(j, key) {
        Some(Json::Str(s)) => Some(s@),
        _ => None,
    }
}

fn get_opt_bool(j: &Json, key: &str, dflt: bool) -> (r: Option<bool>)
    ensures
        r == spec_opt_bool(*j, key@, dflt),
{
    match j.get(key) {
        None => Some(dflt),
        Some(Json::Bool(b)) => Some(*b),
        Some(_) => None,
    }
}

fn get_opt_i8(j: &Json, key: &str, dflt: i8) -> (r: Option<i8>)
    ensures
        r == spec_opt_i8(*j, key@, dflt),
{
    match j.get(key) {
        None => Some(dflt),
        Some(Json::Int(i)) => {
            let i = *i;
            if -128 <= i && i <= 127 {
                Some(i as i8)
            } else {
                None
            }
        },
        Some(_) => None,
    }
}

pub fn get_req_u8(j: &Json, key: &str) -> (r: Option<u8>)
    ensures
        r == spec_req_u8(*j, key@),
{
    match j.get(key) {
        Some(Json::Int(i)) => {
            let i = *i;
            if 0 <= i && i <= 255 {
                Some(i as u8)
            } else {
                None
            }
        },
        _ => None,
    }
}

fn get_opt_u8(j: &Json, key: &str, dflt: u8) -> (r: Option<u8>)
    ensures
        r == spec_opt_u8(*j, key@, dflt),
{
    match j.get(key) {
        None => Some(dflt),
        Some(Json::Int(i)) => {
            let i = *i;
            if 0 <= i && i <= 255 {
                Some(i as u8)
            } else {
                None
            }
        },
        Some(_) => None,
    }
}

pub fn get_req_u16(j: &Json, key: &str) -> (r: Option<u16>)
    ensures
        r == spec_req_u16(*j, key@),
{
    match j.get(key) {
        Some(Json::Int(i)) => {
            let i = *i;
            if 0 <= i && i <= 65535 {
                Some(i as u16)
            } else {
                None
            }
        },
        _ => None,
    }
}

fn get_opt_u16(j: &Json, key: &str, dflt: u16) -> (r: Option<u16>)
    ensures
        r == spec_opt_u16(*j, key@, dflt),
{
    match j.get(key) {
        None => Some(dflt),
        Some(Json::Int(i)) => {
            let i = *i;
            if 0 <= i && i <= 65535 {
                Some(i as u16)
            } else {
                None
            }
        },
        Some(_) => None,
    }
}

fn get_req_u32(j: &Json, key: &str) -> (r: Option<u32>)
    ensures
        r == spec_req_u32(*j, key@),
{
    match j.get(key) {
        Some(Json::Int(i)) => {
            let i = *i;
            if 0 <= i && i <= 0xffff_ffff {
                Some(i as u32)
            } else {
                None
            }
        },
        _ => None,
    }
}

fn get_req_str(j: &Json, key: &str) -> (r: Option<String>)
    ensures
        match r {
            Some(s) => spec_req_str(*j, key@) == Some(s@),
            None => spec_req_str(*j, key@) is None,
        },
{
    match j.get(key) {
        Some(Json::Str(s)) => Some(s.clone()),
        _ => None,
    }
}

// ---------------------------------------------------------------------------
// Numeric type names
// ---------------------------------------------------------------------------

/// The numeric register type a configuration name denotes; `s8`..`s64` are
/// aliases of the signed types.
pub open spec fn spec_numeric_of_name(s: Seq<char>) -> Option<RegisterNumeric> {
    if s == "u8"@ {
        Some(RegisterNumeric::U8)
    } else if s == "u16"@ {
        Some(RegisterNumeric::U16)
    } else if s == "u32"@ {
        Some(RegisterNumeric::U32)
    } else if s == "u64"@ {
        Some(RegisterNumeric::U64)
    } else if s == "i8"@ || s == "s8"@ {
        Some(RegisterNumeric::I8)
    } else if s == "i16"@ || s == "s16"@ {
        Some(RegisterNumeric::I16)
    } else if s == "i32"@ || s == "s32"@ {
        Some(RegisterNumeric::I32)
    } else if s == "i64"@ || s == "s64"@ {
        Some(RegisterNumeric::I64)
    } else if s == "f32"@ {
        Some(RegisterNumeric::F32)
    } else if s == "f64"@ {
        Some(RegisterNumeric::F64)
    } else {
        None
    }
}

pub fn numeric_of_name(s: &str) -> (r: Option<RegisterNumeric>)
    ensures
        r == spec_numeric_of_name(s@),
{
    if str_eq(s, "u8") {
        Some(RegisterNumeric::U8)
    } else if str_eq(s, "u16") {
        Some(RegisterNumeric::U16)
    } else if str_eq(s, "u32") {
        Some(RegisterNumeric::U32)
    } else if str_eq(s, "u64") {
        Some(RegisterNumeric::U64)
    } else if str_eq(s, "i8") || str_eq(s, "s8") {
        Some(RegisterNumeric::I8)
    } else if str_eq(s, "i16") || str_eq(s, "s16") {
        Some(RegisterNumeric::I16)
    } else if str_eq(s, "i32") || str_eq(s, "s32") {
        Some(RegisterNumeric::I32)
    } else if str_eq(s, "i64") || str_eq(s, "s64") {
        Some(RegisterNumeric::I64)
    } else if str_eq(s, "f32") {
        Some(RegisterNumeric::F32)
    } else if str_eq(s, "f64") {
        Some(RegisterNumeric::F64)
    } else {
        None
    }
}

// ---------------------------------------------------------------------------
// Parse specs
// ---------------------------------------------------------------------------

/// The numeric adjustment a configuration object carries: optional `scale`
/// and `offset`, both defaulting to zero.
pub open spec fn spec_adjust_of(j: Json) -> Option<RegisterNumericAdjustment> {
    match (spec_opt_i8(j, "scale"@, 0), spec_opt_i8(j, "offset"@, 0)) {
        (Some(scale), Some(offset)) => Some(RegisterNumericAdjustment { scale, offset }),
        _ => None,
    }
}

fn adjust_of(j: &Json) -> (r: Option<RegisterNumericAdjustment>)
    ensures
        r == spec_adjust_of(*j),
{
    match (get_opt_i8(j, "scale", 0), get_opt_i8(j, "offset", 0)) {
        (Some(scale), Some(offset)) => Some(RegisterNumericAdjustment { scale, offset }),
        _ => None,
    }
}

/// The element type of an array register: the optional `of` field.
pub open spec fn spec_numeric_field(j: Json, key: Seq<char>) -> Option<RegisterNumeric> {
    match spec_get(j, key) {
        None => Some(RegisterNumeric::U16),
        Some(Json::Str(s)) => spec_numeric_of_name(s@),
        Some(_) => None,
    }
}

fn numeric_field(j: &Json, key: &str) -> (r: Option<RegisterNumeric>)
    ensures
        r == spec_numeric_field(*j, key@),
{
    match j.get(key) {
        None => Some(RegisterNumeric::U16),
        Some(Json::Str(s)) => numeric_of_name(s.as_str()),
        Some(_) => None,
    }
}

/// The value type a configuration object describes. Without a `type` field
/// the register is a plain `u16`; `array` and `string` carry their own
/// fields; any other `type` must name a numeric.
pub open spec fn spec_value_type_of(j: Json) -> Option<RegisterValueType> {
    match spec_get(j, "type"@) {
        None => match spec_adjust_of(j) {
            Some(adjust) => Some(
                RegisterValueType::Numeric { of: RegisterNumeric::U16, adjust },
            ),
            None => None,
        },
        Some(Json::Str(s)) => if s@ == "array"@ {
            match (spec_req_u8(j, "count"@), spec_numeric_field(j, "of"@), spec_adjust_of(j)) {
                (Some(count), Some(of), Some(adjust)) => Some(
                    RegisterValueType::Array(RegisterArray { count, of, adjust }),
                ),
                _ => None,
            }
        } else if s@ == "string"@ {
            match spec_req_u8(j, "length"@) {
                Some(length) => Some(RegisterValueType::String(RegisterString { length })),
                None => None,
            }
        } else {
            match (spec_numeric_of_name(s@), spec_adjust_of(j)) {
                (Some(of), Some(adjust)) => Some(RegisterValueType::Numeric { of, adjust }),
                _ => None,
            }
        },
        Some(_) => None,
    }
}

pub fn value_type_of(j: &Json) -> (r: Option<RegisterValueType>)
    ensures
        r == spec_value_type_of(*j),
{
    match j.get("type") {
        None => match adjust_of(j) {
            Some(adjust) => Some(
                RegisterValueType::Numeric { of: RegisterNumeric::U16, adjust },
            ),
            None => None,
        },
        Some(Json::Str(s)) => {
            if str_eq(s.as_str(), "array") {
                match (get_req_u8(j, "count"), numeric_field(j, "of"), adjust_of(j)) {
                    (Some(count), Some(of), Some(adjust)) => Some(
                        RegisterValueType::Array(RegisterArray { count, of, adjust }),
                    ),
                    _ => None,
                }
            } else if str_eq(s.as_str(), "string") {
                match get_req_u8(j, "length") {
                    Some(length) => Some(RegisterValueType::String(RegisterString { length })),
                    None => None,
                }
            } else {
                match (numeric_of_name(s.as_str()), adjust_of(j)) {
                    (Some(of), Some(adjust)) => Some(RegisterValueType::Numeric { of, adjust }),
                    _ => None,
                }
            }
        },
        Some(_) => None,
    }
}

/// The full parse spec of a register configuration object.
pub open spec fn spec_register_parse_of(j: Json) -> Option<RegisterParse> {
    if !(j is Obj) {
        None
    } else {
        match (
            spec_opt_bool(j, "swap_bytes"@, false),
            spec_opt_bool(j, "swap_words"@, false),
            spec_value_type_of(j),
        ) {
            (Some(sb), Some(sw), Some(value_type)) => Some(
                RegisterParse { swap_bytes: Swap(sb), swap_words: Swap(sw), value_type },
            ),
            _ => None,
        }
    }
}

pub fn register_parse_of(j: &Json) -> (r: Option<RegisterParse>)
    ensures
        r == spec_register_parse_of(*j),
{
    if !matches!(j, Json::Obj(_)) {
        return None;
    }
    match (
        get_opt_bool(j, "swap_bytes", false),
        get_opt_bool(j, "swap_words", false),
        value_type_of(j),
    ) {
        (Some(sb), Some(sw), Some(value_type)) => Some(
            RegisterParse { swap_bytes: Swap(sb), swap_words: Swap(sw), value_type },
        ),
        _ => None,
    }
}

/// Parses a register parse spec from JSON text.
pub fn parse_register_parse(bytes: &[u8]) -> (r: Option<RegisterParse>)
    ensures
        r == (match crate::json::json_of(bytes@) {
            Some(j) => spec_register_parse_of(j),
            None => None::<RegisterParse>,
        }),
{
    match crate::json::parse_json(bytes) {
        Some(j) => register_parse_of(&j),
        None => None,
    }
}


// ---------------------------------------------------------------------------
// Durations
// ---------------------------------------------------------------------------

pub open spec fn is_digit_char(c: char) -> bool {
    48 <= c as u32 <= 57
}

/// How many leading characters of `s` are decimal digits.
pub open spec fn digits_prefix_len(s: Seq<char>) -> int
    decreases s.len(),
{
    if s.len() == 0 || !is_digit_char(s[0]) {
        0
    } else {
        1 + digits_prefix_len(s.skip(1))
    }
}

/// The number the digit characters spell.
pub open spec fn digits_value(s: Seq<char>) -> nat
    decreases s.len(),
{
    if s.len() == 0 {
        0
    } else {
        digits_value(s.drop_last()) * 10 + (s.last() as u32 - 48) as nat
    }
}

/// Milliseconds per unit name, for the unit names a poll interval accepts.
pub open spec fn spec_unit_ms(unit: Seq<char>) -> Option<nat> {
    if unit == seq!['m', 's'] {
        Some(1)
    } else if unit == seq!['s'] {
        Some(1000)
    } else if unit == seq!['m'] {
        Some(60000)
    } else if unit == seq!['h'] {
        Some(3600000)
    } else if unit == seq!['d'] {
        Some(86400000)
    } else {
        None
    }
}

/// How many leading characters of `s` belong to a unit name: everything
/// up to the next digit, space or end.
pub open spec fn unit_prefix_len(s: Seq<char>) -> int
    decreases s.len(),
{
    if s.len() == 0 || is_digit_char(s[0]) || s[0] == ' ' {
        0
    } else {
        1 + unit_prefix_len(s.skip(1))
    }
}

pub proof fn lemma_digits_prefix_bound(s: Seq<char>)
    ensures
        0 <= digits_prefix_len(s) <= s.len(),
    decreases s.len(),
{
    if s.len() > 0 && is_digit_char(s[0]) {
        lemma_digits_prefix_bound(s.skip(1));
    }
}

pub proof fn lemma_unit_prefix_bound(s: Seq<char>)
    ensures
        0 <= unit_prefix_len(s) <= s.len(),
    decreases s.len(),
{
    if s.len() > 0 && !is_digit_char(s[0]) && s[0] != ' ' {
        lemma_unit_prefix_bound(s.skip(1));
    }
}

/// The milliseconds the components of a human-readable duration add up
/// to: one or more `<digits><unit>` components, each later component
/// separated from the previous one by one space or by nothing (`90s`,
/// `1m 30s`, `1h30m`).
pub open spec fn spec_dur_components(s: Seq<char>) -> Option<nat>
    decreases s.len(),
{
    let nd = digits_prefix_len(s);
    if nd <= 0 {
        None
    } else {
        proof {
            lemma_digits_prefix_bound(s);
        }
        let v = digits_value(s.take(nd));
        let after_digits = s.skip(nd);
        let ul = unit_prefix_len(after_digits);
        proof {
            lemma_unit_prefix_bound(after_digits);
        }
        match spec_unit_ms(after_digits.take(ul)) {
            None => None,
            Some(mult) => {
                let rest = after_digits.skip(ul);
                if rest.len() == 0 {
                    Some(v * mult)
                } else {
                    let rest2 = if rest[0] == ' ' {
                        rest.skip(1)
                    } else {
                        rest
                    };
                    match spec_dur_components(rest2) {
                        Some(more) => Some(v * mult + more),
                        None => None,
                    }
                }
            },
        }
    }
}

/// The milliseconds a human-readable duration such as `3s`, `90s`, `10m`
/// or `1m 30s` denotes. This grammar accepts everything the re-publisher
/// emits, so a re-published definition always parses back: see
/// `lemma_interval_round_trip` and `lemma_dur_text_is_utf8`.
pub open spec fn spec_duration_ms(s: Seq<char>) -> Option<u64> {
    match spec_dur_components(s) {
        Some(total) => if total <= u64::MAX {
            Some(total as u64)
        } else {
            None
        },
        None => None,
    }
}

proof fn lemma_digits_value_grows(s: Seq<char>, i: int, j: int)
    requires
        0 <= i <= j <= s.len(),
    ensures
        digits_value(s.take(i)) <= digits_value(s.take(j)),
    decreases j - i,
{
    if i < j {
        lemma_digits_value_grows(s, i, j - 1);
        assert(s.take(j).drop_last() =~= s.take(j - 1));
        assert(digits_value(s.take(j)) == digits_value(s.take(j - 1)) * 10 + (
        s.take(j).last() as u32 - 48) as nat);
    }
}

proof fn lemma_digits_prefix_range(s: Seq<char>, i: int)
    requires
        0 <= i <= s.len(),
        forall|k: int| 0 <= k < i ==> is_digit_char(s[k]),
        i < s.len() ==> !is_digit_char(s[i]),
    ensures
        digits_prefix_len(s) == i,
    decreases s.len(),
{
    if s.len() > 0 && is_digit_char(s[0]) {
        assert(i > 0);
        lemma_digits_prefix_range(s.skip(1), i - 1);
    }
}

proof fn lemma_unit_cases(unit: Seq<char>)
    ensures
        unit.len() == 1 ==> spec_unit_ms(unit) == (if unit[0] == 's' {
            Some(1000 as nat)
        } else if unit[0] == 'm' {
            Some(60000 as nat)
        } else if unit[0] == 'h' {
            Some(3600000 as nat)
        } else if unit[0] == 'd' {
            Some(86400000 as nat)
        } else {
            None::<nat>
        }),
        unit.len() == 2 ==> spec_unit_ms(unit) == (if unit[0] == 'm' && unit[1] == 's' {
            Some(1 as nat)
        } else {
            None::<nat>
        }),
        unit.len() == 0 || unit.len() > 2 ==> spec_unit_ms(unit) is None,
{
    assert(seq!['m', 's'].len() == 2 && seq!['m', 's'][0] == 'm' && seq!['m', 's'][1] == 's');
    assert(seq!['s'].len() == 1 && seq!['s'][0] == 's');
    assert(seq!['m'].len() == 1 && seq!['m'][0] == 'm');
    assert(seq!['h'].len() == 1 && seq!['h'][0] == 'h');
    assert(seq!['d'].len() == 1 && seq!['d'][0] == 'd');
    if unit.len() == 1 {
        if unit[0] == 's' {
            assert(unit =~= seq!['s']);
        }
        if unit[0] == 'm' {
            assert(unit =~= seq!['m']);
        }
        if unit[0] == 'h' {
            assert(unit =~= seq!['h']);
        }
        if unit[0] == 'd' {
            assert(unit =~= seq!['d']);
        }
    }
    if unit.len() == 2 && unit[0] == 'm' && unit[1] == 's' {
        assert(unit =~= seq!['m', 's']);
    }
}

proof fn lemma_unit_prefix_range(s: Seq<char>, i: int)
    requires
        0 <= i <= s.len(),
        forall|k: int| 0 <= k < i ==> !is_digit_char(s[k]) && s[k] != ' ',
        i < s.len() ==> is_digit_char(s[i]) || s[i] == ' ',
    ensures
        unit_prefix_len(s) == i,
    decreases s.len(),
{
    if s.len() > 0 && !is_digit_char(s[0]) && s[0] != ' ' {
        assert(i > 0);
        lemma_unit_prefix_range(s.skip(1), i - 1);
    }
}

/// Parses a poll interval: a sum of `<digits><unit>` components.
#[verifier::rlimit(100)]
pub fn duration_ms_of_str(s: &str) -> (r: Option<u64>)
    ensures
        r == spec_duration_ms(s@),
{
    let len = s.unicode_len();
    let mut total: u64 = 0;
    let mut pos: usize = 0;
    proof {
        assert(s@.skip(0) =~= s@);
    }
    loop
        invariant_except_break
            pos <= len,
            len == s@.len(),
            (match spec_dur_components(s@.skip(pos as int)) {
                Some(more) => spec_dur_components(s@) == Some((total as nat) + more),
                None => spec_dur_components(s@) is None,
            }),
        ensures
            spec_dur_components(s@) == Some(total as nat),
        decreases len - pos,
    {
        let ghost rem = s@.skip(pos as int);
        // the digits of this component
        let mut nd: usize = 0;
        loop
            invariant_except_break
                pos + nd <= len,
                pos <= len,
                len == s@.len(),
                forall|k: int| pos <= k < pos + nd ==> is_digit_char(s@[k]),
            ensures
                pos + nd <= len,
                len == s@.len(),
                forall|k: int| pos <= k < pos + nd ==> is_digit_char(s@[k]),
                pos + nd < len ==> !is_digit_char(s@[pos + nd]),
            decreases len - pos - nd,
        {
            if pos + nd >= len {
                break;
            }
            let c = s.get_char(pos + nd);
            if !(48 <= c as u32 && c as u32 <= 57) {
                break;
            }
            nd = nd + 1;
        }
        proof {
            assert forall|k: int| 0 <= k < nd implies is_digit_char(rem[k]) by {
                assert(rem[k] == s@[pos + k]);
            }
            if (nd as int) < rem.len() {
                assert(rem[nd as int] == s@[pos + nd]);
            }
            lemma_digits_prefix_range(rem, nd as int);
        }
        if nd == 0 {
            return None;
        }
        // its value
        let mut v: u64 = 0;
        let mut i: usize = 0;
        let mut overflow: bool = false;
        while i < nd
            invariant
                i <= nd,
                pos + nd <= len,
                len == s@.len(),
                rem == s@.skip(pos as int),
                nd as int <= rem.len(),
                forall|k: int| 0 <= k < nd ==> is_digit_char(rem[k]),
                forall|k: int| pos <= k < pos + nd ==> is_digit_char(s@[k]),
                !overflow ==> v == digits_value(rem.take(i as int)),
                overflow ==> digits_value(rem.take(nd as int)) > u64::MAX,
            decreases nd - i,
        {
            let c = s.get_char(pos + i);
            proof {
                assert(rem[i as int] == s@[pos + i]);
                assert(rem.take(i + 1).drop_last() =~= rem.take(i as int));
                assert(rem.take(i + 1).last() == rem[i as int]);
                assert(digits_value(rem.take(i + 1)) == digits_value(rem.take(i as int)) * 10 + (
                rem[i as int] as u32 - 48) as nat);
            }
            let d: u64 = (c as u32 as u64) - 48;
            if !overflow {
                if v > 1844674407370955161 || (v == 1844674407370955161 && d > 5) {
                    proof {
                        assert(digits_value(rem.take(i + 1)) > u64::MAX);
                        lemma_digits_value_grows(rem, i + 1, nd as int);
                    }
                    overflow = true;
                } else {
                    v = v * 10 + d;
                }
            }
            i = i + 1;
        }
        // the unit name
        let mut ul: usize = 0;
        loop
            invariant_except_break
                pos + nd + ul <= len,
                pos + nd <= len,
                len == s@.len(),
                forall|k: int|
                    pos + nd <= k < pos + nd + ul ==> !is_digit_char(s@[k]) && s@[k] != ' ',
            ensures
                pos + nd + ul <= len,
                len == s@.len(),
                forall|k: int|
                    pos + nd <= k < pos + nd + ul ==> !is_digit_char(s@[k]) && s@[k] != ' ',
                pos + nd + ul < len ==> is_digit_char(s@[pos + nd + ul]) || s@[pos + nd + ul]
                    == ' ',
            decreases len - pos - nd - ul,
        {
            if pos + nd + ul >= len {
                break;
            }
            let c = s.get_char(pos + nd + ul);
            if (48 <= c as u32 && c as u32 <= 57) || c == ' ' {
                break;
            }
            ul = ul + 1;
        }
        let ghost after_digits = rem.skip(nd as int);
        let ghost tok = after_digits.take(ul as int);
        proof {
            assert forall|k: int| 0 <= k < ul implies !is_digit_char(after_digits[k])
                && after_digits[k] != ' ' by {
                assert(after_digits[k] == s@[pos + nd + k]);
            }
            if (ul as int) < after_digits.len() {
                assert(after_digits[ul as int] == s@[pos + nd + ul]);
            }
            lemma_unit_prefix_range(after_digits, ul as int);
            lemma_unit_cases(tok);
        }
        let mult: Option<u64> = if ul == 1 {
            let c = s.get_char(pos + nd);
            proof {
                assert(after_digits[0] == s@[pos + nd]);
                assert(tok =~= seq![after_digits[0]]);
            }
            if c == 's' {
                proof {
                    assert(tok =~= seq!['s']);
                }
                Some(1000)
            } else if c == 'm' {
                proof {
                    assert(tok =~= seq!['m']);
                }
                Some(60000)
            } else if c == 'h' {
                proof {
                    assert(tok =~= seq!['h']);
                }
                Some(3600000)
            } else if c == 'd' {
                proof {
                    assert(tok =~= seq!['d']);
                }
                Some(86400000)
            } else {
                None
            }
        } else if ul == 2 {
            let c1 = s.get_char(pos + nd);
            let c2 = s.get_char(pos + nd + 1);
            proof {
                assert(after_digits[0] == s@[pos + nd]);
                assert(after_digits[1] == s@[pos + nd + 1]);
                assert(tok =~= seq![after_digits[0], after_digits[1]]);
            }
            if c1 == 'm' && c2 == 's' {
                proof {
                    assert(tok =~= seq!['m', 's']);
                }
                Some(1)
            } else {
                None
            }
        } else {
            proof {
                assert(tok.len() == ul);
            }
            None
        };
        let m = match mult {
            Some(m) => m,
            None => {
                // the component has no valid unit name
                return None;
            },
        };
        proof {
            assert(spec_unit_ms(tok) == Some(m as nat));
        }
        // where the component contributes more than a u64 holds, the
        // whole duration does too, whatever follows
        let ghost v_full = digits_value(rem.take(nd as int));
        proof {
            assert(match spec_dur_components(rem) {
                Some(c) => c >= v_full * (m as nat),
                None => true,
            }) by {
                assert(v_full * (m as nat) + 0 == v_full * (m as nat));
            }
        }
        if overflow {
            proof {
                assert(v_full * (m as nat) >= v_full * 1) by (nonlinear_arith)
                    requires m >= 1, v_full >= 0,
                ;
            }
            return None;
        }
        let gv = match v.checked_mul(m) {
            Some(gv) => gv,
            None => {
                return None;
            },
        };
        let new_total = match total.checked_add(gv) {
            Some(t) => t,
            None => {
                return None;
            },
        };
        let after = pos + nd + ul;
        if after == len {
            proof {
                assert(after_digits.skip(ul as int) =~= s@.skip(after as int));
                assert(s@.skip(after as int).len() == 0);
                assert(spec_dur_components(rem) == Some(v_full * (m as nat)));
            }
            total = new_total;
            pos = len;
            break;
        }
        let sep = s.get_char(after);
        let next = if sep == ' ' {
            after + 1
        } else {
            after
        };
        proof {
            assert(after_digits.skip(ul as int) =~= s@.skip(after as int));
            assert(s@.skip(after as int)[0] == s@[after as int]);
            if sep == ' ' {
                assert(s@.skip(after as int).skip(1) =~= s@.skip(after + 1));
            }
            assert(match spec_dur_components(s@.skip(next as int)) {
                Some(more) => spec_dur_components(rem) == Some(v_full * (m as nat) + more),
                None => spec_dur_components(rem) is None,
            });
        }
        total = new_total;
        pos = next;
    }
    Some(total)
}

/// The decimal text of a number is digits throughout, and spells the
/// number back: rendering and parsing of values are inverses.
pub proof fn lemma_dec_chars_digits(n: nat)
    ensures
        dec_chars(n).len() >= 1,
        forall|k: int| 0 <= k < dec_chars(n).len() ==> is_digit_char(#[trigger] dec_chars(n)[k]),
        digits_value(dec_chars(n)) == n,
    decreases n,
{
    assert(digit_char(n % 10) as u32 == 48 + n % 10);
    if n < 10 {
        assert(dec_chars(n) =~= seq![digit_char(n)]);
        assert(dec_chars(n).drop_last() =~= Seq::<char>::empty());
        assert(digits_value(Seq::<char>::empty()) == 0);
    } else {
        lemma_dec_chars_digits(n / 10);
        let prefix = dec_chars(n / 10);
        let whole = dec_chars(n);
        assert(whole == prefix.push(digit_char(n % 10)));
        assert(whole.drop_last() =~= prefix);
        assert(whole.last() == digit_char(n % 10));
        assert(n == 10 * (n / 10) + n % 10);
        assert forall|k: int| 0 <= k < whole.len() implies is_digit_char(#[trigger] whole[k]) by {
            if k < prefix.len() {
                assert(whole[k] == prefix[k]);
            }
        }
    }
}

/// A unit name the grammar accepts is one or two letters: no digits, no
/// spaces.
pub proof fn lemma_unit_shape(unit: Seq<char>, mult: nat)
    requires
        spec_unit_ms(unit) == Some(mult),
    ensures
        1 <= unit.len() <= 2,
        forall|k: int|
            0 <= k < unit.len() ==> !is_digit_char(#[trigger] unit[k]) && unit[k] != ' ',
{
    if unit == seq!['m', 's'] {
        assert(unit[0] == 'm' && unit[1] == 's');
    } else if unit == seq!['s'] {
        assert(unit[0] == 's');
    } else if unit == seq!['m'] {
        assert(unit[0] == 'm');
    } else if unit == seq!['h'] {
        assert(unit[0] == 'h');
    } else if unit == seq!['d'] {
        assert(unit[0] == 'd');
    }
}

/// How a rendered duration component parses: the digits of `v` followed
/// by a unit name yield exactly `v` times the unit, plus — after the
/// separating space — whatever the remaining components yield. This is
/// why the interval text the re-publisher emits parses back to the same
/// milliseconds.
pub proof fn lemma_component_parse(v: u64, unit: Seq<char>, mult: nat, rest: Seq<char>)
    requires
        spec_unit_ms(unit) == Some(mult),
        rest.len() == 0 || rest[0] == ' ',
    ensures
        rest.len() == 0 ==> spec_dur_components(dec_chars(v as nat) + unit + rest) == Some(
            (v as nat) * mult,
        ),
        rest.len() > 0 ==> spec_dur_components(dec_chars(v as nat) + unit + rest) == (
        match spec_dur_components(rest.skip(1)) {
            Some(more) => Some((v as nat) * mult + more),
            None => None,
        }),
{
    lemma_dec_chars_digits(v as nat);
    lemma_unit_shape(unit, mult);
    let digits = dec_chars(v as nat);
    let text = digits + unit + rest;
    let nd = digits.len() as int;
    assert forall|k: int| 0 <= k < nd implies is_digit_char(text[k]) by {
        assert(text[k] == digits[k]);
    }
    assert(text[nd] == unit[0]);
    lemma_digits_prefix_range(text, nd);
    assert(text.take(nd) =~= digits);
    let after_digits = text.skip(nd);
    assert(after_digits =~= unit + rest);
    assert forall|k: int| 0 <= k < unit.len() implies !is_digit_char(after_digits[k])
        && after_digits[k] != ' ' by {
        assert(after_digits[k] == unit[k]);
    }
    if rest.len() > 0 {
        assert(after_digits[unit.len() as int] == rest[0]);
    }
    lemma_unit_prefix_range(after_digits, unit.len() as int);
    assert(after_digits.take(unit.len() as int) =~= unit);
    assert(after_digits.skip(unit.len() as int) =~= rest);
    if rest.len() > 0 {
        assert(rest.skip(1) == rest.skip(1));
    }
}


/// One rendered duration component: its value, its unit name, and the
/// unit's milliseconds.
pub struct DurComponent {
    pub value: u64,
    pub unit: Seq<char>,
    pub mult: nat,
}

/// Every component carries a unit name the grammar knows, with its
/// milliseconds.
pub open spec fn comps_wf(cs: Seq<DurComponent>) -> bool {
    forall|i: int|
        0 <= i < cs.len() ==> spec_unit_ms((#[trigger] cs[i]).unit) == Some(cs[i].mult)
}

/// The characters of a rendered component sequence: each component as
/// its digits and unit, one space between components.
pub open spec fn comps_chars(cs: Seq<DurComponent>) -> Seq<char>
    decreases cs.len(),
{
    if cs.len() == 0 {
        Seq::empty()
    } else if cs.len() == 1 {
        dec_chars(cs[0].value as nat) + cs[0].unit
    } else {
        dec_chars(cs[0].value as nat) + cs[0].unit + seq![' '] + comps_chars(cs.skip(1))
    }
}

/// The milliseconds a component sequence denotes.
pub open spec fn comps_ms(cs: Seq<DurComponent>) -> nat
    decreases cs.len(),
{
    if cs.len() == 0 {
        0
    } else {
        (cs[0].value as nat) * cs[0].mult + comps_ms(cs.skip(1))
    }
}

/// Rendering components and parsing the text are inverses: any non-empty
/// rendered component sequence parses back to the sum of its components.
pub proof fn lemma_comps_round_trip(cs: Seq<DurComponent>)
    requires
        cs.len() >= 1,
        comps_wf(cs),
    ensures
        spec_dur_components(comps_chars(cs)) == Some(comps_ms(cs)),
    decreases cs.len(),
{
    let c0 = cs[0];
    if cs.len() == 1 {
        lemma_component_parse(c0.value, c0.unit, c0.mult, Seq::<char>::empty());
        assert(comps_chars(cs) =~= dec_chars(c0.value as nat) + c0.unit + Seq::<char>::empty());
        assert(cs.skip(1).len() == 0);
        assert(comps_ms(cs.skip(1)) == 0);
        assert(comps_ms(cs) == (c0.value as nat) * c0.mult);
    } else {
        assert(comps_wf(cs.skip(1))) by {
            assert forall|i: int|
                0 <= i < cs.skip(1).len() implies spec_unit_ms(
                (#[trigger] cs.skip(1)[i]).unit,
            ) == Some(cs.skip(1)[i].mult) by {
                assert(cs.skip(1)[i] == cs[i + 1]);
            }
        }
        lemma_comps_round_trip(cs.skip(1));
        let tail = comps_chars(cs.skip(1));
        let rest = seq![' '] + tail;
        lemma_component_parse(c0.value, c0.unit, c0.mult, rest);
        assert(rest[0] == ' ');
        assert(rest.skip(1) =~= tail);
        assert(comps_chars(cs) =~= dec_chars(c0.value as nat) + c0.unit + rest);
        assert(comps_ms(cs) == (c0.value as nat) * c0.mult + comps_ms(cs.skip(1)));
    }
}

proof fn lemma_comps_wf_concat(a: Seq<DurComponent>, b: Seq<DurComponent>)
    requires
        comps_wf(a),
        comps_wf(b),
    ensures
        comps_wf(a + b),
{
    assert forall|i: int| 0 <= i < (a + b).len() implies spec_unit_ms(
        (#[trigger] (a + b)[i]).unit,
    ) == Some((a + b)[i].mult) by {
        if i < a.len() {
            assert((a + b)[i] == a[i]);
        } else {
            assert((a + b)[i] == b[i - a.len()]);
        }
    }
}

proof fn lemma_comps_ms_concat(a: Seq<DurComponent>, b: Seq<DurComponent>)
    ensures
        comps_ms(a + b) == comps_ms(a) + comps_ms(b),
    decreases a.len(),
{
    if a.len() == 0 {
        assert(a + b =~= b);
    } else {
        assert((a + b).skip(1) =~= a.skip(1) + b);
        assert((a + b)[0] == a[0]);
        lemma_comps_ms_concat(a.skip(1), b);
    }
}

/// Concatenating component sequences concatenates their texts, with the
/// one separating space where both sides are non-empty.
pub proof fn lemma_comps_chars_concat(a: Seq<DurComponent>, b: Seq<DurComponent>)
    ensures
        a.len() == 0 ==> comps_chars(a + b) == comps_chars(b),
        b.len() == 0 ==> comps_chars(a + b) == comps_chars(a),
        a.len() > 0 && b.len() > 0 ==> comps_chars(a + b) == comps_chars(a) + seq![' ']
            + comps_chars(b),
    decreases a.len(),
{
    if a.len() == 0 {
        assert(a + b =~= b);
    } else if b.len() == 0 {
        assert(a + b =~= a);
    } else if a.len() == 1 {
        assert((a + b)[0] == a[0]);
        assert((a + b).skip(1) =~= b);
        assert(comps_chars(a + b) == dec_chars(a[0].value as nat) + a[0].unit + seq![' ']
            + comps_chars((a + b).skip(1)));
        assert(comps_chars(a + b) =~= comps_chars(a) + seq![' '] + comps_chars(b));
    } else {
        assert((a + b)[0] == a[0]);
        assert((a + b).skip(1) =~= a.skip(1) + b);
        lemma_comps_chars_concat(a.skip(1), b);
        assert(comps_chars(a + b) == dec_chars(a[0].value as nat) + a[0].unit + seq![' ']
            + comps_chars((a + b).skip(1)));
        assert(comps_chars(a) == dec_chars(a[0].value as nat) + a[0].unit + seq![' ']
            + comps_chars(a.skip(1)));
        assert(comps_chars(a + b) =~= comps_chars(a) + seq![' '] + comps_chars(b));
    }
}

/// The components of the re-published interval text for `ms`: each
/// non-zero calendar component, largest first; a zero duration is the one
/// component `0s`.
pub open spec fn spec_dur_comps(ms: u64) -> Seq<DurComponent> {
    if ms == 0 {
        seq![DurComponent { value: 0, unit: seq!['s'], mult: 1000 }]
    } else {
        (if ms / 86400000 > 0 {
            seq![
                DurComponent {
                    value: (ms / 86400000) as u64,
                    unit: seq!['d'],
                    mult: 86400000,
                },
            ]
        } else {
            Seq::empty()
        }) + (if (ms / 3600000) % 24 > 0 {
            seq![
                DurComponent {
                    value: ((ms / 3600000) % 24) as u64,
                    unit: seq!['h'],
                    mult: 3600000,
                },
            ]
        } else {
            Seq::empty()
        }) + (if (ms / 60000) % 60 > 0 {
            seq![
                DurComponent {
                    value: ((ms / 60000) % 60) as u64,
                    unit: seq!['m'],
                    mult: 60000,
                },
            ]
        } else {
            Seq::empty()
        }) + (if (ms / 1000) % 60 > 0 {
            seq![
                DurComponent { value: ((ms / 1000) % 60) as u64, unit: seq!['s'], mult: 1000 },
            ]
        } else {
            Seq::empty()
        }) + (if ms % 1000 > 0 {
            seq![
                DurComponent { value: (ms % 1000) as u64, unit: seq!['m', 's'], mult: 1 },
            ]
        } else {
            Seq::empty()
        })
    }
}

/// A duration's milliseconds split into days, hours, minutes, seconds
/// and milliseconds add back up to the duration.
proof fn lemma_dur_decomposition(ms: u64)
    ensures
        (ms / 86400000) * 86400000 + ((ms / 3600000) % 24) * 3600000 + ((ms / 60000) % 60)
            * 60000 + ((ms / 1000) % 60) * 1000 + ms % 1000 == ms,
{
    let d = (ms / 86400000) as int;
    let a = (ms % 86400000) as int;
    let msi = ms as int;
    assert(msi == d * 86400000 + a);
    let h = a / 3600000;
    let b = a % 3600000;
    assert(a == h * 3600000 + b);
    assert(h < 24);
    assert(msi / 3600000 == d * 24 + h);
    let m = b / 60000;
    let c = b % 60000;
    assert(b == m * 60000 + c);
    assert(m < 60);
    assert(msi / 60000 == d * 1440 + h * 60 + m);
    let s2 = c / 1000;
    let r = c % 1000;
    assert(c == s2 * 1000 + r);
    assert(s2 < 60);
    assert(msi / 1000 == d * 86400 + h * 3600 + m * 60 + s2);
    assert(msi % 1000 == r);
}

/// The interval text the re-publisher writes for `ms` parses back to
/// exactly `ms`: re-published register definitions are never lost to the
/// interval grammar.
pub proof fn lemma_interval_round_trip(ms: u64)
    ensures
        spec_duration_ms(comps_chars(spec_dur_comps(ms))) == Some(ms),
{
    lemma_unit_cases(seq!['d']);
    lemma_unit_cases(seq!['h']);
    lemma_unit_cases(seq!['m']);
    lemma_unit_cases(seq!['s']);
    lemma_unit_cases(seq!['m', 's']);
    assert(seq!['d'][0] == 'd' && seq!['h'][0] == 'h' && seq!['m'][0] == 'm' && seq!['s'][0]
        == 's');
    assert(seq!['m', 's'][0] == 'm' && seq!['m', 's'][1] == 's');
    let cs = spec_dur_comps(ms);
    if ms == 0 {
        assert(cs[0].unit == seq!['s'] && cs[0].mult == 1000 && cs[0].value == 0);
        assert(comps_wf(cs));
        lemma_comps_round_trip(cs);
        assert(cs.skip(1).len() == 0);
        assert(comps_ms(cs.skip(1)) == 0);
        assert(comps_ms(cs) == 0);
    } else {
        let p_d = if ms / 86400000 > 0 {
            seq![
                DurComponent {
                    value: (ms / 86400000) as u64,
                    unit: seq!['d'],
                    mult: 86400000 as nat,
                },
            ]
        } else {
            Seq::<DurComponent>::empty()
        };
        let p_h = if (ms / 3600000) % 24 > 0 {
            seq![
                DurComponent {
                    value: ((ms / 3600000) % 24) as u64,
                    unit: seq!['h'],
                    mult: 3600000 as nat,
                },
            ]
        } else {
            Seq::<DurComponent>::empty()
        };
        let p_m = if (ms / 60000) % 60 > 0 {
            seq![
                DurComponent {
                    value: ((ms / 60000) % 60) as u64,
                    unit: seq!['m'],
                    mult: 60000 as nat,
                },
            ]
        } else {
            Seq::<DurComponent>::empty()
        };
        let p_s = if (ms / 1000) % 60 > 0 {
            seq![
                DurComponent {
                    value: ((ms / 1000) % 60) as u64,
                    unit: seq!['s'],
                    mult: 1000 as nat,
                },
            ]
        } else {
            Seq::<DurComponent>::empty()
        };
        let p_r = if ms % 1000 > 0 {
            seq![DurComponent { value: (ms % 1000) as u64, unit: seq!['m', 's'], mult: 1 as nat }]
        } else {
            Seq::<DurComponent>::empty()
        };
        assert(cs == p_d + p_h + p_m + p_s + p_r);
        assert(comps_wf(p_d) && comps_wf(p_h) && comps_wf(p_m) && comps_wf(p_s) && comps_wf(
            p_r,
        ));
        lemma_comps_wf_concat(p_d, p_h);
        lemma_comps_wf_concat(p_d + p_h, p_m);
        lemma_comps_wf_concat(p_d + p_h + p_m, p_s);
        lemma_comps_wf_concat(p_d + p_h + p_m + p_s, p_r);
        lemma_comps_ms_concat(p_d, p_h);
        lemma_comps_ms_concat(p_d + p_h, p_m);
        lemma_comps_ms_concat(p_d + p_h + p_m, p_s);
        lemma_comps_ms_concat(p_d + p_h + p_m + p_s, p_r);
        assert(comps_ms(p_d) == (ms / 86400000) * 86400000) by {
            if ms / 86400000 > 0 {
                assert(ms as int == 86400000 * ((ms as int) / 86400000) + (ms as int)
                    % 86400000);
                assert(0 <= (ms as int) / 86400000 <= ms as int);
                assert(p_d[0].value as nat == ms / 86400000);
                assert(p_d.skip(1).len() == 0);
                assert(comps_ms(p_d.skip(1)) == 0);
            } else {
                assert(p_d.len() == 0);
            }
        }
        assert(comps_ms(p_h) == ((ms / 3600000) % 24) * 3600000) by {
            if (ms / 3600000) % 24 > 0 {
                assert(p_h[0].value as nat == (ms / 3600000) % 24);
                assert(p_h.skip(1).len() == 0);
                assert(comps_ms(p_h.skip(1)) == 0);
            } else {
                assert(p_h.len() == 0);
            }
        }
        assert(comps_ms(p_m) == ((ms / 60000) % 60) * 60000) by {
            if (ms / 60000) % 60 > 0 {
                assert(p_m[0].value as nat == (ms / 60000) % 60);
                assert(p_m.skip(1).len() == 0);
                assert(comps_ms(p_m.skip(1)) == 0);
            } else {
                assert(p_m.len() == 0);
            }
        }
        assert(comps_ms(p_s) == ((ms / 1000) % 60) * 1000) by {
            if (ms / 1000) % 60 > 0 {
                assert(p_s[0].value as nat == (ms / 1000) % 60);
                assert(p_s.skip(1).len() == 0);
                assert(comps_ms(p_s.skip(1)) == 0);
            } else {
                assert(p_s.len() == 0);
            }
        }
        assert(comps_ms(p_r) == ms % 1000) by {
            if ms % 1000 > 0 {
                assert(p_r[0].value as nat == ms % 1000);
                assert(p_r.skip(1).len() == 0);
                assert(comps_ms(p_r.skip(1)) == 0);
                assert(comps_ms(p_r) == (ms % 1000) * 1 + 0);
            } else {
                assert(p_r.len() == 0);
            }
        }
        lemma_dur_decomposition(ms);
        assert(comps_ms(cs) == ms);
        assert(cs.len() >= 1);
        lemma_comps_round_trip(cs);
    }
}

/// The number a string of decimal digits denotes, where it is nothing
/// but digits and fits an unsigned 64-bit integer.
pub open spec fn spec_decimal_u64(s: Seq<char>) -> Option<u64> {
    if digits_prefix_len(s) == s.len() && s.len() > 0 && digits_value(s) <= u64::MAX {
        Some(digits_value(s) as u64)
    } else {
        None
    }
}

/// Parses a string of decimal digits.
pub fn decimal_u64_of_str(s: &str) -> (r: Option<u64>)
    ensures
        r == spec_decimal_u64(s@),
{
    let len = s.unicode_len();
    let mut nd: usize = 0;
    loop
        invariant_except_break
            nd <= len,
            len == s@.len(),
            forall|k: int| 0 <= k < nd ==> is_digit_char(s@[k]),
        ensures
            nd <= len,
            len == s@.len(),
            forall|k: int| 0 <= k < nd ==> is_digit_char(s@[k]),
            nd < len ==> !is_digit_char(s@[nd as int]),
        decreases len - nd,
    {
        if nd >= len {
            break;
        }
        let c = s.get_char(nd);
        if !(48 <= c as u32 && c as u32 <= 57) {
            break;
        }
        nd = nd + 1;
    }
    proof {
        lemma_digits_prefix_range(s@, nd as int);
    }
    if nd < len || len == 0 {
        return None;
    }
    let mut v: u64 = 0;
    let mut i: usize = 0;
    while i < len
        invariant
            i <= len,
            len == s@.len(),
            forall|k: int| 0 <= k < len ==> is_digit_char(s@[k]),
            v == digits_value(s@.take(i as int)),
        decreases len - i,
    {
        let c = s.get_char(i);
        let d: u64 = (c as u32 as u64) - 48;
        proof {
            assert(s@.take(i + 1).drop_last() =~= s@.take(i as int));
            assert(s@.take(i + 1).last() == s@[i as int]);
            assert(digits_value(s@.take(i + 1)) == digits_value(s@.take(i as int)) * 10 + (
            s@[i as int] as u32 - 48) as nat);
        }
        if v > 1844674407370955161 || (v == 1844674407370955161 && d > 5) {
            proof {
                assert(digits_value(s@.take(i + 1)) > u64::MAX);
                lemma_digits_value_grows(s@, i + 1, len as int);
                assert(s@.take(len as int) =~= s@);
            }
            return None;
        }
        v = v * 10 + d;
        i = i + 1;
    }
    proof {
        assert(s@.take(len as int) =~= s@);
    }
    Some(v)
}

/// The milliseconds between polls of a register: the `interval` field (or
/// its aliases `period` and `duration`), a human-readable string; one
/// minute where absent.
pub open spec fn spec_interval_of(j: Json) -> Option<u64> {
    match spec_interval_field(j) {
        Some(Json::Str(s)) => spec_duration_ms(s@),
        Some(_) => None,
        None => Some(60000),
    }
}

pub open spec fn spec_interval_field(j: Json) -> Option<Json> {
    match spec_get(j, "interval"@) {
        Some(v) => Some(v),
        None => match spec_get(j, "period"@) {
            Some(v) => Some(v),
            None => spec_get(j, "duration"@),
        },
    }
}

fn interval_of(j: &Json) -> (r: Option<u64>)
    ensures
        r == spec_interval_of(*j),
{
    let field = match j.get("interval") {
        Some(v) => Some(v),
        None => match j.get("period") {
            Some(v) => Some(v),
            None => j.get("duration"),
        },
    };
    match field {
        Some(Json::Str(s)) => duration_ms_of_str(s.as_str()),
        Some(_) => None,
        None => Some(60000),
    }
}

/// The default poll interval, in milliseconds: one minute.
pub fn default_register_interval() -> (r: u64)
    ensures
        r == 60000,
{
    60000
}

// ---------------------------------------------------------------------------
// Registers
// ---------------------------------------------------------------------------

/// The register type a configuration name denotes.
pub open spec fn spec_register_type_of(j: Json) -> Option<RegisterType> {
    match spec_get(j, "register_type"@) {
        None => Some(RegisterType::Input),
        Some(Json::Str(s)) => if s@ == "input"@ {
            Some(RegisterType::Input)
        } else if s@ == "holding"@ {
            Some(RegisterType::Holding)
        } else {
            None
        },
        Some(_) => None,
    }
}

fn register_type_of(j: &Json) -> (r: Option<RegisterType>)
    ensures
        r == spec_register_type_of(*j),
{
    match j.get("register_type") {
        None => Some(RegisterType::Input),
        Some(Json::Str(s)) => {
            if str_eq(s.as_str(), "input") {
                Some(RegisterType::Input)
            } else if str_eq(s.as_str(), "holding") {
                Some(RegisterType::Holding)
            } else {
                None
            }
        },
        Some(_) => None,
    }
}

/// The register definition a configuration object describes: a required
/// `address`, an optional `name`, the register type, the parse spec and
/// the poll interval. A definition whose parse spec reads more than the
/// 125 words one Modbus request may carry is rejected.
pub open spec fn spec_register_of(j: Json) -> Option<Register> {
    if !(j is Obj) {
        None
    } else {
        match (
            spec_req_u16(j, "address"@),
            spec_register_type_of(j),
            spec_register_parse_of(j),
            spec_interval_of(j),
        ) {
            (Some(address), Some(register_type), Some(parse), Some(interval)) => {
                let name = match spec_get(j, "name"@) {
                    Some(Json::Str(s)) => Some(Some(s)),
                    Some(_) => None,
                    None => Some(None),
                };
                match name {
                    Some(name) => if parse.value_type.wf() {
                        Some(Register { name, address, register_type, parse, interval })
                    } else {
                        None
                    },
                    None => None,
                }
            },
            _ => None,
        }
    }
}

pub fn register_of(j: &Json) -> (r: Option<Register>)
    ensures
        r == spec_register_of(*j),
{
    if !matches!(j, Json::Obj(_)) {
        return None;
    }
    let address = match get_req_u16(j, "address") {
        Some(a) => a,
        None => { return None; },
    };
    let register_type = match register_type_of(j) {
        Some(t) => t,
        None => { return None; },
    };
    let parse = match register_parse_of(j) {
        Some(p) => p,
        None => { return None; },
    };
    let interval = match interval_of(j) {
        Some(i) => i,
        None => { return None; },
    };
    let name: Option<String> = match j.get("name") {
        Some(Json::Str(s)) => Some(s.clone()),
        Some(_) => { return None; },
        None => None,
    };
    let too_large = match &parse.value_type {
        RegisterValueType::Numeric { .. } => false,
        RegisterValueType::String(s) => s.length > 125,
        RegisterValueType::Array(a) => {
            let sz = a.of.size() as u16;
            proof {
                assert(a.of.spec_size() <= 4);
                assert((sz as int) * ((a.count as u16) as int) <= 1020) by (nonlinear_arith)
                    requires 0 <= sz as int <= 4, 0 <= (a.count as u16) as int <= 255,
                ;
            }
            sz * (a.count as u16) > 125
        },
    };
    if too_large {
        return None;
    }
    proof {
        match parse.value_type {
            RegisterValueType::Array(arr) => {
                assert(arr.of.spec_size() * arr.count as int <= 125);
            },
            _ => {},
        }
    }
    Some(Register { name, address, register_type, parse, interval })
}

/// Parses a register definition from JSON text.
pub fn parse_register(bytes: &[u8]) -> (r: Option<Register>)
    ensures
        r == (match crate::json::json_of(bytes@) {
            Some(j) => spec_register_of(j),
            None => None::<Register>,
        }),
{
    match crate::json::parse_json(bytes) {
        Some(j) => register_of(&j),
        None => None,
    }
}


// ---------------------------------------------------------------------------
// Transports
// ---------------------------------------------------------------------------

/// Serial data bits.
#[derive(Clone, Copy, Debug, PartialEq, Eq, Structural)]
pub enum DataBits {
    Five,
    Six,
    Seven,
    Eight,
}

/// Serial stop bits.
#[derive(Clone, Copy, Debug, PartialEq, Eq, Structural)]
pub enum StopBits {
    One,
    Two,
}

/// Serial flow control; `Disabled` is written `"None"` in configuration.
#[derive(Clone, Copy, Debug, PartialEq, Eq, Structural)]
pub enum FlowControl {
    Disabled,
    Software,
    Hardware,
}

/// Serial parity; `Disabled` is written `"None"` in configuration.
#[derive(Clone, Copy, Debug, PartialEq, Eq, Structural)]
pub enum Parity {
    Disabled,
    Odd,
    Even,
}

/// How one Modbus device is reached: plain TCP, serial RTU, or the
/// Sungrow WiNet-S HTTP/WebSocket gateway. `Unknown` stands for a `proto`
/// name this build does not recognise.
#[derive(Clone, Debug, PartialEq)]
pub enum ModbusProto {
    Tcp { host: String, port: u16 },
    Rtu {
        tty: String,
        baud_rate: u32,
        data_bits: DataBits,
        stop_bits: StopBits,
        flow_control: FlowControl,
        parity: Parity,
    },
    SungrowWiNetS { host: String },
    Unknown,
}

/// The default Modbus TCP port.
pub fn default_modbus_port() -> (r: u16)
    ensures
        r == 502,
{
    502
}

/// The default unit id: the broadcast address.
pub fn default_modbus_unit() -> (r: u8)
    ensures
        r == 0,
{
    0
}

/// The default address offset.
pub fn default_address_offset() -> (r: i8)
    ensures
        r == 0,
{
    0
}

pub open spec fn spec_data_bits_of(j: Json) -> Option<DataBits> {
    match spec_get(j, "data_bits"@) {
        None => Some(DataBits::Eight),
        Some(Json::Str(s)) => if s@ == "Five"@ {
            Some(DataBits::Five)
        } else if s@ == "Six"@ {
            Some(DataBits::Six)
        } else if s@ == "Seven"@ {
            Some(DataBits::Seven)
        } else if s@ == "Eight"@ {
            Some(DataBits::Eight)
        } else {
            None
        },
        Some(_) => None,
    }
}

pub open spec fn spec_stop_bits_of(j: Json) -> Option<StopBits> {
    match spec_get(j, "stop_bits"@) {
        None => Some(StopBits::One),
        Some(Json::Str(s)) => if s@ == "One"@ {
            Some(StopBits::One)
        } else if s@ == "Two"@ {
            Some(StopBits::Two)
        } else {
            None
        },
        Some(_) => None,
    }
}

pub open spec fn spec_flow_control_of(j: Json) -> Option<FlowControl> {
    match spec_get(j, "flow_control"@) {
        None => Some(FlowControl::Disabled),
        Some(Json::Str(s)) => if s@ == "None"@ {
            Some(FlowControl::Disabled)
        } else if s@ == "Software"@ {
            Some(FlowControl::Software)
        } else if s@ == "Hardware"@ {
            Some(FlowControl::Hardware)
        } else {
            None
        },
        Some(_) => None,
    }
}

pub open spec fn spec_parity_of(j: Json) -> Option<Parity> {
    match spec_get(j, "parity"@) {
        None => Some(Parity::Disabled),
        Some(Json::Str(s)) => if s@ == "None"@ {
            Some(Parity::Disabled)
        } else if s@ == "Odd"@ {
            Some(Parity::Odd)
        } else if s@ == "Even"@ {
            Some(Parity::Even)
        } else {
            None
        },
        Some(_) => None,
    }
}

fn data_bits_of(j: &Json) -> (r: Option<DataBits>)
    ensures
        r == spec_data_bits_of(*j),
{
    match j.get("data_bits") {
        None => Some(DataBits::Eight),
        Some(Json::Str(s)) => {
            if str_eq(s.as_str(), "Five") {
                Some(DataBits::Five)
            } else if str_eq(s.as_str(), "Six") {
                Some(DataBits::Six)
            } else if str_eq(s.as_str(), "Seven") {
                Some(DataBits::Seven)
            } else if str_eq(s.as_str(), "Eight") {
                Some(DataBits::Eight)
            } else {
                None
            }
        },
        Some(_) => None,
    }
}

fn stop_bits_of(j: &Json) -> (r: Option<StopBits>)
    ensures
        r == spec_stop_bits_of(*j),
{
    match j.get("stop_bits") {
        None => Some(StopBits::One),
        Some(Json::Str(s)) => {
            if str_eq(s.as_str(), "One") {
                Some(StopBits::One)
            } else if str_eq(s.as_str(), "Two") {
                Some(StopBits::Two)
            } else {
                None
            }
        },
        Some(_) => None,
    }
}

fn flow_control_of(j: &Json) -> (r: Option<FlowControl>)
    ensures
        r == spec_flow_control_of(*j),
{
    match j.get("flow_control") {
        None => Some(FlowControl::Disabled),
        Some(Json::Str(s)) => {
            if str_eq(s.as_str(), "None") {
                Some(FlowControl::Disabled)
            } else if str_eq(s.as_str(), "Software") {
                Some(FlowControl::Software)
            } else if str_eq(s.as_str(), "Hardware") {
                Some(FlowControl::Hardware)
            } else {
                None
            }
        },
        Some(_) => None,
    }
}

fn parity_of(j: &Json) -> (r: Option<Parity>)
    ensures
        r == spec_parity_of(*j),
{
    match j.get("parity") {
        None => Some(Parity::Disabled),
        Some(Json::Str(s)) => {
            if str_eq(s.as_str(), "None") {
                Some(Parity::Disabled)
            } else if str_eq(s.as_str(), "Odd") {
                Some(Parity::Odd)
            } else if str_eq(s.as_str(), "Even") {
                Some(Parity::Even)
            } else {
                None
            }
        },
        Some(_) => None,
    }
}

/// The mathematical model of a transport: its strings by contents.
pub enum ProtoV {
    Tcp { host: Seq<char>, port: u16 },
    Rtu {
        tty: Seq<char>,
        baud_rate: u32,
        data_bits: DataBits,
        stop_bits: StopBits,
        flow_control: FlowControl,
        parity: Parity,
    },
    SungrowWiNetS { host: Seq<char> },
    Unknown,
}

impl View for ModbusProto {
    type V = ProtoV;

    open spec fn view(&self) -> ProtoV {
        match self {
            ModbusProto::Tcp { host, port } => ProtoV::Tcp { host: host@, port: *port },
            ModbusProto::Rtu { tty, baud_rate, data_bits, stop_bits, flow_control, parity } =>
                ProtoV::Rtu {
                    tty: tty@,
                    baud_rate: *baud_rate,
                    data_bits: *data_bits,
                    stop_bits: *stop_bits,
                    flow_control: *flow_control,
                    parity: *parity,
                },
            ModbusProto::SungrowWiNetS { host } => ProtoV::SungrowWiNetS { host: host@ },
            ModbusProto::Unknown => ProtoV::Unknown,
        }
    }
}

/// The transport settings a connection config carries, tagged by its
/// `proto` field; an unrecognised protocol name parses as `Unknown` so the
/// connector can report it.
pub open spec fn spec_proto_of(j: Json) -> Option<ProtoV> {
    match spec_get(j, "proto"@) {
        Some(Json::Str(s)) => if s@ == "tcp"@ {
            match (spec_req_str(j, "host"@), spec_opt_u16(j, "port"@, 502)) {
                (Some(host), Some(port)) => Some(ProtoV::Tcp { host, port }),
                _ => None,
            }
        } else if s@ == "rtu"@ {
            match (
                spec_req_str(j, "tty"@),
                spec_req_u32(j, "baud_rate"@),
                spec_data_bits_of(j),
                spec_stop_bits_of(j),
                spec_flow_control_of(j),
                spec_parity_of(j),
            ) {
                (
                    Some(tty),
                    Some(baud_rate),
                    Some(data_bits),
                    Some(stop_bits),
                    Some(flow_control),
                    Some(parity),
                ) => Some(ProtoV::Rtu {
                    tty,
                    baud_rate,
                    data_bits,
                    stop_bits,
                    flow_control,
                    parity,
                }),
                _ => None,
            }
        } else if s@ == "winet-s"@ {
            match spec_req_str(j, "host"@) {
                Some(host) => Some(ProtoV::SungrowWiNetS { host }),
                None => None,
            }
        } else {
            Some(ProtoV::Unknown)
        },
        _ => None,
    }
}

pub fn proto_of(j: &Json) -> (r: Option<ModbusProto>)
    ensures
        match r {
            Some(p) => spec_proto_of(*j) == Some(p@),
            None => spec_proto_of(*j) is None,
        },
{
    match j.get("proto") {
        Some(Json::Str(s)) => {
            if str_eq(s.as_str(), "tcp") {
                match (get_req_str(j, "host"), get_opt_u16(j, "port", 502)) {
                    (Some(host), Some(port)) => Some(ModbusProto::Tcp { host, port }),
                    _ => None,
                }
            } else if str_eq(s.as_str(), "rtu") {
                match (
                    get_req_str(j, "tty"),
                    get_req_u32(j, "baud_rate"),
                    data_bits_of(j),
                    stop_bits_of(j),
                    flow_control_of(j),
                    parity_of(j),
                ) {
                    (
                        Some(tty),
                        Some(baud_rate),
                        Some(data_bits),
                        Some(stop_bits),
                        Some(flow_control),
                        Some(parity),
                    ) => Some(ModbusProto::Rtu {
                        tty,
                        baud_rate,
                        data_bits,
                        stop_bits,
                        flow_control,
                        parity,
                    }),
                    _ => None,
                }
            } else if str_eq(s.as_str(), "winet-s") {
                match get_req_str(j, "host") {
                    Some(host) => Some(ModbusProto::SungrowWiNetS { host }),
                    None => None,
                }
            } else {
                Some(ModbusProto::Unknown)
            }
        },
        _ => None,
    }
}

// ---------------------------------------------------------------------------
// Connection configs
// ---------------------------------------------------------------------------

/// A full connection config: the transport, the unit id, the signed
/// address offset, and the inline register definitions (each parsed where
/// valid; invalid entries are kept as `None` and skipped on republish).
#[derive(Clone, Debug, PartialEq)]
pub struct Connect {
    pub settings: ModbusProto,
    pub unit: u8,
    pub address_offset: i8,
    pub input: Vec<Option<Register>>,
    pub holding: Vec<Option<Register>>,
    pub registers: Vec<Option<Register>>,
}

/// The unit id: `unit`, or its alias `slave`, or broadcast.
pub open spec fn spec_unit_of(j: Json) -> Option<u8> {
    match spec_get(j, "unit"@) {
        Some(Json::Int(i)) => if 0 <= i <= 255 {
            Some(i as u8)
        } else {
            None
        },
        Some(_) => None,
        None => spec_opt_u8(j, "slave"@, 0),
    }
}

fn unit_of(j: &Json) -> (r: Option<u8>)
    ensures
        r == spec_unit_of(*j),
{
    match j.get("unit") {
        Some(Json::Int(i)) => {
            let i = *i;
            if 0 <= i && i <= 255 {
                Some(i as u8)
            } else {
                None
            }
        },
        Some(_) => None,
        None => get_opt_u8(j, "slave", 0),
    }
}

/// The inline register list under `key`: absent means empty, and each
/// element parses to a register or to `None` where invalid.
pub open spec fn spec_reg_list(j: Json, key: Seq<char>) -> Option<Seq<Option<Register>>> {
    match spec_get(j, key) {
        None => Some(Seq::empty()),
        Some(Json::Arr(v)) => Some(Seq::new(v@.len(), |i: int| spec_register_of(v@[i]))),
        Some(_) => None,
    }
}

fn reg_list(j: &Json, key: &str) -> (r: Option<Vec<Option<Register>>>)
    ensures
        match r {
            Some(v) => spec_reg_list(*j, key@) == Some(v@),
            None => spec_reg_list(*j, key@) is None,
        },
{
    match j.get(key) {
        None => Some(Vec::new()),
        Some(Json::Arr(items)) => {
            let n = items.len();
            let mut out: Vec<Option<Register>> = Vec::new();
            let mut i: usize = 0;
            while i < n
                invariant
                    i <= n,
                    n == items@.len(),
                    out@ == Seq::new(i as nat, |k: int| spec_register_of(items@[k])),
                decreases n - i,
            {
                out.push(register_of(&items[i]));
                proof {
                    assert(out@ =~= Seq::new((i + 1) as nat, |k: int| spec_register_of(items@[k])));
                }
                i = i + 1;
            }
            proof {
                assert(out@ =~= Seq::new(items@.len(), |k: int| spec_register_of(items@[k])));
            }
            Some(out)
        },
        Some(_) => None,
    }
}

/// The holding-register list: the `holding` key, or its alias `hold`.
pub open spec fn spec_holding_list(j: Json) -> Option<Seq<Option<Register>>> {
    match spec_get(j, "holding"@) {
        Some(_) => spec_reg_list(j, "holding"@),
        None => spec_reg_list(j, "hold"@),
    }
}

fn holding_list(j: &Json) -> (r: Option<Vec<Option<Register>>>)
    ensures
        match r {
            Some(v) => spec_holding_list(*j) == Some(v@),
            None => spec_holding_list(*j) is None,
        },
{
    match j.get("holding") {
        Some(_) => reg_list(j, "holding"),
        None => reg_list(j, "hold"),
    }
}

/// Whether a parsed connection config is the one the JSON describes.
pub open spec fn connect_matches(c: Connect, j: Json) -> bool {
    &&& spec_proto_of(j) == Some(c.settings@)
    &&& spec_unit_of(j) == Some(c.unit)
    &&& spec_opt_i8(j, "address_offset"@, 0) == Some(c.address_offset)
    &&& spec_reg_list(j, "input"@) == Some(c.input@)
    &&& spec_holding_list(j) == Some(c.holding@)
    &&& spec_reg_list(j, "registers"@) == Some(c.registers@)
}

/// Whether the JSON describes any valid connection config at all.
pub open spec fn spec_connect_valid(j: Json) -> bool {
    &&& j is Obj
    &&& spec_proto_of(j) is Some
    &&& spec_unit_of(j) is Some
    &&& spec_opt_i8(j, "address_offset"@, 0) is Some
    &&& spec_reg_list(j, "input"@) is Some
    &&& spec_holding_list(j) is Some
    &&& spec_reg_list(j, "registers"@) is Some
}

pub fn connect_of(j: &Json) -> (r: Option<Connect>)
    ensures
        match r {
            Some(c) => spec_connect_valid(*j) && connect_matches(c, *j),
            None => !spec_connect_valid(*j),
        },
{
    if !matches!(j, Json::Obj(_)) {
        return None;
    }
    let settings = match proto_of(j) {
        Some(p) => p,
        None => { return None; },
    };
    let unit = match unit_of(j) {
        Some(u) => u,
        None => { return None; },
    };
    let address_offset = match get_opt_i8(j, "address_offset", 0) {
        Some(o) => o,
        None => { return None; },
    };
    let input = match reg_list(j, "input") {
        Some(v) => v,
        None => { return None; },
    };
    let holding = match holding_list(j) {
        Some(v) => v,
        None => { return None; },
    };
    let registers = match reg_list(j, "registers") {
        Some(v) => v,
        None => { return None; },
    };
    Some(Connect { settings, unit, address_offset, input, holding, registers })
}

/// Parses a connection config from JSON text.
pub fn parse_connect(bytes: &[u8]) -> (r: Option<Connect>)
    ensures
        match r {
            Some(c) => (match crate::json::json_of(bytes@) {
                Some(j) => spec_connect_valid(j) && connect_matches(c, j),
                None => false,
            }),
            None => (match crate::json::json_of(bytes@) {
                Some(j) => !spec_connect_valid(j),
                None => true,
            }),
        },
{
    match crate::json::parse_json(bytes) {
        Some(j) => connect_of(&j),
        None => None,
    }
}

// ---------------------------------------------------------------------------
// Connection lifecycle states
// ---------------------------------------------------------------------------

/// The states a connection publishes on its `state` topic.
#[derive(Clone, Copy, Debug, PartialEq, Eq, Structural)]
pub enum ConnectState {
    Connecting,
    Connected,
    Disconnected,
    Errored,
    Invalid,
    UnknownProto,
}

impl ConnectState {
    pub open spec fn spec_label(&self) -> Seq<char> {
        match self {
            ConnectState::Connecting => "connecting"@,
            ConnectState::Connected => "connected"@,
            ConnectState::Disconnected => "disconnected"@,
            ConnectState::Errored => "errored"@,
            ConnectState::Invalid => "invalid"@,
            ConnectState::UnknownProto => "unknown_proto"@,
        }
    }

    /// The payload published for this state.
    pub fn label(&self) -> (r: String)
        ensures
            r@ == self.spec_label(),
    {
        match self {
            ConnectState::Connecting => "connecting".to_owned(),
            ConnectState::Connected => "connected".to_owned(),
            ConnectState::Disconnected => "disconnected".to_owned(),
            ConnectState::Errored => "errored".to_owned(),
            ConnectState::Invalid => "invalid".to_owned(),
            ConnectState::UnknownProto => "unknown_proto".to_owned(),
        }
    }
}

/// A connection config together with its lifecycle state.
#[derive(Clone, Debug, PartialEq)]
pub struct ConnectStatus {
    pub connect: Connect,
    pub status: ConnectState,
}

} // verus!


