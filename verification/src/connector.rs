use vstd::prelude::*;

use crate::codec::{
    dec_chars, digit_char, Register, RegisterNumericAdjustment, RegisterType, RegisterValueType,
};
use crate::config::{
    comps_chars, lemma_comps_chars_concat, spec_dur_comps, Connect, DurComponent,
    connect_matches, spec_connect_valid,
};
use crate::json::{Json, json_of};
use crate::value::{Dec, dec_text, dec_digits, escaped_bytes, push_dec_text, push_escaped,
    digits_u128};
use vstd::utf8::encode_utf8;

verus! {

// ---------------------------------------------------------------------------
// Serializing registers back to JSON
// ---------------------------------------------------------------------------

fn push_lit(out: &mut Vec<u8>, s: &str)
    ensures
        final(out)@ == old(out)@ + encode_utf8(s@),
{
    let mut bytes = vstd::slice::slice_to_vec(s.as_bytes());
    out.append(&mut bytes);
}

/// The interval text components for the given day/hour/minute/second/
/// millisecond decomposition: each non-zero component, largest first,
/// space-separated.
pub open spec fn spec_dur_parts(d: u64, h: u64, m: u64, s: u64, r: u64) -> Seq<u8> {
    let part_d: Seq<u8> = if d > 0 {
        dec_digits(d as nat) + seq![100u8]
    } else {
        Seq::empty()
    };
    let part_h: Seq<u8> = if h > 0 {
        (if part_d.len() > 0 {
            seq![32u8]
        } else {
            Seq::empty()
        }) + dec_digits(h as nat) + seq![104u8]
    } else {
        Seq::empty()
    };
    let part_m: Seq<u8> = if m > 0 {
        (if part_d.len() + part_h.len() > 0 {
            seq![32u8]
        } else {
            Seq::empty()
        }) + dec_digits(m as nat) + seq![109u8]
    } else {
        Seq::empty()
    };
    let part_s: Seq<u8> = if s > 0 {
        (if part_d.len() + part_h.len() + part_m.len() > 0 {
            seq![32u8]
        } else {
            Seq::empty()
        }) + dec_digits(s as nat) + seq![115u8]
    } else {
        Seq::empty()
    };
    let part_ms: Seq<u8> = if r > 0 {
        (if part_d.len() + part_h.len() + part_m.len() + part_s.len() > 0 {
            seq![32u8]
        } else {
            Seq::empty()
        }) + dec_digits(r as nat) + seq![109u8, 115u8]
    } else {
        Seq::empty()
    };
    part_d + part_h + part_m + part_s + part_ms
}

#[verifier::rlimit(100)]
#[verifier::spinoff_prover]
fn push_dur_parts(out: &mut Vec<u8>, d: u64, h: u64, m: u64, s: u64, r: u64)
    ensures
        final(out)@ == old(out)@ + spec_dur_parts(d, h, m, s, r),
{
    let ghost part_d: Seq<u8> = if d > 0 {
        dec_digits(d as nat) + seq![100u8]
    } else {
        Seq::empty()
    };
    let ghost part_h: Seq<u8> = if h > 0 {
        (if part_d.len() > 0 {
            seq![32u8]
        } else {
            Seq::empty()
        }) + dec_digits(h as nat) + seq![104u8]
    } else {
        Seq::empty()
    };
    let ghost part_m: Seq<u8> = if m > 0 {
        (if part_d.len() + part_h.len() > 0 {
            seq![32u8]
        } else {
            Seq::empty()
        }) + dec_digits(m as nat) + seq![109u8]
    } else {
        Seq::empty()
    };
    let ghost part_s: Seq<u8> = if s > 0 {
        (if part_d.len() + part_h.len() + part_m.len() > 0 {
            seq![32u8]
        } else {
            Seq::empty()
        }) + dec_digits(s as nat) + seq![115u8]
    } else {
        Seq::empty()
    };
    let ghost part_ms: Seq<u8> = if r > 0 {
        (if part_d.len() + part_h.len() + part_m.len() + part_s.len() > 0 {
            seq![32u8]
        } else {
            Seq::empty()
        }) + dec_digits(r as nat) + seq![109u8, 115u8]
    } else {
        Seq::empty()
    };
    let mut buf: Vec<u8> = Vec::new();
    let mut any: bool = false;
    if d > 0 {
        let mut ds = digits_u128(d as u128);
        buf.append(&mut ds);
        buf.push(100);
        any = true;
    }
    proof {
        assert(buf@ =~= part_d);
        assert(any == (part_d.len() > 0));
    }
    let ghost c1 = buf@;
    if h > 0 {
        if any {
            buf.push(32);
        }
        let mut hs = digits_u128(h as u128);
        buf.append(&mut hs);
        buf.push(104);
        any = true;
    }
    proof {
        assert(buf@ =~= c1 + part_h);
        assert(any == (part_d.len() + part_h.len() > 0));
    }
    let ghost c2 = buf@;
    if m > 0 {
        if any {
            buf.push(32);
        }
        let mut msx = digits_u128(m as u128);
        buf.append(&mut msx);
        buf.push(109);
        any = true;
    }
    proof {
        assert(buf@ =~= c2 + part_m);
        assert(any == (part_d.len() + part_h.len() + part_m.len() > 0));
    }
    let ghost c3 = buf@;
    if s > 0 {
        if any {
            buf.push(32);
        }
        let mut ss = digits_u128(s as u128);
        buf.append(&mut ss);
        buf.push(115);
        any = true;
    }
    proof {
        assert(buf@ =~= c3 + part_s);
        assert(any == (part_d.len() + part_h.len() + part_m.len() + part_s.len() > 0));
    }
    let ghost c4 = buf@;
    if r > 0 {
        if any {
            buf.push(32);
        }
        let mut rs = digits_u128(r as u128);
        buf.append(&mut rs);
        buf.push(109);
        buf.push(115);
    }
    proof {
        assert(buf@ =~= c4 + part_ms);
        assert(buf@ =~= part_d + part_h + part_m + part_s + part_ms);
        assert(spec_dur_parts(d, h, m, s, r) == part_d + part_h + part_m + part_s + part_ms);
    }
    out.append(&mut buf);
}

/// The human-readable text of a poll interval, as it is re-published:
/// days, hours, minutes, seconds and milliseconds, largest first, zero
/// components left out; `0s` for zero. The interval grammar parses this
/// text back to the same milliseconds (`lemma_dur_text_is_utf8` with
/// `lemma_interval_round_trip`).
pub open spec fn spec_dur_text(ms: u64) -> Seq<u8> {
    if ms == 0 {
        encode_utf8("0s"@)
    } else {
        spec_dur_parts(
            (ms / 86400000) as u64,
            ((ms / 3600000) % 24) as u64,
            ((ms / 60000) % 60) as u64,
            ((ms / 1000) % 60) as u64,
            (ms % 1000) as u64,
        )
    }
}

/// Writes the human-readable interval text.
pub fn push_dur_text(out: &mut Vec<u8>, ms: u64)
    ensures
        final(out)@ == old(out)@ + spec_dur_text(ms),
{
    if ms == 0 {
        push_lit(out, "0s");
    } else {
        push_dur_parts(
            out,
            ms / 86400000,
            (ms / 3600000) % 24,
            (ms / 60000) % 60,
            (ms / 1000) % 60,
            ms % 1000,
        );
    }
}

proof fn lemma_encode_concat(a: Seq<char>, b: Seq<char>)
    ensures
        encode_utf8(a + b) == encode_utf8(a) + encode_utf8(b),
    decreases a.len(),
{
    if a.len() == 0 {
        assert(a + b =~= b);
        assert(encode_utf8(a) =~= Seq::<u8>::empty());
        assert(encode_utf8(a) + encode_utf8(b) =~= encode_utf8(b));
    } else {
        assert((a + b)[0] == a[0]);
        assert((a + b).drop_first() =~= a.drop_first() + b);
        lemma_encode_concat(a.drop_first(), b);
        assert(encode_utf8(a + b) =~= encode_utf8(a) + encode_utf8(b));
    }
}

proof fn lemma_encode_one(c: char)
    requires
        (c as u32) < 128,
    ensures
        encode_utf8(seq![c]) == seq![(c as u32) as u8],
{
    let v = c as u32;
    assert(v & 0x7F == v) by (bit_vector)
        requires v < 128,
    ;
    assert(vstd::utf8::encode_scalar(v) =~= seq![vstd::utf8::leading_byte_width_1(v)]);
    assert(vstd::utf8::leading_byte_width_1(v) == (v & 0x7F) as u8);
    assert(seq![c][0] == c);
    assert(seq![c].drop_first() =~= Seq::<char>::empty());
    assert(encode_utf8(Seq::<char>::empty()) =~= Seq::<u8>::empty());
    assert(encode_utf8(seq![c]) =~= vstd::utf8::encode_scalar(v));
}

proof fn lemma_digit_char_val(d: nat)
    requires
        d < 10,
    ensures
        digit_char(d) as u32 == 48 + d,
{
    assert('0' as u32 == 48 && '1' as u32 == 49 && '2' as u32 == 50 && '3' as u32 == 51
        && '4' as u32 == 52 && '5' as u32 == 53 && '6' as u32 == 54 && '7' as u32 == 55
        && '8' as u32 == 56 && '9' as u32 == 57);
}

proof fn lemma_encode_digits(n: nat)
    ensures
        encode_utf8(dec_chars(n)) == dec_digits(n),
        dec_digits(n).len() >= 1,
    decreases n,
{
    if n < 10 {
        lemma_digit_char_val(n);
        lemma_encode_one(digit_char(n));
        assert(dec_chars(n) =~= seq![digit_char(n)]);
        assert(dec_digits(n) =~= seq![(48 + n) as u8]);
        assert(encode_utf8(dec_chars(n)) =~= dec_digits(n));
    } else {
        lemma_encode_digits(n / 10);
        lemma_digit_char_val(n % 10);
        lemma_encode_one(digit_char(n % 10));
        assert(dec_chars(n) =~= dec_chars(n / 10) + seq![digit_char(n % 10)]);
        lemma_encode_concat(dec_chars(n / 10), seq![digit_char(n % 10)]);
        assert(dec_digits(n) =~= dec_digits(n / 10) + seq![(48 + n % 10) as u8]);
        assert(encode_utf8(dec_chars(n)) =~= dec_digits(n));
    }
}

proof fn lemma_comps_chars_empty()
    ensures
        comps_chars(Seq::<DurComponent>::empty()) == Seq::<char>::empty(),
        encode_utf8(comps_chars(Seq::<DurComponent>::empty())) == Seq::<u8>::empty(),
{
    assert(comps_chars(Seq::<DurComponent>::empty()) =~= Seq::<char>::empty());
    assert(encode_utf8(Seq::<char>::empty()) =~= Seq::<u8>::empty());
}

/// Appending one component to a rendered sequence appends its digits and
/// unit bytes, with the separating space exactly when something precedes.
proof fn lemma_comp_step(
    acc: Seq<DurComponent>,
    acc_bytes: Seq<u8>,
    c: DurComponent,
    unit_bytes: Seq<u8>,
)
    requires
        encode_utf8(comps_chars(acc)) == acc_bytes,
        (acc_bytes.len() > 0) <==> (acc.len() > 0),
        encode_utf8(c.unit) == unit_bytes,
    ensures
        encode_utf8(comps_chars(acc + seq![c])) == acc_bytes + (if acc_bytes.len() > 0 {
            seq![32u8]
        } else {
            Seq::<u8>::empty()
        }) + dec_digits(c.value as nat) + unit_bytes,
        encode_utf8(comps_chars(acc + seq![c])).len() > 0,
        (acc + seq![c]).len() > 0,
{
    lemma_comps_chars_concat(acc, seq![c]);
    assert(seq![c][0] == c);
    assert(comps_chars(seq![c]) =~= dec_chars(c.value as nat) + c.unit);
    lemma_encode_digits(c.value as nat);
    lemma_encode_concat(dec_chars(c.value as nat), c.unit);
    if acc.len() == 0 {
        assert(comps_chars(acc + seq![c]) == comps_chars(seq![c]));
        assert(encode_utf8(comps_chars(acc + seq![c])) =~= acc_bytes + Seq::<u8>::empty()
            + dec_digits(c.value as nat) + unit_bytes);
    } else {
        assert(comps_chars(acc + seq![c]) == comps_chars(acc) + seq![' '] + comps_chars(
            seq![c],
        ));
        lemma_encode_concat(comps_chars(acc), seq![' ']);
        lemma_encode_concat(comps_chars(acc) + seq![' '], comps_chars(seq![c]));
        lemma_encode_one(' ');
        assert(' ' as u32 == 32);
        assert(encode_utf8(seq![' ']) =~= seq![32u8]);
        assert(encode_utf8(comps_chars(acc + seq![c])) =~= acc_bytes + seq![32u8] + dec_digits(
            c.value as nat,
        ) + unit_bytes);
    }
}

/// The interval text the re-publisher writes is the UTF-8 encoding of
/// its duration components' characters; with `lemma_interval_round_trip`
/// those characters parse back to the same milliseconds, so an interval
/// is never lost between re-publication and the register subscription.
pub proof fn lemma_dur_text_is_utf8(ms: u64)
    ensures
        spec_dur_text(ms) == encode_utf8(comps_chars(spec_dur_comps(ms))),
{
    let cs = spec_dur_comps(ms);
    if ms == 0 {
        reveal_strlit("0s");
        assert("0s"@ =~= seq!['0', 's']);
        assert(cs[0] == (DurComponent { value: 0, unit: seq!['s'], mult: 1000 as nat }));
        assert(comps_chars(cs) =~= dec_chars(0) + seq!['s']);
        assert(dec_chars(0) =~= seq![digit_char(0)]);
        assert(digit_char(0) == '0');
        assert(comps_chars(cs) =~= seq!['0', 's']);
        assert(spec_dur_text(ms) == encode_utf8("0s"@));
    } else {
        lemma_dur_text_is_utf8_positive(ms);
    }
}

#[verifier::rlimit(100)]
#[verifier::spinoff_prover]
proof fn lemma_dur_text_is_utf8_positive(ms: u64)
    requires
        ms > 0,
    ensures
        spec_dur_text(ms) == encode_utf8(comps_chars(spec_dur_comps(ms))),
{
    let cs = spec_dur_comps(ms);
    {
        let d = ms / 86400000;
        let h = (ms / 3600000) % 24;
        let m = (ms / 60000) % 60;
        let s2 = (ms / 1000) % 60;
        let r = ms % 1000;
        assert(ms as int == 86400000 * ((ms as int) / 86400000) + (ms as int) % 86400000);
        assert(0 <= d <= ms as int);
        lemma_encode_one('d');
        lemma_encode_one('h');
        lemma_encode_one('m');
        lemma_encode_one('s');
        assert('d' as u32 == 100 && 'h' as u32 == 104 && 'm' as u32 == 109 && 's' as u32
            == 115);
        assert(encode_utf8(seq!['d']) =~= seq![100u8]);
        assert(encode_utf8(seq!['h']) =~= seq![104u8]);
        assert(encode_utf8(seq!['m']) =~= seq![109u8]);
        assert(encode_utf8(seq!['s']) =~= seq![115u8]);
        assert(seq!['m', 's'] =~= seq!['m'] + seq!['s']);
        lemma_encode_concat(seq!['m'], seq!['s']);
        assert(encode_utf8(seq!['m', 's']) =~= seq![109u8, 115u8]);
        let q_d: Seq<DurComponent> = if d > 0 {
            seq![DurComponent { value: d as u64, unit: seq!['d'], mult: 86400000 as nat }]
        } else {
            Seq::empty()
        };
        let q_h: Seq<DurComponent> = if h > 0 {
            seq![DurComponent { value: h as u64, unit: seq!['h'], mult: 3600000 as nat }]
        } else {
            Seq::empty()
        };
        let q_m: Seq<DurComponent> = if m > 0 {
            seq![DurComponent { value: m as u64, unit: seq!['m'], mult: 60000 as nat }]
        } else {
            Seq::empty()
        };
        let q_s: Seq<DurComponent> = if s2 > 0 {
            seq![DurComponent { value: s2 as u64, unit: seq!['s'], mult: 1000 as nat }]
        } else {
            Seq::empty()
        };
        let q_r: Seq<DurComponent> = if r > 0 {
            seq![DurComponent { value: r as u64, unit: seq!['m', 's'], mult: 1 as nat }]
        } else {
            Seq::empty()
        };
        assert(cs == q_d + q_h + q_m + q_s + q_r);
        lemma_comps_chars_empty();
        let part_d: Seq<u8> = if d > 0 {
            dec_digits(d as nat) + seq![100u8]
        } else {
            Seq::empty()
        };
        let a1 = q_d;
        let b1: Seq<u8> = part_d;
        if d > 0 {
            lemma_comp_step(
                Seq::<DurComponent>::empty(),
                Seq::<u8>::empty(),
                q_d[0],
                seq![100u8],
            );
            assert(Seq::<DurComponent>::empty() + seq![q_d[0]] =~= q_d);
            assert(encode_utf8(comps_chars(a1)) =~= b1);
            lemma_encode_digits(d as nat);
        } else {
            assert(a1.len() == 0 && b1.len() == 0);
        }
        assert((b1.len() > 0) <==> (a1.len() > 0));
        let part_h: Seq<u8> = if h > 0 {
            (if b1.len() > 0 {
                seq![32u8]
            } else {
                Seq::<u8>::empty()
            }) + dec_digits(h as nat) + seq![104u8]
        } else {
            Seq::empty()
        };
        let a2 = a1 + q_h;
        let b2: Seq<u8> = b1 + part_h;
        if h > 0 {
            lemma_comp_step(a1, b1, q_h[0], seq![104u8]);
            assert(a1 + seq![q_h[0]] =~= a2);
            assert(encode_utf8(comps_chars(a2)) =~= b2);
            lemma_encode_digits(h as nat);
        } else {
            lemma_comps_chars_concat(a1, q_h);
            assert(a2 =~= a1);
            assert(b2 =~= b1);
        }
        assert((b2.len() > 0) <==> (a2.len() > 0));
        let part_m: Seq<u8> = if m > 0 {
            (if b2.len() > 0 {
                seq![32u8]
            } else {
                Seq::<u8>::empty()
            }) + dec_digits(m as nat) + seq![109u8]
        } else {
            Seq::empty()
        };
        let a3 = a2 + q_m;
        let b3: Seq<u8> = b2 + part_m;
        if m > 0 {
            lemma_comp_step(a2, b2, q_m[0], seq![109u8]);
            assert(a2 + seq![q_m[0]] =~= a3);
            assert(encode_utf8(comps_chars(a3)) =~= b3);
            lemma_encode_digits(m as nat);
        } else {
            lemma_comps_chars_concat(a2, q_m);
            assert(a3 =~= a2);
            assert(b3 =~= b2);
        }
        assert((b3.len() > 0) <==> (a3.len() > 0));
        let part_s: Seq<u8> = if s2 > 0 {
            (if b3.len() > 0 {
                seq![32u8]
            } else {
                Seq::<u8>::empty()
            }) + dec_digits(s2 as nat) + seq![115u8]
        } else {
            Seq::empty()
        };
        let a4 = a3 + q_s;
        let b4: Seq<u8> = b3 + part_s;
        if s2 > 0 {
            lemma_comp_step(a3, b3, q_s[0], seq![115u8]);
            assert(a3 + seq![q_s[0]] =~= a4);
            assert(encode_utf8(comps_chars(a4)) =~= b4);
            lemma_encode_digits(s2 as nat);
        } else {
            lemma_comps_chars_concat(a3, q_s);
            assert(a4 =~= a3);
            assert(b4 =~= b3);
        }
        assert((b4.len() > 0) <==> (a4.len() > 0));
        let part_r: Seq<u8> = if r > 0 {
            (if b4.len() > 0 {
                seq![32u8]
            } else {
                Seq::<u8>::empty()
            }) + dec_digits(r as nat) + seq![109u8, 115u8]
        } else {
            Seq::empty()
        };
        let a5 = a4 + q_r;
        let b5: Seq<u8> = b4 + part_r;
        if r > 0 {
            lemma_comp_step(a4, b4, q_r[0], seq![109u8, 115u8]);
            assert(a4 + seq![q_r[0]] =~= a5);
            assert(encode_utf8(comps_chars(a5)) =~= b5);
            lemma_encode_digits(r as nat);
        } else {
            lemma_comps_chars_concat(a4, q_r);
            assert(a5 =~= a4);
            assert(b5 =~= b4);
        }
        assert(a5 =~= cs);
        assert(spec_dur_text(ms) == spec_dur_parts(
            (ms / 86400000) as u64,
            ((ms / 3600000) % 24) as u64,
            ((ms / 60000) % 60) as u64,
            ((ms / 1000) % 60) as u64,
            (ms % 1000) as u64,
        ));
        assert(b1.len() == part_d.len());
        assert(b2.len() == part_d.len() + part_h.len());
        assert(b3.len() == part_d.len() + part_h.len() + part_m.len());
        assert(b4.len() == part_d.len() + part_h.len() + part_m.len() + part_s.len());
        assert(spec_dur_parts(
            (ms / 86400000) as u64,
            ((ms / 3600000) % 24) as u64,
            ((ms / 60000) % 60) as u64,
            ((ms / 1000) % 60) as u64,
            (ms % 1000) as u64,
        ) == b5);
        assert(spec_dur_text(ms) == encode_utf8(comps_chars(cs)));
    }
}

/// The scale and offset fields, each present only when it is not the
/// default zero.
pub open spec fn spec_adjust_json(a: RegisterNumericAdjustment) -> Seq<u8> {
    (if a.scale != 0 {
        encode_utf8(",\"scale\":"@) + dec_text(Dec { m: a.scale as i128, e: 0 })
    } else {
        Seq::empty()
    }) + (if a.offset != 0 {
        encode_utf8(",\"offset\":"@) + dec_text(Dec { m: a.offset as i128, e: 0 })
    } else {
        Seq::empty()
    })
}

fn push_adjust_json(out: &mut Vec<u8>, a: RegisterNumericAdjustment)
    ensures
        final(out)@ == old(out)@ + spec_adjust_json(a),
{
    if a.scale != 0 {
        push_lit(out, ",\"scale\":");
        push_dec_text(out, Dec { m: a.scale as i128, e: 0 });
    }
    if a.offset != 0 {
        push_lit(out, ",\"offset\":");
        push_dec_text(out, Dec { m: a.offset as i128, e: 0 });
    }
    proof {
        assert(out@ =~= old(out)@ + spec_adjust_json(a));
    }
}

/// The JSON text a register definition is re-published as. Every decoded
/// field is written back: address, optional name, register type, value
/// type with its fields, non-default adjustments and swaps, and the
/// interval.
pub open spec fn spec_register_json(reg: Register) -> Seq<u8> {
    encode_utf8("{\"address\":"@) + dec_digits(reg.address as nat) + (match reg.name {
        Some(n) => encode_utf8(",\"name\":\""@) + escaped_bytes(encode_utf8(n@)) + seq![34u8],
        None => Seq::empty(),
    }) + encode_utf8(",\"register_type\":\""@) + (match reg.register_type {
        RegisterType::Input => encode_utf8("input"@),
        RegisterType::Holding => encode_utf8("holding"@),
    }) + seq![34u8] + encode_utf8(",\"type\":\""@) + encode_utf8(
        reg.parse.value_type.spec_type_label(),
    ) + seq![34u8] + (match reg.parse.value_type {
        RegisterValueType::Numeric { adjust, .. } => spec_adjust_json(adjust),
        RegisterValueType::Array(a) => encode_utf8(",\"of\":\""@) + encode_utf8(
            a.of.spec_type_label(),
        ) + seq![34u8] + encode_utf8(",\"count\":"@) + dec_digits(a.count as nat)
            + spec_adjust_json(a.adjust),
        RegisterValueType::String(st) => encode_utf8(",\"length\":"@) + dec_digits(
            st.length as nat,
        ),
    }) + (if reg.parse.swap_bytes.0 {
        encode_utf8(",\"swap_bytes\":true"@)
    } else {
        Seq::empty()
    }) + (if reg.parse.swap_words.0 {
        encode_utf8(",\"swap_words\":true"@)
    } else {
        Seq::empty()
    }) + encode_utf8(",\"interval\":\""@) + spec_dur_text(reg.interval) + encode_utf8("\"}"@)
}

/// Serializes a register definition for re-publication.
#[verifier::rlimit(100)]
#[verifier::spinoff_prover]
pub fn register_to_json_bytes(reg: &Register) -> (r: Vec<u8>)
    ensures
        r@ == spec_register_json(*reg),
{
    let ghost s0: Seq<u8> = encode_utf8("{\"address\":"@) + dec_digits(reg.address as nat);
    let ghost s1: Seq<u8> = s0 + (if reg.name is Some {
        encode_utf8(",\"name\":\""@) + escaped_bytes(encode_utf8((reg.name->Some_0)@))
            + seq![34u8]
    } else {
        Seq::empty()
    });
    let ghost s2: Seq<u8> = s1 + encode_utf8(",\"register_type\":\""@) + (match reg.register_type {
        RegisterType::Input => encode_utf8("input"@),
        RegisterType::Holding => encode_utf8("holding"@),
    }) + seq![34u8];
    let ghost s3: Seq<u8> = s2 + encode_utf8(",\"type\":\""@) + encode_utf8(
        reg.parse.value_type.spec_type_label(),
    ) + seq![34u8];
    let ghost s4: Seq<u8> = s3 + (match reg.parse.value_type {
        RegisterValueType::Numeric { adjust, .. } => spec_adjust_json(adjust),
        RegisterValueType::Array(a) => encode_utf8(",\"of\":\""@) + encode_utf8(
            a.of.spec_type_label(),
        ) + seq![34u8] + encode_utf8(",\"count\":"@) + dec_digits(a.count as nat)
            + spec_adjust_json(a.adjust),
        RegisterValueType::String(st) => encode_utf8(",\"length\":"@) + dec_digits(
            st.length as nat,
        ),
    });
    let ghost s5: Seq<u8> = s4 + (if reg.parse.swap_bytes.0 {
        encode_utf8(",\"swap_bytes\":true"@)
    } else {
        Seq::empty()
    }) + (if reg.parse.swap_words.0 {
        encode_utf8(",\"swap_words\":true"@)
    } else {
        Seq::empty()
    });
    let mut out: Vec<u8> = Vec::new();
    push_lit(&mut out, "{\"address\":");
    let mut addr = digits_u128(reg.address as u128);
    out.append(&mut addr);
    proof {
        assert(out@ =~= s0);
    }
    match &reg.name {
        Some(n) => {
            push_lit(&mut out, ",\"name\":\"");
            push_escaped(&mut out, n.as_str().as_bytes());
            out.push(34);
        },
        None => {},
    }
    proof {
        assert(out@ =~= s1);
    }
    push_lit(&mut out, ",\"register_type\":\"");
    match reg.register_type {
        RegisterType::Input => push_lit(&mut out, "input"),
        RegisterType::Holding => push_lit(&mut out, "holding"),
    }
    out.push(34);
    proof {
        assert(out@ =~= s2);
    }
    push_lit(&mut out, ",\"type\":\"");
    let label = reg.parse.value_type.type_label();
    push_lit(&mut out, label.as_str());
    out.push(34);
    proof {
        assert(out@ =~= s3);
    }
    match &reg.parse.value_type {
        RegisterValueType::Numeric { adjust, .. } => {
            push_adjust_json(&mut out, *adjust);
        },
        RegisterValueType::Array(a) => {
            push_lit(&mut out, ",\"of\":\"");
            let of_label = a.of.type_label();
            push_lit(&mut out, of_label.as_str());
            out.push(34);
            push_lit(&mut out, ",\"count\":");
            let mut cs = digits_u128(a.count as u128);
            out.append(&mut cs);
            push_adjust_json(&mut out, a.adjust);
        },
        RegisterValueType::String(st) => {
            push_lit(&mut out, ",\"length\":");
            let mut ls = digits_u128(st.length as u128);
            out.append(&mut ls);
        },
    }
    proof {
        assert(out@ =~= s4);
    }
    if reg.parse.swap_bytes.0 {
        push_lit(&mut out, ",\"swap_bytes\":true");
    }
    if reg.parse.swap_words.0 {
        push_lit(&mut out, ",\"swap_words\":true");
    }
    proof {
        assert(out@ =~= s5);
    }
    push_lit(&mut out, ",\"interval\":\"");
    push_dur_text(&mut out, reg.interval);
    push_lit(&mut out, "\"}");
    proof {
        assert(out@ =~= s5 + encode_utf8(",\"interval\":\""@) + spec_dur_text(reg.interval)
            + encode_utf8("\"}"@));
        assert(spec_register_json(*reg) == s5 + encode_utf8(",\"interval\":\""@) + spec_dur_text(
            reg.interval,
        ) + encode_utf8("\"}"@));
    }
    out
}

// ---------------------------------------------------------------------------
// The connect decision
// ---------------------------------------------------------------------------

/// What the connector does with one payload on `<id>/connect`: report it
/// as unparseable, report an unknown protocol, or spawn a supervisor.
#[derive(Debug, PartialEq)]
pub enum ConnectDecision {
    /// Publish `invalid` on the connection's state topic.
    Invalid,
    /// Publish `unknown_proto` on the connection's state topic.
    UnknownProto,
    /// Spawn (or replace) the supervisor with this config.
    Spawn(Connect),
}

/// Decides one connect payload: `Invalid` for text that is not a valid
/// config, `UnknownProto` for a config whose protocol this build does not
/// know, and otherwise the parsed config to spawn.
pub fn connect_decision(payload: &[u8]) -> (r: ConnectDecision)
    ensures
        match r {
            ConnectDecision::Invalid => (match json_of(payload@) {
                Some(j) => !spec_connect_valid(j),
                None => true,
            }),
            ConnectDecision::UnknownProto => (match json_of(payload@) {
                Some(j) => spec_connect_valid(j) && spec_proto_unknown(j),
                None => false,
            }),
            ConnectDecision::Spawn(c) => (match json_of(payload@) {
                Some(j) => spec_connect_valid(j) && !spec_proto_unknown(j) && connect_matches(
                    c,
                    j,
                ),
                None => false,
            }),
        },
{
    match crate::config::parse_connect(payload) {
        None => ConnectDecision::Invalid,
        Some(c) => {
            if matches!(c.settings, crate::config::ModbusProto::Unknown) {
                ConnectDecision::UnknownProto
            } else {
                ConnectDecision::Spawn(c)
            }
        },
    }
}

/// Whether the config names a protocol this build does not know.
pub open spec fn spec_proto_unknown(j: Json) -> bool {
    crate::config::spec_proto_of(j) == Some(crate::config::ProtoV::Unknown)
}

// ---------------------------------------------------------------------------
// Re-publishing inline register definitions
// ---------------------------------------------------------------------------

/// The register with its type forced to the list it came from (`input`
/// or `holding` lists tag their entries; the plain `registers` list keeps
/// each entry's own type).
pub open spec fn spec_with_type(reg: Register, forced: Option<RegisterType>) -> Register {
    match forced {
        Some(t) => Register { register_type: t, ..reg },
        None => reg,
    }
}

/// The re-publications one inline list gives rise to, in order: for each
/// valid entry, the topic `registers/<path>/config` under the
/// connection's scope, and the definition serialized back to JSON.
pub open spec fn spec_plan(list: Seq<Option<Register>>, forced: Option<RegisterType>) -> Seq<
    (Seq<char>, Seq<u8>),
>
    decreases list.len(),
{
    if list.len() == 0 {
        Seq::empty()
    } else {
        spec_plan(list.drop_last(), forced) + (match list.last() {
            Some(reg) => seq![
                (
                    "registers/"@ + reg.spec_path() + "/config"@,
                    spec_register_json(spec_with_type(reg, forced)),
                ),
            ],
            None => Seq::empty(),
        })
    }
}

/// Whether the built plan is the specified one, comparing topics and
/// payloads by contents.
pub open spec fn plan_matches(r: Seq<(String, Vec<u8>)>, p: Seq<(Seq<char>, Seq<u8>)>) -> bool {
    r.len() == p.len() && forall|i: int|
        0 <= i < r.len() ==> (#[trigger] r[i]).0@ == p[i].0 && r[i].1@ == p[i].1
}

fn with_type(reg: &Register, forced: Option<RegisterType>) -> (r: Register)
    ensures
        r == spec_with_type(*reg, forced),
{
    let name: Option<String> = match &reg.name {
        Some(n) => Some(n.clone()),
        None => None,
    };
    let register_type = match forced {
        Some(t) => t,
        None => reg.register_type,
    };
    Register {
        name,
        address: reg.address,
        register_type,
        parse: reg.parse,
        interval: reg.interval,
    }
}

#[verifier::rlimit(100)]
#[verifier::spinoff_prover]
fn push_plan_items(
    out: &mut Vec<(String, Vec<u8>)>,
    list: &Vec<Option<Register>>,
    forced: Option<RegisterType>,
)
    ensures
        final(out)@.len() == old(out)@.len() + spec_plan(list@, forced).len(),
        plan_matches(final(out)@.skip(old(out)@.len() as int), spec_plan(list@, forced)),
        final(out)@.take(old(out)@.len() as int) == old(out)@,
{
    let n = list.len();
    let mut i: usize = 0;
    proof {
        assert(out@.skip(out@.len() as int) =~= Seq::<(String, Vec<u8>)>::empty());
        assert(list@.take(0) =~= Seq::<Option<Register>>::empty());
        assert(out@.take(out@.len() as int) =~= out@);
    }
    while i < n
        invariant
            i <= n,
            n == list@.len(),
            out@.len() == old(out)@.len() + spec_plan(list@.take(i as int), forced).len(),
            plan_matches(
                out@.skip(old(out)@.len() as int),
                spec_plan(list@.take(i as int), forced),
            ),
            out@.take(old(out)@.len() as int) == old(out)@,
        decreases n - i,
    {
        let ghost prev = out@;
        let ghost prev_plan = spec_plan(list@.take(i as int), forced);
        proof {
            assert(list@.take(i + 1).drop_last() =~= list@.take(i as int));
            assert(list@.take(i + 1).last() == list@[i as int]);
        }
        match &list[i] {
            Some(reg) => {
                let tagged = with_type(reg, forced);
                let mut topic = "registers/".to_owned();
                topic.append(tagged.path().as_str());
                topic.append("/config");
                let payload = register_to_json_bytes(&tagged);
                proof {
                    assert(topic@ == "registers/"@ + tagged.spec_path() + "/config"@);
                }
                out.push((topic, payload));
                proof {
                    let base = old(out)@.len() as int;
                    let cur_plan = spec_plan(list@.take(i + 1), forced);
                    assert(cur_plan =~= prev_plan.push(
                        (
                            "registers/"@ + tagged.spec_path() + "/config"@,
                            spec_register_json(tagged),
                        ),
                    ));
                    assert forall|k: int|
                        0 <= k < out@.skip(base).len() implies (#[trigger] out@.skip(base)[k]).0@
                        == cur_plan[k].0 && out@.skip(base)[k].1@ == cur_plan[k].1 by {
                        if k < cur_plan.len() - 1 {
                            assert(out@.skip(base)[k] == prev.skip(base)[k]);
                        } else {
                            assert(out@.skip(base)[k] == out@.last());
                        }
                    }
                    assert(out@.take(base) =~= prev.take(base));
                }
            },
            None => {
                proof {
                    assert(spec_plan(list@.take(i + 1), forced) =~= prev_plan);
                }
            },
        }
        i = i + 1;
    }
    proof {
        assert(list@.take(n as int) =~= list@);
    }
}

/// The full re-publication plan of a connection config: the `holding`
/// list tagged holding, then the `input` list tagged input, then the
/// untagged `registers` list, each valid entry as one publish of its
/// definition to `registers/<path>/config` under the connection's scope.
pub fn republish_plan(c: &Connect) -> (r: Vec<(String, Vec<u8>)>)
    ensures
        plan_matches(
            r@,
            spec_plan(c.holding@, Some(RegisterType::Holding)) + spec_plan(
                c.input@,
                Some(RegisterType::Input),
            ) + spec_plan(c.registers@, None),
        ),
{
    let mut out: Vec<(String, Vec<u8>)> = Vec::new();
    push_plan_items(&mut out, &c.holding, Some(RegisterType::Holding));
    let ghost after_holding = out@;
    push_plan_items(&mut out, &c.input, Some(RegisterType::Input));
    let ghost after_input = out@;
    push_plan_items(&mut out, &c.registers, None);
    proof {
        let plan_h = spec_plan(c.holding@, Some(RegisterType::Holding));
        let plan_i = spec_plan(c.input@, Some(RegisterType::Input));
        let plan_r = spec_plan(c.registers@, None);
        assert(after_holding.skip(0) =~= after_holding);
        assert(out@.len() == plan_h.len() + plan_i.len() + plan_r.len());
        assert forall|i: int| 0 <= i < out@.len() implies (#[trigger] out@[i]).0@ == (plan_h + plan_i
            + plan_r)[i].0 && out@[i].1@ == (plan_h + plan_i + plan_r)[i].1 by {
            if i < plan_h.len() {
                assert(after_input.take(after_holding.len() as int)[i] == after_input[i]);
                assert(out@.take(after_input.len() as int)[i] == out@[i]);
                assert(after_holding[i] == out@[i]);
                assert(after_holding.skip(0)[i] == after_holding[i]);
                assert((plan_h + plan_i + plan_r)[i] == plan_h[i]);
            } else if i < plan_h.len() + plan_i.len() {
                assert(out@.take(after_input.len() as int)[i] == out@[i]);
                assert(after_input[i] == out@[i]);
                assert(after_input.skip(after_holding.len() as int)[i - plan_h.len()]
                    == after_input[i]);
                assert((plan_h + plan_i + plan_r)[i] == plan_i[i - plan_h.len()]);
            } else {
                assert(out@.skip(after_input.len() as int)[i - plan_h.len() - plan_i.len()] == out@[i]);
                assert((plan_h + plan_i + plan_r)[i] == plan_r[i - plan_h.len() - plan_i.len()]);
            }
        }
    }
    out
}

// ---------------------------------------------------------------------------
// The connection registry
// ---------------------------------------------------------------------------

/// The live supervisors, keyed by connection id. Re-publishing a config
/// for an id replaces its supervisor: the old handle leaves the registry
/// (to be cancelled) before the new one enters, so each id owns exactly
/// one supervisor.
pub struct ConnectionRegistry {
    pub entries: Vec<(Vec<u8>, u64)>,
}

/// Each connection id appears at most once.
pub open spec fn registry_wf(entries: Seq<(Vec<u8>, u64)>) -> bool {
    forall|i: int, j: int|
        0 <= i < j < entries.len() ==> (#[trigger] entries[i]).0@ != (#[trigger] entries[j]).0@
}

/// The handle registered under an id.
pub open spec fn spec_registry_lookup(entries: Seq<(Vec<u8>, u64)>, id: Seq<u8>) -> Option<u64>
    decreases entries.len(),
{
    if entries.len() == 0 {
        None
    } else if entries[0].0@ == id {
        Some(entries[0].1)
    } else {
        spec_registry_lookup(entries.skip(1), id)
    }
}

/// The entries left when a connection id is replaced.
pub open spec fn without_key(entries: Seq<(Vec<u8>, u64)>, id: Seq<u8>) -> Seq<(Vec<u8>, u64)>
    decreases entries.len(),
{
    if entries.len() == 0 {
        Seq::empty()
    } else {
        (if entries[0].0@ == id {
            Seq::empty()
        } else {
            seq![entries[0]]
        }) + without_key(entries.skip(1), id)
    }
}

proof fn lemma_without_key_same(entries: Seq<(Vec<u8>, u64)>, id: Seq<u8>, other: Seq<u8>)
    requires
        other != id,
    ensures
        spec_registry_lookup(without_key(entries, id), other) == spec_registry_lookup(
            entries,
            other,
        ),
    decreases entries.len(),
{
    if entries.len() > 0 {
        lemma_without_key_same(entries.skip(1), id, other);
        if entries[0].0@ == id {
        } else {
            assert(without_key(entries, id)[0] == entries[0]);
            assert(without_key(entries, id).skip(1) =~= without_key(entries.skip(1), id));
        }
    }
}

proof fn lemma_without_key_absent(entries: Seq<(Vec<u8>, u64)>, id: Seq<u8>)
    ensures
        forall|k: int|
            0 <= k < without_key(entries, id).len() ==> (#[trigger] without_key(entries, id)[k]).0@
                != id,
    decreases entries.len(),
{
    if entries.len() > 0 {
        lemma_without_key_absent(entries.skip(1), id);
        let w = without_key(entries, id);
        let ws = without_key(entries.skip(1), id);
        if entries[0].0@ == id {
            assert(w =~= ws);
            assert forall|k: int| 0 <= k < w.len() implies (#[trigger] w[k]).0@ != id by {
                assert(w[k] == ws[k]);
            }
        } else {
            assert(w =~= seq![entries[0]] + ws);
            assert forall|k: int| 0 <= k < w.len() implies (#[trigger] w[k]).0@ != id by {
                if k == 0 {
                    assert(w[0] == entries[0]);
                } else {
                    assert(w[k] == ws[k - 1]);
                }
            }
        }
    }
}

proof fn lemma_lookup_push(entries: Seq<(Vec<u8>, u64)>, x: (Vec<u8>, u64), key: Seq<u8>)
    ensures
        spec_registry_lookup(entries, key) is Some ==> spec_registry_lookup(entries.push(x), key)
            == spec_registry_lookup(entries, key),
        spec_registry_lookup(entries, key) is None && x.0@ == key ==> spec_registry_lookup(
            entries.push(x),
            key,
        ) == Some(x.1),
        spec_registry_lookup(entries, key) is None && x.0@ != key ==> spec_registry_lookup(
            entries.push(x),
            key,
        ) is None,
    decreases entries.len(),
{
    if entries.len() == 0 {
        assert(entries.push(x)[0] == x);
        assert(entries.push(x).skip(1) =~= Seq::<(Vec<u8>, u64)>::empty());
        assert(spec_registry_lookup(Seq::<(Vec<u8>, u64)>::empty(), key) is None);
        if x.0@ != key {
            assert(spec_registry_lookup(entries.push(x), key) == spec_registry_lookup(
                entries.push(x).skip(1),
                key,
            ));
        }
    } else {
        assert(entries.push(x)[0] == entries[0]);
        assert(entries.push(x).skip(1) =~= entries.skip(1).push(x));
        lemma_lookup_push(entries.skip(1), x, key);
        if entries[0].0@ == key {
        } else {
            assert(spec_registry_lookup(entries, key) == spec_registry_lookup(
                entries.skip(1),
                key,
            ));
            assert(spec_registry_lookup(entries.push(x), key) == spec_registry_lookup(
                entries.skip(1).push(x),
                key,
            ));
        }
    }
}

impl ConnectionRegistry {
    pub fn new() -> (r: ConnectionRegistry)
        ensures
            r.entries@.len() == 0,
            registry_wf(r.entries@),
    {
        ConnectionRegistry { entries: Vec::new() }
    }

    /// The handle serving this connection id, if one is live.
    pub fn lookup(&self, id: &[u8]) -> (r: Option<u64>)
        ensures
            r == spec_registry_lookup(self.entries@, id@),
    {
        let n = self.entries.len();
        let mut i: usize = 0;
        proof {
            assert(self.entries@.skip(0) =~= self.entries@);
        }
        while i < n
            invariant
                i <= n,
                n == self.entries@.len(),
                spec_registry_lookup(self.entries@, id@) == spec_registry_lookup(
                    self.entries@.skip(i as int),
                    id@,
                ),
            decreases n - i,
        {
            proof {
                assert(self.entries@.skip(i as int)[0] == self.entries@[i as int]);
                assert(self.entries@.skip(i as int).skip(1) =~= self.entries@.skip(i + 1));
            }
            if crate::topic::bytes_eq(self.entries[i].0.as_slice(), id) {
                return Some(self.entries[i].1);
            }
            i = i + 1;
        }
        None
    }

    /// Registers a supervisor under an id, handing back the replaced
    /// handle where the id was live: the caller cancels the old
    /// supervisor before the new one serves, so re-publishing a config
    /// ends with the same set of live supervisors.
    pub fn insert(&mut self, id: Vec<u8>, handle: u64) -> (replaced: Option<u64>)
        requires
            registry_wf(old(self).entries@),
        ensures
            registry_wf(final(self).entries@),
            replaced == spec_registry_lookup(old(self).entries@, id@),
            spec_registry_lookup(final(self).entries@, id@) == Some(handle),
            forall|other: Seq<u8>|
                other != id@ ==> #[trigger] spec_registry_lookup(final(self).entries@, other)
                    == spec_registry_lookup(old(self).entries@, other),
    {
        let replaced = self.lookup(id.as_slice());
        let mut i: usize = 0;
        proof {
            assert(self.entries@.take(0) =~= Seq::<(Vec<u8>, u64)>::empty());
            assert(self.entries@.skip(0) =~= self.entries@);
            assert(without_key(old(self).entries@, id@) =~= self.entries@.take(0) + without_key(
                self.entries@.skip(0),
                id@,
            ));
        }
        while i < self.entries.len()
            invariant
                i <= self.entries@.len(),
                forall|k: int| 0 <= k < i ==> (#[trigger] self.entries@[k]).0@ != id@,
                registry_wf(self.entries@),
                without_key(old(self).entries@, id@) == self.entries@.take(i as int)
                    + without_key(self.entries@.skip(i as int), id@),
            decreases self.entries@.len() - i,
        {
            let ghost before = self.entries@;
            proof {
                assert(before.skip(i as int)[0] == before[i as int]);
            }
            if crate::topic::bytes_eq(self.entries[i].0.as_slice(), id.as_slice()) {
                self.entries.remove(i);
                proof {
                    assert(before.skip(i as int).skip(1) =~= self.entries@.skip(i as int));
                    assert(self.entries@.take(i as int) =~= before.take(i as int));
                    assert forall|i0: int, j0: int|
                        0 <= i0 < j0 < self.entries@.len() implies (#[trigger] self.entries@[
                        i0]).0@ != (#[trigger] self.entries@[j0]).0@ by {
                        if i0 < i {
                            assert(self.entries@[i0] == before[i0]);
                        } else {
                            assert(self.entries@[i0] == before[i0 + 1]);
                        }
                        if j0 < i {
                            assert(self.entries@[j0] == before[j0]);
                        } else {
                            assert(self.entries@[j0] == before[j0 + 1]);
                        }
                    }
                }
            } else {
                proof {
                    assert(before.skip(i as int).skip(1) =~= before.skip(i + 1));
                    assert(without_key(before.skip(i as int), id@) =~= seq![before[i as int]]
                        + without_key(before.skip(i + 1), id@));
                    assert(before.take(i + 1) =~= before.take(i as int) + seq![before[i as int]]);
                    assert(before.take(i as int) + without_key(before.skip(i as int), id@)
                        =~= before.take(i + 1) + without_key(before.skip(i + 1), id@));
                }
                i = i + 1;
            }
        }
        proof {
            assert(self.entries@.skip(i as int) =~= Seq::<(Vec<u8>, u64)>::empty());
            assert(self.entries@.take(i as int) =~= self.entries@);
            assert(self.entries@ =~= without_key(old(self).entries@, id@));
        }
        let ghost cleaned = self.entries@;
        let ghost idv = id@;
        self.entries.push((id, handle));
        proof {
            assert(self.entries@.last().0@ == idv);
            assert(self.entries@.drop_last() =~= cleaned);
            assert(self.entries@ =~= cleaned.push(self.entries@.last()));
            lemma_without_key_absent(old(self).entries@, idv);
            assert forall|i0: int, j0: int|
                0 <= i0 < j0 < self.entries@.len() implies (#[trigger] self.entries@[i0]).0@ != (
            #[trigger] self.entries@[j0]).0@ by {
                if j0 < self.entries@.len() - 1 {
                    assert(self.entries@[i0] == cleaned[i0]);
                    assert(self.entries@[j0] == cleaned[j0]);
                } else {
                    assert(self.entries@[i0] == cleaned[i0]);
                    assert(cleaned[i0].0@ != idv);
                }
            }
            lemma_lookup_push(cleaned, self.entries@.last(), idv);
            lemma_lookup_none_when_absent(cleaned, idv);
            assert forall|other: Seq<u8>| other != idv implies #[trigger] spec_registry_lookup(
                self.entries@,
                other,
            ) == spec_registry_lookup(old(self).entries@, other) by {
                lemma_lookup_push(cleaned, self.entries@.last(), other);
                lemma_without_key_same(old(self).entries@, idv, other);
            }
        }
        replaced
    }
}

proof fn lemma_lookup_none_when_absent(entries: Seq<(Vec<u8>, u64)>, key: Seq<u8>)
    requires
        forall|k: int| 0 <= k < entries.len() ==> (#[trigger] entries[k]).0@ != key,
    ensures
        spec_registry_lookup(entries, key) is None,
    decreases entries.len(),
{
    if entries.len() > 0 {
        assert(entries.skip(1)[0] == entries[1] || entries.len() == 1);
        assert forall|k: int| 0 <= k < entries.skip(1).len() implies (#[trigger] entries.skip(
            1,
        )[k]).0@ != key by {
            assert(entries.skip(1)[k] == entries[k + 1]);
        }
        lemma_lookup_none_when_absent(entries.skip(1), key);
    }
}

// ---------------------------------------------------------------------------
// Register path collisions
// ---------------------------------------------------------------------------

/// Whether some register's name collides with the decimal address of a
/// different register: under one connection both would publish on the
/// same topic, so such a set of definitions is rejected by operators.
pub open spec fn spec_paths_collide(regs: Seq<Register>) -> bool {
    exists|i: int, j: int|
        #![trigger regs[i].spec_path(), regs[j].address]
        0 <= i < regs.len() && 0 <= j < regs.len() && i != j && regs[i].name is Some
            && regs[i].spec_path() == crate::codec::dec_chars(regs[j].address as nat)
}

/// Checks a connection's register definitions for a name that shadows
/// another register's address.
pub fn paths_collide(regs: &Vec<Register>) -> (r: bool)
    ensures
        r == spec_paths_collide(regs@),
{
    let n = regs.len();
    let mut i: usize = 0;
    while i < n
        invariant
            i <= n,
            n == regs@.len(),
            forall|a: int, b: int|
                #![trigger regs@[a].spec_path(), regs@[b].address]
                0 <= a < i && 0 <= b < n && a != b && regs@[a].name is Some ==> regs@[
                a].spec_path() != crate::codec::dec_chars(regs@[b].address as nat),
        decreases n - i,
    {
        match &regs[i].name {
            Some(name) => {
                let mut j: usize = 0;
                while j < n
                    invariant
                        j <= n,
                        i < n,
                        n == regs@.len(),
                        regs@[i as int].name is Some,
                        name@ == regs@[i as int].spec_path(),
                        forall|b: int|
                            #![trigger regs@[b].address]
                            0 <= b < j && b != i ==> regs@[i as int].spec_path()
                                != crate::codec::dec_chars(regs@[b].address as nat),
                    decreases n - j,
                {
                    if j != i {
                        let addr_text = crate::codec::u16_to_decimal_string(regs[j].address);
                        if crate::json::str_eq(name.as_str(), addr_text.as_str()) {
                            proof {
                                assert(regs@[i as int].spec_path() == crate::codec::dec_chars(
                                    regs@[j as int].address as nat,
                                ));
                            }
                            return true;
                        }
                    }
                    j = j + 1;
                }
            },
            None => {},
        }
        i = i + 1;
    }
    false
}

} // verus!
