use vstd::prelude::*;

use crate::codec::{
    Decoded, Register, RegisterNumericAdjustment, RegisterType, RegisterValueType,
    spec_apply_swaps, spec_int_value, spec_int_item, chunk_of, trim_trailing_nuls, bytes_of_words,
    parse_result,
};
use crate::value::{RegisterValueV, json_text, utf8_lossy_of};

verus! {

/// The read a monitor issues for its register on each tick.
#[derive(Clone, Copy, Debug, PartialEq, Eq, Structural)]
pub struct ReadRequest {
    pub register_type: RegisterType,
    pub address: u16,
    pub count: u8,
}

/// What one poll of a register asks the supervisor for: the register's
/// kind and address, and as many words as its parse spec reads.
pub fn read_request(reg: &Register) -> (r: ReadRequest)
    requires
        reg.parse.value_type.wf(),
    ensures
        r.register_type == reg.register_type,
        r.address == reg.address,
        r.count as int == reg.spec_size(),
{
    ReadRequest { register_type: reg.register_type, address: reg.address, count: reg.size() }
}

/// Whether the parse spec needs the outside float conversion.
pub open spec fn uses_float(t: RegisterValueType) -> bool {
    match t {
        RegisterValueType::Numeric { of, .. } => of.is_float(),
        RegisterValueType::Array(a) => a.of.is_float(),
        RegisterValueType::String(_) => false,
    }
}

/// The decoded value of a float-free parse spec on the given (already
/// swapped) words.
pub open spec fn spec_done_value(t: RegisterValueType, ws: Seq<u16>) -> RegisterValueV
    recommends
        !uses_float(t),
{
    match t {
        RegisterValueType::Numeric { of, adjust } => spec_int_value(of, adjust, ws),
        RegisterValueType::String(_) => RegisterValueV::Str(
            utf8_lossy_of(trim_trailing_nuls(bytes_of_words(ws))),
        ),
        RegisterValueType::Array(a) => RegisterValueV::Arr(
            Seq::new(
                a.count as nat,
                |i: int| spec_int_item(a.of, a.adjust, chunk_of(ws, a.of.spec_size(), i)),
            ),
        ),
    }
}

/// What a monitor does with one successful read.
#[derive(Debug, PartialEq)]
pub enum PollOutput {
    /// The JSON text to publish under the register's topic.
    Payload(Vec<u8>),
    /// A float register: the caller converts the bits outside the
    /// library, then finishes with `finish_float` and `to_json_bytes`.
    PendingF32 { bits: Vec<u32>, adjust: RegisterNumericAdjustment, single: bool },
    PendingF64 { bits: Vec<u64>, adjust: RegisterNumericAdjustment, single: bool },
}

/// Decodes one successful read and serializes it for publishing: the
/// swaps, the value decode and the JSON text, in one step.
pub fn poll_output(reg: &Register, words: &[u16]) -> (r: PollOutput)
    requires
        reg.parse.value_type.wf(),
        words@.len() == reg.spec_size(),
    ensures
        !uses_float(reg.parse.value_type) ==> (r matches PollOutput::Payload(p) && p@ == json_text(
            spec_done_value(reg.parse.value_type, spec_apply_swaps(reg.parse, words@)),
        )),
        uses_float(reg.parse.value_type) ==> (match r {
            PollOutput::PendingF32 { bits, adjust, single } => parse_result(
                reg.parse.value_type,
                spec_apply_swaps(reg.parse, words@),
                Decoded::PendingF32 { bits, adjust, single },
            ),
            PollOutput::PendingF64 { bits, adjust, single } => parse_result(
                reg.parse.value_type,
                spec_apply_swaps(reg.parse, words@),
                Decoded::PendingF64 { bits, adjust, single },
            ),
            PollOutput::Payload(_) => false,
        }),
{
    let decoded = reg.parse_words(words);
    match decoded {
        Decoded::Done(v) => {
            proof {
                let ghost swapped = spec_apply_swaps(reg.parse, words@);
                match reg.parse.value_type {
                    RegisterValueType::Numeric { of, adjust } => {
                        assert(v@ == spec_done_value(reg.parse.value_type, swapped));
                    },
                    RegisterValueType::String(_) => {
                        assert(v@ == spec_done_value(reg.parse.value_type, swapped));
                    },
                    RegisterValueType::Array(a) => {
                        assert(v@ == spec_done_value(reg.parse.value_type, swapped));
                    },
                }
            }
            PollOutput::Payload(v.to_json_bytes())
        },
        Decoded::PendingF32 { bits, adjust, single } => PollOutput::PendingF32 {
            bits,
            adjust,
            single,
        },
        Decoded::PendingF64 { bits, adjust, single } => PollOutput::PendingF64 {
            bits,
            adjust,
            single,
        },
    }
}

} // verus!
