use vstd::prelude::*;

use crate::json::{Json, spec_get, str_eq};
use vstd::string::StrSliceExecFns;

verus! {

// ---------------------------------------------------------------------------
// The gateway's hex word stream
// ---------------------------------------------------------------------------

/// The value of one hex digit.
pub open spec fn spec_hex_val(c: char) -> Option<u8> {
    let v = c as u32;
    if 48 <= v <= 57 {
        Some((v - 48) as u8)
    } else if 97 <= v <= 102 {
        Some((v - 87) as u8)
    } else if 65 <= v <= 70 {
        Some((v - 55) as u8)
    } else {
        None
    }
}

/// The length of the first space-separated token.
pub open spec fn token_len(s: Seq<char>) -> int
    decreases s.len(),
{
    if s.len() == 0 || s[0] == ' ' {
        0
    } else {
        1 + token_len(s.skip(1))
    }
}

/// One token as a byte: one or two hex digits.
pub open spec fn spec_hex_byte(t: Seq<char>) -> Option<u8> {
    if t.len() == 1 {
        spec_hex_val(t[0])
    } else if t.len() == 2 {
        match (spec_hex_val(t[0]), spec_hex_val(t[1])) {
            (Some(hi), Some(lo)) => Some((hi * 16 + lo) as u8),
            _ => None,
        }
    } else {
        None
    }
}

/// The bytes a space-separated hex string denotes. The gateway sends a
/// trailing space, so one empty token at the end is accepted.
pub open spec fn spec_hex_bytes(s: Seq<char>) -> Option<Seq<u8>>
    decreases s.len(),
{
    if s.len() == 0 {
        Some(Seq::empty())
    } else {
        let t = token_len(s);
        match spec_hex_byte(s.take(t)) {
            None => None,
            Some(b) => if t == s.len() {
                Some(seq![b])
            } else {
                proof {
                    lemma_token_len_bound(s);
                }
                match spec_hex_bytes(s.skip(t + 1)) {
                    Some(rest) => Some(seq![b] + rest),
                    None => None,
                }
            },
        }
    }
}

pub proof fn lemma_token_len_bound(s: Seq<char>)
    ensures
        0 <= token_len(s) <= s.len(),
        forall|k: int| 0 <= k < token_len(s) ==> s[k] != ' ',
        token_len(s) < s.len() ==> s[token_len(s)] == ' ',
    decreases s.len(),
{
    if s.len() > 0 && s[0] != ' ' {
        lemma_token_len_bound(s.skip(1));
        assert forall|k: int| 0 <= k < token_len(s) implies s[k] != ' ' by {
            if k > 0 {
                assert(s.skip(1)[k - 1] != ' ');
            }
        }
    }
}

/// The register words a gateway `param_value` string denotes: hex bytes,
/// two at a time into big-endian 16-bit words (an odd trailing byte is
/// dropped, as a register always sends whole words).
pub open spec fn spec_words_from_hex(s: Seq<char>) -> Option<Seq<u16>> {
    match spec_hex_bytes(s) {
        Some(bs) => Some(crate::codec::words_of_bytes(bs)),
        None => None,
    }
}

proof fn lemma_token_len_exact(s: Seq<char>, i: int)
    requires
        0 <= i <= s.len(),
        forall|k: int| 0 <= k < i ==> s[k] != ' ',
        i < s.len() ==> s[i] == ' ',
    ensures
        token_len(s) == i,
    decreases s.len(),
{
    if s.len() > 0 && s[0] != ' ' {
        assert(i > 0);
        lemma_token_len_exact(s.skip(1), i - 1);
    }
}

fn hex_val(c: char) -> (r: Option<u8>)
    ensures
        r == spec_hex_val(c),
{
    let v = c as u32;
    if 48 <= v && v <= 57 {
        Some((v - 48) as u8)
    } else if 97 <= v && v <= 102 {
        Some((v - 87) as u8)
    } else if 65 <= v && v <= 70 {
        Some((v - 55) as u8)
    } else {
        None
    }
}

/// Parses the gateway's space-separated hex byte string into register
/// words.
pub fn words_from_string(s: &str) -> (r: Option<Vec<u16>>)
    ensures
        match r {
            Some(ws) => spec_words_from_hex(s@) == Some(ws@),
            None => spec_words_from_hex(s@) is None,
        },
{
    let len = s.unicode_len();
    let mut bytes: Vec<u8> = Vec::new();
    let mut pos: usize = 0;
    proof {
        assert(s@.skip(0) =~= s@);
    }
    while pos < len
        invariant
            pos <= len,
            len == s@.len(),
            spec_hex_bytes(s@) == (match spec_hex_bytes(s@.skip(pos as int)) {
                Some(rest) => Some(bytes@ + rest),
                None => None::<Seq<u8>>,
            }),
        decreases len - pos,
    {
        let ghost rem = s@.skip(pos as int);
        // scan one token
        let mut t: usize = 0;
        loop
            invariant_except_break
                pos + t <= len,
                len == s@.len(),
                forall|k: int| pos <= k < pos + t ==> s@[k] != ' ',
            ensures
                pos + t <= len,
                len == s@.len(),
                forall|k: int| pos <= k < pos + t ==> s@[k] != ' ',
                pos + t < len ==> s@[pos + t] == ' ',
            decreases len - pos - t,
        {
            if pos + t >= len {
                break;
            }
            if s.get_char(pos + t) == ' ' {
                break;
            }
            t = t + 1;
        }
        proof {
            assert forall|k: int| 0 <= k < t implies rem[k] != ' ' by {
                assert(rem[k] == s@[pos + k]);
            }
            if t < rem.len() {
                assert(rem[t as int] == s@[pos + t]);
            }
            lemma_token_len_exact(rem, t as int);
        }
        let b: Option<u8> = if t == 1 {
            proof {
                assert(rem.take(1)[0] == rem[0]);
                assert(rem[0] == s@[pos as int]);
            }
            hex_val(s.get_char(pos))
        } else if t == 2 {
            proof {
                assert(rem.take(2)[0] == rem[0] && rem.take(2)[1] == rem[1]);
                assert(rem[0] == s@[pos as int] && rem[1] == s@[pos + 1]);
            }
            match (hex_val(s.get_char(pos)), hex_val(s.get_char(pos + 1))) {
                (Some(hi), Some(lo)) => Some(hi * 16 + lo),
                _ => None,
            }
        } else {
            proof {
                assert(rem.take(t as int).len() == t);
            }
            None
        };
        match b {
            Some(b) => {
                bytes.push(b);
                if pos + t == len {
                    pos = len;
                    proof {
                        assert(spec_hex_bytes(rem) == Some(seq![b]));
                        assert(bytes@ + Seq::<u8>::empty() =~= bytes@);
                        assert(spec_hex_bytes(s@.skip(len as int)) == Some(Seq::<u8>::empty()))
                            by {
                            assert(s@.skip(len as int) =~= Seq::<char>::empty());
                        }
                        assert(bytes@.drop_last() + seq![b] =~= bytes@);
                        assert(spec_hex_bytes(s@) == Some(bytes@));
                    }
                } else {
                    proof {
                        assert(rem.skip(t + 1) =~= s@.skip(pos + t + 1));
                        assert(match spec_hex_bytes(rem) {
                            Some(w) => (match spec_hex_bytes(rem.skip(t + 1)) {
                                Some(rest2) => w =~= seq![b] + rest2,
                                None => false,
                            }),
                            None => spec_hex_bytes(rem.skip(t + 1)) is None,
                        });
                        assert forall|rest2: Seq<u8>|
                            spec_hex_bytes(s@.skip(pos + t + 1)) == Some(rest2) implies bytes@
                            + rest2 =~= bytes@.drop_last() + (seq![b] + rest2) by {}
                    }
                    pos = pos + t + 1;
                }
            },
            None => {
                proof {
                    assert(spec_hex_bytes(rem) is None);
                }
                return None;
            },
        }
    }
    proof {
        assert(s@.skip(len as int) =~= Seq::<char>::empty());
        assert(spec_hex_bytes(s@) == Some(bytes@ + Seq::<u8>::empty()));
        assert(bytes@ + Seq::<u8>::empty() =~= bytes@);
    }
    let words = crate::codec::words_of_bytes_exec(bytes.as_slice());
    Some(words)
}

// ---------------------------------------------------------------------------
// Gateway responses
// ---------------------------------------------------------------------------

/// One device the gateway serves.
#[derive(Clone, Copy, Debug, PartialEq, Eq, Structural)]
pub struct Device {
    pub dev_id: u8,
    pub dev_code: u16,
    pub dev_type: u8,
    pub phys_addr: u8,
}

/// The data a gateway response carries.
#[derive(Debug, PartialEq)]
pub enum SungrowData {
    /// A register read: the decoded words.
    GetParam(Vec<u16>),
    /// The device list.
    DeviceList(Vec<Device>),
    /// A websocket service message, with its optional token.
    WebSocketMessage(WsMessage),
    /// Anything else.
    Other,
}

/// A websocket service message.
#[derive(Clone, Debug, PartialEq)]
pub enum WsMessage {
    Connect { token: Option<String> },
    Login { token: Option<String> },
    Other,
}

/// A gateway response envelope: `result_code` 1 is success.
#[derive(Debug, PartialEq)]
pub struct SungrowResult {
    pub code: u16,
    pub message: Option<String>,
    pub data: Option<SungrowData>,
}

/// The `phys_addr` field comes as a decimal string or as a number.
pub open spec fn spec_u8_field_stringly(j: Json, key: Seq<char>) -> Option<u8> {
    match spec_get(j, key) {
        Some(Json::Int(i)) => if 0 <= i <= 255 {
            Some(i as u8)
        } else {
            None
        },
        Some(Json::Str(s)) => {
            let nd = crate::config::digits_prefix_len(s@);
            if nd == s@.len() && nd > 0 && crate::config::digits_value(s@) <= 255 {
                Some(crate::config::digits_value(s@) as u8)
            } else {
                None
            }
        },
        _ => None,
    }
}

fn u8_field_stringly(j: &Json, key: &str) -> (r: Option<u8>)
    ensures
        r == spec_u8_field_stringly(*j, key@),
{
    match j.get(key) {
        Some(Json::Int(i)) => {
            let i = *i;
            if 0 <= i && i <= 255 {
                Some(i as u8)
            } else {
                None
            }
        },
        Some(Json::Str(s)) => {
            match crate::config::decimal_u64_of_str(s.as_str()) {
                Some(v) => {
                    if v <= 255 {
                        Some(v as u8)
                    } else {
                        None
                    }
                },
                None => None,
            }
        },
        _ => None,
    }
}

/// The device a gateway device entry describes.
pub open spec fn spec_device_of(j: Json) -> Option<Device> {
    match (
        crate::config::spec_req_u8(j, "dev_id"@),
        crate::config::spec_req_u16(j, "dev_code"@),
        crate::config::spec_req_u8(j, "dev_type"@),
        spec_u8_field_stringly(j, "phys_addr"@),
    ) {
        (Some(dev_id), Some(dev_code), Some(dev_type), Some(phys_addr)) => Some(
            Device { dev_id, dev_code, dev_type, phys_addr },
        ),
        _ => None,
    }
}

pub fn device_of(j: &Json) -> (r: Option<Device>)
    ensures
        r == spec_device_of(*j),
{
    match (
        crate::config::get_req_u8(j, "dev_id"),
        crate::config::get_req_u16(j, "dev_code"),
        crate::config::get_req_u8(j, "dev_type"),
        u8_field_stringly(j, "phys_addr"),
    ) {
        (Some(dev_id), Some(dev_code), Some(dev_type), Some(phys_addr)) => Some(
            Device { dev_id, dev_code, dev_type, phys_addr },
        ),
        _ => None,
    }
}

// ---------------------------------------------------------------------------
// The websocket token handshake
// ---------------------------------------------------------------------------

/// Where the token handshake stands: connect sent, login sent, or done.
#[derive(Clone, Debug, PartialEq)]
pub enum TokenState {
    /// The `connect` message is out; waiting for its answer.
    AwaitingConnect,
    /// The `login` message is out; waiting for the session token.
    AwaitingLogin,
    /// The session token is known.
    Done(String),
}

/// What to send next during the handshake.
#[derive(Clone, Debug, PartialEq)]
pub enum TokenAction {
    /// Send the `login` message, using this handshake token.
    SendLogin(String),
    /// Nothing to send.
    Wait,
    /// The gateway answered `login` without a token: give up.
    Fail,
}

/// One step of the token handshake: a `connect` answer carries the
/// handshake token to log in with; a `login` answer carries the session
/// token. Anything else is ignored.
pub open spec fn spec_token_step(s: TokenState, msg: WsMessage) -> (TokenState, TokenAction) {
    match s {
        TokenState::AwaitingConnect => match msg {
            WsMessage::Connect { token: Some(t) } => (
                TokenState::AwaitingLogin,
                TokenAction::SendLogin(t),
            ),
            _ => (s, TokenAction::Wait),
        },
        TokenState::AwaitingLogin => match msg {
            WsMessage::Login { token: Some(t) } => (TokenState::Done(t), TokenAction::Wait),
            WsMessage::Login { token: None } => (s, TokenAction::Fail),
            _ => (s, TokenAction::Wait),
        },
        TokenState::Done(_) => (s, TokenAction::Wait),
    }
}

/// Feeds one websocket message through the handshake.
pub fn token_step(s: TokenState, msg: WsMessage) -> (r: (TokenState, TokenAction))
    ensures
        r == spec_token_step(s, msg),
{
    match s {
        TokenState::AwaitingConnect => match msg {
            WsMessage::Connect { token: Some(t) } => (
                TokenState::AwaitingLogin,
                TokenAction::SendLogin(t),
            ),
            _ => (s, TokenAction::Wait),
        },
        TokenState::AwaitingLogin => match msg {
            WsMessage::Login { token: Some(t) } => (TokenState::Done(t), TokenAction::Wait),
            WsMessage::Login { token: None } => (s, TokenAction::Fail),
            _ => (s, TokenAction::Wait),
        },
        TokenState::Done(_) => (s, TokenAction::Wait),
    }
}

// ---------------------------------------------------------------------------
// The inverter's running state
// ---------------------------------------------------------------------------

/// What the battery is doing, from the running-state register.
#[derive(Clone, Copy, Debug, PartialEq, Eq, Structural)]
pub enum BatteryState {
    Charging,
    Discharging,
    Inactive,
}

/// Which way power is trading with the grid.
#[derive(Clone, Copy, Debug, PartialEq, Eq, Structural)]
pub enum TradingState {
    Importing,
    Exporting,
    Inactive,
}

/// The decoded running-state register.
#[derive(Clone, Copy, Debug, PartialEq, Eq, Structural)]
pub struct RunningState {
    pub raw: u16,
    pub battery_state: BatteryState,
    pub trading_state: TradingState,
    pub generating_pv_power: bool,
    pub positive_load_power: bool,
    pub power_generated_from_load: bool,
}

/// Decodes the running-state register's bit mask: bit 0 generating, bits
/// 1 and 2 battery charging/discharging, bit 3 load active, bits 4 and 5
/// exporting/importing.
pub fn running_state_of(raw: u16) -> (r: RunningState)
    ensures
        r.raw == raw,
        r.battery_state == (if raw & 2 != 0 {
            BatteryState::Charging
        } else if raw & 4 != 0 {
            BatteryState::Discharging
        } else {
            BatteryState::Inactive
        }),
        r.trading_state == (if raw & 32 != 0 {
            TradingState::Importing
        } else if raw & 16 != 0 {
            TradingState::Exporting
        } else {
            TradingState::Inactive
        }),
        r.generating_pv_power == (raw & 1 != 0),
        r.positive_load_power == (raw & 8 != 0),
        r.power_generated_from_load == (raw & 1 != 0),
{
    let battery_state = if raw & 2 != 0 {
        BatteryState::Charging
    } else if raw & 4 != 0 {
        BatteryState::Discharging
    } else {
        BatteryState::Inactive
    };
    let trading_state = if raw & 32 != 0 {
        TradingState::Importing
    } else if raw & 16 != 0 {
        TradingState::Exporting
    } else {
        TradingState::Inactive
    };
    RunningState {
        raw,
        battery_state,
        trading_state,
        generating_pv_power: raw & 1 != 0,
        positive_load_power: raw & 8 != 0,
        power_generated_from_load: raw & 1 != 0,
    }
}


// ---------------------------------------------------------------------------
// Parsing gateway responses
// ---------------------------------------------------------------------------

/// The model of a websocket message: tokens by contents.
pub enum WsMessageV {
    Connect { token: Option<Seq<char>> },
    Login { token: Option<Seq<char>> },
    Other,
}

impl View for WsMessage {
    type V = WsMessageV;

    open spec fn view(&self) -> WsMessageV {
        match self {
            WsMessage::Connect { token: Some(t) } => WsMessageV::Connect { token: Some(t@) },
            WsMessage::Connect { token: None } => WsMessageV::Connect { token: None },
            WsMessage::Login { token: Some(t) } => WsMessageV::Login { token: Some(t@) },
            WsMessage::Login { token: None } => WsMessageV::Login { token: None },
            WsMessage::Other => WsMessageV::Other,
        }
    }
}

/// The model of a response's data part.
pub enum SungrowDataV {
    GetParam(Seq<u16>),
    DeviceList(Seq<Device>),
    WebSocketMessage(WsMessageV),
    Other,
}

impl View for SungrowData {
    type V = SungrowDataV;

    open spec fn view(&self) -> SungrowDataV {
        match self {
            SungrowData::GetParam(ws) => SungrowDataV::GetParam(ws@),
            SungrowData::DeviceList(ds) => SungrowDataV::DeviceList(ds@),
            SungrowData::WebSocketMessage(m) => SungrowDataV::WebSocketMessage(m@),
            SungrowData::Other => SungrowDataV::Other,
        }
    }
}

/// The model of a response envelope.
pub struct SungrowResultV {
    pub code: u16,
    pub message: Option<Seq<char>>,
    pub data: Option<SungrowDataV>,
}

impl View for SungrowResult {
    type V = SungrowResultV;

    open spec fn view(&self) -> SungrowResultV {
        SungrowResultV {
            code: self.code,
            message: match &self.message {
                Some(m) => Some(m@),
                None => None,
            },
            data: match &self.data {
                Some(d) => Some(d@),
                None => None,
            },
        }
    }
}

/// The websocket message a document with a `service` field denotes: the
/// `connect` and `login` answers carry an optional token; every other
/// service is ignored.
pub open spec fn spec_ws_message_of(j: Json) -> Option<WsMessageV> {
    match spec_get(j, "service"@) {
        Some(Json::Str(sv)) => {
            let token = match spec_get(j, "token"@) {
                Some(Json::Str(t)) => Some(Some(t@)),
                None => Some(None),
                Some(_) => None,
            };
            match token {
                Some(token) => if sv@ == "connect"@ {
                    Some(WsMessageV::Connect { token })
                } else if sv@ == "login"@ {
                    Some(WsMessageV::Login { token })
                } else {
                    Some(WsMessageV::Other)
                },
                None => None,
            }
        },
        _ => None,
    }
}

pub fn ws_message_of(j: &Json) -> (r: Option<WsMessage>)
    ensures
        match r {
            Some(m) => spec_ws_message_of(*j) == Some(m@),
            None => spec_ws_message_of(*j) is None,
        },
{
    match j.get("service") {
        Some(Json::Str(sv)) => {
            let token: Option<Option<String>> = match j.get("token") {
                Some(Json::Str(t)) => Some(Some(t.clone())),
                None => Some(None),
                Some(_) => { return None; },
            };
            match token {
                Some(token) => {
                    if str_eq(sv.as_str(), "connect") {
                        Some(WsMessage::Connect { token })
                    } else if str_eq(sv.as_str(), "login") {
                        Some(WsMessage::Login { token })
                    } else {
                        Some(WsMessage::Other)
                    }
                },
                None => None,
            }
        },
        _ => None,
    }
}

/// The device list under `list`: every entry must be a valid device.
pub open spec fn spec_device_list(items: Seq<Json>) -> Option<Seq<Device>>
    decreases items.len(),
{
    if items.len() == 0 {
        Some(Seq::empty())
    } else {
        match (spec_device_list(items.drop_last()), spec_device_of(items.last())) {
            (Some(ds), Some(d)) => Some(ds.push(d)),
            _ => None,
        }
    }
}

fn device_list(items: &Vec<Json>) -> (r: Option<Vec<Device>>)
    ensures
        match r {
            Some(ds) => spec_device_list(items@) == Some(ds@),
            None => spec_device_list(items@) is None,
        },
{
    let n = items.len();
    let mut out: Vec<Device> = Vec::new();
    let mut i: usize = 0;
    proof {
        assert(items@.take(0) =~= Seq::<Json>::empty());
    }
    while i < n
        invariant
            i <= n,
            n == items@.len(),
            spec_device_list(items@.take(i as int)) == Some(out@),
        decreases n - i,
    {
        proof {
            assert(items@.take(i + 1).drop_last() =~= items@.take(i as int));
            assert(items@.take(i + 1).last() == items@[i as int]);
        }
        match device_of(&items[i]) {
            Some(d) => {
                out.push(d);
            },
            None => {
                proof {
                    lemma_device_list_bad(items@, i as int);
                }
                return None;
            },
        }
        i = i + 1;
    }
    proof {
        assert(items@.take(n as int) =~= items@);
    }
    Some(out)
}

proof fn lemma_device_list_bad(items: Seq<Json>, i: int)
    requires
        0 <= i < items.len(),
        spec_device_of(items[i]) is None,
    ensures
        spec_device_list(items) is None,
    decreases items.len(),
{
    if items.len() > 0 {
        if i < items.len() - 1 {
            lemma_device_list_bad(items.drop_last(), i);
        }
    }
}

/// The data part of a gateway response: a register read's word string, a
/// device list, or a websocket service message; a document with none of
/// those fields is carried as `Other`.
pub open spec fn spec_sungrow_data_of(j: Json) -> Option<SungrowDataV> {
    match spec_get(j, "param_value"@) {
        Some(Json::Str(pv)) => (match spec_words_from_hex(pv@) {
            Some(ws) => Some(SungrowDataV::GetParam(ws)),
            None => None,
        }),
        Some(_) => None,
        None => match spec_get(j, "list"@) {
            Some(Json::Arr(items)) => (match spec_device_list(items@) {
                Some(ds) => Some(SungrowDataV::DeviceList(ds)),
                None => None,
            }),
            Some(_) => None,
            None => match spec_get(j, "service"@) {
                Some(_) => (match spec_ws_message_of(j) {
                    Some(m) => Some(SungrowDataV::WebSocketMessage(m)),
                    None => None,
                }),
                None => Some(SungrowDataV::Other),
            },
        },
    }
}

pub fn sungrow_data_of(j: &Json) -> (r: Option<SungrowData>)
    ensures
        match r {
            Some(d) => spec_sungrow_data_of(*j) == Some(d@),
            None => spec_sungrow_data_of(*j) is None,
        },
{
    match j.get("param_value") {
        Some(Json::Str(pv)) => match words_from_string(pv.as_str()) {
            Some(ws) => Some(SungrowData::GetParam(ws)),
            None => None,
        },
        Some(_) => None,
        None => match j.get("list") {
            Some(Json::Arr(items)) => match device_list(items) {
                Some(ds) => Some(SungrowData::DeviceList(ds)),
                None => None,
            },
            Some(_) => None,
            None => match j.get("service") {
                Some(_) => match ws_message_of(j) {
                    Some(m) => Some(SungrowData::WebSocketMessage(m)),
                    None => None,
                },
                None => Some(SungrowData::Other),
            },
        },
    }
}

/// The response envelope: the required `result_code`, the optional
/// `result_msg`, and the optional `result_data`.
pub open spec fn spec_sungrow_result_of(j: Json) -> Option<SungrowResultV> {
    match (crate::config::spec_req_u16(j, "result_code"@)) {
        Some(code) => {
            let message = match spec_get(j, "result_msg"@) {
                Some(Json::Str(m)) => Some(Some(m@)),
                None => Some(None),
                Some(_) => None,
            };
            let data = match spec_get(j, "result_data"@) {
                Some(d) => (match spec_sungrow_data_of(d) {
                    Some(dv) => Some(Some(dv)),
                    None => None,
                }),
                None => Some(None),
            };
            match (message, data) {
                (Some(message), Some(data)) => Some(SungrowResultV { code, message, data }),
                _ => None,
            }
        },
        None => None,
    }
}

pub fn sungrow_result_of(j: &Json) -> (r: Option<SungrowResult>)
    ensures
        match r {
            Some(sr) => spec_sungrow_result_of(*j) == Some(sr@),
            None => spec_sungrow_result_of(*j) is None,
        },
{
    let code = match crate::config::get_req_u16(j, "result_code") {
        Some(c) => c,
        None => { return None; },
    };
    let message: Option<String> = match j.get("result_msg") {
        Some(Json::Str(m)) => Some(m.clone()),
        None => None,
        Some(_) => { return None; },
    };
    let data: Option<SungrowData> = match j.get("result_data") {
        Some(d) => match sungrow_data_of(d) {
            Some(dv) => Some(dv),
            None => { return None; },
        },
        None => None,
    };
    Some(SungrowResult { code, message, data })
}

/// Parses one device entry from JSON text.
pub fn parse_device(bytes: &[u8]) -> (r: Option<Device>)
    ensures
        r == (match crate::json::json_of(bytes@) {
            Some(j) => spec_device_of(j),
            None => None::<Device>,
        }),
{
    match crate::json::parse_json(bytes) {
        Some(j) => device_of(&j),
        None => None,
    }
}

/// Parses a gateway response from JSON text.
pub fn parse_sungrow_result(bytes: &[u8]) -> (r: Option<SungrowResult>)
    ensures
        match r {
            Some(sr) => (match crate::json::json_of(bytes@) {
                Some(j) => spec_sungrow_result_of(j) == Some(sr@),
                None => false,
            }),
            None => (match crate::json::json_of(bytes@) {
                Some(j) => spec_sungrow_result_of(j) is None,
                None => true,
            }),
        },
{
    match crate::json::parse_json(bytes) {
        Some(j) => sungrow_result_of(&j),
        None => None,
    }
}

/// A gateway error: the non-success code and its message.
#[derive(Debug, PartialEq)]
pub struct SungrowError {
    pub code: u16,
    pub message: Option<String>,
}

/// Result code 1 means success; anything else is the gateway reporting
/// an error.
pub fn sungrow_to_result(sr: SungrowResult) -> (r: Result<Option<SungrowData>, SungrowError>)
    ensures
        sr.code == 1 ==> (r matches Ok(d) && (match (d, sr.data) {
            (Some(a), Some(b)) => a@ == b@,
            (None, None) => true,
            _ => false,
        })),
        sr.code != 1 ==> (r matches Err(e) && e.code == sr.code && (match (
            e.message,
            sr.message,
        ) {
            (Some(a), Some(b)) => a@ == b@,
            (None, None) => true,
            _ => false,
        })),
{
    if sr.code == 1 {
        Ok(sr.data)
    } else {
        Err(SungrowError { code: sr.code, message: sr.message })
    }
}

} // verus!
