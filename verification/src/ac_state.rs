//! The air conditioner state as last commanded, and its JSON text form.
//!
//! The state travels as a flat JSON object whose fields hold the protocol
//! numbers (`{"mode":<u8>,"on":<bool>,"fan":<u8>,"swing":<bool>,"temp":<u8>}`),
//! so the web UI never needs the enum names.
use vstd::prelude::*;
use crate::ir_protocol::{AcMode, FanMode, Temperature, IrData, spec_payload, flag, PAYLOAD_HEADER};
use crate::text::{
    chars_of, field_bounds, field_value, parse_u8_at, parse_bool_at, parse_u8, parse_bool,
    decimal, push_decimal, quoted, no_quote, no_quote_then,
    lemma_no_quote_then_concat, lemma_no_quote_then_key, lemma_no_quote_then_of_no_quote,
    lemma_decimal, lemma_parse_decimal, is_digit, is_whitespace, is_terminator, trim, trim_start, trim_end,
    lemma_field_value_of_member, lemma_trim_ignores_whitespace,
};

verus! {

/// The AC state as last commanded by the user.
#[derive(Clone, Copy, Debug, PartialEq, Eq, Structural)]
pub struct AcState {
    /// `AcMode` protocol value (0 = Auto, 1 = Cool, 2 = Dehumidify, 3 = Ventilation, 4 = Heat).
    pub mode: u8,
    /// `true` = unit on, `false` = unit off.
    pub on: bool,
    /// `FanMode` protocol value (0 = Auto, 1 = Low, 2 = Medium, 3 = High).
    pub fan: u8,
    /// `true` = swing enabled.
    pub swing: bool,
    /// Temperature in °C; a frame can carry 16–30.
    pub temp: u8,
}

/// The state the controller starts with: Auto mode, off, automatic fan, no swing, 24 °C.
pub open spec fn initial_state() -> AcState {
    AcState { mode: 0, on: false, fan: 0, swing: false, temp: 24 }
}

impl Default for AcState {
    /// Auto mode, off, automatic fan, no swing, 24 °C.
    fn default() -> (s: Self)
        ensures
            s == initial_state(),
    {
        AcState { mode: AcMode::Auto.code(), on: false, fan: FanMode::Auto.code(), swing: false, temp: 24 }
    }
}

/// A state is valid exactly when its mode is one of the five protocol modes
/// (0–4), its fan one of the four speeds (0–3) and its temperature 16–30 °C.
pub proof fn lemma_valid_range(s: AcState)
    ensures
        s.is_valid() <==> (s.mode <= 4 && s.fan <= 3 && 16 <= s.temp <= 30),
        s.mode == 2 && s.fan <= 3 && 16 <= s.temp <= 30 ==> s.is_valid(),
{
}

/// The settings a state names, by variant: each mode value, fan value and
/// temperature in °C stands for the protocol setting of that number.
pub proof fn lemma_names_settings(s: AcState, data: IrData)
    requires
        s.names(data),
    ensures
        s.mode == 0 <==> data.ac_mode == AcMode::Auto,
        s.mode == 1 <==> data.ac_mode == AcMode::Cool,
        s.mode == 2 <==> data.ac_mode == AcMode::Dehumidify,
        s.mode == 3 <==> data.ac_mode == AcMode::Ventilation,
        s.mode == 4 <==> data.ac_mode == AcMode::Heat,
        s.fan == 0 <==> data.fan_mode == FanMode::Auto,
        s.fan == 1 <==> data.fan_mode == FanMode::Low,
        s.fan == 2 <==> data.fan_mode == FanMode::Medium,
        s.fan == 3 <==> data.fan_mode == FanMode::High,
        s.temp == 16 <==> data.temperature == Temperature::T16,
        s.temp == 17 <==> data.temperature == Temperature::T17,
        s.temp == 18 <==> data.temperature == Temperature::T18,
        s.temp == 19 <==> data.temperature == Temperature::T19,
        s.temp == 20 <==> data.temperature == Temperature::T20,
        s.temp == 21 <==> data.temperature == Temperature::T21,
        s.temp == 22 <==> data.temperature == Temperature::T22,
        s.temp == 23 <==> data.temperature == Temperature::T23,
        s.temp == 24 <==> data.temperature == Temperature::T24,
        s.temp == 25 <==> data.temperature == Temperature::T25,
        s.temp == 26 <==> data.temperature == Temperature::T26,
        s.temp == 27 <==> data.temperature == Temperature::T27,
        s.temp == 28 <==> data.temperature == Temperature::T28,
        s.temp == 29 <==> data.temperature == Temperature::T29,
        s.temp == 30 <==> data.temperature == Temperature::T30,
{
    crate::ir_protocol::lemma_ac_mode_codes();
    crate::ir_protocol::lemma_fan_mode_codes();
    crate::ir_protocol::lemma_temperature_codes();
}

/// The payload of the frame that carries a valid state.
pub open spec fn state_payload(s: AcState) -> int {
    PAYLOAD_HEADER + s.mode + 8 * flag(s.on) + 16 * s.fan + 128 * flag(s.swing) + 256 * (s.temp
        - 16)
}

/// The settings a state names pack to the state's payload.
pub proof fn lemma_named_payload(s: AcState, data: IrData)
    requires
        s.names(data),
    ensures
        spec_payload(data) == state_payload(s),
{
}

impl AcState {
    /// Every number of the state names a setting that a frame can carry.
    pub open spec fn is_valid(self) -> bool {
        &&& self.mode <= 4
        &&& self.fan <= 3
        &&& 16 <= self.temp <= 30
    }

    /// `data` holds the settings that this state names.
    pub open spec fn names(self, data: IrData) -> bool {
        &&& data.ac_mode.spec_code() == self.mode
        &&& data.on_off == self.on
        &&& data.fan_mode.spec_code() == self.fan
        &&& data.swing == self.swing
        &&& data.temperature.spec_celsius() == self.temp
    }

    /// Converts the state into the settings of an IR frame.
    ///
    /// Returns `None` if any number is out of range.
    pub fn to_ir_data(&self) -> (r: Option<IrData>)
        ensures
            match r {
                Some(data) => self.is_valid() && self.names(data),
                None => !self.is_valid(),
            },
            r is Some <==> (self.mode <= 4 && self.fan <= 3 && 16 <= self.temp <= 30),
    {
        let ac_mode = match self.mode {
            0 => AcMode::Auto,
            1 => AcMode::Cool,
            2 => AcMode::Dehumidify,
            3 => AcMode::Ventilation,
            4 => AcMode::Heat,
            _ => return None,
        };
        let fan_mode = match self.fan {
            0 => FanMode::Auto,
            1 => FanMode::Low,
            2 => FanMode::Medium,
            3 => FanMode::High,
            _ => return None,
        };
        let temperature = match self.temp {
            16 => Temperature::T16,
            17 => Temperature::T17,
            18 => Temperature::T18,
            19 => Temperature::T19,
            20 => Temperature::T20,
            21 => Temperature::T21,
            22 => Temperature::T22,
            23 => Temperature::T23,
            24 => Temperature::T24,
            25 => Temperature::T25,
            26 => Temperature::T26,
            27 => Temperature::T27,
            28 => Temperature::T28,
            29 => Temperature::T29,
            30 => Temperature::T30,
            _ => return None,
        };
        Some(IrData { ac_mode, on_off: self.on, fan_mode, swing: self.swing, temperature })
    }
}

/// The field names of the JSON text.
pub open spec fn key_mode() -> Seq<char> {
    seq!['m', 'o', 'd', 'e']
}

pub open spec fn key_on() -> Seq<char> {
    seq!['o', 'n']
}

pub open spec fn key_fan() -> Seq<char> {
    seq!['f', 'a', 'n']
}

pub open spec fn key_swing() -> Seq<char> {
    seq!['s', 'w', 'i', 'n', 'g']
}

pub open spec fn key_temp() -> Seq<char> {
    seq!['t', 'e', 'm', 'p']
}

/// `true` or `false`, as `Display` writes a `bool`.
pub open spec fn bool_text(b: bool) -> Seq<char> {
    if b {
        seq!['t', 'r', 'u', 'e']
    } else {
        seq!['f', 'a', 'l', 's', 'e']
    }
}

/// `{"mode":`, the text that opens the object.
pub open spec fn opening() -> Seq<char> {
    seq!['{'] + quoted(key_mode()) + seq![':']
}

/// `,"key":`, the text between the value before a field and its own value.
pub open spec fn separator(key: Seq<char>) -> Seq<char> {
    seq![','] + quoted(key) + seq![':']
}

/// The JSON text of a state: `{"mode":M,"on":O,"fan":F,"swing":S,"temp":T}`
/// with the numbers in decimal and the flags as `true`/`false`.
pub open spec fn json_text(s: AcState) -> Seq<char> {
    opening() + decimal(s.mode as nat) + separator(key_on()) + bool_text(s.on) + separator(
        key_fan(),
    ) + decimal(s.fan as nat) + separator(key_swing()) + bool_text(s.swing) + separator(
        key_temp(),
    ) + decimal(s.temp as nat) + seq!['}']
}

/// The value of `key`, read as a `u8`.
pub open spec fn u8_field(json: Seq<char>, key: Seq<char>) -> Option<u8> {
    match field_value(json, key) {
        Some(v) => parse_u8(v),
        None => None,
    }
}

/// The value of `key`, read as a `bool`.
pub open spec fn bool_field(json: Seq<char>, key: Seq<char>) -> Option<bool> {
    match field_value(json, key) {
        Some(v) => parse_bool(v),
        None => None,
    }
}

/// The state a JSON text describes: each of the five fields must be present
/// and parse; their order does not matter, and anything else is ignored.
pub open spec fn spec_from_json(json: Seq<char>) -> Option<AcState> {
    match (
        u8_field(json, key_mode()),
        bool_field(json, key_on()),
        u8_field(json, key_fan()),
        bool_field(json, key_swing()),
        u8_field(json, key_temp()),
    ) {
        (Some(mode), Some(on), Some(fan), Some(swing), Some(temp)) => Some(
            AcState { mode, on, fan, swing, temp },
        ),
        _ => None,
    }
}

fn u8_field_of(json: &[char], key: &[char]) -> (r: Option<u8>)
    ensures
        r == u8_field(json@, key@),
{
    match field_bounds(json, key) {
        Some((a, b)) => parse_u8_at(json, a, b),
        None => None,
    }
}

fn bool_field_of(json: &[char], key: &[char]) -> (r: Option<bool>)
    ensures
        r == bool_field(json@, key@),
{
    match field_bounds(json, key) {
        Some((a, b)) => parse_bool_at(json, a, b),
        None => None,
    }
}

impl AcState {
    /// Reads a state from a flat JSON object.
    ///
    /// Expects the fields `"mode":<u8>`, `"on":<bool>`, `"fan":<u8>`,
    /// `"swing":<bool>` and `"temp":<u8>`, in any order. Returns `None` on
    /// any parse error.
    pub fn from_json(s: &str) -> (r: Option<AcState>)
        ensures
            r == spec_from_json(s@),
    {
        let chars = chars_of(s);
        let json = chars.as_slice();
        let k_mode = ['m', 'o', 'd', 'e'];
        let k_on = ['o', 'n'];
        let k_fan = ['f', 'a', 'n'];
        let k_swing = ['s', 'w', 'i', 'n', 'g'];
        let k_temp = ['t', 'e', 'm', 'p'];
        assert(k_mode@ =~= key_mode());
        assert(k_on@ =~= key_on());
        assert(k_fan@ =~= key_fan());
        assert(k_swing@ =~= key_swing());
        assert(k_temp@ =~= key_temp());
        let mode = match u8_field_of(json, &k_mode) {
            Some(v) => v,
            None => return None,
        };
        let on = match bool_field_of(json, &k_on) {
            Some(v) => v,
            None => return None,
        };
        let fan = match u8_field_of(json, &k_fan) {
            Some(v) => v,
            None => return None,
        };
        let swing = match bool_field_of(json, &k_swing) {
            Some(v) => v,
            None => return None,
        };
        let temp = match u8_field_of(json, &k_temp) {
            Some(v) => v,
            None => return None,
        };
        Some(AcState { mode, on, fan, swing, temp })
    }
}

fn push_bool(out: &mut String, b: bool)
    ensures
        final(out)@ == old(out)@ + bool_text(b),
{
    if b {
        proof {
            reveal_strlit("true");
        }
        out.append("true");
    } else {
        proof {
            reveal_strlit("false");
        }
        out.append("false");
    }
}

/// Writes a state as its JSON text.
pub fn state_to_json(s: &AcState) -> (r: String)
    ensures
        r@ == json_text(*s),
{
    let mut out = String::new();
    proof {
        reveal_strlit("{\"mode\":");
        reveal_strlit(",\"on\":");
        reveal_strlit(",\"fan\":");
        reveal_strlit(",\"swing\":");
        reveal_strlit(",\"temp\":");
        reveal_strlit("}");
        assert("{\"mode\":"@ =~= opening());
        assert(",\"on\":"@ =~= separator(key_on()));
        assert(",\"fan\":"@ =~= separator(key_fan()));
        assert(",\"swing\":"@ =~= separator(key_swing()));
        assert(",\"temp\":"@ =~= separator(key_temp()));
        assert("}"@ =~= seq!['}']);
        assert(out@ + opening() =~= opening());
    }
    out.append("{\"mode\":");
    push_decimal(&mut out, s.mode);
    out.append(",\"on\":");
    push_bool(&mut out, s.on);
    out.append(",\"fan\":");
    push_decimal(&mut out, s.fan);
    out.append(",\"swing\":");
    push_bool(&mut out, s.swing);
    out.append(",\"temp\":");
    push_decimal(&mut out, s.temp);
    out.append("}");
    out
}

/// A value text that needs no trimming, holds no `,`, `}` or `"`, and is not empty.
pub open spec fn is_bare(v: Seq<char>) -> bool {
    &&& v.len() > 0
    &&& forall|j: int|
        0 <= j < v.len() ==> !is_whitespace(#[trigger] v[j]) && !is_terminator(v[j]) && v[j]
            != '"'
}

proof fn lemma_bare_decimal(n: u8)
    ensures
        is_bare(decimal(n as nat)),
        parse_u8(decimal(n as nat)) == Some(n),
{
    lemma_decimal(n as nat);
    lemma_parse_decimal(n);
    let d = decimal(n as nat);
    assert forall|j: int| 0 <= j < d.len() implies !is_whitespace(#[trigger] d[j])
        && !is_terminator(d[j]) && d[j] != '"' by {
        assert(is_digit(d[j]));
    }
}

proof fn lemma_bare_bool(b: bool)
    ensures
        is_bare(bool_text(b)),
        parse_bool(bool_text(b)) == Some(b),
{
    let t = bool_text(b);
    assert forall|j: int| 0 <= j < t.len() implies !is_whitespace(#[trigger] t[j])
        && !is_terminator(t[j]) && t[j] != '"' by {
        if b {
            assert(j == 0 || j == 1 || j == 2 || j == 3);
        } else {
            assert(j == 0 || j == 1 || j == 2 || j == 3 || j == 4);
        }
    }
}

proof fn lemma_keys()
    ensures
        no_quote(key_mode()),
        no_quote(key_on()),
        no_quote(key_fan()),
        no_quote(key_swing()),
        no_quote(key_temp()),
{
    assert forall|i: int| 0 <= i < key_mode().len() implies #[trigger] key_mode()[i] != '"' by {
        assert(i == 0 || i == 1 || i == 2 || i == 3);
    }
    assert forall|i: int| 0 <= i < key_on().len() implies #[trigger] key_on()[i] != '"' by {
        assert(i == 0 || i == 1);
    }
    assert forall|i: int| 0 <= i < key_fan().len() implies #[trigger] key_fan()[i] != '"' by {
        assert(i == 0 || i == 1 || i == 2);
    }
    assert forall|i: int| 0 <= i < key_swing().len() implies #[trigger] key_swing()[i] != '"' by {
        assert(i == 0 || i == 1 || i == 2 || i == 3 || i == 4);
    }
    assert forall|i: int| 0 <= i < key_temp().len() implies #[trigger] key_temp()[i] != '"' by {
        assert(i == 0 || i == 1 || i == 2 || i == 3);
    }
}

proof fn lemma_values(s: AcState)
    ensures
        is_bare(decimal(s.mode as nat)),
        is_bare(bool_text(s.on)),
        is_bare(decimal(s.fan as nat)),
        is_bare(bool_text(s.swing)),
        is_bare(decimal(s.temp as nat)),
        parse_u8(decimal(s.mode as nat)) == Some(s.mode),
        parse_bool(bool_text(s.on)) == Some(s.on),
        parse_u8(decimal(s.fan as nat)) == Some(s.fan),
        parse_bool(bool_text(s.swing)) == Some(s.swing),
        parse_u8(decimal(s.temp as nat)) == Some(s.temp),
{
    lemma_bare_decimal(s.mode);
    lemma_bare_bool(s.on);
    lemma_bare_decimal(s.fan);
    lemma_bare_bool(s.swing);
    lemma_bare_decimal(s.temp);
}

// ---------------------------------------------------------------- member order

/// The field names, indexed as mode, on, fan, swing, temp.
pub open spec fn keys() -> Seq<Seq<char>> {
    seq![key_mode(), key_on(), key_fan(), key_swing(), key_temp()]
}

/// `"key":value` for field `i`, with `values[i]` as its value text.
pub open spec fn member_text(values: Seq<Seq<char>>, i: int) -> Seq<char> {
    quoted(keys()[i]) + seq![':'] + values[i]
}

/// `{` followed by the members at positions `0..n` of `order`, each followed by a comma.
pub open spec fn members_before(values: Seq<Seq<char>>, order: Seq<int>, n: nat) -> Seq<char>
    decreases n,
{
    if n == 0 {
        seq!['{']
    } else {
        members_before(values, order, (n - 1) as nat) + member_text(values, order[n - 1 as int])
            + seq![',']
    }
}

/// What follows the member at position `n`: each later member after a comma, then `}`.
pub open spec fn members_after(values: Seq<Seq<char>>, order: Seq<int>, n: nat) -> Seq<char>
    decreases 5 - n,
{
    if n >= 4 {
        seq!['}']
    } else {
        seq![','] + member_text(values, order[n + 1 as int]) + members_after(values, order, n + 1)
    }
}

/// A JSON object of the five members, in the order `order` gives:
/// `{` member `order[0]`, then `,` and each further member, then `}`.
pub open spec fn object_text(values: Seq<Seq<char>>, order: Seq<int>) -> Seq<char> {
    seq!['{'] + member_text(values, order[0]) + members_after(values, order, 0)
}

/// `order` lists each of the five fields once.
pub open spec fn is_field_order(order: Seq<int>) -> bool {
    &&& order.len() == 5
    &&& forall|p: int| 0 <= p < 5 ==> 0 <= #[trigger] order[p] < 5
    &&& forall|p: int, q: int| 0 <= p < q < 5 ==> order[p] != order[q]
}

/// A value text that cannot end its member early or start a key: no `,`, `}` or `"`.
pub open spec fn is_member_value(v: Seq<char>) -> bool {
    forall|j: int| 0 <= j < v.len() ==> !is_terminator(#[trigger] v[j]) && v[j] != '"'
}

proof fn lemma_keys_distinct()
    ensures
        forall|i: int| 0 <= i < 5 ==> (#[trigger] keys()[i]).len() > 0 && no_quote(keys()[i])
            && keys()[i][0] != '"' && keys()[i][0] != ':',
        forall|i: int, j: int|
            0 <= i < 5 && 0 <= j < 5 && i != j ==> (#[trigger] keys()[i])[0] != (#[trigger] keys()[j])[0],
{
    lemma_keys();
    assert(keys()[0] == key_mode());
    assert(keys()[1] == key_on());
    assert(keys()[2] == key_fan());
    assert(keys()[3] == key_swing());
    assert(keys()[4] == key_temp());
}

proof fn lemma_object_split(values: Seq<Seq<char>>, order: Seq<int>, p: nat)
    requires
        p <= 4,
    ensures
        object_text(values, order) =~= members_before(values, order, p) + member_text(
            values,
            order[p as int],
        ) + members_after(values, order, p),
    decreases p,
{
    if p > 0 {
        let q = (p - 1) as nat;
        lemma_object_split(values, order, q);
        assert(members_before(values, order, p) == members_before(values, order, q)
            + member_text(values, order[q as int]) + seq![',']);
        assert(members_after(values, order, q) == seq![','] + member_text(values, order[p as int])
            + members_after(values, order, p));
    }
}

proof fn lemma_members_before(values: Seq<Seq<char>>, order: Seq<int>, n: nat, c: char)
    requires
        n <= 5,
        values.len() == 5,
        forall|i: int| 0 <= i < 5 ==> is_member_value(#[trigger] values[i]),
        is_field_order(order),
        forall|j: int| 0 <= j < n ==> keys()[#[trigger] order[j]][0] != c,
        c != ':',
    ensures
        no_quote_then(members_before(values, order, n), c),
        members_before(values, order, n).len() > 0,
        members_before(values, order, n).last() != '"',
    decreases n,
{
    if n == 0 {
        assert(no_quote_then(seq!['{'], c));
    } else {
        let q = (n - 1) as nat;
        lemma_members_before(values, order, q, c);
        lemma_keys_distinct();
        let i = order[q as int];
        let k = keys()[i];
        let v = values[i];
        let a = members_before(values, order, q);
        lemma_no_quote_then_key(k, c);
        assert(no_quote(v));
        lemma_no_quote_then_of_no_quote(v, c);
        lemma_no_quote_then_concat(quoted(k) + seq![':'], v, c);
        let m = member_text(values, i);
        assert(m.len() > 0 && m.last() != '"') by {
            if v.len() > 0 {
                assert(m.last() == v.last());
            } else {
                assert(m.last() == ':');
            }
        }
        lemma_no_quote_then_concat(a, m, c);
        assert((a + m).last() == m.last());
        assert(no_quote_then(seq![','], c));
        lemma_no_quote_then_concat(a + m, seq![','], c);
    }
}

/// In an object of the five members, the member at position `p` gives the
/// value of its field: its value text, trimmed.
proof fn lemma_field_at(values: Seq<Seq<char>>, order: Seq<int>, p: nat)
    requires
        p < 5,
        values.len() == 5,
        forall|i: int| 0 <= i < 5 ==> is_member_value(#[trigger] values[i]),
        is_field_order(order),
    ensures
        field_value(object_text(values, order), keys()[order[p as int]]) == Some(
            trim(values[order[p as int]]),
        ),
{
    lemma_keys_distinct();
    let i = order[p as int];
    let k = keys()[i];
    let v = values[i];
    assert forall|j: int| 0 <= j < p implies keys()[#[trigger] order[j]][0] != k[0] by {
        assert(order[j] != order[p as int]);
    }
    lemma_members_before(values, order, p, k[0]);
    lemma_object_split(values, order, p);
    let pre = members_before(values, order, p);
    let post = members_after(values, order, p);
    assert(post.len() > 0 && is_terminator(post[0]));
    assert forall|j: int| 0 <= j < v.len() implies !is_terminator(#[trigger] v[j]) by {
        assert(is_member_value(values[i]));
    }
    assert(object_text(values, order) =~= pre + quoted(k) + seq![':'] + v + post);
    lemma_field_value_of_member(pre, k, v, post);
}

/// In an object of the five members, in any order, each field's value is
/// its member's value text, trimmed.
pub proof fn lemma_fields_of_object(values: Seq<Seq<char>>, order: Seq<int>)
    requires
        values.len() == 5,
        forall|i: int| 0 <= i < 5 ==> is_member_value(#[trigger] values[i]),
        is_field_order(order),
    ensures
        forall|i: int|
            0 <= i < 5 ==> field_value(object_text(values, order), #[trigger] keys()[i]) == Some(
                trim(values[i]),
            ),
{
    assert forall|i: int| 0 <= i < 5 implies field_value(
        object_text(values, order),
        #[trigger] keys()[i],
    ) == Some(trim(values[i])) by {
        // the five distinct entries of `order` cover 0..5
        let p: int = if order[0] == i {
            0
        } else if order[1] == i {
            1
        } else if order[2] == i {
            2
        } else if order[3] == i {
            3
        } else {
            4
        };
        assert(order[p] == i);
        lemma_field_at(values, order, p as nat);
    }
}

/// The order of the members does not matter: two objects made of the same
/// five members, each listed once, read as the same state (or both as none).
pub proof fn lemma_field_order_irrelevant(
    values: Seq<Seq<char>>,
    order1: Seq<int>,
    order2: Seq<int>,
)
    requires
        values.len() == 5,
        forall|i: int| 0 <= i < 5 ==> is_member_value(#[trigger] values[i]),
        is_field_order(order1),
        is_field_order(order2),
    ensures
        spec_from_json(object_text(values, order1)) == spec_from_json(object_text(values, order2)),
{
    lemma_fields_of_object(values, order1);
    lemma_fields_of_object(values, order2);
    let t1 = object_text(values, order1);
    let t2 = object_text(values, order2);
    assert(keys()[0] == key_mode());
    assert(keys()[1] == key_on());
    assert(keys()[2] == key_fan());
    assert(keys()[3] == key_swing());
    assert(keys()[4] == key_temp());
    assert(field_value(t1, keys()[0]) == field_value(t2, keys()[0]));
    assert(field_value(t1, keys()[1]) == field_value(t2, keys()[1]));
    assert(field_value(t1, keys()[2]) == field_value(t2, keys()[2]));
    assert(field_value(t1, keys()[3]) == field_value(t2, keys()[3]));
    assert(field_value(t1, keys()[4]) == field_value(t2, keys()[4]));
}

/// The JSON text of a state is the object of its five value texts in field order.
proof fn lemma_regroup(
    q: Seq<char>,
    s1: Seq<char>,
    v1: Seq<char>,
    s2: Seq<char>,
    v2: Seq<char>,
    s3: Seq<char>,
    v3: Seq<char>,
    s4: Seq<char>,
    v4: Seq<char>,
    e: Seq<char>,
)
    ensures
        q + s1 + v1 + s2 + v2 + s3 + v3 + s4 + v4 + e == q + ((s1 + v1) + ((s2 + v2) + ((s3 + v3)
            + ((s4 + v4) + e)))),
{
    assert(q + s1 + v1 + s2 + v2 + s3 + v3 + s4 + v4 + e =~= q + ((s1 + v1) + ((s2 + v2) + ((s3
        + v3) + ((s4 + v4) + e)))));
}

proof fn lemma_json_text_is_object(s: AcState)
    ensures
        json_text(s) == object_text(state_values(s), seq![0int, 1, 2, 3, 4]),
{
    let v = state_values(s);
    let o = seq![0int, 1, 2, 3, 4];
    assert(keys()[0] == key_mode());
    assert(keys()[1] == key_on());
    assert(keys()[2] == key_fan());
    assert(keys()[3] == key_swing());
    assert(keys()[4] == key_temp());
    let m1 = member_text(v, 1);
    let m2 = member_text(v, 2);
    let m3 = member_text(v, 3);
    let m4 = member_text(v, 4);
    let a4 = members_after(v, o, 4);
    assert(a4 == seq!['}']);
    let a3 = members_after(v, o, 3);
    assert(a3 == seq![','] + m4 + a4);
    let a2 = members_after(v, o, 2);
    assert(a2 == seq![','] + m3 + a3);
    let a1 = members_after(v, o, 1);
    assert(a1 == seq![','] + m2 + a2);
    let a0 = members_after(v, o, 0);
    assert(a0 == seq![','] + m1 + a1);
    assert(opening() + v[0] =~= seq!['{'] + member_text(v, 0));
    assert(separator(key_on()) + v[1] =~= seq![','] + m1);
    assert(separator(key_fan()) + v[2] =~= seq![','] + m2);
    assert(separator(key_swing()) + v[3] =~= seq![','] + m3);
    assert(separator(key_temp()) + v[4] =~= seq![','] + m4);
    lemma_regroup(
        opening() + v[0],
        separator(key_on()),
        v[1],
        separator(key_fan()),
        v[2],
        separator(key_swing()),
        v[3],
        separator(key_temp()),
        v[4],
        seq!['}'],
    );
}

/// The value texts of a state's fields, in field order.
pub open spec fn state_values(s: AcState) -> Seq<Seq<char>> {
    seq![
        decimal(s.mode as nat),
        bool_text(s.on),
        decimal(s.fan as nat),
        bool_text(s.swing),
        decimal(s.temp as nat),
    ]
}

/// Reading back the JSON text of a state gives the same state: what the
/// controller reports, it accepts as a command unchanged.
pub proof fn lemma_json_round_trip(s: AcState)
    ensures
        spec_from_json(json_text(s)) == Some(s),
{
    let values = state_values(s);
    let order = seq![0int, 1, 2, 3, 4];
    lemma_values(s);
    assert forall|i: int| 0 <= i < 5 implies is_member_value(#[trigger] values[i]) by {
        assert(is_bare(values[i]));
    }
    assert forall|i: int| 0 <= i < 5 implies trim(#[trigger] values[i]) == values[i] by {
        let v = values[i];
        assert(is_bare(v));
        assert(!is_whitespace(v[0]));
        assert(!is_whitespace(v.last()));
        assert(trim_start(v) == v);
        assert(trim_end(v) == v);
    }
    lemma_json_text_is_object(s);
    lemma_fields_of_object(values, order);
    let t = json_text(s);
    assert(field_value(t, keys()[0]) == Some(values[0]));
    assert(field_value(t, keys()[1]) == Some(values[1]));
    assert(field_value(t, keys()[2]) == Some(values[2]));
    assert(field_value(t, keys()[3]) == Some(values[3]));
    assert(field_value(t, keys()[4]) == Some(values[4]));
    assert(keys()[0] == key_mode());
    assert(keys()[1] == key_on());
    assert(keys()[2] == key_fan());
    assert(keys()[3] == key_swing());
    assert(keys()[4] == key_temp());
}

/// Whitespace around the values does not matter: two objects whose member
/// values trim to the same texts read as the same state (or both as none).
pub proof fn lemma_value_padding_irrelevant(
    values: Seq<Seq<char>>,
    padded: Seq<Seq<char>>,
    order: Seq<int>,
)
    requires
        values.len() == 5,
        padded.len() == 5,
        forall|i: int| 0 <= i < 5 ==> is_member_value(#[trigger] values[i]),
        forall|i: int| 0 <= i < 5 ==> is_member_value(#[trigger] padded[i]),
        forall|i: int| 0 <= i < 5 ==> trim(#[trigger] padded[i]) == trim(values[i]),
        is_field_order(order),
    ensures
        spec_from_json(object_text(padded, order)) == spec_from_json(object_text(values, order)),
{
    lemma_fields_of_object(values, order);
    lemma_fields_of_object(padded, order);
    let t1 = object_text(values, order);
    let t2 = object_text(padded, order);
    assert(keys()[0] == key_mode());
    assert(keys()[1] == key_on());
    assert(keys()[2] == key_fan());
    assert(keys()[3] == key_swing());
    assert(keys()[4] == key_temp());
    assert(field_value(t1, keys()[0]) == field_value(t2, keys()[0]));
    assert(field_value(t1, keys()[1]) == field_value(t2, keys()[1]));
    assert(field_value(t1, keys()[2]) == field_value(t2, keys()[2]));
    assert(field_value(t1, keys()[3]) == field_value(t2, keys()[3]));
    assert(field_value(t1, keys()[4]) == field_value(t2, keys()[4]));
}

/// A pretty-printed object reads as the compact one: a tab, newline,
/// vertical tab, form feed, carriage return or space after every value
/// (before the next `,` or the closing `}`) changes nothing.
pub proof fn lemma_trailing_whitespace_irrelevant(values: Seq<Seq<char>>, order: Seq<int>, c: char)
    requires
        values.len() == 5,
        forall|i: int| 0 <= i < 5 ==> is_member_value(#[trigger] values[i]),
        is_field_order(order),
        c == '\t' || c == '\n' || c == '\x0B' || c == '\x0C' || c == '\r' || c == ' ',
    ensures
        spec_from_json(object_text(values.map_values(|v: Seq<char>| v + seq![c]), order))
            == spec_from_json(object_text(values, order)),
{
    let padded = values.map_values(|v: Seq<char>| v + seq![c]);
    assert forall|i: int| 0 <= i < 5 implies is_member_value(#[trigger] padded[i]) && trim(
        padded[i],
    ) == trim(values[i]) by {
        assert(padded[i] == values[i] + seq![c]);
        assert(is_member_value(values[i]));
        lemma_trim_ignores_whitespace(values[i], c);
        assert forall|j: int| 0 <= j < padded[i].len() implies !is_terminator(
            #[trigger] padded[i][j],
        ) && padded[i][j] != '"' by {
            if j < values[i].len() {
                assert(padded[i][j] == values[i][j]);
            } else {
                assert(padded[i][j] == c);
            }
        }
    }
    lemma_value_padding_irrelevant(values, padded, order);
}

} // verus!
