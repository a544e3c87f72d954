//! The ForestAir IR protocol: payload layout and pulse-distance frame.
use vstd::prelude::*;
use vstd::arithmetic::power2::{pow2, lemma_pow2_unfold, lemma_pow2_pos};
use vstd::arithmetic::div_mod::lemma_mod_breakdown;
use vstd::bits::{lemma_u64_shr_is_div, lemma_u64_pow2_no_overflow};

verus! {

/// Fixed header bits of every ForestAir frame (bits 28, 30 and 33 set).
pub const PAYLOAD_HEADER: u64 = 0x250000000;

/// Operating mode, encoded in payload bits 0–2.
#[derive(Clone, Copy, Debug, PartialEq, Eq, Structural)]
pub enum AcMode {
    Auto,
    Cool,
    Dehumidify,
    Ventilation,
    Heat,
}

impl AcMode {
    /// The protocol value of the mode (0 = Auto … 4 = Heat).
    pub open spec fn spec_code(self) -> u8 {
        match self {
            AcMode::Auto => 0,
            AcMode::Cool => 1,
            AcMode::Dehumidify => 2,
            AcMode::Ventilation => 3,
            AcMode::Heat => 4,
        }
    }

    /// The protocol value of the mode (0 = Auto … 4 = Heat).
    pub fn code(self) -> (c: u8)
        ensures
            c == self.spec_code(),
    {
        match self {
            AcMode::Auto => 0,
            AcMode::Cool => 1,
            AcMode::Dehumidify => 2,
            AcMode::Ventilation => 3,
            AcMode::Heat => 4,
        }
    }
}


/// Fan speed, encoded in payload bits 4–6.
#[derive(Clone, Copy, Debug, PartialEq, Eq, Structural)]
pub enum FanMode {
    Auto,
    Low,
    Medium,
    High,
}

impl FanMode {
    /// The protocol value of the fan speed (0 = Auto … 3 = High).
    pub open spec fn spec_code(self) -> u8 {
        match self {
            FanMode::Auto => 0,
            FanMode::Low => 1,
            FanMode::Medium => 2,
            FanMode::High => 3,
        }
    }

    /// The protocol value of the fan speed (0 = Auto … 3 = High).
    pub fn code(self) -> (c: u8)
        ensures
            c == self.spec_code(),
    {
        match self {
            FanMode::Auto => 0,
            FanMode::Low => 1,
            FanMode::Medium => 2,
            FanMode::High => 3,
        }
    }
}

/// Set temperature, 16–30 °C, encoded in payload bits 8–11 as `°C - 16`.
#[derive(Clone, Copy, Debug, PartialEq, Eq, Structural)]
pub enum Temperature {
    T16,
    T17,
    T18,
    T19,
    T20,
    T21,
    T22,
    T23,
    T24,
    T25,
    T26,
    T27,
    T28,
    T29,
    T30,
}

impl Temperature {
    /// The protocol value of the temperature: its index, 0 for 16 °C … 14 for 30 °C.
    pub open spec fn spec_code(self) -> u8 {
        match self {
            Temperature::T16 => 0,
            Temperature::T17 => 1,
            Temperature::T18 => 2,
            Temperature::T19 => 3,
            Temperature::T20 => 4,
            Temperature::T21 => 5,
            Temperature::T22 => 6,
            Temperature::T23 => 7,
            Temperature::T24 => 8,
            Temperature::T25 => 9,
            Temperature::T26 => 10,
            Temperature::T27 => 11,
            Temperature::T28 => 12,
            Temperature::T29 => 13,
            Temperature::T30 => 14,
        }
    }

    /// The temperature in degrees Celsius.
    pub open spec fn spec_celsius(self) -> u8 {
        (self.spec_code() + 16) as u8
    }

    /// The protocol value of the temperature: its index, 0 for 16 °C … 14 for 30 °C.
    pub fn code(self) -> (c: u8)
        ensures
            c == self.spec_code(),
    {
        match self {
            Temperature::T16 => 0,
            Temperature::T17 => 1,
            Temperature::T18 => 2,
            Temperature::T19 => 3,
            Temperature::T20 => 4,
            Temperature::T21 => 5,
            Temperature::T22 => 6,
            Temperature::T23 => 7,
            Temperature::T24 => 8,
            Temperature::T25 => 9,
            Temperature::T26 => 10,
            Temperature::T27 => 11,
            Temperature::T28 => 12,
            Temperature::T29 => 13,
            Temperature::T30 => 14,
        }
    }

    /// The temperature in degrees Celsius.
    pub fn celsius(self) -> (c: u8)
        ensures
            c == self.spec_celsius(),
            16 <= c <= 30,
    {
        self.code() + 16
    }
}

/// The settings carried by one IR frame.
#[derive(Clone, Copy, Debug, PartialEq, Eq, Structural)]
pub struct IrData {
    pub ac_mode: AcMode,
    pub on_off: bool,
    pub fan_mode: FanMode,
    pub swing: bool,
    pub temperature: Temperature,
}

/// 0 or 1 for a flag bit.
pub open spec fn flag(b: bool) -> int {
    if b { 1 } else { 0 }
}

/// The payload of a frame, as the README lays it out: the fixed header, then
/// mode in bits 0–2, power in bit 3, fan in bits 4–6, swing in bit 7,
/// temperature index in bits 8–11 and zeros in the reserved bits 12–15.
pub open spec fn spec_payload(data: IrData) -> int {
    PAYLOAD_HEADER + data.ac_mode.spec_code() + 8 * flag(data.on_off) + 16
        * data.fan_mode.spec_code() + 128 * flag(data.swing) + 256 * data.temperature.spec_code()
}

proof fn lemma_or_is_sum(m: u64, o: u64, f: u64, w: u64, t: u64)
    by (bit_vector)
    requires
        m < 8,
        o < 2,
        f < 8,
        w < 2,
        t < 16,
    ensures
        (0x250000000u64 | m | (o << 3u64) | (f << 4u64) | (w << 7u64) | (t << 8u64))
            == 0x250000000u64 + m + 8 * o + 16 * f + 128 * w + 256 * t,
{
}

/// Packs the settings into the 35-bit payload of an IR frame.
pub fn pack_ir_payload(data: IrData) -> (payload: u64)
    ensures
        payload == spec_payload(data),
        payload < 0x8_0000_0000,
{
    let m: u64 = data.ac_mode.code() as u64;
    let o: u64 = if data.on_off { 1 } else { 0 };
    let f: u64 = data.fan_mode.code() as u64;
    let w: u64 = if data.swing { 1 } else { 0 };
    let t: u64 = data.temperature.code() as u64;
    let mut payload: u64 = PAYLOAD_HEADER;
    payload = payload | m;
    payload = payload | (o << 3u64);
    payload = payload | (f << 4u64);
    payload = payload | (w << 7u64);
    payload = payload | (t << 8u64);
    proof {
        lemma_or_is_sum(m, o, f, w, t);
    }
    payload
}

proof fn lemma_fields_of_sum(m: u64, o: u64, f: u64, w: u64, t: u64, p: u64)
    by (bit_vector)
    requires
        m < 8,
        o < 2,
        f < 8,
        w < 2,
        t < 16,
        p == 0x250000000u64 + m + 8 * o + 16 * f + 128 * w + 256 * t,
    ensures
        p & 7 == m,
        (p >> 3u64) & 1 == o,
        (p >> 4u64) & 7 == f,
        (p >> 7u64) & 1 == w,
        (p >> 8u64) & 0xf == t,
        (p >> 12u64) & 0xf == 0,
        p >> 16u64 == 0x25000,
{
}

/// Each setting can be read back from its bits of the packed payload; the
/// reserved bits 12–15 are zero and the bits above them hold the fixed header.
pub proof fn lemma_payload_fields(data: IrData)
    ensures
        ({
            let p = spec_payload(data) as u64;
            &&& p == spec_payload(data)
            &&& p & 7 == data.ac_mode.spec_code()
            &&& (p >> 3u64) & 1 == flag(data.on_off)
            &&& (p >> 4u64) & 7 == data.fan_mode.spec_code()
            &&& (p >> 7u64) & 1 == flag(data.swing)
            &&& (p >> 8u64) & 0xf == data.temperature.spec_code()
            &&& (p >> 12u64) & 0xf == 0
            &&& p >> 16u64 == 0x25000
        }),
{
    let m = data.ac_mode.spec_code() as u64;
    let o = flag(data.on_off) as u64;
    let f = data.fan_mode.spec_code() as u64;
    let w = flag(data.swing) as u64;
    let t = data.temperature.spec_code() as u64;
    let p = spec_payload(data) as u64;
    lemma_fields_of_sum(m, o, f, w, t, p);
}

/// Two settings that pack to the same payload are the same settings.
pub proof fn lemma_payload_injective(a: IrData, b: IrData)
    requires
        spec_payload(a) == spec_payload(b),
    ensures
        a == b,
{
    lemma_payload_fields(a);
    lemma_payload_fields(b);
}

/// The mode values of the protocol, as the README's table gives them:
/// 0 Auto, 1 Cool, 2 Dehumidify, 3 Ventilation, 4 Heat.
pub proof fn lemma_ac_mode_codes()
    ensures
        AcMode::Auto.spec_code() == 0,
        AcMode::Cool.spec_code() == 1,
        AcMode::Dehumidify.spec_code() == 2,
        AcMode::Ventilation.spec_code() == 3,
        AcMode::Heat.spec_code() == 4,
{
}

/// The fan values of the protocol, as the README's table gives them:
/// 0 Auto, 1 Low, 2 Medium, 3 High.
pub proof fn lemma_fan_mode_codes()
    ensures
        FanMode::Auto.spec_code() == 0,
        FanMode::Low.spec_code() == 1,
        FanMode::Medium.spec_code() == 2,
        FanMode::High.spec_code() == 3,
{
}

/// Each temperature `Tn` stands for `n` °C and is sent as `n - 16`
/// (16 °C as 0 … 30 °C as 14).
pub proof fn lemma_temperature_codes()
    ensures
        Temperature::T16.spec_celsius() == 16 && Temperature::T16.spec_code() == 0,
        Temperature::T17.spec_celsius() == 17 && Temperature::T17.spec_code() == 1,
        Temperature::T18.spec_celsius() == 18 && Temperature::T18.spec_code() == 2,
        Temperature::T19.spec_celsius() == 19 && Temperature::T19.spec_code() == 3,
        Temperature::T20.spec_celsius() == 20 && Temperature::T20.spec_code() == 4,
        Temperature::T21.spec_celsius() == 21 && Temperature::T21.spec_code() == 5,
        Temperature::T22.spec_celsius() == 22 && Temperature::T22.spec_code() == 6,
        Temperature::T23.spec_celsius() == 23 && Temperature::T23.spec_code() == 7,
        Temperature::T24.spec_celsius() == 24 && Temperature::T24.spec_code() == 8,
        Temperature::T25.spec_celsius() == 25 && Temperature::T25.spec_code() == 9,
        Temperature::T26.spec_celsius() == 26 && Temperature::T26.spec_code() == 10,
        Temperature::T27.spec_celsius() == 27 && Temperature::T27.spec_code() == 11,
        Temperature::T28.spec_celsius() == 28 && Temperature::T28.spec_code() == 12,
        Temperature::T29.spec_celsius() == 29 && Temperature::T29.spec_code() == 13,
        Temperature::T30.spec_celsius() == 30 && Temperature::T30.spec_code() == 14,
        forall|t: Temperature| #[trigger] t.spec_celsius() == t.spec_code() + 16,
{
}

/// Bits 8–11 of a payload hold the set temperature in °C minus 16; with
/// `lemma_temperature_codes`, 17 °C (`T17`) is sent as 1.
pub proof fn lemma_payload_temperature(data: IrData)
    ensures
        ((spec_payload(data) as u64 >> 8u64) & 0xf) + 16 == data.temperature.spec_celsius(),
        data.temperature == Temperature::T17 ==> (spec_payload(data) as u64 >> 8u64) & 0xf == 1,
{
    lemma_payload_fields(data);
}

/// Duration of the header mark, in µs (one RMT tick per µs).
pub const HEADER_MARK_US: u16 = 9000;
/// Duration of the header space, in µs.
pub const HEADER_SPACE_US: u16 = 4450;
/// Duration of every bit mark and of the stop mark, in µs.
pub const BIT_MARK_US: u16 = 650;
/// Space after the mark of a `1` bit, in µs.
pub const ONE_SPACE_US: u16 = 1650;
/// Space after the mark of a `0` bit, in µs.
pub const ZERO_SPACE_US: u16 = 550;
/// Number of data bits in a frame.
pub const FRAME_BITS: usize = 35;
/// Number of mark/space pairs in a frame: header, data bits, stop bit.
pub const FRAME_PAIRS: usize = 37;
/// Largest tick count an RMT pulse can hold (15 bits).
pub const MAX_PULSE_TICKS: u16 = 32767;

/// The timings of the README's table: header 9000 µs mark and 4450 µs
/// space, bit mark 650 µs, a `0` as 550 µs space, a `1` as 1650 µs space,
/// 35 data bits, and 37 mark/space pairs with the header and stop bit.
pub proof fn lemma_frame_timings()
    ensures
        HEADER_MARK_US == 9000,
        HEADER_SPACE_US == 4450,
        BIT_MARK_US == 650,
        ZERO_SPACE_US == 550,
        ONE_SPACE_US == 1650,
        FRAME_BITS == 35,
        FRAME_PAIRS == 37,
        PAYLOAD_HEADER == 0x250000000,
{
}

/// Level of the IR output during a pulse.
#[derive(Clone, Copy, Debug, PartialEq, Eq, Structural)]
pub enum PinState {
    Low,
    High,
}

/// One pulse of the transmitted signal: a level held for a number of ticks.
#[derive(Clone, Copy, Debug, PartialEq, Eq, Structural)]
pub struct Pulse {
    pub pin_state: PinState,
    pub ticks: u16,
}

/// A mark (output high) followed by a space (output low).
pub open spec fn mark_space(mark: u16, space: u16) -> (Pulse, Pulse) {
    (Pulse { pin_state: PinState::High, ticks: mark }, Pulse { pin_state: PinState::Low, ticks: space })
}

/// Bit `i` of the payload (LSB is bit 0).
pub open spec fn payload_bit(payload: u64, i: nat) -> bool {
    (payload as nat / pow2(i)) % 2 == 1
}

/// The pair that carries one data bit: the bit mark, then a long space for 1, a short one for 0.
pub open spec fn bit_pair(one: bool) -> (Pulse, Pulse) {
    mark_space(BIT_MARK_US, if one { ONE_SPACE_US } else { ZERO_SPACE_US })
}

/// The frame for a payload: header mark and space, the 35 low payload bits
/// LSB first, then the stop mark with no space.
pub open spec fn spec_frame(payload: u64) -> Seq<(Pulse, Pulse)> {
    seq![mark_space(HEADER_MARK_US, HEADER_SPACE_US)] + Seq::new(
        FRAME_BITS as nat,
        |i: int| bit_pair(payload_bit(payload, i as nat)),
    ) + seq![mark_space(BIT_MARK_US, 0)]
}

proof fn lemma_low_bit(x: u64)
    by (bit_vector)
    ensures
        (x & 1 != 0) == (x % 2 == 1),
{
}

/// Builds the pulse-distance signal that transmits a payload.
pub fn encode_ir(payload: u64) -> (signal: Vec<(Pulse, Pulse)>)
    ensures
        signal@ == spec_frame(payload),
        signal@.len() == FRAME_PAIRS,
        forall|i: int|
            0 <= i < signal@.len() ==> #[trigger] signal@[i].0.ticks <= MAX_PULSE_TICKS
                && signal@[i].1.ticks <= MAX_PULSE_TICKS,
{
    let mut signal: Vec<(Pulse, Pulse)> = Vec::new();
    signal.push(
        (
            Pulse { pin_state: PinState::High, ticks: HEADER_MARK_US },
            Pulse { pin_state: PinState::Low, ticks: HEADER_SPACE_US },
        ),
    );
    let mut i: u64 = 0;
    while i < 35
        invariant
            0 <= i <= 35,
            signal@.len() == i + 1,
            signal@[0] == mark_space(HEADER_MARK_US, HEADER_SPACE_US),
            forall|j: int| 0 <= j < i ==> #[trigger] signal@[j + 1] == bit_pair(payload_bit(payload, j as nat)),
        decreases 35 - i,
    {
        let bit_is_one: bool = (payload >> i) & 1 != 0;
        proof {
            lemma_u64_shr_is_div(payload, i);
            lemma_low_bit(payload >> i);
        }
        let space: u16 = if bit_is_one { ONE_SPACE_US } else { ZERO_SPACE_US };
        signal.push(
            (
                Pulse { pin_state: PinState::High, ticks: BIT_MARK_US },
                Pulse { pin_state: PinState::Low, ticks: space },
            ),
        );
        i = i + 1;
    }
    signal.push(
        (
            Pulse { pin_state: PinState::High, ticks: BIT_MARK_US },
            Pulse { pin_state: PinState::Low, ticks: 0 },
        ),
    );
    assert forall|j: int| 0 <= j < signal@.len() implies #[trigger] signal@[j] == spec_frame(
        payload,
    )[j] by {
        if 1 <= j <= 35 {
            assert(signal@[(j - 1) + 1] == bit_pair(payload_bit(payload, (j - 1) as nat)));
        }
    }
    assert(signal@ =~= spec_frame(payload));
    signal
}

/// The number a receiver reads from the first `n` data pairs of a frame,
/// least significant bit first: a space of `ONE_SPACE_US` is a 1, any other a 0.
pub open spec fn frame_value(frame: Seq<(Pulse, Pulse)>, n: nat) -> nat
    decreases n,
{
    if n == 0 {
        0
    } else {
        frame_value(frame, (n - 1) as nat) + if frame[n as int].1.ticks == ONE_SPACE_US {
            pow2((n - 1) as nat)
        } else {
            0
        }
    }
}

proof fn lemma_frame_value_prefix(payload: u64, n: nat)
    requires
        n <= FRAME_BITS,
    ensures
        frame_value(spec_frame(payload), n) == payload as nat % pow2(n),
    decreases n,
{
    let frame = spec_frame(payload);
    if n == 0 {
        assert(pow2(0) == 1) by {
            vstd::arithmetic::power2::lemma2_to64();
        }
    } else {
        let k = (n - 1) as nat;
        lemma_frame_value_prefix(payload, k);
        lemma_pow2_unfold(n);
        lemma_pow2_pos(k);
        assert(frame[n as int] == bit_pair(payload_bit(payload, k)));
        lemma_mod_breakdown(payload as int, pow2(k) as int, 2);
        assert(pow2(k) * 2 == pow2(n));
        let b: int = (payload as int / pow2(k) as int) % 2;
        assert(b == (payload as nat / pow2(k)) % 2);
        let q: int = pow2(k) as int;
        if payload_bit(payload, k) {
            assert(b == 1);
            assert(q * b == q) by (nonlinear_arith)
                requires
                    b == 1,
            ;
        } else {
            assert(b == 0);
            assert(q * b == 0) by (nonlinear_arith)
                requires
                    b == 0,
            ;
        }
    }
}

/// A receiver that reads the 35 data pairs of the frame LSB first gets back
/// the payload's 35 low bits: the whole payload whenever it fits in 35 bits,
/// as every packed payload does.
pub proof fn lemma_frame_carries_payload(payload: u64)
    ensures
        frame_value(spec_frame(payload), FRAME_BITS as nat) == payload as nat % pow2(35),
        payload < 0x8_0000_0000 ==> frame_value(spec_frame(payload), FRAME_BITS as nat) == payload,
{
    lemma_frame_value_prefix(payload, 35);
    assert(pow2(35) == 0x8_0000_0000) by {
        vstd::arithmetic::power2::lemma2_to64_rest();
    }
}

} // verus!
