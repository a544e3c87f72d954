use forestair_ir::ir_protocol::{
    encode_ir, pack_ir_payload, AcMode, FanMode, IrData, PinState, Pulse, Temperature,
    BIT_MARK_US, FRAME_PAIRS, HEADER_MARK_US, HEADER_SPACE_US, MAX_PULSE_TICKS, ONE_SPACE_US,
    ZERO_SPACE_US,
};

fn data(ac_mode: AcMode, on_off: bool, fan_mode: FanMode, swing: bool, temperature: Temperature) -> IrData {
    IrData { ac_mode, on_off, fan_mode, swing, temperature }
}

#[test]
fn readme_example_payload() {
    // Ventilation, on, fan low, swing off, 24 °C (index 8).
    let p = pack_ir_payload(data(AcMode::Ventilation, true, FanMode::Low, false, Temperature::T24));
    assert_eq!(p, 0x250000000 | 0x81B);
    assert_eq!(p, 0x25000081B);
}

#[test]
fn payload_of_all_zero_fields_is_header() {
    let p = pack_ir_payload(data(AcMode::Auto, false, FanMode::Auto, false, Temperature::T16));
    assert_eq!(p, 0x250000000);
}

#[test]
fn payload_of_all_high_fields() {
    let p = pack_ir_payload(data(AcMode::Heat, true, FanMode::High, true, Temperature::T30));
    // 4 | 1<<3 | 3<<4 | 1<<7 | 14<<8
    assert_eq!(p, 0x250000000 + 4 + 8 + 48 + 128 + 14 * 256);
    assert!(p < 1u64 << 35);
}

#[test]
fn payload_fields_read_back() {
    let p = pack_ir_payload(data(AcMode::Cool, false, FanMode::Medium, true, Temperature::T21));
    assert_eq!(p & 7, 1);
    assert_eq!((p >> 3) & 1, 0);
    assert_eq!((p >> 4) & 7, 2);
    assert_eq!((p >> 7) & 1, 1);
    assert_eq!((p >> 8) & 0xf, 5);
    assert_eq!((p >> 12) & 0xf, 0);
    assert_eq!(p >> 16, 0x25000);
}

#[test]
fn payloads_of_different_settings_differ() {
    let a = pack_ir_payload(data(AcMode::Cool, true, FanMode::Low, false, Temperature::T22));
    let b = pack_ir_payload(data(AcMode::Cool, true, FanMode::Low, false, Temperature::T23));
    let c = pack_ir_payload(data(AcMode::Dehumidify, true, FanMode::Low, false, Temperature::T22));
    assert_ne!(a, b);
    assert_ne!(a, c);
}

#[test]
fn enum_codes() {
    assert_eq!(AcMode::Auto.code(), 0);
    assert_eq!(AcMode::Heat.code(), 4);
    assert_eq!(FanMode::High.code(), 3);
    assert_eq!(Temperature::T16.code(), 0);
    assert_eq!(Temperature::T30.code(), 14);
    assert_eq!(Temperature::T24.celsius(), 24);
}

fn mark(ticks: u16) -> Pulse {
    Pulse { pin_state: PinState::High, ticks }
}

fn space(ticks: u16) -> Pulse {
    Pulse { pin_state: PinState::Low, ticks }
}

#[test]
fn frame_layout() {
    let payload: u64 = 0x25000081B;
    let signal = encode_ir(payload);
    assert_eq!(signal.len(), FRAME_PAIRS);
    assert_eq!(signal[0], (mark(HEADER_MARK_US), space(HEADER_SPACE_US)));
    assert_eq!(signal[0], (mark(9000), space(4450)));
    // bit 0 of 0x...81B is 1, bit 2 is 0
    assert_eq!(signal[1], (mark(650), space(1650)));
    assert_eq!(signal[3], (mark(650), space(550)));
    assert_eq!(signal[36], (mark(BIT_MARK_US), space(0)));
    for i in 0..35 {
        let one = (payload >> i) & 1 == 1;
        let expected = if one { ONE_SPACE_US } else { ZERO_SPACE_US };
        assert_eq!(signal[1 + i], (mark(BIT_MARK_US), space(expected)));
    }
}

#[test]
fn frame_reads_back_as_payload() {
    for payload in [0x250000000u64, 0x25000081B, 0x7_FFFF_FFFF, 0] {
        let signal = encode_ir(payload);
        let mut value: u64 = 0;
        for i in 0..35 {
            if signal[1 + i].1.ticks == ONE_SPACE_US {
                value |= 1 << i;
            }
        }
        assert_eq!(value, payload);
    }
}

#[test]
fn frame_keeps_only_low_35_bits() {
    let signal = encode_ir(u64::MAX);
    let mut value: u64 = 0;
    for i in 0..35 {
        if signal[1 + i].1.ticks == ONE_SPACE_US {
            value |= 1 << i;
        }
    }
    assert_eq!(value, (1u64 << 35) - 1);
}

#[test]
fn frame_pulses_fit_rmt_ticks() {
    let signal = encode_ir(0x2500003FF);
    for (a, b) in signal.iter() {
        assert!(a.ticks <= MAX_PULSE_TICKS && b.ticks <= MAX_PULSE_TICKS);
        assert_eq!(a.pin_state, PinState::High);
        assert_eq!(b.pin_state, PinState::Low);
    }
}
