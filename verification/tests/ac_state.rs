use forestair_ir::ac_state::{state_to_json, AcState};
use forestair_ir::ir_protocol::{AcMode, FanMode, Temperature};

fn st(mode: u8, on: bool, fan: u8, swing: bool, temp: u8) -> AcState {
    AcState { mode, on, fan, swing, temp }
}

#[test]
fn default_state() {
    let s = AcState::default();
    assert_eq!(s, st(0, false, 0, false, 24));
}

#[test]
fn to_json_text() {
    assert_eq!(
        state_to_json(&st(3, true, 1, false, 24)),
        r#"{"mode":3,"on":true,"fan":1,"swing":false,"temp":24}"#
    );
    assert_eq!(
        state_to_json(&st(255, false, 100, true, 0)),
        r#"{"mode":255,"on":false,"fan":100,"swing":true,"temp":0}"#
    );
    assert_eq!(
        state_to_json(&AcState::default()),
        r#"{"mode":0,"on":false,"fan":0,"swing":false,"temp":24}"#
    );
}

#[test]
fn from_json_plain() {
    let s = AcState::from_json(r#"{"mode":3,"on":true,"fan":1,"swing":false,"temp":24}"#);
    assert_eq!(s, Some(st(3, true, 1, false, 24)));
}

#[test]
fn from_json_any_order_and_spaces() {
    let s = AcState::from_json("{ \"temp\" : 30 , \"swing\":true,\n\"fan\": 2,\t\"on\":  false , \"mode\": +4 }");
    assert_eq!(s, Some(st(4, false, 2, true, 30)));
}

#[test]
fn from_json_unicode_whitespace_is_trimmed() {
    let s = AcState::from_json("{\"mode\":\u{a0}1\u{3000},\"on\":true,\"fan\":0,\"swing\":false,\"temp\":20}");
    assert_eq!(s, Some(st(1, true, 0, false, 20)));
}

#[test]
fn from_json_leading_zeros() {
    let s = AcState::from_json(r#"{"mode":007,"on":true,"fan":0000,"swing":false,"temp":020}"#);
    assert_eq!(s, Some(st(7, true, 0, false, 20)));
}

#[test]
fn from_json_refuses_missing_field() {
    assert_eq!(AcState::from_json(r#"{"mode":3,"on":true,"fan":1,"swing":false}"#), None);
    assert_eq!(AcState::from_json(""), None);
}

#[test]
fn from_json_refuses_bad_numbers_and_flags() {
    assert_eq!(AcState::from_json(r#"{"mode":256,"on":true,"fan":1,"swing":false,"temp":24}"#), None);
    assert_eq!(AcState::from_json(r#"{"mode":-1,"on":true,"fan":1,"swing":false,"temp":24}"#), None);
    assert_eq!(AcState::from_json(r#"{"mode":+,"on":true,"fan":1,"swing":false,"temp":24}"#), None);
    assert_eq!(AcState::from_json(r#"{"mode":"3","on":true,"fan":1,"swing":false,"temp":24}"#), None);
    assert_eq!(AcState::from_json(r#"{"mode":3,"on":1,"fan":1,"swing":false,"temp":24}"#), None);
    assert_eq!(AcState::from_json(r#"{"mode":3,"on":True,"fan":1,"swing":false,"temp":24}"#), None);
    assert_eq!(AcState::from_json(r#"{"mode":3 4,"on":true,"fan":1,"swing":false,"temp":24}"#), None);
}

#[test]
fn from_json_refuses_key_without_colon() {
    assert_eq!(AcState::from_json(r#"{"mode" 3,"on":true,"fan":1,"swing":false,"temp"}"#), None);
}

#[test]
fn from_json_takes_first_occurrence_of_key() {
    let s = AcState::from_json(r#"{"mode":1,"on":true,"fan":1,"swing":false,"temp":24,"mode":2}"#);
    assert_eq!(s, Some(st(1, true, 1, false, 24)));
}

#[test]
fn from_json_value_without_terminator_runs_to_end() {
    let s = AcState::from_json(r#""mode":1,"on":true,"fan":1,"swing":false,"temp":24"#);
    assert_eq!(s, Some(st(1, true, 1, false, 24)));
}

#[test]
fn json_round_trip() {
    for s in [
        st(0, false, 0, false, 16),
        st(4, true, 3, true, 30),
        st(255, true, 9, false, 100),
        st(10, false, 99, true, 0),
    ] {
        assert_eq!(AcState::from_json(&state_to_json(&s)), Some(s));
    }
}

#[test]
fn to_ir_data_valid() {
    let d = st(3, true, 1, false, 24).to_ir_data().unwrap();
    assert_eq!(d.ac_mode, AcMode::Ventilation);
    assert!(d.on_off);
    assert_eq!(d.fan_mode, FanMode::Low);
    assert!(!d.swing);
    assert_eq!(d.temperature, Temperature::T24);
    let d = st(4, false, 3, true, 16).to_ir_data().unwrap();
    assert_eq!(d.ac_mode, AcMode::Heat);
    assert_eq!(d.fan_mode, FanMode::High);
    assert_eq!(d.temperature, Temperature::T16);
    assert_eq!(st(0, false, 0, false, 30).to_ir_data().unwrap().temperature, Temperature::T30);
}

#[test]
fn to_ir_data_out_of_range() {
    assert!(st(5, true, 1, false, 24).to_ir_data().is_none());
    assert!(st(3, true, 4, false, 24).to_ir_data().is_none());
    assert!(st(3, true, 1, false, 15).to_ir_data().is_none());
    assert!(st(3, true, 1, false, 31).to_ir_data().is_none());
}

#[test]
fn member_order_does_not_matter() {
    let members = [
        r#""mode": 2 "#,
        r#""on":false"#,
        r#""fan":3"#,
        r#""swing": true"#,
        r#""temp":27"#,
    ];
    let orders: [[usize; 5]; 4] = [[0, 1, 2, 3, 4], [4, 3, 2, 1, 0], [2, 0, 4, 1, 3], [1, 4, 0, 3, 2]];
    let mut texts = Vec::new();
    for order in orders.iter() {
        let body: Vec<&str> = order.iter().map(|&i| members[i]).collect();
        texts.push(format!("{{{}}}", body.join(",")));
    }
    for t in texts.iter() {
        assert_eq!(AcState::from_json(t), Some(st(2, false, 3, true, 27)));
    }
}

#[test]
fn member_order_does_not_matter_when_refused() {
    let a = r#"{"mode":2,"on":yes,"fan":3,"swing":true,"temp":27}"#;
    let b = r#"{"temp":27,"swing":true,"on":yes,"fan":3,"mode":2}"#;
    assert_eq!(AcState::from_json(a), None);
    assert_eq!(AcState::from_json(b), None);
}
