use forestair_ir::ac_state::{state_to_json, AcState};
use forestair_ir::command::{finish_command, plan_command, CommandPlan, Reply};

fn st(mode: u8, on: bool, fan: u8, swing: bool, temp: u8) -> AcState {
    AcState { mode, on, fan, swing, temp }
}

#[test]
fn plan_transmits_valid_state() {
    let body = br#"{"mode":3,"on":true,"fan":1,"swing":false,"temp":24}"#;
    match plan_command(body) {
        CommandPlan::Transmit { requested, payload } => {
            assert_eq!(requested, st(3, true, 1, false, 24));
            assert_eq!(payload, 0x25000081B);
        }
        other => panic!("unexpected plan {:?}", other),
    }
}

#[test]
fn plan_refuses_non_utf8() {
    let body: &[u8] = &[b'{', 0xff, 0xfe, b'}'];
    match plan_command(body) {
        CommandPlan::Refuse(r) => {
            assert_eq!(r.status(), 400);
            assert_eq!(r.reason(), Some("Bad Request"));
        }
        other => panic!("unexpected plan {:?}", other),
    }
}

#[test]
fn plan_refuses_unparsable_body() {
    match plan_command(b"{}") {
        CommandPlan::Refuse(Reply::BadRequest) => {}
        other => panic!("unexpected plan {:?}", other),
    }
}

#[test]
fn plan_refuses_out_of_range_state() {
    let body = br#"{"mode":9,"on":true,"fan":1,"swing":false,"temp":24}"#;
    match plan_command(body) {
        CommandPlan::Refuse(r) => {
            assert_eq!(r.status(), 422);
            assert_eq!(r.reason(), Some("Unprocessable Entity"));
        }
        other => panic!("unexpected plan {:?}", other),
    }
}

#[test]
fn plan_accepts_reported_state() {
    let s = st(1, false, 2, true, 19);
    let text = state_to_json(&s);
    match plan_command(text.as_bytes()) {
        CommandPlan::Transmit { requested, payload } => {
            assert_eq!(requested, s);
            assert_eq!(payload, 0x250000000 + 1 + 0 + 32 + 128 + 3 * 256);
        }
        other => panic!("unexpected plan {:?}", other),
    }
}

#[test]
fn finish_after_send_updates_state() {
    let mut state = AcState::default();
    let requested = st(2, true, 3, false, 26);
    let reply = finish_command(&mut state, requested, true);
    assert_eq!(state, requested);
    assert_eq!(reply.status(), 200);
    assert_eq!(reply.reason(), None);
    match reply {
        Reply::Json(t) => assert_eq!(t, r#"{"mode":2,"on":true,"fan":3,"swing":false,"temp":26}"#),
        other => panic!("unexpected reply {:?}", other),
    }
}

#[test]
fn finish_after_failed_send_keeps_state() {
    let mut state = st(1, true, 1, true, 22);
    let reply = finish_command(&mut state, st(2, false, 0, false, 18), false);
    assert_eq!(state, st(1, true, 1, true, 22));
    assert_eq!(reply.status(), 500);
    assert_eq!(reply.reason(), Some("IR Error"));
}

/// Drives the controller through a sequence of commands as the firmware does,
/// with the given transmitter outcomes; returns the statuses and final state.
fn run(commands: &[(&[u8], bool)]) -> (Vec<u16>, AcState) {
    let mut state = AcState::default();
    let mut statuses = Vec::new();
    for (body, sent) in commands {
        let reply = match plan_command(body) {
            CommandPlan::Refuse(r) => r,
            CommandPlan::Transmit { requested, .. } => finish_command(&mut state, requested, *sent),
        };
        statuses.push(reply.status());
    }
    (statuses, state)
}

#[test]
fn state_is_last_successful_command() {
    let good1: &[u8] = br#"{"mode":1,"on":true,"fan":2,"swing":false,"temp":20}"#;
    let good2: &[u8] = br#"{"mode":4,"on":false,"fan":0,"swing":true,"temp":30}"#;
    let bad_range: &[u8] = br#"{"mode":7,"on":false,"fan":0,"swing":true,"temp":30}"#;
    let bad_text: &[u8] = b"not json";
    let (statuses, state) = run(&[
        (good1, true),
        (good2, false),
        (bad_range, true),
        (bad_text, true),
        (&[0xc0, 0x80], true),
    ]);
    assert_eq!(statuses, vec![200, 500, 422, 400, 400]);
    assert_eq!(state, st(1, true, 2, false, 20));
    assert_eq!(state_to_json(&state), r#"{"mode":1,"on":true,"fan":2,"swing":false,"temp":20}"#);
    let (statuses, state) = run(&[(good1, true), (good2, true), (bad_range, false)]);
    assert_eq!(statuses, vec![200, 200, 422]);
    assert_eq!(state, st(4, false, 0, true, 30));
}

#[test]
fn state_stays_initial_without_success() {
    let good: &[u8] = br#"{"mode":1,"on":true,"fan":2,"swing":false,"temp":20}"#;
    let (statuses, state) = run(&[(good, false), (b"{}", true)]);
    assert_eq!(statuses, vec![500, 400]);
    assert_eq!(state, AcState::default());
    assert!(state.to_ir_data().is_some());
}
