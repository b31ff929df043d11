use magictaskbar::network::connect::ProfileRollback;
use magictaskbar::network::sequence::{ConnectAction, ConnectOutcome, ConnectSequence};

fn finish_of(a: ConnectAction) -> (bool, Result<(), String>) {
    match a {
        ConnectAction::Finish { close_handle, result } => (close_handle, result),
        other => panic!("expected the end, got {:?}", other),
    }
}

#[test]
fn an_authorized_request_checks_the_profile_and_waits_for_the_network() {
    let (mut s, first) = ConnectSequence::new("Home".into(), true, None, None, None, None);
    assert!(matches!(first, ConnectAction::OpenHandle));
    assert!(matches!(s.step(ConnectOutcome::Opened(Ok(()))), ConnectAction::FindInterface));
    match s.step(ConnectOutcome::InterfaceFound(Ok(()))) {
        ConnectAction::CheckProfile(p) => assert_eq!(p, "Home"),
        other => panic!("{:?}", other),
    }
    match s.step(ConnectOutcome::ProfileChecked(Ok(()))) {
        ConnectAction::Connect(p) => assert_eq!(p, "Home"),
        other => panic!("{:?}", other),
    }
    assert!(matches!(s.step(ConnectOutcome::ConnectDone(Ok(()))), ConnectAction::Poll));
    assert!(matches!(s.step(ConnectOutcome::Polled(None)), ConnectAction::Poll));
    assert!(matches!(s.step(ConnectOutcome::Polled(Some("Other".into()))), ConnectAction::Poll));
    assert_eq!(finish_of(s.step(ConnectOutcome::Polled(Some("Home".into())))), (true, Ok(())));
}

#[test]
fn a_handle_that_does_not_open_is_not_closed() {
    let (mut s, _) = ConnectSequence::new("Home".into(), true, None, None, None, None);
    assert_eq!(
        finish_of(s.step(ConnectOutcome::Opened(Err(5)))),
        (false, Err("WlanOpenHandle failed: 5".to_string()))
    );
}

#[test]
fn a_failed_connection_restores_the_overwritten_profile() {
    let (mut s, _) = ConnectSequence::new(
        "Cafe".into(),
        false,
        Some(" CafeProfile ".into()),
        Some("WPA2PSK".into()),
        Some("AES".into()),
        Some("secret".into()),
    );
    s.step(ConnectOutcome::Opened(Ok(())));
    match s.step(ConnectOutcome::InterfaceFound(Ok(()))) {
        ConnectAction::ReadProfile(p) => assert_eq!(p, "CafeProfile"),
        other => panic!("{:?}", other),
    }
    match s.step(ConnectOutcome::OldProfileRead(Ok(Some("<old/>".into())))) {
        ConnectAction::WriteProfile(xml) => assert!(xml.contains("<name>CafeProfile</name>")),
        other => panic!("{:?}", other),
    }
    assert!(matches!(s.step(ConnectOutcome::ProfileWritten(Ok(()))), ConnectAction::Connect(_)));
    match s.step(ConnectOutcome::ConnectDone(Err(87))) {
        ConnectAction::Undo(ProfileRollback::Restore(x)) => assert_eq!(x, "<old/>"),
        other => panic!("{:?}", other),
    }
    assert_eq!(finish_of(s.step(ConnectOutcome::Undone)), (true, Err("WlanConnect failed: 87".to_string())));
}

#[test]
fn security_is_read_from_the_scan_and_the_policy_applies() {
    let (mut s, _) = ConnectSequence::new("Corp".into(), false, None, None, None, None);
    s.step(ConnectOutcome::Opened(Ok(())));
    assert!(matches!(s.step(ConnectOutcome::InterfaceFound(Ok(()))), ConnectAction::ReadAvailableNetworks));
    assert_eq!(
        finish_of(s.step(ConnectOutcome::SecurityRead(Ok(("WPA2".into(), "AES".into()))))),
        (true, Err("enterprise networks must be connected from Windows Wi-Fi settings".to_string()))
    );
    let (mut t, _) = ConnectSequence::new("Cafe".into(), false, None, None, None, None);
    t.step(ConnectOutcome::Opened(Ok(())));
    t.step(ConnectOutcome::InterfaceFound(Ok(())));
    assert_eq!(
        finish_of(t.step(ConnectOutcome::SecurityRead(Err("not found".into())))),
        (false, Err("not found".to_string()))
    );
}

#[test]
fn a_connection_that_never_comes_up_times_out() {
    let (mut s, _) = ConnectSequence::new("Home".into(), true, None, None, None, None);
    s.step(ConnectOutcome::Opened(Ok(())));
    s.step(ConnectOutcome::InterfaceFound(Ok(())));
    s.step(ConnectOutcome::ProfileChecked(Ok(())));
    s.step(ConnectOutcome::ConnectDone(Ok(())));
    s.step(ConnectOutcome::Polled(Some("Neighbour".into())));
    assert_eq!(
        finish_of(s.step(ConnectOutcome::DeadlinePassed)),
        (true, Err("Wi-Fi connect timeout/failure: target='Home' last_connected=Some(\"Neighbour\")".to_string()))
    );
}
