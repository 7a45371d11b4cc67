use chat_tui::frame::decode_frame;
use chat_tui::session::{
    judge_auth_response, login_frame, outbound_decision, outbound_step, AuthVerdict, Inbound, Inbox, Outbound,
};

fn sent(o: Outbound) -> Vec<u8> {
    match o {
        Outbound::Send(b) => b,
        Outbound::Leave => panic!("a frame to send was expected"),
    }
}

#[test]
fn correct_reply_is_accepted() {
    assert!(matches!(judge_auth_response(b"correct"), AuthVerdict::Accepted));
}

#[test]
fn other_reply_is_shown_trimmed() {
    match judge_auth_response(b"  wrong password \n") {
        AuthVerdict::Rejected(f) => assert_eq!(f, "wrong password"),
        AuthVerdict::Accepted => panic!("must not be accepted"),
    }
    assert!(matches!(judge_auth_response(b"correct "), AuthVerdict::Rejected(_)));
    assert!(matches!(judge_auth_response(b"Correct"), AuthVerdict::Rejected(_)));
    assert!(matches!(judge_auth_response(b""), AuthVerdict::Rejected(_)));
}

#[test]
fn login_scenario_retries_until_correct() {
    let first = login_frame("login/pw\n");
    assert_eq!(first, b"login/pw\r\n\r\n".to_vec());

    let (reply, used) = decode_frame(b"wrong password\r\n\r\n").unwrap();
    assert_eq!(used, 18);
    match judge_auth_response(&reply) {
        AuthVerdict::Rejected(f) => assert_eq!(f, "wrong password"),
        AuthVerdict::Accepted => panic!("must not be accepted"),
    }

    let again = login_frame(" login/pw");
    assert_eq!(again, first);
    let (reply, _) = decode_frame(b"correct\r\n\r\n").unwrap();
    assert!(matches!(judge_auth_response(&reply), AuthVerdict::Accepted));
}

#[test]
fn exit_command_leaves_without_sending() {
    assert!(matches!(outbound_step("/exit"), Outbound::Leave));
    assert!(matches!(outbound_step("  /exit \r\n"), Outbound::Leave));
    assert!(matches!(outbound_decision("/exit"), Outbound::Leave));
    assert_eq!(sent(outbound_decision(" /exit")), b" /exit\r\n\r\n".to_vec());
    assert_eq!(sent(outbound_step("/exits")), b"/exits\r\n\r\n".to_vec());
}

#[test]
fn typed_line_is_trimmed_and_framed() {
    assert_eq!(sent(outbound_step("  hi there \n")), b"hi there\r\n\r\n".to_vec());
    assert_eq!(sent(outbound_step("   ")), b"\r\n\r\n".to_vec());
    assert_eq!(sent(outbound_step("привет")), "привет\r\n\r\n".as_bytes().to_vec());
}

#[test]
fn inbound_exit_ends_duty_without_history() {
    let mut inbox = Inbox::new();
    assert!(matches!(inbox.receive(b"first"), Inbound::Show));
    assert!(matches!(inbox.receive(b"/exit"), Inbound::Leave));
    assert_eq!(inbox.records(), vec!["first".to_string()]);
}

#[test]
fn inbound_empty_frame_is_ignored() {
    let mut inbox = Inbox::new();
    assert!(matches!(inbox.receive(b""), Inbound::Ignore));
    assert!(inbox.records().is_empty());
}

#[test]
fn inbound_newest_first() {
    let mut inbox = Inbox::new();
    assert!(matches!(inbox.receive(b"one"), Inbound::Show));
    assert!(matches!(inbox.receive(b"two"), Inbound::Show));
    assert!(matches!(inbox.receive(b"/exit "), Inbound::Show));
    assert_eq!(
        inbox.records(),
        vec!["/exit ".to_string(), "two".to_string(), "one".to_string()]
    );
}

#[test]
fn inbound_invalid_utf8_is_replaced() {
    let mut inbox = Inbox::new();
    assert!(matches!(inbox.receive(&[b'a', 0xff, b'b']), Inbound::Show));
    assert_eq!(inbox.records(), vec!["a\u{fffd}b".to_string()]);
}

#[test]
fn login_frame_is_trimmed_line() {
    assert_eq!(login_frame("  a/b/c \n"), b"a/b/c\r\n\r\n".to_vec());
    assert_eq!(login_frame("/exit"), b"/exit\r\n\r\n".to_vec());
}
