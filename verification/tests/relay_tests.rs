use base64::engine::general_purpose::STANDARD;
use base64::Engine;
use relay::aes_encryptor::AesEncryptor;
use relay::config_reader::RelayKeys;
use relay::relay::{decide_echo, fits_packet, frame_message, process_line, EchoDecision, LineOutcome};

fn key_text(byte: u8) -> String {
    STANDARD.encode([byte; 32])
}

fn keys() -> RelayKeys {
    let mut k = RelayKeys::new();
    k.insert("alpha.com".to_string(), key_text(1));
    k.insert("short.com".to_string(), "c2hvcnQ=".to_string());
    k
}

#[test]
fn echo_from_known_server_connects() {
    match decide_echo(b"ECHO 4000 alpha.com\r\n", &keys()) {
        EchoDecision::Connect { domain, port, key } => {
            assert_eq!(domain, "alpha.com");
            assert_eq!(port, "4000");
            assert_eq!(key, key_text(1));
        }
        _ => panic!("expected a connection"),
    }
}

#[test]
fn echo_from_unknown_server_is_ignored() {
    assert!(matches!(
        decide_echo(b"ECHO 4000 gamma.net\r\n", &keys()),
        EchoDecision::UnknownServer { ref domain, ref port } if domain == "gamma.net" && port == "4000"
    ));
}

#[test]
fn echo_from_known_server_with_any_key_text_connects() {
    assert!(matches!(
        decide_echo(b"ECHO 1 short.com\r\n", &keys()),
        EchoDecision::Connect { ref domain, ref key, .. } if domain == "short.com" && key == "c2hvcnQ="
    ));
}

#[test]
fn datagram_that_is_not_echo_is_ignored() {
    assert!(matches!(decide_echo(b"hello", &keys()), EchoDecision::NotEcho));
    assert!(matches!(decide_echo(&[0xff, 0xfe, 0x00], &keys()), EchoDecision::NotEcho));
}

const SEND: &str = "SEND 1@relay.com alice@domain.com #bobby@alpha.com salut\r\n";

#[test]
fn line_with_send_is_forwarded() {
    let key = key_text(1);
    let packet = AesEncryptor::encrypt(&key, SEND.to_string());
    match process_line(&key, &format!("{}\n", packet)) {
        LineOutcome::Forward { destination, message } => {
            assert_eq!(destination, "alpha.com");
            assert_eq!(message, SEND);
        }
        _ => panic!("expected a forward"),
    }
}

#[test]
fn line_that_is_not_send_has_no_destination() {
    let key = key_text(1);
    let packet = AesEncryptor::encrypt(&key, "just text".to_string());
    assert!(matches!(
        process_line(&key, &packet),
        LineOutcome::NoDestination(ref m) if m == "just text"
    ));
}

#[test]
fn line_that_is_not_base64_is_skipped() {
    assert!(matches!(process_line(&key_text(1), "not base64 at all\n"), LineOutcome::Undecodable));
}

#[test]
fn line_with_bad_key_or_short_packet_fails_to_decrypt() {
    let packet = AesEncryptor::encrypt(&key_text(1), SEND.to_string());
    assert!(matches!(process_line("bad key", &packet), LineOutcome::DecryptFailed(_)));
    assert!(matches!(process_line(&key_text(1), &STANDARD.encode([1u8; 5])), LineOutcome::DecryptFailed(_)));
}

#[test]
fn line_with_wrong_key_fails_to_decrypt() {
    let packet = AesEncryptor::encrypt(&key_text(1), SEND.to_string());
    assert!(matches!(process_line(&key_text(2), &packet), LineOutcome::DecryptFailed(_)));
}

#[test]
fn framed_message_reads_back() {
    let key = key_text(3);
    let frame = frame_message(&key, SEND.to_string()).unwrap();
    assert!(frame.ends_with('\n'));
    assert_eq!(frame.matches('\n').count(), 1);
    let bytes = STANDARD.decode(&frame[..frame.len() - 1]).unwrap();
    assert_eq!(AesEncryptor::decrypt(&key, &bytes), Ok(SEND.to_string()));
    match process_line(&key, &frame) {
        LineOutcome::Forward { destination, message } => {
            assert_eq!(destination, "alpha.com");
            assert_eq!(message, SEND);
        }
        _ => panic!("expected a forward"),
    }
}

#[test]
fn frame_needs_a_key() {
    assert!(frame_message("???", "x".to_string()).is_none());
}

#[test]
fn small_messages_fit() {
    assert!(fits_packet(SEND));
    assert!(fits_packet(""));
}

#[test]
fn line_trailing_white_space_is_ignored() {
    let key = key_text(1);
    let packet = AesEncryptor::encrypt(&key, SEND.to_string());
    let line = format!("{} \t\u{3000}\r\n", packet);
    assert!(matches!(process_line(&key, &line), LineOutcome::Forward { ref destination, .. } if destination == "alpha.com"));
    // white space inside the line is kept, so the line is not base64
    let broken = format!("{} {}\n", &packet[..4], &packet[4..]);
    assert!(matches!(process_line(&key, &broken), LineOutcome::Undecodable));
}
