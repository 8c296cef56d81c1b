use regex::Regex;
use relay::protocol::Protocol;

fn echo(msg: &str) -> Option<(String, String)> {
    Protocol::get_echo_map(msg).map(|info| (info.domain, info.port))
}

#[test]
fn echo_reads_domain_and_port() {
    assert_eq!(
        echo("ECHO 12345 domain.com\r\n"),
        Some(("domain.com".to_string(), "12345".to_string()))
    );
}

#[test]
fn echo_accepts_trailing_text() {
    assert_eq!(
        echo("ECHO 80 abcde\r\nanything after"),
        Some(("abcde".to_string(), "80".to_string()))
    );
}

#[test]
fn echo_rejects_long_port() {
    assert_eq!(echo("ECHO 123456 domain.com\r\n"), None);
}

#[test]
fn echo_rejects_short_domain() {
    assert_eq!(echo("ECHO 1 abcd\r\n"), None);
}

#[test]
fn echo_rejects_missing_crlf() {
    assert_eq!(echo("ECHO 1 abcde"), None);
    assert_eq!(echo("ECHO 1 abcde\n"), None);
}

#[test]
fn echo_rejects_other_keywords_and_leading_text() {
    assert_eq!(echo("SEND 1 abcde\r\n"), None);
    assert_eq!(echo(" ECHO 1 abcde\r\n"), None);
    assert_eq!(echo(""), None);
}

#[test]
fn echo_domain_length_bounds() {
    let d200 = "a".repeat(200);
    let d201 = "a".repeat(201);
    assert_eq!(
        echo(&format!("ECHO 1 {}\r\n", d200)),
        Some((d200.clone(), "1".to_string()))
    );
    assert_eq!(echo(&format!("ECHO 1 {}\r\n", d201)), None);
}

fn send(msg: &str) -> Option<String> {
    Protocol::get_receiving_domain(msg)
}

#[test]
fn send_reads_destination_with_hash() {
    assert_eq!(
        send("SEND 123@relay.com alice@domain.com #bobby@dest.org hello world\r\n"),
        Some("dest.org".to_string())
    );
}

#[test]
fn send_reads_destination_without_hash() {
    assert_eq!(
        send("SEND 1@relay.com alice@domain.com bobby@dest.org hi\r\n"),
        Some("dest.org".to_string())
    );
}

#[test]
fn send_accepts_latin1_message() {
    assert_eq!(
        send("SEND 1@relay.com alice@domain.com bobby@dest.org caf\u{e9} \u{ff}\r\n"),
        Some("dest.org".to_string())
    );
}

#[test]
fn send_rejects_characters_beyond_latin1() {
    assert_eq!(
        send("SEND 1@relay.com alice@domain.com bobby@dest.org 10\u{20ac}\r\n"),
        None
    );
}

#[test]
fn send_message_length_bounds() {
    let m500 = "x".repeat(500);
    let m501 = "x".repeat(501);
    assert_eq!(
        send(&format!("SEND 1@relay.com alice@domain.com bobby@dest.org {}\r\n", m500)),
        Some("dest.org".to_string())
    );
    assert_eq!(
        send(&format!("SEND 1@relay.com alice@domain.com bobby@dest.org {}\r\n", m501)),
        None
    );
}

#[test]
fn send_rejects_bad_fields() {
    // user name too short
    assert_eq!(send("SEND 1@relay.com ali@domain.com bobby@dest.org hi\r\n"), None);
    // two hash marks
    assert_eq!(send("SEND 1@relay.com alice@domain.com ##bobby@dest.org hi\r\n"), None);
    // empty message
    assert_eq!(send("SEND 1@relay.com alice@domain.com bobby@dest.org \r\n"), None);
    // id is not numeric
    assert_eq!(send("SEND x@relay.com alice@domain.com bobby@dest.org hi\r\n"), None);
    // an ECHO is not a SEND
    assert_eq!(send("ECHO 12345 domain.com\r\n"), None);
}

// The grammar, written as regular expressions.
const CRLF: &str = "\\r\\n";
const ESP: &str = "\\x20";
const DOMAINE: &str = "(?P<domaine2>(?P<lettre_chiffre5>[A-Za-z0-9]|[.]){5,200})";
const PORT: &str = "(?P<port>[0-9]{1,5})";
const NOM_DOMAINE: &str = "([A-Za-z0-9]{5,20})@([A-Za-z0-9.]{5,200})";
const ID_DOMAINE: &str = "([0-9]{1,5})@([A-Za-z0-9.]{5,200})";
const DEST_DOMAINE: &str = "#?([A-Za-z0-9]{5,20})@(?P<dest_domain>[A-Za-z0-9.]{5,200})";
const MESSAGE_INTERNE: &str = "(?P<message_interne>[\\x20-\\xFF]{1,500})";

fn echo_regex() -> Regex {
    Regex::new(&format!("^ECHO{}{}{}{}{}", ESP, PORT, ESP, DOMAINE, CRLF)).unwrap()
}

fn send_regex() -> Regex {
    Regex::new(&format!(
        "^SEND{}{}{}{}{}{}{}{}{}",
        ESP, ID_DOMAINE, ESP, NOM_DOMAINE, ESP, DEST_DOMAINE, ESP, MESSAGE_INTERNE, CRLF
    ))
    .unwrap()
}

struct Lcg(u64);

impl Lcg {
    fn next(&mut self) -> u64 {
        self.0 = self.0.wrapping_mul(6364136223846793005).wrapping_add(1442695040888963407);
        self.0 >> 33
    }

    fn pick<'a>(&mut self, items: &[&'a str]) -> &'a str {
        items[(self.next() as usize) % items.len()]
    }
}

fn random_piece(rng: &mut Lcg) -> String {
    let pieces = [
        "ECHO", "SEND", " ", "@", "#", ".", "\r\n", "\r", "\n", "1", "12", "123", "12345",
        "123456", "abcde", "abcd", "Alice", "bobby1", "domain.com", "dest.org", "x", "\u{e9}",
        "\u{20ac}", "hello world", "ab.cd", "Z9Z9Z9Z9Z9Z9Z9Z9Z9Z9Z",
    ];
    rng.pick(&pieces).to_string()
}

fn random_candidate(rng: &mut Lcg, keyword: &str) -> String {
    let mut s = String::new();
    if rng.next() % 4 != 0 {
        s.push_str(keyword);
        s.push(' ');
    }
    let n = rng.next() % 14;
    for _ in 0..n {
        s.push_str(&random_piece(rng));
    }
    s
}

fn template_echo(rng: &mut Lcg) -> String {
    let ports = ["1", "12345", "123456", "", "8a"];
    let domains = ["abcde", "abcd", "dom.ain.com", "a-b.com", "....."];
    let ends = ["\r\n", "\r\nrest", "\n", ""];
    format!("ECHO {} {}{}", rng.pick(&ports), rng.pick(&domains), rng.pick(&ends))
}

fn template_send(rng: &mut Lcg) -> String {
    let ids = ["1", "12345", "123456", "a"];
    let domains = ["relay.com", "abcd", "dest.org", "....."];
    let users = ["alice", "bob", "bobby", "Z9Z9Z9Z9Z9Z9Z9Z9Z9Z9Z"];
    let hashes = ["", "#", "##"];
    let messages = ["hi", "", "hello world", "caf\u{e9}", "10\u{20ac}", "a@b #c"];
    let ends = ["\r\n", "\r\nrest", "\n", "", "\r"];
    format!(
        "SEND {}@{} {}@{} {}{}@{} {}{}",
        rng.pick(&ids),
        rng.pick(&domains),
        rng.pick(&users),
        rng.pick(&domains),
        rng.pick(&hashes),
        rng.pick(&users),
        rng.pick(&domains),
        rng.pick(&messages),
        rng.pick(&ends)
    )
}

#[test]
fn echo_agrees_with_the_regular_expression() {
    let re = echo_regex();
    let mut rng = Lcg(7);
    for i in 0..4000 {
        let msg = if i % 2 == 0 { template_echo(&mut rng) } else { random_candidate(&mut rng, "ECHO") };
        let expected = re.captures(&msg).map(|c| {
            (c.name("domaine2").unwrap().as_str().to_string(), c.name("port").unwrap().as_str().to_string())
        });
        assert_eq!(echo(&msg), expected, "message {:?}", msg);
    }
}

#[test]
fn send_agrees_with_the_regular_expression() {
    let re = send_regex();
    let mut rng = Lcg(11);
    for i in 0..4000 {
        let msg = if i % 2 == 0 { template_send(&mut rng) } else { random_candidate(&mut rng, "SEND") };
        let expected = re.captures(&msg).map(|c| c.name("dest_domain").unwrap().as_str().to_string());
        assert_eq!(send(&msg), expected, "message {:?}", msg);
    }
}
