use vstd::prelude::*;
use vstd::string::StringExecFns;
use vstd::utf8::{encode_utf8, encode_utf8_decode_utf8, encode_utf8_valid_utf8};

use crate::aes_encryptor::{
    aes_key_of,
    decrypt_text_result,
    iv_len,
    packet_carries,
    packet_fits,
    packet_text,
    AesEncryptor,
};
use crate::base64_text::{base64_standard_decode, in_standard_alphabet, standard_decode};
use crate::config_reader::RelayKeys;
use crate::protocol::{
    echo_reading,
    echo_text,
    lemma_echo_with_digits_reads_back,
    lemma_send_reads_back,
    receiving_domain,
    send_fields_valid,
    send_text,
    Protocol,
    SendFields,
};
use crate::std_text::{string_from_utf8_lossy, trim_end, trim_end_spec, utf8_lossy};

verus! {

/// What the relay does with a datagram heard on the multicast group.
pub enum EchoDecision {
    /// The datagram is not an ECHO: it is ignored.
    NotEcho,
    /// An ECHO from a server with which the relay shares no key: it is ignored.
    UnknownServer { domain: String, port: String },
    /// Connect to the server at `domain:port` and serve it with `key`.
    Connect { domain: String, port: String, key: String },
}

/// `decision` is what the relay does with `datagram`, given its `keys`. The
/// datagram is read as UTF-8, lossily.
pub open spec fn echo_decision_holds(
    datagram: Seq<u8>,
    keys: Map<Seq<char>, Seq<char>>,
    decision: EchoDecision,
) -> bool {
    let text = utf8_lossy(datagram);
    match decision {
        EchoDecision::NotEcho => echo_reading(text) is None,
        EchoDecision::UnknownServer { domain, port } => {
            &&& echo_reading(text) == Some((port@, domain@))
            &&& !keys.contains_key(domain@)
        },
        EchoDecision::Connect { domain, port, key } => {
            &&& echo_reading(text) == Some((port@, domain@))
            &&& keys.contains_key(domain@)
            &&& key@ == keys[domain@]
        },
    }
}

/// Decides what to do with a datagram heard on the multicast group: an ECHO from
/// a server whose key the relay holds is to be answered by a connection; an ECHO
/// from any other server, and anything that is not an ECHO, is ignored.
pub fn decide_echo(datagram: &[u8], keys: &RelayKeys) -> (res: EchoDecision)
    ensures
        echo_decision_holds(datagram@, keys@, res),
{
    let text = string_from_utf8_lossy(datagram);
    match Protocol::get_echo_map(text.as_str()) {
        None => EchoDecision::NotEcho,
        Some(info) => match keys.get(info.domain.as_str()) {
            None => EchoDecision::UnknownServer { domain: info.domain, port: info.port },
            Some(key) => {
                let key = key.clone();
                EchoDecision::Connect { domain: info.domain, port: info.port, key }
            },
        },
    }
}

/// What the relay does with an ECHO depends on the announcing server alone: an
/// ECHO of a server whose key the relay holds is answered by a connection to the
/// domain and port it announces, with that key, whatever the port; an ECHO of any
/// other server is ignored as unknown, with its domain and port; a datagram that
/// is no ECHO is ignored as such.
pub proof fn lemma_echo_decision(
    datagram: Seq<u8>,
    keys: Map<Seq<char>, Seq<char>>,
    port: Seq<char>,
    domain: Seq<char>,
    decision: EchoDecision,
)
    ensures
        echo_reading(utf8_lossy(datagram)) == Some((port, domain)) && keys.contains_key(domain)
            ==> (echo_decision_holds(datagram, keys, decision) <==> (decision matches
            EchoDecision::Connect { domain: d, port: p, key } && d@ == domain && p@ == port && key@
            == keys[domain])),
        echo_reading(utf8_lossy(datagram)) == Some((port, domain)) && !keys.contains_key(domain)
            ==> (echo_decision_holds(datagram, keys, decision) <==> (decision matches
            EchoDecision::UnknownServer { domain: d, port: p } && d@ == domain && p@ == port)),
        echo_reading(utf8_lossy(datagram)) is None ==> (echo_decision_holds(
            datagram,
            keys,
            decision,
        ) <==> decision is NotEcho),
{
}

/// A datagram that holds, in UTF-8, an ECHO of a port of one to five ASCII
/// digits and a domain of five to two hundred ASCII letters, digits or dots,
/// followed by anything, is answered by a connection to that domain and port,
/// with the domain's key, whenever the relay holds that key.
pub proof fn lemma_echo_of_known_server_connects(
    port: Seq<char>,
    domain: Seq<char>,
    rest: Seq<char>,
    keys: Map<Seq<char>, Seq<char>>,
    decision: EchoDecision,
)
    requires
        1 <= port.len() <= 5,
        forall|i: int| 0 <= i < port.len() ==> '0' <= #[trigger] port[i] && port[i] <= '9',
        5 <= domain.len() <= 200,
        forall|i: int|
            0 <= i < domain.len() ==> ('0' <= #[trigger] domain[i] && domain[i] <= '9') || ('A'
                <= domain[i] && domain[i] <= 'Z') || ('a' <= domain[i] && domain[i] <= 'z')
                || domain[i] == '.',
        keys.contains_key(domain),
    ensures
        echo_decision_holds(encode_utf8(echo_text(port, domain) + rest), keys, decision) <==> (
        decision matches EchoDecision::Connect { domain: d, port: p, key } && d@ == domain && p@
            == port && key@ == keys[domain]),
{
    let text = echo_text(port, domain) + rest;
    encode_utf8_valid_utf8(text);
    encode_utf8_decode_utf8(text);
    assert(utf8_lossy(encode_utf8(text)) == text);
    lemma_echo_with_digits_reads_back(port, domain, rest);
    lemma_echo_decision(encode_utf8(text), keys, port, domain, decision);
}

/// What the relay makes of a line that a server sent it.
pub enum LineOutcome {
    /// The line is not base64: it is reported and skipped.
    Undecodable,
    /// Decryption failed, for the reason given.
    DecryptFailed(String),
    /// The plaintext is not a SEND.
    NoDestination(String),
    /// The plaintext is a SEND to `destination`: it is to be forwarded there.
    Forward { destination: String, message: String },
}

/// `outcome` is what the relay does with the plaintext `message`.
pub open spec fn plaintext_outcome_holds(message: Seq<char>, outcome: LineOutcome) -> bool {
    match receiving_domain(message) {
        None => outcome matches LineOutcome::NoDestination(m) && m@ == message,
        Some(d) => outcome matches LineOutcome::Forward { destination, message: m } && destination@
            == d && m@ == message,
    }
}

/// `outcome` is what the relay makes of `line`, sent by a server whose key text
/// is `key_base64`: the line without its trailing white space is read as base64,
/// decrypted, and its plaintext read as a SEND.
pub open spec fn line_outcome_holds(
    key_base64: Seq<char>,
    line: Seq<char>,
    outcome: LineOutcome,
) -> bool {
    match base64_standard_decode(trim_end_spec(line)) {
        None => outcome is Undecodable,
        Some(packet) => match decrypt_text_result(key_base64, packet) {
            Err(e) => outcome matches LineOutcome::DecryptFailed(x) && x@ == e,
            Ok(m) => plaintext_outcome_holds(m, outcome),
        },
    }
}

/// Whether a plaintext is forwarded depends on its being a SEND alone: a SEND is
/// forwarded as it is to its destination domain, whatever its length; any other
/// plaintext is reported, as it is, as having no destination.
pub proof fn lemma_send_is_forwarded(message: Seq<char>, domain: Seq<char>, outcome: LineOutcome)
    ensures
        receiving_domain(message) == Some(domain) ==> (plaintext_outcome_holds(message, outcome)
            <==> (outcome matches LineOutcome::Forward { destination, message: m }
            && destination@ == domain && m@ == message)),
        receiving_domain(message) is None ==> (plaintext_outcome_holds(message, outcome) <==> (
        outcome matches LineOutcome::NoDestination(m) && m@ == message)),
{
}

/// A SEND written from valid parts, followed by anything, is forwarded as it is
/// to its destination domain.
pub proof fn lemma_written_send_is_forwarded(f: SendFields, rest: Seq<char>, outcome: LineOutcome)
    requires
        send_fields_valid(f),
    ensures
        plaintext_outcome_holds(send_text(f) + rest, outcome) <==> (outcome matches
            LineOutcome::Forward { destination, message: m } && destination@ == f.dest_domain
            && m@ == send_text(f) + rest),
{
    lemma_send_reads_back(f, rest);
    lemma_send_is_forwarded(send_text(f) + rest, f.dest_domain, outcome);
}

/// A line made of a packet that carries a SEND under the server's key, and a
/// newline, is forwarded as the SEND to its destination domain.
pub proof fn lemma_carried_send_is_forwarded(
    key_base64: Seq<char>,
    packet: Seq<char>,
    f: SendFields,
    rest: Seq<char>,
    outcome: LineOutcome,
)
    requires
        aes_key_of(key_base64) is Some,
        packet_carries(aes_key_of(key_base64)->0, packet, send_text(f) + rest),
        send_fields_valid(f),
    ensures
        line_outcome_holds(key_base64, packet + seq!['\n'], outcome) <==> (outcome matches
            LineOutcome::Forward { destination, message: m } && destination@ == f.dest_domain
            && m@ == send_text(f) + rest),
{
    let line = packet + seq!['\n'];
    assert(line.drop_last() =~= packet);
    assert(trim_end_spec(line) == trim_end_spec(packet));
    if packet.len() > 0 {
        assert(in_standard_alphabet(packet.last()));
    }
    assert(trim_end_spec(packet) == packet);
    lemma_written_send_is_forwarded(f, rest, outcome);
}

/// Reads a line that a server sent, with the server's key text `aes_key`.
pub fn process_line(aes_key: &str, line: &str) -> (res: LineOutcome)
    ensures
        line_outcome_holds(aes_key@, line@, res),
{
    let trimmed = trim_end(line);
    let bytes = match standard_decode(trimmed) {
        Ok(b) => b,
        Err(_) => {
            return LineOutcome::Undecodable;
        },
    };
    match AesEncryptor::decrypt(aes_key, &bytes) {
        Err(e) => LineOutcome::DecryptFailed(e),
        Ok(message) => match Protocol::get_receiving_domain(message.as_str()) {
            Some(destination) => LineOutcome::Forward { destination, message },
            None => LineOutcome::NoDestination(message),
        },
    }
}

/// Whether a message of `message`'s size can be framed on this machine.
pub fn fits_packet(message: &str) -> (res: bool)
    ensures
        res == packet_fits(encode_utf8(message@).len() as int),
{
    let n = message.as_bytes().len();
    if n as u64 > 0x10_0000_0000u64 {
        return false;
    }
    let m = match n.checked_add(28) {
        Some(m) => m,
        None => {
            return false;
        },
    };
    let body = match (m / 3).checked_mul(4) {
        Some(b) => b,
        None => {
            return false;
        },
    };
    if m % 3 == 0 {
        true
    } else {
        body.checked_add(4).is_some()
    }
}

/// The line that carries `message` to a server whose key text is `key_base64`:
/// the base64 packet of the message, encrypted with a fresh initialisation
/// vector, and a newline. `None` where the key text gives no AES key. Reading
/// the line back with the same key text makes of it what the relay makes of the
/// message itself.
pub fn frame_message(key_base64: &str, message: String) -> (res: Option<String>)
    requires
        packet_fits(encode_utf8(message@).len() as int),
    ensures
        res is Some <==> aes_key_of(key_base64@) is Some,
        res matches Some(f) ==> exists|iv: Seq<u8>|
            iv.len() == iv_len() && f@ == #[trigger] packet_text(
                aes_key_of(key_base64@)->0,
                iv,
                message@,
            ) + seq!['\n'],
        res matches Some(f) ==> f@.last() == '\n' && packet_carries(
            aes_key_of(key_base64@)->0,
            f@.drop_last(),
            message@,
        ),
        res matches Some(f) ==> forall|o: LineOutcome|
            line_outcome_holds(key_base64@, f@, o) <==> plaintext_outcome_holds(message@, o),
{
    let ghost m = message@;
    match AesEncryptor::try_encrypt(key_base64, message) {
        None => None,
        Some(packet) => {
            let ghost p = packet@;
            let mut line = packet;
            line.append("\n");
            proof {
                reveal_strlit("\n");
                assert(line@ =~= p + seq!['\n']);
                assert(line@.drop_last() =~= p);
                assert(trim_end_spec(line@) == trim_end_spec(p));
                if p.len() > 0 {
                    assert(in_standard_alphabet(p.last()));
                }
                assert(trim_end_spec(p) == p);
                let key = aes_key_of(key_base64@)->0;
                assert(packet_carries(key, p, m));
            }
            Some(line)
        },
    }
}

} // verus!
