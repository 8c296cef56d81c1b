use vstd::prelude::*;
use vstd::string::StrSliceExecFns;

verus! {

/// The character classes of the relay grammar.
pub enum CharClass {
    /// `[0-9]`
    Digit,
    /// `[A-Za-z0-9]`
    Alnum,
    /// `[A-Za-z0-9.]`
    DomainChar,
    /// `[\x20-\xFF]`
    MessageChar,
}

pub open spec fn is_ascii_digit(c: char) -> bool {
    '0' <= c && c <= '9'
}

pub open spec fn is_ascii_alnum(c: char) -> bool {
    is_ascii_digit(c) || ('A' <= c && c <= 'Z') || ('a' <= c && c <= 'z')
}

pub open spec fn in_class(c: char, k: CharClass) -> bool {
    match k {
        CharClass::Digit => is_ascii_digit(c),
        CharClass::Alnum => is_ascii_alnum(c),
        CharClass::DomainChar => is_ascii_alnum(c) || c == '.',
        CharClass::MessageChar => ' ' <= c && c <= '\u{FF}',
    }
}

/// Every character of `s` is in class `k`.
pub open spec fn all_in(s: Seq<char>, k: CharClass) -> bool {
    forall|i: int| 0 <= i < s.len() ==> #[trigger] in_class(s[i], k)
}

/// `[0-9]{1,5}`: a port, or the numeric id of a sender.
pub open spec fn is_port(p: Seq<char>) -> bool {
    1 <= p.len() <= 5 && all_in(p, CharClass::Digit)
}

/// `[A-Za-z0-9.]{5,200}`: a domain.
pub open spec fn is_domain(d: Seq<char>) -> bool {
    5 <= d.len() <= 200 && all_in(d, CharClass::DomainChar)
}

/// `[A-Za-z0-9]{5,20}`: a user name.
pub open spec fn is_user_name(u: Seq<char>) -> bool {
    5 <= u.len() <= 20 && all_in(u, CharClass::Alnum)
}

/// `[\x20-\xFF]{1,500}`: the text that a SEND carries.
pub open spec fn is_internal_message(m: Seq<char>) -> bool {
    1 <= m.len() <= 500 && all_in(m, CharClass::MessageChar)
}

pub open spec fn crlf() -> Seq<char> {
    seq!['\r', '\n']
}

/// `ECHO <port> <domain>\r\n`
pub open spec fn echo_text(port: Seq<char>, domain: Seq<char>) -> Seq<char> {
    seq!['E', 'C', 'H', 'O', ' '] + port + seq![' '] + domain + crlf()
}

/// `msg` begins with an ECHO announcing `domain` on `port`.
pub open spec fn echo_matches(msg: Seq<char>, port: Seq<char>, domain: Seq<char>) -> bool {
    is_port(port) && is_domain(domain) && echo_text(port, domain).is_prefix_of(msg)
}

/// The parts of a SEND:
/// `SEND <id>@<id_domain> <sender>@<sender_domain> [#]<recipient>@<dest_domain> <message>\r\n`
pub struct SendFields {
    pub id: Seq<char>,
    pub id_domain: Seq<char>,
    pub sender: Seq<char>,
    pub sender_domain: Seq<char>,
    pub hashed: bool,
    pub recipient: Seq<char>,
    pub dest_domain: Seq<char>,
    pub message: Seq<char>,
}

pub open spec fn send_fields_valid(f: SendFields) -> bool {
    &&& is_port(f.id)
    &&& is_domain(f.id_domain)
    &&& is_user_name(f.sender)
    &&& is_domain(f.sender_domain)
    &&& is_user_name(f.recipient)
    &&& is_domain(f.dest_domain)
    &&& is_internal_message(f.message)
}

pub open spec fn hash_mark(hashed: bool) -> Seq<char> {
    if hashed {
        seq!['#']
    } else {
        Seq::empty()
    }
}

pub open spec fn send_text(f: SendFields) -> Seq<char> {
    seq!['S', 'E', 'N', 'D', ' '] + f.id + seq!['@'] + f.id_domain + seq![' '] + f.sender + seq![
        '@',
    ] + f.sender_domain + seq![' '] + hash_mark(f.hashed) + f.recipient + seq!['@']
        + f.dest_domain + seq![' '] + f.message + crlf()
}

/// `msg` begins with a SEND whose parts are `f`.
pub open spec fn send_matches(msg: Seq<char>, f: SendFields) -> bool {
    send_fields_valid(f) && send_text(f).is_prefix_of(msg)
}

/// The port and the domain that the ECHO at the start of `msg` announces.
pub open spec fn echo_reading(msg: Seq<char>) -> Option<(Seq<char>, Seq<char>)> {
    if exists|p: Seq<char>, d: Seq<char>| echo_matches(msg, p, d) {
        Some(choose|p: Seq<char>, d: Seq<char>| echo_matches(msg, p, d))
    } else {
        None
    }
}

/// The destination domain of the SEND at the start of `msg`.
pub open spec fn receiving_domain(msg: Seq<char>) -> Option<Seq<char>> {
    if exists|f: SendFields| send_matches(msg, f) {
        Some((choose|f: SendFields| send_matches(msg, f)).dest_domain)
    } else {
        None
    }
}

/// An ECHO written from a valid port and domain reads back as that port and
/// domain, whatever follows it.
pub proof fn lemma_echo_reads_back(port: Seq<char>, domain: Seq<char>, rest: Seq<char>)
    requires
        is_port(port),
        is_domain(domain),
    ensures
        echo_reading(echo_text(port, domain) + rest) == Some((port, domain)),
{
    let msg = echo_text(port, domain) + rest;
    assert(echo_text(port, domain) =~= msg.subrange(0, echo_text(port, domain).len() as int));
    assert(echo_matches(msg, port, domain));
    let (p, d) = choose|p: Seq<char>, d: Seq<char>| echo_matches(msg, p, d);
    lemma_echo_unique(msg, port, domain, p, d);
}

/// A SEND written from valid parts reads back as addressed to its destination
/// domain, whatever follows it.
pub proof fn lemma_send_reads_back(f: SendFields, rest: Seq<char>)
    requires
        send_fields_valid(f),
    ensures
        receiving_domain(send_text(f) + rest) == Some(f.dest_domain),
{
    let msg = send_text(f) + rest;
    assert(send_text(f) =~= msg.subrange(0, send_text(f).len() as int));
    assert(send_matches(msg, f));
    let g = choose|g: SendFields| send_matches(msg, g);
    lemma_send_unique(msg, f, g);
}

/// The character classes of the grammar, by character: a digit is `0` to `9`; a
/// user-name character is a digit or an ASCII letter, either case; a domain
/// character is a user-name character or a dot; a message character is one of
/// `U+0020` to `U+00FF`.
pub proof fn lemma_grammar_classes()
    ensures
        forall|c: char| #[trigger] in_class(c, CharClass::Digit) <==> ('0' <= c && c <= '9'),
        forall|c: char|
            #[trigger] in_class(c, CharClass::Alnum) <==> (('0' <= c && c <= '9') || ('A' <= c
                && c <= 'Z') || ('a' <= c && c <= 'z')),
        forall|c: char|
            #[trigger] in_class(c, CharClass::DomainChar) <==> (('0' <= c && c <= '9') || ('A'
                <= c && c <= 'Z') || ('a' <= c && c <= 'z') || c == '.'),
        forall|c: char|
            #[trigger] in_class(c, CharClass::MessageChar) <==> (' ' <= c && c <= '\u{FF}'),
{
}

/// An ECHO whose port is one to five ASCII digits and whose domain is five to
/// two hundred ASCII letters, digits or dots (an IP address among them) reads
/// back as that port and domain, whatever follows it.
pub proof fn lemma_echo_with_digits_reads_back(port: Seq<char>, domain: Seq<char>, rest: Seq<char>)
    requires
        1 <= port.len() <= 5,
        forall|i: int| 0 <= i < port.len() ==> '0' <= #[trigger] port[i] && port[i] <= '9',
        5 <= domain.len() <= 200,
        forall|i: int|
            0 <= i < domain.len() ==> ('0' <= #[trigger] domain[i] && domain[i] <= '9') || ('A'
                <= domain[i] && domain[i] <= 'Z') || ('a' <= domain[i] && domain[i] <= 'z')
                || domain[i] == '.',
    ensures
        echo_reading(echo_text(port, domain) + rest) == Some((port, domain)),
{
    lemma_grammar_classes();
    assert(is_port(port));
    assert(is_domain(domain));
    lemma_echo_reads_back(port, domain, rest);
}

/// A SEND reads back as addressed to its destination domain whenever its id is
/// one to five ASCII digits, its sender and recipient five to twenty ASCII
/// letters or digits, its domains five to two hundred ASCII letters, digits or
/// dots, and its text one to five hundred characters from `U+0020` to `U+00FF`,
/// whatever follows it.
pub proof fn lemma_send_with_digits_reads_back(f: SendFields, rest: Seq<char>)
    requires
        1 <= f.id.len() <= 5,
        forall|i: int| 0 <= i < f.id.len() ==> '0' <= #[trigger] f.id[i] && f.id[i] <= '9',
        5 <= f.sender.len() <= 20,
        forall|i: int|
            0 <= i < f.sender.len() ==> ('0' <= #[trigger] f.sender[i] && f.sender[i] <= '9') || (
            'A' <= f.sender[i] && f.sender[i] <= 'Z') || ('a' <= f.sender[i] && f.sender[i]
                <= 'z'),
        5 <= f.recipient.len() <= 20,
        forall|i: int|
            0 <= i < f.recipient.len() ==> ('0' <= #[trigger] f.recipient[i] && f.recipient[i]
                <= '9') || ('A' <= f.recipient[i] && f.recipient[i] <= 'Z') || ('a'
                <= f.recipient[i] && f.recipient[i] <= 'z'),
        5 <= f.id_domain.len() <= 200,
        forall|i: int|
            0 <= i < f.id_domain.len() ==> ('0' <= #[trigger] f.id_domain[i] && f.id_domain[i]
                <= '9') || ('A' <= f.id_domain[i] && f.id_domain[i] <= 'Z') || ('a'
                <= f.id_domain[i] && f.id_domain[i] <= 'z') || f.id_domain[i] == '.',
        5 <= f.sender_domain.len() <= 200,
        forall|i: int|
            0 <= i < f.sender_domain.len() ==> ('0' <= #[trigger] f.sender_domain[i]
                && f.sender_domain[i] <= '9') || ('A' <= f.sender_domain[i] && f.sender_domain[i]
                <= 'Z') || ('a' <= f.sender_domain[i] && f.sender_domain[i] <= 'z')
                || f.sender_domain[i] == '.',
        5 <= f.dest_domain.len() <= 200,
        forall|i: int|
            0 <= i < f.dest_domain.len() ==> ('0' <= #[trigger] f.dest_domain[i]
                && f.dest_domain[i] <= '9') || ('A' <= f.dest_domain[i] && f.dest_domain[i]
                <= 'Z') || ('a' <= f.dest_domain[i] && f.dest_domain[i] <= 'z')
                || f.dest_domain[i] == '.',
        1 <= f.message.len() <= 500,
        forall|i: int|
            0 <= i < f.message.len() ==> ' ' <= #[trigger] f.message[i] && f.message[i]
                <= '\u{FF}',
    ensures
        receiving_domain(send_text(f) + rest) == Some(f.dest_domain),
{
    lemma_grammar_classes();
    assert(send_fields_valid(f));
    lemma_send_reads_back(f, rest);
}

/// What an ECHO reading gives is a port of one to five ASCII digits and a domain
/// of five to two hundred ASCII letters, digits or dots, written after `ECHO ` and
/// ended by a carriage return and a line feed at the start of the message.
pub proof fn lemma_echo_reading_shape(msg: Seq<char>, port: Seq<char>, domain: Seq<char>)
    requires
        echo_reading(msg) == Some((port, domain)),
    ensures
        1 <= port.len() <= 5,
        forall|i: int| 0 <= i < port.len() ==> '0' <= #[trigger] port[i] && port[i] <= '9',
        5 <= domain.len() <= 200,
        forall|i: int|
            0 <= i < domain.len() ==> ('0' <= #[trigger] domain[i] && domain[i] <= '9') || ('A'
                <= domain[i] && domain[i] <= 'Z') || ('a' <= domain[i] && domain[i] <= 'z')
                || domain[i] == '.',
        msg.subrange(0, domain.len() + port.len() + 8int) == seq!['E', 'C', 'H', 'O', ' '] + port
            + seq![' '] + domain + seq!['\r', '\n'],
{
    lemma_grammar_classes();
    assert(echo_matches(msg, port, domain));
    assert(forall|i: int| 0 <= i < port.len() ==> in_class(#[trigger] port[i], CharClass::Digit));
    assert(forall|i: int|
        0 <= i < domain.len() ==> in_class(#[trigger] domain[i], CharClass::DomainChar));
    assert(echo_text(port, domain).len() == domain.len() + port.len() + 8);
}

/// The destination that a SEND reading gives is five to two hundred ASCII
/// letters, digits or dots.
pub proof fn lemma_receiving_domain_shape(msg: Seq<char>, domain: Seq<char>)
    requires
        receiving_domain(msg) == Some(domain),
    ensures
        5 <= domain.len() <= 200,
        forall|i: int|
            0 <= i < domain.len() ==> ('0' <= #[trigger] domain[i] && domain[i] <= '9') || ('A'
                <= domain[i] && domain[i] <= 'Z') || ('a' <= domain[i] && domain[i] <= 'z')
                || domain[i] == '.',
{
    lemma_grammar_classes();
    let f = choose|f: SendFields| send_matches(msg, f);
    assert(send_matches(msg, f));
    assert(forall|i: int|
        0 <= i < domain.len() ==> in_class(#[trigger] domain[i], CharClass::DomainChar));
}

/// The port and the domain that an ECHO announces.
pub struct EchoInfo {
    pub domain: String,
    pub port: String,
}

/// Reads the messages of the relay grammar.
pub struct Protocol {}

// ----------------------------------------------------------------------------
// Scanning
// ----------------------------------------------------------------------------

fn class_contains(c: char, k: &CharClass) -> (b: bool)
    ensures
        b == in_class(c, *k),
{
    let digit = '0' <= c && c <= '9';
    let alnum = digit || ('A' <= c && c <= 'Z') || ('a' <= c && c <= 'z');
    match k {
        CharClass::Digit => digit,
        CharClass::Alnum => alnum,
        CharClass::DomainChar => alnum || c == '.',
        CharClass::MessageChar => ' ' <= c && c <= '\u{FF}',
    }
}

/// The characters of `msg`, one by one.
pub(crate) fn chars_of(msg: &str) -> (res: Vec<char>)
    ensures
        res@ == msg@,
{
    let n = msg.unicode_len();
    let mut v: Vec<char> = Vec::new();
    let mut i: usize = 0;
    while i < n
        invariant
            n == msg@.len(),
            i <= n,
            v@ == msg@.subrange(0, i as int),
        decreases n - i,
    {
        let c = msg.get_char(i);
        v.push(c);
        i = i + 1;
    }
    v
}

/// The end of the longest run of characters of class `k` that starts at `start`.
fn run_end(s: &Vec<char>, start: usize, k: &CharClass) -> (end: usize)
    requires
        start <= s@.len(),
    ensures
        start <= end <= s@.len(),
        forall|i: int| start <= i < end ==> #[trigger] in_class(s@[i], *k),
        end == s@.len() || !in_class(s@[end as int], *k),
{
    let mut end = start;
    while end < s.len() && class_contains(s[end], k)
        invariant
            start <= end <= s@.len(),
            forall|i: int| start <= i < end ==> #[trigger] in_class(s@[i], *k),
        decreases s@.len() - end,
    {
        end = end + 1;
    }
    end
}

fn char_at(s: &Vec<char>, pos: usize, c: char) -> (b: bool)
    ensures
        b == (pos < s@.len() && s@[pos as int] == c),
{
    pos < s.len() && s[pos] == c
}

/// `s` begins with the four letters of `word` and a space.
fn has_keyword(s: &Vec<char>, word: [char; 4]) -> (b: bool)
    ensures
        b == (5 <= s@.len() && s@.subrange(0, 5) == word@ + seq![' ']),
{
    let ok = s.len() >= 5 && s[0] == word[0] && s[1] == word[1] && s[2] == word[2] && s[3]
        == word[3] && s[4] == ' ';
    proof {
        if 5 <= s@.len() {
            let w = word@ + seq![' '];
            if ok {
                assert(s@.subrange(0, 5) =~= w);
            }
            if s@.subrange(0, 5) == w {
                assert(s@.subrange(0, 5)[0] == w[0]);
                assert(s@.subrange(0, 5)[1] == w[1]);
                assert(s@.subrange(0, 5)[2] == w[2]);
                assert(s@.subrange(0, 5)[3] == w[3]);
                assert(s@.subrange(0, 5)[4] == w[4]);
            }
        }
    }
    ok
}

// ----------------------------------------------------------------------------
// Lemmas on prefixes and runs
// ----------------------------------------------------------------------------

/// A prefix made of two pieces: the first is a prefix, the second sits right after it.
pub proof fn lemma_prefix_split(a: Seq<char>, b: Seq<char>, s: Seq<char>)
    ensures
        (a + b).is_prefix_of(s) <==> (a.is_prefix_of(s) && a.len() + b.len() <= s.len()
            && s.subrange(a.len() as int, (a.len() + b.len()) as int) == b),
{
    let la = a.len() as int;
    let lb = b.len() as int;
    if (a + b).is_prefix_of(s) {
        assert(a =~= s.subrange(0, la)) by {
            assert forall|i: int| 0 <= i < la implies a[i] == s[i] by {
                assert((a + b)[i] == s.subrange(0, la + lb)[i]);
            }
        }
        assert(s.subrange(la, la + lb) =~= b) by {
            assert forall|i: int| 0 <= i < lb implies b[i] == s[la + i] by {
                assert((a + b)[la + i] == s.subrange(0, la + lb)[la + i]);
            }
        }
    }
    if a.is_prefix_of(s) && la + lb <= s.len() && s.subrange(la, la + lb) == b {
        assert((a + b) =~= s.subrange(0, la + lb)) by {
            assert forall|i: int| 0 <= i < la + lb implies (a + b)[i] == s[i] by {
                if i < la {
                    assert(a[i] == s.subrange(0, la)[i]);
                } else {
                    assert(b[i - la] == s.subrange(la, la + lb)[i - la]);
                }
            }
        }
    }
}

/// A run that ends before a character outside its class is the longest run there.
pub proof fn lemma_run_unique(s: Seq<char>, start: int, f: Seq<char>, k: CharClass, end: int)
    requires
        0 <= start,
        start + (f.len() as int) < s.len(),
        s.subrange(start, start + (f.len() as int)) == f,
        all_in(f, k),
        !in_class(s[start + (f.len() as int)], k),
        start <= end <= s.len(),
        forall|i: int| start <= i < end ==> #[trigger] in_class(s[i], k),
        end == s.len() || !in_class(s[end], k),
    ensures
        end == start + (f.len() as int),
{
    if end < start + (f.len() as int) {
        assert(s[end] == s.subrange(start, start + (f.len() as int))[end - start]);
        assert(in_class(f[end - start], k));
    }
    if end > start + (f.len() as int) {
        assert(in_class(s[start + (f.len() as int)], k));
    }
}

// ----------------------------------------------------------------------------
// ECHO
// ----------------------------------------------------------------------------

/// Two ECHO readings of one message are the same reading.
pub proof fn lemma_echo_unique(
    msg: Seq<char>,
    port1: Seq<char>,
    domain1: Seq<char>,
    port2: Seq<char>,
    domain2: Seq<char>,
)
    requires
        echo_matches(msg, port1, domain1),
        echo_matches(msg, port2, domain2),
    ensures
        port1 == port2,
        domain1 == domain2,
{
    lemma_echo_positions(msg, port1, domain1);
    lemma_echo_positions(msg, port2, domain2);
    let e1 = 5 + (port1.len() as int);
    let e2 = 5 + (port2.len() as int);
    if e1 < e2 {
        assert(msg[e1] == port2[e1 - 5]);
        assert(in_class(port2[e1 - 5], CharClass::Digit));
    }
    if e2 < e1 {
        assert(msg[e2] == port1[e2 - 5]);
        assert(in_class(port1[e2 - 5], CharClass::Digit));
    }
    assert(port1 =~= port2);
    let f1 = e1 + 1 + (domain1.len() as int);
    let f2 = e1 + 1 + (domain2.len() as int);
    if f1 < f2 {
        assert(msg[f1] == domain2[f1 - e1 - 1]);
        assert(in_class(domain2[f1 - e1 - 1], CharClass::DomainChar));
    }
    if f2 < f1 {
        assert(msg[f2] == domain1[f2 - e1 - 1]);
        assert(in_class(domain1[f2 - e1 - 1], CharClass::DomainChar));
    }
    assert(domain1 =~= domain2);
}

/// Where the parts of a matching ECHO stand in the message.
proof fn lemma_echo_positions(msg: Seq<char>, port: Seq<char>, domain: Seq<char>)
    requires
        echo_text(port, domain).is_prefix_of(msg),
    ensures
        msg.len() >= 5 + (port.len() as int) + 1 + (domain.len() as int) + 2,
        msg.subrange(0, 5) == seq!['E', 'C', 'H', 'O', ' '],
        forall|i: int| 0 <= i < (port.len() as int) ==> msg[5 + i] == port[i],
        msg[5 + (port.len() as int)] == ' ',
        forall|i: int| 0 <= i < (domain.len() as int) ==> msg[5 + (port.len() as int) + 1 + i] == domain[i],
        msg[5 + (port.len() as int) + 1 + (domain.len() as int)] == '\r',
        msg[5 + (port.len() as int) + 1 + (domain.len() as int) + 1] == '\n',
{
    let t = echo_text(port, domain);
    assert forall|i: int| 0 <= i < t.len() implies msg[i] == t[i] by {
        assert(t[i] == msg.subrange(0, t.len() as int)[i]);
    }
    let kw = seq!['E', 'C', 'H', 'O', ' '];
    assert(msg.subrange(0, 5) =~= kw) by {
        assert forall|i: int| 0 <= i < 5 implies msg.subrange(0, 5)[i] == kw[i] by {
            assert(t[i] == kw[i]);
        }
    }
    assert forall|i: int| 0 <= i < (port.len() as int) implies msg[5 + i] == port[i] by {
        assert(t[5 + i] == port[i]);
    }
    assert(t[5 + (port.len() as int)] == ' ');
    assert forall|i: int| 0 <= i < (domain.len() as int) implies msg[5 + (port.len() as int) + 1 + i]
        == domain[i] by {
        assert(t[5 + (port.len() as int) + 1 + i] == domain[i]);
    }
    assert(t[5 + (port.len() as int) + 1 + (domain.len() as int)] == '\r');
    assert(t[5 + (port.len() as int) + 1 + (domain.len() as int) + 1] == '\n');
}

/// The positions that delimit the port and the domain of an ECHO, when `s` begins with one.
fn scan_echo(s: &Vec<char>) -> (res: Option<(usize, usize)>)
    ensures
        match res {
            Some((port_end, domain_end)) => {
                &&& 5 <= port_end < domain_end <= s@.len()
                &&& echo_matches(
                    s@,
                    s@.subrange(5, port_end as int),
                    s@.subrange(port_end + 1, domain_end as int),
                )
            },
            None => forall|p: Seq<char>, d: Seq<char>| !echo_matches(s@, p, d),
        },
{
    if !has_keyword(s, ['E', 'C', 'H', 'O']) {
        proof {
            assert forall|p: Seq<char>, d: Seq<char>| !echo_matches(s@, p, d) by {
                if echo_matches(s@, p, d) {
                    lemma_echo_positions(s@, p, d);
                    assert(['E', 'C', 'H', 'O']@ + seq![' '] =~= seq!['E', 'C', 'H', 'O', ' ']);
                }
            }
        }
        return None;
    }
    let port_end = run_end(s, 5, &CharClass::Digit);
    let port_len = port_end - 5;
    let ok_port = 1 <= port_len && port_len <= 5 && char_at(s, port_end, ' ');
    if !ok_port {
        proof {
            assert forall|p: Seq<char>, d: Seq<char>| !echo_matches(s@, p, d) by {
                if echo_matches(s@, p, d) {
                    lemma_echo_positions(s@, p, d);
                    assert(s@.subrange(5, 5 + (p.len() as int)) =~= p);
                    lemma_run_unique(s@, 5, p, CharClass::Digit, port_end as int);
                }
            }
        }
        return None;
    }
    let domain_start = port_end + 1;
    let domain_end = run_end(s, domain_start, &CharClass::DomainChar);
    let domain_len = domain_end - domain_start;
    let ok_domain = 5 <= domain_len && domain_len <= 200 && char_at(s, domain_end, '\r')
        && char_at(s, domain_end + 1, '\n');
    let ghost port = s@.subrange(5, port_end as int);
    let ghost domain = s@.subrange(domain_start as int, domain_end as int);
    if !ok_domain {
        proof {
            assert forall|p: Seq<char>, d: Seq<char>| !echo_matches(s@, p, d) by {
                if echo_matches(s@, p, d) {
                    lemma_echo_positions(s@, p, d);
                    assert(s@.subrange(5, 5 + (p.len() as int)) =~= p);
                    lemma_run_unique(s@, 5, p, CharClass::Digit, port_end as int);
                    assert(s@.subrange(domain_start as int, domain_start + (d.len() as int)) =~= d);
                    lemma_run_unique(
                        s@,
                        domain_start as int,
                        d,
                        CharClass::DomainChar,
                        domain_end as int,
                    );
                }
            }
        }
        return None;
    }
    proof {
        let kw = seq!['E', 'C', 'H', 'O', ' '];
        assert(['E', 'C', 'H', 'O']@ + seq![' '] =~= kw);
        assert(kw.is_prefix_of(s@));
        lemma_prefix_split(kw, port, s@);
        lemma_prefix_split(kw + port, seq![' '], s@);
        assert(s@.subrange(port_end as int, port_end + 1) =~= seq![' ']);
        lemma_prefix_split(kw + port + seq![' '], domain, s@);
        assert(s@.subrange(domain_end as int, domain_end + 2) =~= crlf());
        lemma_prefix_split(kw + port + seq![' '] + domain, crlf(), s@);
    }
    Some((port_end, domain_end))
}


// ----------------------------------------------------------------------------
// SEND
// ----------------------------------------------------------------------------

/// Every position in `[start, end)` of `s` holds a character of class `k`.
pub open spec fn run_at(s: Seq<char>, start: int, end: int, k: CharClass) -> bool {
    forall|i: int| start <= i < end ==> #[trigger] in_class(s[i], k)
}

/// Two runs of one class that start together and both end before a character
/// outside the class have the same length.
pub proof fn lemma_run_lengths_agree(s: Seq<char>, start: int, e1: int, e2: int, k: CharClass)
    requires
        start <= e1 < s.len(),
        start <= e2 < s.len(),
        run_at(s, start, e1, k),
        run_at(s, start, e2, k),
        !in_class(s[e1], k),
        !in_class(s[e2], k),
    ensures
        e1 == e2,
{
    if e1 < e2 {
        assert(in_class(s[e1], k));
    }
    if e2 < e1 {
        assert(in_class(s[e2], k));
    }
}

/// A field of class `k`, with a length in `[lo, hi]`, stands in `[start, e)` of `s`
/// and `delim` follows it.
pub open spec fn field_fits(
    s: Seq<char>,
    start: int,
    e: int,
    k: CharClass,
    lo: int,
    hi: int,
    delim: char,
) -> bool {
    &&& start + lo <= e <= start + hi
    &&& e < s.len()
    &&& s[e] == delim
    &&& run_at(s, start, e, k)
}

/// The field of class `k` that starts at `start` and ends right before `delim`,
/// when its length is in `[lo, hi]`.
fn field_end(s: &Vec<char>, start: usize, k: &CharClass, lo: usize, hi: usize, delim: char) -> (res:
    Option<usize>)
    requires
        start <= s@.len(),
        lo <= hi <= 500,
        !in_class(delim, *k),
    ensures
        res matches Some(e) ==> field_fits(s@, start as int, e as int, *k, lo as int, hi as int, delim),
        forall|e: int| #[trigger]
            field_fits(s@, start as int, e, *k, lo as int, hi as int, delim) ==> res == Some(e as usize),
{
    let end = run_end(s, start, k);
    proof {
        assert forall|e: int|
            start + lo <= e <= start + hi && e < s@.len() && s@[e] == delim && #[trigger] run_at(
                s@,
                start as int,
                e,
                *k,
            ) implies e == end by {
            if e < end {
                assert(in_class(s@[e], *k));
            }
            if end < e {
                assert(in_class(s@[end as int], *k));
            }
        }
    }
    if end - start >= lo && end - start <= hi && char_at(s, end, delim) {
        Some(end)
    } else {
        None
    }
}

pub open spec fn send_keyword() -> Seq<char> {
    seq!['S', 'E', 'N', 'D', ' ']
}

/// Where each part of a SEND with parts `f` begins.
pub open spec fn at_id(f: SendFields) -> int {
    5
}

pub open spec fn at_id_domain(f: SendFields) -> int {
    at_id(f) + f.id.len() + 1
}

pub open spec fn at_sender(f: SendFields) -> int {
    at_id_domain(f) + f.id_domain.len() + 1
}

pub open spec fn at_sender_domain(f: SendFields) -> int {
    at_sender(f) + f.sender.len() + 1
}

pub open spec fn at_hash(f: SendFields) -> int {
    at_sender_domain(f) + f.sender_domain.len() + 1
}

pub open spec fn at_recipient(f: SendFields) -> int {
    at_hash(f) + hash_mark(f.hashed).len()
}

pub open spec fn at_dest_domain(f: SendFields) -> int {
    at_recipient(f) + f.recipient.len() + 1
}

pub open spec fn at_message(f: SendFields) -> int {
    at_dest_domain(f) + f.dest_domain.len() + 1
}

pub open spec fn at_end(f: SendFields) -> int {
    at_message(f) + f.message.len()
}

proof fn lemma_piece(s: Seq<char>, start: int, x: Seq<char>, k: CharClass)
    requires
        0 <= start,
        start + x.len() <= s.len(),
        s.subrange(start, start + x.len()) == x,
        all_in(x, k),
    ensures
        run_at(s, start, start + x.len(), k),
{
    assert forall|i: int| start <= i < start + x.len() implies #[trigger] in_class(s[i], k) by {
        assert(s[i] == s.subrange(start, start + x.len())[i - start]);
        assert(in_class(x[i - start], k));
    }
}

proof fn lemma_char(s: Seq<char>, at: int, c: char)
    requires
        0 <= at < s.len(),
        s.subrange(at, at + 1) == seq![c],
    ensures
        s[at] == c,
{
    assert(s[at] == s.subrange(at, at + 1)[0]);
}

/// Where the parts of a matching SEND stand in the message.
pub proof fn lemma_send_layout(s: Seq<char>, f: SendFields)
    requires
        send_matches(s, f),
    ensures
        at_end(f) + 2 <= s.len(),
        s.subrange(0, 5) == send_keyword(),
        s.subrange(at_id(f), at_id(f) + f.id.len()) == f.id,
        run_at(s, at_id(f), at_id(f) + f.id.len(), CharClass::Digit),
        s[at_id(f) + f.id.len()] == '@',
        s.subrange(at_id_domain(f), at_id_domain(f) + f.id_domain.len()) == f.id_domain,
        run_at(s, at_id_domain(f), at_id_domain(f) + f.id_domain.len(), CharClass::DomainChar),
        s[at_id_domain(f) + f.id_domain.len()] == ' ',
        s.subrange(at_sender(f), at_sender(f) + f.sender.len()) == f.sender,
        run_at(s, at_sender(f), at_sender(f) + f.sender.len(), CharClass::Alnum),
        s[at_sender(f) + f.sender.len()] == '@',
        s.subrange(at_sender_domain(f), at_sender_domain(f) + f.sender_domain.len())
            == f.sender_domain,
        run_at(
            s,
            at_sender_domain(f),
            at_sender_domain(f) + f.sender_domain.len(),
            CharClass::DomainChar,
        ),
        s[at_sender_domain(f) + f.sender_domain.len()] == ' ',
        f.hashed ==> s[at_hash(f)] == '#',
        !f.hashed ==> s[at_hash(f)] != '#',
        s.subrange(at_recipient(f), at_recipient(f) + f.recipient.len()) == f.recipient,
        run_at(s, at_recipient(f), at_recipient(f) + f.recipient.len(), CharClass::Alnum),
        s[at_recipient(f) + f.recipient.len()] == '@',
        s.subrange(at_dest_domain(f), at_dest_domain(f) + f.dest_domain.len()) == f.dest_domain,
        run_at(s, at_dest_domain(f), at_dest_domain(f) + f.dest_domain.len(), CharClass::DomainChar),
        s[at_dest_domain(f) + f.dest_domain.len()] == ' ',
        s.subrange(at_message(f), at_message(f) + f.message.len()) == f.message,
        run_at(s, at_message(f), at_message(f) + f.message.len(), CharClass::MessageChar),
        s[at_end(f)] == '\r',
        s[at_end(f) + 1] == '\n',
{
    let at = seq!['@'];
    let sp = seq![' '];
    let p1 = send_keyword() + f.id;
    let p2 = p1 + at;
    let p3 = p2 + f.id_domain;
    let p4 = p3 + sp;
    let p5 = p4 + f.sender;
    let p6 = p5 + at;
    let p7 = p6 + f.sender_domain;
    let p8 = p7 + sp;
    let p9 = p8 + hash_mark(f.hashed);
    let p10 = p9 + f.recipient;
    let p11 = p10 + at;
    let p12 = p11 + f.dest_domain;
    let p13 = p12 + sp;
    let p14 = p13 + f.message;
    assert(send_text(f) == p14 + crlf());
    lemma_prefix_split(p14, crlf(), s);
    lemma_prefix_split(p13, f.message, s);
    lemma_prefix_split(p12, sp, s);
    lemma_prefix_split(p11, f.dest_domain, s);
    lemma_prefix_split(p10, at, s);
    lemma_prefix_split(p9, f.recipient, s);
    lemma_prefix_split(p8, hash_mark(f.hashed), s);
    lemma_prefix_split(p7, sp, s);
    lemma_prefix_split(p6, f.sender_domain, s);
    lemma_prefix_split(p5, at, s);
    lemma_prefix_split(p4, f.sender, s);
    lemma_prefix_split(p3, sp, s);
    lemma_prefix_split(p2, f.id_domain, s);
    lemma_prefix_split(p1, at, s);
    lemma_prefix_split(send_keyword(), f.id, s);
    assert(s.subrange(0, 5) =~= send_keyword());
    lemma_piece(s, at_id(f), f.id, CharClass::Digit);
    lemma_char(s, at_id(f) + f.id.len(), '@');
    lemma_piece(s, at_id_domain(f), f.id_domain, CharClass::DomainChar);
    lemma_char(s, at_id_domain(f) + f.id_domain.len(), ' ');
    lemma_piece(s, at_sender(f), f.sender, CharClass::Alnum);
    lemma_char(s, at_sender(f) + f.sender.len(), '@');
    lemma_piece(s, at_sender_domain(f), f.sender_domain, CharClass::DomainChar);
    lemma_char(s, at_sender_domain(f) + f.sender_domain.len(), ' ');
    if f.hashed {
        lemma_char(s, at_hash(f), '#');
    } else {
        assert(s[at_hash(f)] == s.subrange(at_recipient(f), at_recipient(f) + f.recipient.len())[0]);
        assert(in_class(f.recipient[0], CharClass::Alnum));
    }
    lemma_piece(s, at_recipient(f), f.recipient, CharClass::Alnum);
    lemma_char(s, at_recipient(f) + f.recipient.len(), '@');
    lemma_piece(s, at_dest_domain(f), f.dest_domain, CharClass::DomainChar);
    lemma_char(s, at_dest_domain(f) + f.dest_domain.len(), ' ');
    lemma_piece(s, at_message(f), f.message, CharClass::MessageChar);
    assert(s[at_end(f)] == s.subrange(at_end(f), at_end(f) + 2)[0]);
    assert(s[at_end(f) + 1] == s.subrange(at_end(f), at_end(f) + 2)[1]);
}

/// Two SEND readings of one message are the same reading.
pub proof fn lemma_send_unique(msg: Seq<char>, f1: SendFields, f2: SendFields)
    requires
        send_matches(msg, f1),
        send_matches(msg, f2),
    ensures
        f1 == f2,
{
    lemma_send_layout(msg, f1);
    lemma_send_layout(msg, f2);
    lemma_run_lengths_agree(
        msg,
        5,
        at_id(f1) + f1.id.len(),
        at_id(f2) + f2.id.len(),
        CharClass::Digit,
    );
    assert(f1.id =~= f2.id);
    lemma_run_lengths_agree(
        msg,
        at_id_domain(f1),
        at_id_domain(f1) + f1.id_domain.len(),
        at_id_domain(f2) + f2.id_domain.len(),
        CharClass::DomainChar,
    );
    assert(f1.id_domain =~= f2.id_domain);
    lemma_run_lengths_agree(
        msg,
        at_sender(f1),
        at_sender(f1) + f1.sender.len(),
        at_sender(f2) + f2.sender.len(),
        CharClass::Alnum,
    );
    assert(f1.sender =~= f2.sender);
    lemma_run_lengths_agree(
        msg,
        at_sender_domain(f1),
        at_sender_domain(f1) + f1.sender_domain.len(),
        at_sender_domain(f2) + f2.sender_domain.len(),
        CharClass::DomainChar,
    );
    assert(f1.sender_domain =~= f2.sender_domain);
    assert(f1.hashed == f2.hashed);
    lemma_run_lengths_agree(
        msg,
        at_recipient(f1),
        at_recipient(f1) + f1.recipient.len(),
        at_recipient(f2) + f2.recipient.len(),
        CharClass::Alnum,
    );
    assert(f1.recipient =~= f2.recipient);
    lemma_run_lengths_agree(
        msg,
        at_dest_domain(f1),
        at_dest_domain(f1) + f1.dest_domain.len(),
        at_dest_domain(f2) + f2.dest_domain.len(),
        CharClass::DomainChar,
    );
    assert(f1.dest_domain =~= f2.dest_domain);
    lemma_run_lengths_agree(
        msg,
        at_message(f1),
        at_end(f1),
        at_end(f2),
        CharClass::MessageChar,
    );
    assert(f1.message =~= f2.message);
}

/// The parts of a matching SEND are the fields that the scan finds.
proof fn lemma_send_fits(s: Seq<char>, f: SendFields)
    requires
        send_matches(s, f),
    ensures
        s.subrange(0, 5) == send_keyword(),
        field_fits(s, 5, at_id_domain(f) - 1, CharClass::Digit, 1, 5, '@'),
        field_fits(s, at_id_domain(f), at_sender(f) - 1, CharClass::DomainChar, 5, 200, ' '),
        field_fits(s, at_sender(f), at_sender_domain(f) - 1, CharClass::Alnum, 5, 20, '@'),
        field_fits(s, at_sender_domain(f), at_hash(f) - 1, CharClass::DomainChar, 5, 200, ' '),
        f.hashed <==> (at_hash(f) < s.len() && s[at_hash(f)] == '#'),
        field_fits(s, at_recipient(f), at_dest_domain(f) - 1, CharClass::Alnum, 5, 20, '@'),
        field_fits(s, at_dest_domain(f), at_message(f) - 1, CharClass::DomainChar, 5, 200, ' '),
        field_fits(s, at_message(f), at_end(f), CharClass::MessageChar, 1, 500, '\r'),
        at_end(f) + 1 < s.len() && s[at_end(f) + 1] == '\n',
{
    lemma_send_layout(s, f);
}

/// Scans the first four parts of a SEND that begins `s`: the id, its domain, the
/// sender and the sender's domain. Returns the end of each.
fn scan_send_head(s: &Vec<char>) -> (res: Option<(usize, usize, usize, usize)>)
    requires
        5 <= s@.len(),
        s@.subrange(0, 5) == send_keyword(),
    ensures
        match res {
            Some((a, b, c, d)) => {
                &&& field_fits(s@, 5, a as int, CharClass::Digit, 1, 5, '@')
                &&& field_fits(s@, a + 1, b as int, CharClass::DomainChar, 5, 200, ' ')
                &&& field_fits(s@, b + 1, c as int, CharClass::Alnum, 5, 20, '@')
                &&& field_fits(s@, c + 1, d as int, CharClass::DomainChar, 5, 200, ' ')
                &&& forall|f: SendFields| #[trigger]
                    send_matches(s@, f) ==> at_hash(f) == d + 1 && at_id_domain(f) == a + 1
                        && at_sender(f) == b + 1 && at_sender_domain(f) == c + 1
            },
            None => forall|f: SendFields| !send_matches(s@, f),
        },
{
    let n = s.len();
    let a = match field_end(s, 5, &CharClass::Digit, 1, 5, '@') {
        Some(e) => e,
        None => {
            proof {
                assert forall|f: SendFields| !send_matches(s@, f) by {
                    if send_matches(s@, f) {
                        lemma_send_fits(s@, f);
                    }
                }
            }
            return None;
        },
    };
    let b = match field_end(s, a + 1, &CharClass::DomainChar, 5, 200, ' ') {
        Some(e) => e,
        None => {
            proof {
                assert forall|f: SendFields| !send_matches(s@, f) by {
                    if send_matches(s@, f) {
                        lemma_send_fits(s@, f);
                    }
                }
            }
            return None;
        },
    };
    let c = match field_end(s, b + 1, &CharClass::Alnum, 5, 20, '@') {
        Some(e) => e,
        None => {
            proof {
                assert forall|f: SendFields| !send_matches(s@, f) by {
                    if send_matches(s@, f) {
                        lemma_send_fits(s@, f);
                    }
                }
            }
            return None;
        },
    };
    let d = match field_end(s, c + 1, &CharClass::DomainChar, 5, 200, ' ') {
        Some(e) => e,
        None => {
            proof {
                assert forall|f: SendFields| !send_matches(s@, f) by {
                    if send_matches(s@, f) {
                        lemma_send_fits(s@, f);
                    }
                }
            }
            return None;
        },
    };
    proof {
        assert forall|f: SendFields| #[trigger] send_matches(s@, f) implies at_hash(f) == d + 1
            && at_id_domain(f) == a + 1 && at_sender(f) == b + 1 && at_sender_domain(f) == c
            + 1 by {
            lemma_send_fits(s@, f);
        }
    }
    Some((a, b, c, d))
}

/// The last parts of a matching SEND, from where its recipient begins.
proof fn lemma_send_tail_fits(s: Seq<char>, f: SendFields, r: int)
    requires
        send_matches(s, f),
        r == at_recipient(f),
    ensures
        field_fits(s, r, at_dest_domain(f) - 1, CharClass::Alnum, 5, 20, '@'),
        field_fits(s, at_dest_domain(f), at_message(f) - 1, CharClass::DomainChar, 5, 200, ' '),
        field_fits(s, at_message(f), at_end(f), CharClass::MessageChar, 1, 500, '\r'),
        at_end(f) + 1 < s.len() && s[at_end(f) + 1] == '\n',
{
    lemma_send_fits(s, f);
}

/// Scans the last parts of a SEND whose optional `#` stands at `hash_at`: the
/// recipient, the destination domain and the message. Returns where the
/// recipient begins, where it ends, where the destination domain ends and where
/// the message ends.
fn scan_send_tail(s: &Vec<char>, hash_at: usize) -> (res: Option<(usize, usize, usize, usize)>)
    requires
        hash_at <= s@.len(),
        forall|f: SendFields| #[trigger] send_matches(s@, f) ==> at_hash(f) == hash_at,
    ensures
        match res {
            Some((r, p, q, m)) => {
                &&& r == hash_at || (r == hash_at + 1 && s@[hash_at as int] == '#')
                &&& r == hash_at ==> hash_at == s@.len() || s@[hash_at as int] != '#'
                &&& field_fits(s@, r as int, p as int, CharClass::Alnum, 5, 20, '@')
                &&& field_fits(s@, p + 1, q as int, CharClass::DomainChar, 5, 200, ' ')
                &&& field_fits(s@, q + 1, m as int, CharClass::MessageChar, 1, 500, '\r')
                &&& m + 1 < s@.len() && s@[m + 1] == '\n'
            },
            None => forall|f: SendFields| !send_matches(s@, f),
        },
{
    let n = s.len();
    let hashed = char_at(s, hash_at, '#');
    let r = if hashed {
        hash_at + 1
    } else {
        hash_at
    };
    proof {
        assert forall|f: SendFields| #[trigger] send_matches(s@, f) implies at_recipient(f)
            == r by {
            lemma_send_fits(s@, f);
        }
    }
    let p = match field_end(s, r, &CharClass::Alnum, 5, 20, '@') {
        Some(e) => e,
        None => {
            proof {
                assert forall|f: SendFields| !send_matches(s@, f) by {
                    if send_matches(s@, f) {
                        lemma_send_tail_fits(s@, f, r as int);
                    }
                }
            }
            return None;
        },
    };
    let q = match field_end(s, p + 1, &CharClass::DomainChar, 5, 200, ' ') {
        Some(e) => e,
        None => {
            proof {
                assert forall|f: SendFields| !send_matches(s@, f) by {
                    if send_matches(s@, f) {
                        lemma_send_tail_fits(s@, f, r as int);
                    }
                }
            }
            return None;
        },
    };
    let m = match field_end(s, q + 1, &CharClass::MessageChar, 1, 500, '\r') {
        Some(e) => e,
        None => {
            proof {
                assert forall|f: SendFields| !send_matches(s@, f) by {
                    if send_matches(s@, f) {
                        lemma_send_tail_fits(s@, f, r as int);
                    }
                }
            }
            return None;
        },
    };
    if !char_at(s, m + 1, '\n') {
        proof {
            assert forall|f: SendFields| !send_matches(s@, f) by {
                if send_matches(s@, f) {
                    lemma_send_tail_fits(s@, f, r as int);
                }
            }
        }
        return None;
    }
    Some((r, p, q, m))
}

/// The parts of the SEND that `s` begins with, by the positions that delimit them.
fn scan_send(s: &Vec<char>) -> (res: Option<(usize, usize, Ghost<SendFields>)>)
    ensures
        match res {
            Some((dest_start, dest_end, f)) => {
                &&& dest_start <= dest_end <= s@.len()
                &&& send_matches(s@, f@)
                &&& f@.dest_domain == s@.subrange(dest_start as int, dest_end as int)
            },
            None => forall|f: SendFields| !send_matches(s@, f),
        },
{
    if !has_keyword(s, ['S', 'E', 'N', 'D']) {
        proof {
            assert(['S', 'E', 'N', 'D']@ + seq![' '] =~= send_keyword());
            assert forall|f: SendFields| !send_matches(s@, f) by {
                if send_matches(s@, f) {
                    lemma_send_fits(s@, f);
                }
            }
        }
        return None;
    }
    proof {
        assert(['S', 'E', 'N', 'D']@ + seq![' '] =~= send_keyword());
    }
    let n = s.len();
    let (a, b, c, d) = match scan_send_head(s) {
        Some(h) => h,
        None => {
            return None;
        },
    };
    let (r, p, q, m) = match scan_send_tail(s, d + 1) {
        Some(t) => t,
        None => {
            return None;
        },
    };
    let ghost f = SendFields {
        id: s@.subrange(5, a as int),
        id_domain: s@.subrange(a + 1, b as int),
        sender: s@.subrange(b + 1, c as int),
        sender_domain: s@.subrange(c + 1, d as int),
        hashed: r == d + 2,
        recipient: s@.subrange(r as int, p as int),
        dest_domain: s@.subrange(p + 1, q as int),
        message: s@.subrange(q + 1, m as int),
    };
    proof {
        lemma_fits_field(s@, 5, a as int, CharClass::Digit, 1, 5, '@');
        lemma_fits_field(s@, a + 1, b as int, CharClass::DomainChar, 5, 200, ' ');
        lemma_fits_field(s@, b + 1, c as int, CharClass::Alnum, 5, 20, '@');
        lemma_fits_field(s@, c + 1, d as int, CharClass::DomainChar, 5, 200, ' ');
        lemma_fits_field(s@, r as int, p as int, CharClass::Alnum, 5, 20, '@');
        lemma_fits_field(s@, p + 1, q as int, CharClass::DomainChar, 5, 200, ' ');
        lemma_fits_field(s@, q + 1, m as int, CharClass::MessageChar, 1, 500, '\r');
        lemma_send_builds(s@, f);
    }
    Some((p + 1, q, Ghost(f)))
}

/// The characters of a fitting field are all of its class.
proof fn lemma_fits_field(
    s: Seq<char>,
    start: int,
    e: int,
    k: CharClass,
    lo: int,
    hi: int,
    delim: char,
)
    requires
        0 <= start,
        0 <= lo,
        field_fits(s, start, e, k, lo, hi, delim),
    ensures
        all_in(s.subrange(start, e), k),
        lo <= s.subrange(start, e).len() <= hi,
{
    assert forall|i: int| 0 <= i < e - start implies #[trigger] in_class(
        s.subrange(start, e)[i],
        k,
    ) by {
        assert(in_class(s[start + i], k));
    }
}

/// A message whose characters sit as a SEND with parts `f` begins with that SEND.
proof fn lemma_send_builds(s: Seq<char>, f: SendFields)
    requires
        send_fields_valid(f),
        at_end(f) + 2 <= s.len(),
        s.subrange(0, 5) == send_keyword(),
        s.subrange(at_id(f), at_id(f) + f.id.len()) == f.id,
        s[at_id(f) + f.id.len()] == '@',
        s.subrange(at_id_domain(f), at_id_domain(f) + f.id_domain.len()) == f.id_domain,
        s[at_id_domain(f) + f.id_domain.len()] == ' ',
        s.subrange(at_sender(f), at_sender(f) + f.sender.len()) == f.sender,
        s[at_sender(f) + f.sender.len()] == '@',
        s.subrange(at_sender_domain(f), at_sender_domain(f) + f.sender_domain.len())
            == f.sender_domain,
        s[at_sender_domain(f) + f.sender_domain.len()] == ' ',
        f.hashed ==> s[at_hash(f)] == '#',
        s.subrange(at_recipient(f), at_recipient(f) + f.recipient.len()) == f.recipient,
        s[at_recipient(f) + f.recipient.len()] == '@',
        s.subrange(at_dest_domain(f), at_dest_domain(f) + f.dest_domain.len()) == f.dest_domain,
        s[at_dest_domain(f) + f.dest_domain.len()] == ' ',
        s.subrange(at_message(f), at_message(f) + f.message.len()) == f.message,
        s[at_end(f)] == '\r',
        s[at_end(f) + 1] == '\n',
    ensures
        send_matches(s, f),
{
    let at = seq!['@'];
    let sp = seq![' '];
    let p1 = send_keyword() + f.id;
    let p2 = p1 + at;
    let p3 = p2 + f.id_domain;
    let p4 = p3 + sp;
    let p5 = p4 + f.sender;
    let p6 = p5 + at;
    let p7 = p6 + f.sender_domain;
    let p8 = p7 + sp;
    let p9 = p8 + hash_mark(f.hashed);
    let p10 = p9 + f.recipient;
    let p11 = p10 + at;
    let p12 = p11 + f.dest_domain;
    let p13 = p12 + sp;
    let p14 = p13 + f.message;
    assert(send_keyword().is_prefix_of(s));
    lemma_prefix_split(send_keyword(), f.id, s);
    assert(s.subrange(p1.len() as int, p1.len() as int + 1) =~= at);
    lemma_prefix_split(p1, at, s);
    lemma_prefix_split(p2, f.id_domain, s);
    assert(s.subrange(p3.len() as int, p3.len() as int + 1) =~= sp);
    lemma_prefix_split(p3, sp, s);
    lemma_prefix_split(p4, f.sender, s);
    assert(s.subrange(p5.len() as int, p5.len() as int + 1) =~= at);
    lemma_prefix_split(p5, at, s);
    lemma_prefix_split(p6, f.sender_domain, s);
    assert(s.subrange(p7.len() as int, p7.len() as int + 1) =~= sp);
    lemma_prefix_split(p7, sp, s);
    assert(s.subrange(p8.len() as int, p8.len() as int + hash_mark(f.hashed).len()) =~= hash_mark(
        f.hashed,
    ));
    lemma_prefix_split(p8, hash_mark(f.hashed), s);
    lemma_prefix_split(p9, f.recipient, s);
    assert(s.subrange(p10.len() as int, p10.len() as int + 1) =~= at);
    lemma_prefix_split(p10, at, s);
    lemma_prefix_split(p11, f.dest_domain, s);
    assert(s.subrange(p12.len() as int, p12.len() as int + 1) =~= sp);
    lemma_prefix_split(p12, sp, s);
    lemma_prefix_split(p13, f.message, s);
    assert(s.subrange(p14.len() as int, p14.len() as int + 2) =~= crlf());
    lemma_prefix_split(p14, crlf(), s);
    assert(send_text(f) == p14 + crlf());
}

impl Protocol {
    /// Reads an ECHO: `ECHO <port> <domain>\r\n` at the start of `msg`, whatever follows.
    /// Returns the announced domain and port, or `None` when `msg` does not begin so.
    pub fn get_echo_map(msg: &str) -> (res: Option<EchoInfo>)
        ensures
            match res {
                Some(info) => echo_matches(msg@, info.port@, info.domain@),
                None => forall|p: Seq<char>, d: Seq<char>| !echo_matches(msg@, p, d),
            },
            match res {
                Some(info) => echo_reading(msg@) == Some((info.port@, info.domain@)),
                None => echo_reading(msg@) is None,
            },
    {
        let s = chars_of(msg);
        match scan_echo(&s) {
            Some((port_end, domain_end)) => {
                let port = msg.substring_char(5, port_end).to_owned();
                let domain = msg.substring_char(port_end + 1, domain_end).to_owned();
                proof {
                    let (p, d) = choose|p: Seq<char>, d: Seq<char>| echo_matches(msg@, p, d);
                    lemma_echo_unique(msg@, port@, domain@, p, d);
                }
                Some(EchoInfo { domain, port })
            },
            None => None,
        }
    }

    /// Reads a SEND and returns its destination domain: the domain after the
    /// recipient. Returns `None` when `msg` does not begin with a SEND.
    pub fn get_receiving_domain(msg: &str) -> (res: Option<String>)
        ensures
            match res {
                Some(d) => exists|f: SendFields| #[trigger] send_matches(msg@, f) && f.dest_domain
                    == d@,
                None => forall|f: SendFields| !send_matches(msg@, f),
            },
            res matches Some(d) ==> forall|f: SendFields| #[trigger]
                send_matches(msg@, f) ==> f.dest_domain == d@,
            match res {
                Some(d) => receiving_domain(msg@) == Some(d@),
                None => receiving_domain(msg@) is None,
            },
    {
        let s = chars_of(msg);
        match scan_send(&s) {
            Some((dest_start, dest_end, fields)) => {
                let ghost f = fields@;
                let d = msg.substring_char(dest_start, dest_end).to_owned();
                proof {
                    assert forall|g: SendFields| #[trigger] send_matches(msg@, g) implies g.dest_domain
                        == d@ by {
                        lemma_send_unique(msg@, f, g);
                    }
                    let g = choose|g: SendFields| send_matches(msg@, g);
                    lemma_send_unique(msg@, f, g);
                }
                Some(d)
            },
            None => None,
        }
    }
}

} // verus!
