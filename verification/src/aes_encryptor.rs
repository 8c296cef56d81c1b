use vstd::prelude::*;
use vstd::utf8::{decode_utf8, encode_utf8, valid_utf8};

use crate::aead_cipher::{
    aes256_gcm_decrypt,
    aes256_gcm_encrypt,
    aes256_gcm_open,
    aes256_gcm_seal,
    aes_gcm_max_plaintext,
    aes_gcm_tag_len,
};
use crate::base64_text::{
    base64_encoded_len,
    base64_standard_decode,
    base64_standard_encode,
    in_standard_alphabet,
    standard_decode,
    standard_encode,
};
use crate::entropy::thread_rng_iv;
use crate::std_text::string_from_utf8;

verus! {

broadcast use vstd::utf8::encode_utf8_valid_utf8, vstd::utf8::encode_utf8_decode_utf8;

/// The length of the initialisation vector that opens a packet, in bytes.
pub open spec fn iv_len() -> int {
    12
}

/// The AES-256 key that the base64 text `key_base64` gives: the first 32 bytes it
/// decodes to. `None` where it is not base64 or decodes to fewer than 32 bytes.
pub open spec fn aes_key_of(key_base64: Seq<char>) -> Option<Seq<u8>> {
    match base64_standard_decode(key_base64) {
        Some(k) => if k.len() >= 32 {
            Some(k.take(32))
        } else {
            None
        },
        None => None,
    }
}

/// The packet that carries `message`: the initialisation vector followed by the
/// AES-256-GCM encryption of the message's UTF-8 bytes under it.
pub open spec fn packet_bytes(key: Seq<u8>, iv: Seq<u8>, message: Seq<char>) -> Seq<u8> {
    iv + aes256_gcm_seal(key, iv, encode_utf8(message))
}

/// The base64 text of the packet that carries `message`.
pub open spec fn packet_text(key: Seq<u8>, iv: Seq<u8>, message: Seq<char>) -> Seq<char> {
    base64_standard_encode(packet_bytes(key, iv, message))
}

/// A message of `n` UTF-8 bytes can be encrypted and its packet written as
/// base64 text on this machine.
pub open spec fn packet_fits(n: int) -> bool {
    &&& n <= aes_gcm_max_plaintext()
    &&& base64_encoded_len((iv_len() + n + 16) as nat, true) <= usize::MAX
}

pub open spec fn tampered_error() -> Seq<char> {
    "Erreur de décryptage : La clé est incorrecte ou le message à été altéré."@
}

pub open spec fn invalid_utf8_error() -> Seq<char> {
    "Erreur de décryptage : La chaine UTF-8 est invalide."@
}

/// What decrypting `packet` (initialisation vector, then the encrypted bytes)
/// with `key` gives: the text, or the error that says why there is none.
pub open spec fn decrypt_result(key: Seq<u8>, packet: Seq<u8>) -> Result<Seq<char>, Seq<char>> {
    match aes256_gcm_open(key, packet.take(iv_len()), packet.skip(iv_len())) {
        None => Err(tampered_error()),
        Some(p) => if valid_utf8(p) {
            Ok(decode_utf8(p))
        } else {
            Err(invalid_utf8_error())
        },
    }
}

/// `text` is base64 of a packet that decrypts under `key` to `message`, and is
/// written with the standard alphabet only.
pub open spec fn packet_carries(key: Seq<u8>, text: Seq<char>, message: Seq<char>) -> bool {
    &&& base64_standard_decode(text) matches Some(p)
    &&& p.len() == iv_len() + encode_utf8(message).len() + aes_gcm_tag_len()
    &&& decrypt_result(key, p) == Ok::<Seq<char>, Seq<char>>(message)
    &&& forall|i: int| 0 <= i < text.len() ==> #[trigger] in_standard_alphabet(text[i])
}

/// What decrypting `ciphertext` with the key text `key_base64` gives: an error
/// where the key text gives no AES key or the ciphertext is shorter than an
/// initialisation vector, and otherwise what decrypting the packet gives.
pub open spec fn decrypt_text_result(key_base64: Seq<char>, ciphertext: Seq<u8>) -> Result<
    Seq<char>,
    Seq<char>,
> {
    match aes_key_of(key_base64) {
        None => Err(tampered_error()),
        Some(key) => if ciphertext.len() < iv_len() {
            Err(tampered_error())
        } else {
            decrypt_result(key, ciphertext)
        },
    }
}

/// The view of a decryption's result.
pub open spec fn result_view(r: Result<String, String>) -> Result<Seq<char>, Seq<char>> {
    match r {
        Ok(s) => Ok(s@),
        Err(e) => Err(e@),
    }
}

/// Encrypts and decrypts messages with AES-256-GCM, under keys given as base64 text.
pub struct AesEncryptor;

/// The first 32 bytes of `v`.
fn first_32(v: &Vec<u8>) -> (k: [u8; 32])
    requires
        v@.len() >= 32,
    ensures
        k@ == v@.take(32),
{
    let mut k = [0u8; 32];
    for i in 0..32
        invariant
            v@.len() >= 32,
            k@.len() == 32,
            forall|j: int| 0 <= j < i ==> k@[j] == v@[j],
    {
        k[i] = v[i];
    }
    assert(k@ =~= v@.take(32));
    k
}

/// The bytes of `a` followed by those of `b`.
pub(crate) fn concat_bytes(a: &[u8], b: &[u8]) -> (res: Vec<u8>)
    ensures
        res@ == a@ + b@,
{
    let mut res: Vec<u8> = Vec::new();
    for i in 0..a.len()
        invariant
            res@ == a@.take(i as int),
    {
        res.push(a[i]);
        assert(a@.take(i + 1) =~= a@.take(i as int).push(a@[i as int]));
    }
    assert(a@.take(a@.len() as int) =~= a@);
    for i in 0..b.len()
        invariant
            res@ == a@ + b@.take(i as int),
    {
        res.push(b[i]);
        assert(a@ + b@.take(i + 1) =~= (a@ + b@.take(i as int)).push(b@[i as int]));
    }
    assert(b@.take(b@.len() as int) =~= b@);
    res
}

/// The AES key of `key_base64`, or `None` (see `aes_key_of`).
fn decode_key(key_base64: &str) -> (res: Option<[u8; 32]>)
    ensures
        match res {
            Some(k) => aes_key_of(key_base64@) == Some(k@),
            None => aes_key_of(key_base64@) is None,
        },
{
    match standard_decode(key_base64) {
        Ok(decoded) => {
            if decoded.len() >= 32 {
                Some(first_32(&decoded))
            } else {
                None
            }
        },
        Err(_) => None,
    }
}

impl AesEncryptor {
    /// Encrypts `message` under the key of `key_base64` with the initialisation
    /// vector `iv`, and returns the packet as base64 text. Decoding that text and
    /// decrypting it with the same key gives `message` back.
    pub fn encrypt_with_iv(key_base64: &str, message: String, iv: [u8; 12]) -> (res: String)
        requires
            aes_key_of(key_base64@) is Some,
            packet_fits(encode_utf8(message@).len() as int),
        ensures
            res@ == packet_text(aes_key_of(key_base64@)->0, iv@, message@),
            res@.len() == base64_encoded_len(
                (iv_len() + encode_utf8(message@).len() + aes_gcm_tag_len()) as nat,
                true,
            ),
            base64_standard_decode(res@) == Some(
                packet_bytes(aes_key_of(key_base64@)->0, iv@, message@),
            ),
            packet_carries(aes_key_of(key_base64@)->0, res@, message@),
    {
        let key = match decode_key(key_base64) {
            Some(k) => k,
            None => vstd::pervasive::unreached(),
        };
        let text = message.as_str();
        let bytes = text.as_bytes();
        let sealed = match aes256_gcm_encrypt(&key, &iv, bytes) {
            Ok(c) => c,
            Err(_) => vstd::pervasive::unreached(),
        };
        let packet = concat_bytes(iv.as_slice(), sealed.as_slice());
        let res = standard_encode(packet.as_slice());
        proof {
            let p = packet@;
            assert(p.take(iv_len()) =~= iv@);
            assert(p.skip(iv_len()) =~= sealed@);
        }
        res
    }

    /// Encrypts `message` under the key of `key_base64` with a fresh random
    /// initialisation vector, and returns the packet as base64 text. Decoding that
    /// text and decrypting it with the same key gives `message` back.
    pub fn encrypt(key_base64: &str, message: String) -> (res: String)
        requires
            aes_key_of(key_base64@) is Some,
            packet_fits(encode_utf8(message@).len() as int),
        ensures
            exists|iv: Seq<u8>|
                {
                    &&& iv.len() == iv_len()
                    &&& res@ == #[trigger] packet_text(aes_key_of(key_base64@)->0, iv, message@)
                    &&& base64_standard_decode(res@) == Some(
                        packet_bytes(aes_key_of(key_base64@)->0, iv, message@),
                    )
                },
            res@.len() == base64_encoded_len(
                (iv_len() + encode_utf8(message@).len() + aes_gcm_tag_len()) as nat,
                true,
            ),
            packet_carries(aes_key_of(key_base64@)->0, res@, message@),
    {
        let iv = thread_rng_iv();
        Self::encrypt_with_iv(key_base64, message, iv)
    }

    /// `encrypt`, or `None` where `key_base64` gives no AES key.
    pub fn try_encrypt(key_base64: &str, message: String) -> (res: Option<String>)
        requires
            packet_fits(encode_utf8(message@).len() as int),
        ensures
            res is Some <==> aes_key_of(key_base64@) is Some,
            res matches Some(s) ==> exists|iv: Seq<u8>|
                {
                    &&& iv.len() == iv_len()
                    &&& s@ == #[trigger] packet_text(aes_key_of(key_base64@)->0, iv, message@)
                    &&& base64_standard_decode(s@) == Some(
                        packet_bytes(aes_key_of(key_base64@)->0, iv, message@),
                    )
                },
            res matches Some(s) ==> s@.len() == base64_encoded_len(
                (iv_len() + encode_utf8(message@).len() + aes_gcm_tag_len()) as nat,
                true,
            ),
            res matches Some(s) ==> packet_carries(aes_key_of(key_base64@)->0, s@, message@),
    {
        match decode_key(key_base64) {
            Some(_) => Some(Self::encrypt(key_base64, message)),
            None => None,
        }
    }

    /// Decrypts `ciphertext`, an initialisation vector followed by encrypted
    /// bytes, with the key of `key_base64`. Returns the text, or an error message:
    /// that the key is wrong or the message altered (also where the key text gives
    /// no AES key or the ciphertext is shorter than an initialisation vector), or
    /// that the plaintext is not UTF-8.
    pub fn decrypt(key_base64: &str, ciphertext: &Vec<u8>) -> (res: Result<String, String>)
        ensures
            result_view(res) == decrypt_text_result(key_base64@, ciphertext@),
            ciphertext@.len() < iv_len() + aes_gcm_tag_len() ==> result_view(res) == Err::<
                Seq<char>,
                Seq<char>,
            >(tampered_error()),
    {
        let key = match decode_key(key_base64) {
            Some(k) => k,
            None => {
                return Err(
                    "Erreur de décryptage : La clé est incorrecte ou le message à été altéré.".to_owned(),
                );
            },
        };
        if ciphertext.len() < 12 {
            return Err(
                "Erreur de décryptage : La clé est incorrecte ou le message à été altéré.".to_owned(),
            );
        }
        let iv = vstd::slice::slice_subrange(ciphertext.as_slice(), 0, 12);
        let body = vstd::slice::slice_subrange(ciphertext.as_slice(), 12, ciphertext.len());
        proof {
            assert(iv@ =~= ciphertext@.take(iv_len()));
            assert(body@ =~= ciphertext@.skip(iv_len()));
        }
        match aes256_gcm_decrypt(&key, iv, body) {
            Ok(bytes) => match string_from_utf8(bytes) {
                Some(s) => Ok(s),
                None => Err(
                    "Erreur de décryptage : La chaine UTF-8 est invalide.".to_owned(),
                ),
            },
            Err(_) => Err(
                "Erreur de décryptage : La clé est incorrecte ou le message à été altéré.".to_owned(),
            ),
        }
    }
}

/// Two key texts whose decodings agree on their first 32 bytes give the same AES
/// key: the bytes after the 32nd play no part.
pub proof fn lemma_only_first_32_key_bytes(
    key1: Seq<char>,
    key2: Seq<char>,
    bytes1: Seq<u8>,
    bytes2: Seq<u8>,
)
    requires
        base64_standard_decode(key1) == Some(bytes1),
        base64_standard_decode(key2) == Some(bytes2),
        bytes1.len() >= 32,
        bytes2.len() >= 32,
        bytes1.take(32) == bytes2.take(32),
    ensures
        aes_key_of(key1) == aes_key_of(key2),
        aes_key_of(key1) == Some(bytes1.take(32)),
{
}

} // verus!
