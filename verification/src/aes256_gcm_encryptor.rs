use vstd::prelude::*;
use vstd::string::{StrSliceExecFns, StringExecFns};
use vstd::utf8::encode_utf8;

use crate::aead_cipher::{
    aes256_gcm_decrypt,
    aes256_gcm_encrypt,
    aes256_gcm_open,
    aes256_gcm_seal,
    aes_gcm_max_plaintext,
};
use crate::base64_text::{
    base64_encoded_len,
    base64_url_decode,
    base64_url_encode,
    in_url_alphabet,
    url_decode,
    url_encode,
};
use crate::entropy::random_nonce;
use crate::protocol::chars_of;
use crate::std_text::{string_from_utf8_lossy, utf8_lossy};

verus! {

broadcast use vstd::utf8::encode_utf8_valid_utf8, vstd::utf8::encode_utf8_decode_utf8;

/// No character of `s` is a colon.
pub open spec fn colon_free(s: Seq<char>) -> bool {
    forall|i: int| 0 <= i < s.len() ==> s[i] != ':'
}

/// `text` splits on its colons into `first`, `second`, and possibly more parts:
/// `first` runs up to the first colon and `second` from there up to the next
/// colon or the end.
pub open spec fn splits_at_colons(text: Seq<char>, first: Seq<char>, second: Seq<char>) -> bool {
    &&& colon_free(first)
    &&& colon_free(second)
    &&& (text == first + seq![':'] + second || (first + seq![':'] + second + seq![
        ':',
    ]).is_prefix_of(text))
}

/// The first two colon-separated parts of `text`; `None` where it has no colon.
pub open spec fn colon_parts(text: Seq<char>) -> Option<(Seq<char>, Seq<char>)> {
    if exists|a: Seq<char>, b: Seq<char>| splits_at_colons(text, a, b) {
        Some(choose|a: Seq<char>, b: Seq<char>| splits_at_colons(text, a, b))
    } else {
        None
    }
}

/// The text of an encryption of `plaintext` under `key` with `nonce`: the
/// URL-safe base64 of the nonce, a colon, and the URL-safe base64 of the
/// encrypted UTF-8 bytes of the plaintext.
pub open spec fn sealed_text(key: Seq<u8>, nonce: Seq<u8>, plaintext: Seq<char>) -> Seq<char> {
    base64_url_encode(nonce) + seq![':'] + base64_url_encode(
        aes256_gcm_seal(key, nonce, encode_utf8(plaintext)),
    )
}

/// The two parts of `sealed_text(key, nonce, plaintext)`, each colon-free: the
/// 16 characters of the nonce's text, and the text of the encrypted bytes, whose
/// length is that of the base64 of the plaintext's bytes and the 16-byte tag.
pub open spec fn sealed_parts_shaped(key: Seq<u8>, nonce: Seq<u8>, plaintext: Seq<char>) -> bool {
    let a = base64_url_encode(nonce);
    let b = base64_url_encode(aes256_gcm_seal(key, nonce, encode_utf8(plaintext)));
    &&& a.len() == 16
    &&& b.len() == base64_encoded_len((encode_utf8(plaintext).len() + 16) as nat, false)
    &&& colon_free(a)
    &&& colon_free(b)
}

/// What decrypting `text` with `key` gives: the plaintext read as UTF-8 (lossily),
/// or `None` where `text` has no colon, a part is not URL-safe base64, the
/// nonce is not 12 bytes long, or the key or the message is wrong.
pub open spec fn decrypt_outcome(key: Seq<u8>, text: Seq<char>) -> Option<Seq<char>> {
    match colon_parts(text) {
        None => None,
        Some((a, b)) => match (base64_url_decode(a), base64_url_decode(b)) {
            (Some(nonce), Some(ciphertext)) => if nonce.len() == 12 {
                match aes256_gcm_open(key, nonce, ciphertext) {
                    Some(p) => Some(utf8_lossy(p)),
                    None => None,
                }
            } else {
                None
            },
            _ => None,
        },
    }
}

/// A plaintext of `n` UTF-8 bytes can be encrypted and written out on this machine.
pub open spec fn plaintext_fits(n: int) -> bool {
    &&& n <= aes_gcm_max_plaintext()
    &&& base64_encoded_len((n + 16) as nat, false) <= usize::MAX
}

/// A text splits on its colons in one way only.
pub proof fn lemma_colon_parts_unique(
    text: Seq<char>,
    a1: Seq<char>,
    b1: Seq<char>,
    a2: Seq<char>,
    b2: Seq<char>,
)
    requires
        splits_at_colons(text, a1, b1),
        splits_at_colons(text, a2, b2),
    ensures
        a1 == a2,
        b1 == b2,
{
    lemma_split_positions(text, a1, b1);
    lemma_split_positions(text, a2, b2);
    if a1.len() < a2.len() {
        assert(text[a1.len() as int] == a2[a1.len() as int]);
    }
    if a2.len() < a1.len() {
        assert(text[a2.len() as int] == a1[a2.len() as int]);
    }
    assert(a1 =~= a2);
    let s = a1.len() as int + 1;
    if b1.len() < b2.len() {
        assert(text[s + b1.len()] == b2[b1.len() as int]);
    }
    if b2.len() < b1.len() {
        assert(text[s + b2.len()] == b1[b2.len() as int]);
    }
    assert(b1 =~= b2);
}

proof fn lemma_split_positions(text: Seq<char>, a: Seq<char>, b: Seq<char>)
    requires
        splits_at_colons(text, a, b),
    ensures
        a.len() + 1 + b.len() <= text.len(),
        forall|i: int| 0 <= i < a.len() ==> text[i] == a[i],
        text[a.len() as int] == ':',
        forall|i: int| 0 <= i < b.len() ==> text[a.len() + 1 + i] == b[i],
        a.len() + 1 + b.len() == text.len() || text[a.len() as int + 1 + b.len()] == ':',
{
    let t = a + seq![':'] + b;
    if text == t {
    } else {
        let u = t + seq![':'];
        assert forall|i: int| 0 <= i < u.len() implies text[i] == u[i] by {
            assert(u[i] == text.subrange(0, u.len() as int)[i]);
        }
        assert(text[t.len() as int] == u[t.len() as int]);
    }
    assert forall|i: int| 0 <= i < t.len() implies text[i] == t[i] by {
        if text != t {
            let u = t + seq![':'];
            assert(u[i] == t[i]);
        }
    }
    assert forall|i: int| 0 <= i < a.len() implies text[i] == a[i] by {
        assert(t[i] == a[i]);
    }
    assert(t[a.len() as int] == ':');
    assert forall|i: int| 0 <= i < b.len() implies text[a.len() + 1 + i] == b[i] by {
        assert(t[a.len() + 1 + i] == b[i]);
    }
}

/// Encrypts and decrypts texts with AES-256-GCM under a fixed key.
pub struct Aes256GcmEncryptor {
    key: [u8; 32],
}

/// The position of the first colon of `s` at or after `from`, or `s.len()`.
fn next_colon(s: &Vec<char>, from: usize) -> (res: usize)
    requires
        from <= s@.len(),
    ensures
        from <= res <= s@.len(),
        forall|i: int| from <= i < res ==> s@[i] != ':',
        res < s@.len() ==> s@[res as int] == ':',
{
    let mut i = from;
    while i < s.len() && s[i] != ':'
        invariant
            from <= i <= s@.len(),
            forall|j: int| from <= j < i ==> s@[j] != ':',
        decreases s@.len() - i,
    {
        i = i + 1;
    }
    i
}

/// The first two colon-separated parts of `text`, as strings.
fn split_colon_parts(text: &str) -> (res: Option<(String, String)>)
    ensures
        match res {
            Some((a, b)) => colon_parts(text@) == Some((a@, b@)),
            None => colon_parts(text@) is None,
        },
{
    let s = chars_of(text);
    let i = next_colon(&s, 0);
    if i == s.len() {
        proof {
            assert forall|a: Seq<char>, b: Seq<char>| !splits_at_colons(text@, a, b) by {
                if splits_at_colons(text@, a, b) {
                    lemma_split_positions(text@, a, b);
                }
            }
        }
        return None;
    }
    let j = next_colon(&s, i + 1);
    let a = text.substring_char(0, i).to_owned();
    let b = text.substring_char(i + 1, j).to_owned();
    proof {
        let t = a@ + seq![':'] + b@;
        if j == s@.len() {
            assert(text@ =~= t);
        } else {
            assert((t + seq![':']) =~= text@.subrange(0, j + 1));
        }
        assert(splits_at_colons(text@, a@, b@));
        let (x, y) = choose|x: Seq<char>, y: Seq<char>| splits_at_colons(text@, x, y);
        lemma_colon_parts_unique(text@, a@, b@, x, y);
    }
    Some((a, b))
}

impl Aes256GcmEncryptor {
    /// The key that this encryptor uses.
    pub closed spec fn key(&self) -> Seq<u8> {
        self.key@
    }

    pub fn new(key: [u8; 32]) -> (res: Aes256GcmEncryptor)
        ensures
            res.key() == key@,
    {
        Aes256GcmEncryptor { key }
    }

    /// Encrypts `plaintext` with `nonce`, as `nonce:ciphertext` in URL-safe base64.
    /// Decrypting the result gives `plaintext` back.
    pub fn encrypt_with_nonce(&self, plaintext: &str, nonce: [u8; 12]) -> (res: String)
        requires
            plaintext_fits(encode_utf8(plaintext@).len() as int),
        ensures
            res@ == sealed_text(self.key(), nonce@, plaintext@),
            sealed_parts_shaped(self.key(), nonce@, plaintext@),
            forall|i: int| 0 <= i < res@.len() ==> res@[i] == ':' || in_url_alphabet(#[trigger] res@[i]),
            decrypt_outcome(self.key(), res@) == Some(plaintext@),
    {
        let nonce_str = url_encode(nonce.as_slice());
        let ciphertext = match aes256_gcm_encrypt(&self.key, &nonce, plaintext.as_bytes()) {
            Ok(c) => c,
            Err(_) => vstd::pervasive::unreached(),
        };
        let ciphertext_str = url_encode(ciphertext.as_slice());
        let mut res = nonce_str;
        res.append(":");
        res.append(ciphertext_str.as_str());
        proof {
            reveal_strlit(":");
            let a = base64_url_encode(nonce@);
            let b = base64_url_encode(ciphertext@);
            assert(res@ =~= a + seq![':'] + b);
            assert(colon_free(a)) by {
                assert forall|i: int| 0 <= i < a.len() implies a[i] != ':' by {
                    assert(in_url_alphabet(a[i]));
                }
            }
            assert(colon_free(b)) by {
                assert forall|i: int| 0 <= i < b.len() implies b[i] != ':' by {
                    assert(in_url_alphabet(b[i]));
                }
            }
            assert(splits_at_colons(res@, a, b));
            let (x, y) = choose|x: Seq<char>, y: Seq<char>| splits_at_colons(res@, x, y);
            lemma_colon_parts_unique(res@, a, b, x, y);
        }
        res
    }

    /// Encrypts `plaintext` with a fresh random nonce, as `nonce:ciphertext` in
    /// URL-safe base64. Decrypting the result gives `plaintext` back.
    pub fn encrypt(&self, plaintext: &str) -> (res: String)
        requires
            plaintext_fits(encode_utf8(plaintext@).len() as int),
        ensures
            exists|nonce: Seq<u8>|
                {
                    &&& nonce.len() == 12
                    &&& res@ == #[trigger] sealed_text(self.key(), nonce, plaintext@)
                    &&& sealed_parts_shaped(self.key(), nonce, plaintext@)
                },
            forall|i: int| 0 <= i < res@.len() ==> res@[i] == ':' || in_url_alphabet(#[trigger] res@[i]),
            decrypt_outcome(self.key(), res@) == Some(plaintext@),
    {
        let nonce = random_nonce();
        self.encrypt_with_nonce(plaintext, nonce)
    }

    fn open_text(&self, ciphertext_str: &str) -> (res: Option<String>)
        ensures
            match res {
                Some(p) => decrypt_outcome(self.key(), ciphertext_str@) == Some(p@),
                None => decrypt_outcome(self.key(), ciphertext_str@) is None,
            },
    {
        let (nonce_str, ciphertext_part) = match split_colon_parts(ciphertext_str) {
            Some(parts) => parts,
            None => {
                return None;
            },
        };
        let nonce = match url_decode(nonce_str.as_str()) {
            Ok(n) => n,
            Err(_) => {
                return None;
            },
        };
        let ciphertext = match url_decode(ciphertext_part.as_str()) {
            Ok(c) => c,
            Err(_) => {
                return None;
            },
        };
        if nonce.len() != 12 {
            return None;
        }
        match aes256_gcm_decrypt(&self.key, nonce.as_slice(), ciphertext.as_slice()) {
            Ok(plaintext) => Some(string_from_utf8_lossy(plaintext.as_slice())),
            Err(_) => None,
        }
    }

    /// Decrypts a `nonce:ciphertext` text made by `encrypt` and reads the
    /// plaintext as UTF-8, replacing what is not UTF-8.
    pub fn decrypt(&self, ciphertext_str: &str) -> (res: String)
        requires
            decrypt_outcome(self.key(), ciphertext_str@) is Some,
        ensures
            res@ == decrypt_outcome(self.key(), ciphertext_str@)->0,
    {
        match self.open_text(ciphertext_str) {
            Some(p) => p,
            None => vstd::pervasive::unreached(),
        }
    }

    /// `decrypt`, or `None` where the text cannot be decrypted.
    pub fn try_decrypt(&self, ciphertext_str: &str) -> (res: Option<String>)
        ensures
            match res {
                Some(p) => decrypt_outcome(self.key(), ciphertext_str@) == Some(p@),
                None => decrypt_outcome(self.key(), ciphertext_str@) is None,
            },
    {
        match self.open_text(ciphertext_str) {
            Some(_) => Some(self.decrypt(ciphertext_str)),
            None => None,
        }
    }
}

} // verus!
