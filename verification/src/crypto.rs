//! Reversible key codec.
//!
//! A public key is the QR-alphanumeric cipher of a 4-byte identifier
//! under a server secret, shown in lowercase. The cipher alphabet is
//! uppercase alphanumeric, so folding to lowercase loses nothing:
//! validation folds any input back to uppercase before decoding and
//! accepts the key in any letter case.

use vstd::prelude::*;

verus! {

/// The QR-alphanumeric cipher text that the secret-keyed codec
/// produces for a byte string. The codec is deterministic: the
/// result depends on the secret and the data alone.
pub uninterp spec fn qr_cipher_of(secret: Seq<char>, data: Seq<u8>) -> Seq<char>;

/// The plaintext that the secret-keyed codec recovers from a cipher
/// text, or nothing when the text does not decode under the secret.
pub uninterp spec fn qr_plain_of(secret: Seq<char>, code: Seq<char>) -> Option<Seq<u8>>;

/// An ASCII lowercase letter raised to its uppercase form; every
/// other character is left alone.
pub open spec fn upper_char(c: char) -> char {
    if 'a' <= c && c <= 'z' {
        (((c as u8) - 32) as char)
    } else {
        c
    }
}

/// An ASCII uppercase letter dropped to its lowercase form; every
/// other character is left alone.
pub open spec fn lower_char(c: char) -> char {
    if 'A' <= c && c <= 'Z' {
        (((c as u8) + 32) as char)
    } else {
        c
    }
}

pub open spec fn upper_chars(s: Seq<char>) -> Seq<char> {
    s.map_values(|c: char| upper_char(c))
}

pub open spec fn lower_chars(s: Seq<char>) -> Seq<char> {
    s.map_values(|c: char| lower_char(c))
}

/// Digits and uppercase ASCII letters: the alphabet the cipher text
/// is drawn from.
pub open spec fn is_upper_alnum(c: char) -> bool {
    ('0' <= c && c <= '9') || ('A' <= c && c <= 'Z')
}

pub open spec fn all_upper_alnum(s: Seq<char>) -> bool {
    forall|i: int| 0 <= i < s.len() ==> is_upper_alnum(#[trigger] s[i])
}

/// The identifier carried by four little-endian bytes.
pub open spec fn le_bytes_to_u32(b: Seq<u8>) -> u32
    recommends
        b.len() == 4,
{
    (b[0] as u32) | ((b[1] as u32) << 8) | ((b[2] as u32) << 16) | ((b[3] as u32) << 24)
}

/// The four little-endian bytes of an identifier.
pub open spec fn u32_le_bytes(id: u32) -> Seq<u8> {
    seq![(id & 0xff) as u8, ((id >> 8) & 0xff) as u8, ((id >> 16) & 0xff) as u8, (
    (id >> 24) & 0xff) as u8]
}

/// The canonical (lowercase) key string of an identifier under a
/// secret.
pub open spec fn spec_encode(secret: Seq<char>, id: u32) -> Seq<char> {
    lower_chars(qr_cipher_of(secret, u32_le_bytes(id)))
}

/// The identifier a key string decodes to under a secret, in any
/// letter case, or nothing when the string is not a well-formed key.
pub open spec fn spec_decode(secret: Seq<char>, s: Seq<char>) -> Option<u32> {
    match qr_plain_of(secret, upper_chars(s)) {
        Some(b) => if b.len() == 4 {
            Some(le_bytes_to_u32(b))
        } else {
            None
        },
        None => None,
    }
}

/// What validation makes of an input string: the canonical lowercase
/// key when the input decodes to exactly four bytes, else nothing.
pub open spec fn spec_validate(secret: Seq<char>, s: Seq<char>) -> Option<Seq<char>> {
    if spec_decode(secret, s) is Some {
        Some(lower_chars(upper_chars(s)))
    } else {
        None
    }
}

/// An opaque public key: the canonical lowercase cipher string.
/// Two keys are equal exactly when their canonical forms match.
#[derive(Debug)]
pub struct Key(String);

impl View for Key {
    type V = Seq<char>;

    closed spec fn view(&self) -> Seq<char> {
        self.0@
    }
}

impl Key {
    #[inline(always)]
    pub fn as_str(&self) -> (s: &str)
        ensures
            s@ == self@,
    {
        self.0.as_str()
    }
}

impl Clone for Key {
    fn clone(&self) -> (k: Key)
        ensures
            k@ == self@,
    {
        Key(self.0.clone())
    }
}

impl PartialEq for Key {
    fn eq(&self, other: &Key) -> (r: bool) {
        self.0 == other.0
    }
}

impl Eq for Key {}

impl vstd::std_specs::cmp::PartialEqSpecImpl for Key {
    open spec fn obeys_eq_spec() -> bool {
        true
    }

    open spec fn eq_spec(&self, other: &Key) -> bool {
        self@ == other@
    }
}

/// The key codec, keyed by the server secret.
pub struct Crypto {
    secret: String,
}

/// Relies on short_crypt::ShortCrypt::new and
/// encrypt_to_qr_code_alphanumeric: a deterministic context from the
/// key string, encrypting the data to Base32 QR-alphanumeric text
/// (digits and uppercase letters) with one base character inserted;
/// decrypting that text under the same key gives the data back.
#[verifier::external_body]
fn qr_encrypt(secret: &str, data: &Vec<u8>) -> (r: String)
    ensures
        r@ == qr_cipher_of(secret@, data@),
        all_upper_alnum(r@),
        r@.len() == (data@.len() * 8 + 4) / 5 + 1,
        qr_plain_of(secret@, r@) == Some(data@),
{
    short_crypt::ShortCrypt::new(secret).encrypt_to_qr_code_alphanumeric(data.as_slice())
}

/// Relies on short_crypt::ShortCrypt::new and
/// decrypt_qr_code_alphanumeric: recovers the plaintext of a
/// QR-alphanumeric cipher text under the key, or fails when the text
/// does not decode.
#[verifier::external_body]
fn qr_decrypt(secret: &str, code: &str) -> (r: Option<Vec<u8>>)
    ensures
        (match r {
            Some(v) => qr_plain_of(secret@, code@) == Some(v@),
            None => qr_plain_of(secret@, code@) is None,
        }),
{
    short_crypt::ShortCrypt::new(secret).decrypt_qr_code_alphanumeric(code).ok()
}

/// Relies on str::to_ascii_uppercase: ASCII letters a-z mapped to
/// A-Z, every other character unchanged.
#[verifier::external_body]
fn ascii_upper(s: &str) -> (r: String)
    ensures
        r@ == upper_chars(s@),
{
    s.to_ascii_uppercase()
}

/// Relies on str::to_ascii_lowercase: ASCII letters A-Z mapped to
/// a-z, every other character unchanged.
#[verifier::external_body]
fn ascii_lower(s: &str) -> (r: String)
    ensures
        r@ == lower_chars(s@),
{
    s.to_ascii_lowercase()
}

/// Relies on rand::thread_rng and Rng::gen: a uniformly random
/// 32-bit value; nothing relates two calls.
#[verifier::external_body]
fn random_u32() -> u32 {
    rand::Rng::gen(&mut rand::thread_rng())
}

/// Relies on std's SystemTime for the wall clock: the sub-second
/// nanosecond component of the time since the Unix epoch, or zero
/// when the clock reads before the epoch.
#[verifier::external_body]
fn clock_subsec_nanos() -> (r: u32)
    ensures
        r < 1000000000,
{
    match std::time::SystemTime::now().duration_since(std::time::UNIX_EPOCH) {
        Ok(d) => d.subsec_nanos(),
        Err(_) => 0,
    }
}

/// Folding to uppercase is idempotent: a second pass changes
/// nothing.
pub proof fn lemma_upper_idempotent(s: Seq<char>)
    ensures
        upper_chars(upper_chars(s)) == upper_chars(s),
{
    assert forall|i: int| 0 <= i < s.len() implies upper_char(
        #[trigger] upper_chars(s)[i],
    ) == upper_chars(s)[i] by {
        assert(upper_chars(s)[i] == upper_char(s[i]));
    }
    assert(upper_chars(upper_chars(s)) =~= upper_chars(s));
}

/// On text drawn from the cipher alphabet - no lowercase letters -
/// folding down to lowercase and back up restores the original.
pub proof fn lemma_upper_of_lower(s: Seq<char>)
    requires
        all_upper_alnum(s),
    ensures
        upper_chars(lower_chars(s)) == s,
{
    assert forall|i: int| 0 <= i < s.len() implies upper_char(
        #[trigger] lower_chars(s)[i],
    ) == s[i] by {
        assert(lower_chars(s)[i] == lower_char(s[i]));
        assert(is_upper_alnum(s[i]));
    }
    assert(upper_chars(lower_chars(s)) =~= s);
}

/// Four little-endian bytes carry the identifier exactly.
pub proof fn lemma_le_bytes_round_trip(id: u32)
    ensures
        le_bytes_to_u32(u32_le_bytes(id)) == id,
{
    let b = u32_le_bytes(id);
    assert(b[0] == (id & 0xff) as u8);
    assert(b[1] == ((id >> 8) & 0xff) as u8);
    assert(b[2] == ((id >> 16) & 0xff) as u8);
    assert(b[3] == ((id >> 24) & 0xff) as u8);
    assert((((id & 0xff) as u8) as u32) | ((((id >> 8) & 0xff) as u8) as u32) << 8 | ((((id >> 16)
        & 0xff) as u8) as u32) << 16 | ((((id >> 24) & 0xff) as u8) as u32) << 24 == id)
        by (bit_vector);
}

/// Validation reads the same key out of an input in any letter
/// case: folding the input to uppercase first changes nothing.
pub proof fn lemma_validate_case_insensitive(secret: Seq<char>, s: Seq<char>)
    ensures
        spec_validate(secret, upper_chars(s)) == spec_validate(secret, s),
{
    lemma_upper_idempotent(s);
}

impl Crypto {
    pub closed spec fn spec_secret(&self) -> Seq<char> {
        self.secret@
    }

    pub fn new(secret_key: &str) -> (c: Crypto)
        ensures
            c.spec_secret() == secret_key@,
    {
        Crypto { secret: secret_key.to_owned() }
    }

    /// The canonical key of a given identifier: cipher text folded
    /// to lowercase. Decoding the key gives the identifier back, and
    /// validation accepts the key as it is.
    pub fn encode_id(&self, id: u32) -> (k: Key)
        ensures
            k@ == spec_encode(self.spec_secret(), id),
            spec_decode(self.spec_secret(), k@) == Some(id),
            spec_validate(self.spec_secret(), k@) == Some(k@),
    {
        let mut data: Vec<u8> = Vec::new();
        data.push((id & 0xff) as u8);
        data.push(((id >> 8) & 0xff) as u8);
        data.push(((id >> 16) & 0xff) as u8);
        data.push(((id >> 24) & 0xff) as u8);
        proof {
            assert(data@ =~= u32_le_bytes(id));
        }
        let cipher = qr_encrypt(self.secret.as_str(), &data);
        let lowered = ascii_lower(cipher.as_str());
        proof {
            lemma_upper_of_lower(cipher@);
            lemma_le_bytes_round_trip(id);
            lemma_upper_of_lower(qr_cipher_of(self.spec_secret(), u32_le_bytes(id)));
        }
        Key(lowered)
    }

    /// A fresh key: a random 32-bit value, a sub-second timestamp
    /// component and a second random value mixed by exclusive or,
    /// then encoded. Distinctness is not promised; the caller
    /// retries against the store on collision.
    pub fn generate(&self) -> (k: Key)
        ensures
            exists|id: u32| k@ == spec_encode(self.spec_secret(), id),
            spec_validate(self.spec_secret(), k@) == Some(k@),
    {
        let id = random_u32() ^ clock_subsec_nanos() ^ random_u32();
        let k = self.encode_id(id);
        proof {
            assert(k@ == spec_encode(self.spec_secret(), id));
        }
        k
    }

    /// Accepts a key in any letter case: folds to uppercase, decodes
    /// under the secret, and demands exactly four decoded bytes; the
    /// returned key is the canonical lowercase form.
    pub fn validate(&self, input: &str) -> (r: Option<Key>)
        ensures
            (match r {
                Some(k) => spec_validate(self.spec_secret(), input@) == Some(k@),
                None => spec_validate(self.spec_secret(), input@) is None,
            }),
    {
        let upper = ascii_upper(input);
        let decoded = qr_decrypt(self.secret.as_str(), upper.as_str());
        match decoded {
            Some(v) => {
                if v.len() != 4 {
                    None
                } else {
                    let lowered = ascii_lower(upper.as_str());
                    Some(Key(lowered))
                }
            },
            None => None,
        }
    }
}

} // verus!
