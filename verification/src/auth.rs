//! HTTP Basic authentication against accounts whose passwords are kept as
//! PBKDF2-HMAC-SHA256 hashes.

use vstd::prelude::*;
use vstd::string::*;
use vstd::utf8::*;
use crate::text::{lemma_ascii_str, push_all, str_from_utf8};

verus! {

/// Capacity of the buffer the credentials are decoded into.
pub const CREDENTIALS_CAPACITY: usize = 128;

/// PBKDF2-HMAC-SHA256 of `password` with `salt` and `rounds` iterations, 32 bytes.
pub uninterp spec fn pbkdf2_hmac_sha256(password: Seq<u8>, salt: Seq<u8>, rounds: u32) -> Seq<u8>;

/// What `BASE64_STANDARD.decode_slice` writes into a buffer of `capacity`
/// bytes for `input`, or `None` when it fails (the input is not standard
/// padded base64, or the buffer is too small for what it decodes to).
pub uninterp spec fn base64_standard_decode(input: Seq<u8>, capacity: nat) -> Option<Seq<u8>>;

/// Whitespace as `char::is_whitespace` has it: the characters of Unicode's
/// `White_Space` property.
pub open spec fn is_white_space(c: char) -> bool {
    ||| '\u{9}' <= c <= '\u{d}'
    ||| c == ' '
    ||| c == '\u{85}'
    ||| c == '\u{a0}'
    ||| c == '\u{1680}'
    ||| '\u{2000}' <= c <= '\u{200a}'
    ||| c == '\u{2028}'
    ||| c == '\u{2029}'
    ||| c == '\u{202f}'
    ||| c == '\u{205f}'
    ||| c == '\u{3000}'
}

/// `s` without its leading whitespace.
pub open spec fn trim_start_whitespace(s: Seq<char>) -> Seq<char>
    decreases s.len(),
{
    if s.len() > 0 && is_white_space(s[0]) {
        trim_start_whitespace(s.drop_first())
    } else {
        s
    }
}

/// `s` without its trailing whitespace.
pub open spec fn trim_end_whitespace(s: Seq<char>) -> Seq<char>
    decreases s.len(),
{
    if s.len() > 0 && is_white_space(s.last()) {
        trim_end_whitespace(s.drop_last())
    } else {
        s
    }
}

/// `s` without leading and trailing whitespace.
pub open spec fn trim_whitespace(s: Seq<char>) -> Seq<char> {
    trim_end_whitespace(trim_start_whitespace(s))
}

/// `pbkdf2::pbkdf2_hmac_array::<sha2::Sha256, 32>`.
#[verifier::external_body]
fn pbkdf2_sha256(password: &[u8], salt: &[u8], rounds: u32) -> (r: [u8; 32])
    ensures
        r@ == pbkdf2_hmac_sha256(password@, salt@, rounds),
{
    pbkdf2::pbkdf2_hmac_array::<sha2::Sha256, 32>(password, salt, rounds)
}

/// `base64::prelude::BASE64_STANDARD.decode_slice` into a buffer of
/// `capacity` bytes: the decoded bytes, which fit the buffer, or `None`.
#[verifier::external_body]
fn base64_decode_slice(input: &[u8], capacity: usize) -> (r: Option<Vec<u8>>)
    ensures
        r matches Some(d) ==> Some(d@) == base64_standard_decode(input@, capacity as nat) && d@.len() <= capacity,
        r is None ==> base64_standard_decode(input@, capacity as nat) is None,
{
    let mut buffer = vec![0u8; capacity];
    match base64::Engine::decode_slice(&base64::prelude::BASE64_STANDARD, input, &mut buffer) {
        Ok(length) => {
            buffer.truncate(length);
            Some(buffer)
        },
        Err(_) => None,
    }
}

/// `str::trim`: the slice without leading and trailing whitespace, where
/// whitespace is Unicode's `White_Space` property, as std documents it.
#[verifier::external_body]
fn str_trim(s: &str) -> (r: &str)
    ensures
        r@ == trim_whitespace(s@),
{
    s.trim()
}

/// `str::strip_prefix` with a string prefix: the rest, when `s` starts with
/// the bytes of `prefix`.
#[verifier::external_body]
fn str_strip_prefix<'a>(s: &'a str, prefix: &str) -> (r: Option<&'a str>)
    ensures
        r is Some <==> (prefix.spec_bytes().len() <= s.spec_bytes().len()
            && s.spec_bytes().take(prefix.spec_bytes().len() as int) == prefix.spec_bytes()),
        r matches Some(t) ==> t.spec_bytes() == s.spec_bytes().skip(prefix.spec_bytes().len() as int),
{
    s.strip_prefix(prefix)
}

/// An account: its name and the hash of its password.
pub struct User {
    pub name: String,
    pub password_hash: [u8; 32],
}

/// The accounts of the control panel and how their passwords are hashed.
pub struct Authorizer {
    pub salt: String,
    pub rounds: u32,
    pub users: Vec<User>,
}

/// The bytes `Basic`.
pub open spec fn basic_scheme() -> Seq<u8> {
    seq![66u8, 97u8, 115u8, 105u8, 99u8]
}

/// Position of the first `:` in `d`.
pub open spec fn first_colon(d: Seq<u8>) -> Option<int> {
    if exists|i: int| 0 <= i < d.len() && d[i] == 0x3a {
        Some(choose|i: int| 0 <= i < d.len() && d[i] == 0x3a && forall|j: int| 0 <= j < i ==> d[j] != 0x3a)
    } else {
        None
    }
}

/// The credentials an `Authorization` header value carries, still in one
/// piece: the value is UTF-8 and starts with `Basic`, and the rest, trimmed, is
/// standard base64 of at most [`CREDENTIALS_CAPACITY`] bytes.
pub open spec fn credential_bytes(header: Seq<u8>) -> Option<Seq<u8>> {
    if !valid_utf8(header) || header.len() < 5 || header.take(5) != basic_scheme() {
        None
    } else {
        base64_standard_decode(encode_utf8(trim_whitespace(decode_utf8(header.skip(5)))), CREDENTIALS_CAPACITY as nat)
    }
}

/// Name and password out of `d`: UTF-8 holding a `:`, which separates them.
pub open spec fn split_credentials(d: Seq<u8>) -> Option<(Seq<u8>, Seq<u8>)> {
    if !valid_utf8(d) {
        None
    } else {
        match first_colon(d) {
            None => None,
            Some(i) => Some((d.take(i), d.skip(i + 1))),
        }
    }
}

/// The user name and password an `Authorization` header value carries.
pub open spec fn basic_credentials(header: Seq<u8>) -> Option<(Seq<u8>, Seq<u8>)> {
    match credential_bytes(header) {
        None => None,
        Some(d) => split_credentials(d),
    }
}

impl Authorizer {
    /// The account `name` has the password `password`.
    pub open spec fn accepts(&self, name: Seq<u8>, password: Seq<u8>) -> bool {
        exists|i: int|
            0 <= i < self.users@.len()
            && encode_utf8(#[trigger] self.users@[i].name@) == name
            && self.users@[i].password_hash@ == pbkdf2_hmac_sha256(password, encode_utf8(self.salt@), self.rounds)
    }

    fn authorize_bytes(&self, username: &[u8], password: &[u8]) -> (r: bool)
        ensures
            r == self.accepts(username@, password@),
    {
        let hash = pbkdf2_sha256(password, self.salt.as_str().as_bytes(), self.rounds);
        let mut i: usize = 0;
        while i < self.users.len()
            invariant
                i <= self.users@.len(),
                hash@ == pbkdf2_hmac_sha256(password@, encode_utf8(self.salt@), self.rounds),
                forall|k: int| 0 <= k < i ==> !(encode_utf8(#[trigger] self.users@[k].name@) == username@
                    && self.users@[k].password_hash@ == hash@),
            decreases self.users@.len() - i,
        {
            let user = &self.users[i];
            if bytes_equal(user.name.as_str().as_bytes(), username) && bytes_equal(&user.password_hash, &hash) {
                assert(encode_utf8(self.users@[i as int].name@) == username@);
                return true;
            }
            i = i + 1;
        }
        false
    }

    /// Whether `username` is an account and `password` its password.
    pub fn authorize(&self, username: &str, password: &str) -> (r: bool)
        ensures
            r == self.accepts(username.spec_bytes(), password.spec_bytes()),
    {
        self.authorize_bytes(username.as_bytes(), password.as_bytes())
    }

    /// Whether the value of an `Authorization` header (absent: `None`) carries
    /// the credentials of an account.
    pub fn authenticate(&self, header: Option<&[u8]>) -> (r: bool)
        ensures
            r == (header matches Some(h) && basic_credentials(h@) matches Some((name, password))
                && self.accepts(name, password)),
    {
        let raw = match header {
            Some(h) => h,
            None => return false,
        };
        match parse_basic_credentials(raw) {
            Some((username, password)) => self.authorize_bytes(username.as_slice(), password.as_slice()),
            None => false,
        }
    }
}

/// With no accounts nobody can log in: no name and password are accepted, so
/// every request that needs a login is refused.
pub proof fn lemma_no_accounts_no_login(a: &Authorizer, name: Seq<u8>, password: Seq<u8>)
    requires
        a.users@.len() == 0,
    ensures
        !a.accepts(name, password),
{
}

/// The user name and password of an `Authorization` header value; see
/// [`basic_credentials`].
pub fn parse_basic_credentials(raw: &[u8]) -> (r: Option<(Vec<u8>, Vec<u8>)>)
    ensures
        match basic_credentials(raw@) {
            Some((name, password)) => r matches Some((n, p)) && n@ == name && p@ == password,
            None => r is None,
        },
{
    match decode_credentials(raw) {
        Some(d) => split_credentials_of(d.as_slice()),
        None => None,
    }
}

fn decode_credentials(raw: &[u8]) -> (r: Option<Vec<u8>>)
    ensures
        match credential_bytes(raw@) {
            Some(d) => r matches Some(v) && v@ == d,
            None => r is None,
        },
{
    let value = match str_from_utf8(raw) {
        Some(v) => v,
        None => return None,
    };
    proof {
        reveal_strlit("Basic");
        lemma_ascii_str("Basic");
        assert("Basic".spec_bytes() =~= basic_scheme());
    }
    let rest = match str_strip_prefix(value, "Basic") {
        Some(rest) => rest,
        None => return None,
    };
    proof {
        encode_utf8_decode_utf8(rest@);
    }
    let encoded = str_trim(rest);
    base64_decode_slice(encoded.as_bytes(), CREDENTIALS_CAPACITY)
}

fn split_credentials_of(decoded: &[u8]) -> (r: Option<(Vec<u8>, Vec<u8>)>)
    ensures
        match split_credentials(decoded@) {
            Some((name, password)) => r matches Some((n, p)) && n@ == name && p@ == password,
            None => r is None,
        },
{
    if str_from_utf8(decoded).is_none() {
        return None;
    }
    let colon = match find_colon(decoded) {
        Some(i) => i,
        None => return None,
    };
    let n = decoded.len();
    let mut username: Vec<u8> = Vec::new();
    push_all(&mut username, vstd::slice::slice_subrange(decoded, 0, colon));
    let mut password: Vec<u8> = Vec::new();
    push_all(&mut password, vstd::slice::slice_subrange(decoded, colon + 1, n));
    assert(username@ =~= decoded@.take(colon as int));
    assert(password@ =~= decoded@.skip(colon + 1));
    assert(first_colon(decoded@) == Some(colon as int));
    assert(valid_utf8(decoded@));
    assert(split_credentials(decoded@) == Some((decoded@.take(colon as int), decoded@.skip(colon + 1))));
    Some((username, password))
}

/// Whether two byte strings are equal.
fn bytes_equal(a: &[u8], b: &[u8]) -> (r: bool)
    ensures
        r == (a@ == b@),
{
    if a.len() != b.len() {
        return false;
    }
    let mut i: usize = 0;
    while i < a.len()
        invariant
            i <= a@.len(),
            a@.len() == b@.len(),
            forall|k: int| 0 <= k < i ==> a@[k] == b@[k],
        decreases a@.len() - i,
    {
        if a[i] != b[i] {
            return false;
        }
        i = i + 1;
    }
    assert(a@ =~= b@);
    true
}

/// The position of the first `:`.
fn find_colon(d: &[u8]) -> (r: Option<usize>)
    ensures
        first_colon(d@) == (match r {
            Some(c) => Some(c as int),
            None => None,
        }),
        r matches Some(i) ==> i < d@.len(),
{
    let mut i: usize = 0;
    while i < d.len()
        invariant
            i <= d@.len(),
            forall|j: int| 0 <= j < i ==> d@[j] != 0x3a,
        decreases d@.len() - i,
    {
        if d[i] == 0x3a {
            assert(exists|k: int| 0 <= k < d@.len() && d@[k] == 0x3a);
            let ghost c = choose|k: int| 0 <= k < d@.len() && d@[k] == 0x3a && forall|j: int| 0 <= j < k ==> d@[j] != 0x3a;
            assert(0 <= i < d@.len() && d@[i as int] == 0x3a && forall|j: int| 0 <= j < i ==> d@[j] != 0x3a);
            assert(c == i) by {
                if c < i {
                    assert(d@[c] != 0x3a);
                } else if c > i {
                    assert(d@[i as int] != 0x3a);
                }
            }
            return Some(i);
        }
        i = i + 1;
    }
    None
}

} // verus!
