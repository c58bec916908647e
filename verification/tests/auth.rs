use ayachi_door_access::auth::{parse_basic_credentials, Authorizer, User};
use base64::Engine;

const SALT: &str = "salt-of-this-build";
const ROUNDS: u32 = 16;

fn hash(password: &str) -> [u8; 32] {
    pbkdf2::pbkdf2_hmac_array::<sha2::Sha256, 32>(password.as_bytes(), SALT.as_bytes(), ROUNDS)
}

fn authorizer() -> Authorizer {
    Authorizer {
        salt: SALT.to_string(),
        rounds: ROUNDS,
        users: vec![
            User { name: "admin".to_string(), password_hash: hash("secret") },
            User { name: "guest".to_string(), password_hash: hash("pa:ss") },
        ],
    }
}

fn header(credentials: &str) -> Vec<u8> {
    format!("Basic {}", base64::prelude::BASE64_STANDARD.encode(credentials)).into_bytes()
}

#[test]
fn authorize_checks_name_and_password_hash() {
    let a = authorizer();
    assert!(a.authorize("admin", "secret"));
    assert!(!a.authorize("admin", "Secret"));
    assert!(!a.authorize("root", "secret"));
    assert!(a.authorize("guest", "pa:ss"));
}

#[test]
fn no_accounts_means_no_login() {
    let a = Authorizer { salt: SALT.to_string(), rounds: ROUNDS, users: vec![] };
    assert!(!a.authorize("admin", "secret"));
    assert!(!a.authenticate(Some(&header("admin:secret"))));
}

#[test]
fn basic_header_with_right_credentials_passes() {
    let a = authorizer();
    assert!(a.authenticate(Some(&header("admin:secret"))));
    assert!(a.authenticate(Some(b"Basic YWRtaW46c2VjcmV0")));
}

#[test]
fn password_may_hold_colons() {
    let a = authorizer();
    assert!(a.authenticate(Some(&header("guest:pa:ss"))));
    assert_eq!(
        parse_basic_credentials(&header("guest:pa:ss")),
        Some((b"guest".to_vec(), b"pa:ss".to_vec()))
    );
}

#[test]
fn surrounding_whitespace_is_trimmed() {
    let a = authorizer();
    assert!(a.authenticate(Some(b"Basic    YWRtaW46c2VjcmV0  ")));
    assert!(a.authenticate(Some(b"BasicYWRtaW46c2VjcmV0")));
    assert!(a.authenticate(Some("Basic\t\u{3000}YWRtaW46c2VjcmV0\r\n\u{a0}".as_bytes())));
    assert!(!a.authenticate(Some("Basic \u{200b}YWRtaW46c2VjcmV0".as_bytes())));
}

#[test]
fn wrong_or_missing_credentials_fail() {
    let a = authorizer();
    assert!(!a.authenticate(None));
    assert!(!a.authenticate(Some(&header("admin:wrong"))));
    assert!(!a.authenticate(Some(b"Bearer YWRtaW46c2VjcmV0")));
    assert!(!a.authenticate(Some(b"basic YWRtaW46c2VjcmV0")));
    assert!(!a.authenticate(Some(b"Basic YWRtaW46c2VjcmV0!")));
    assert!(!a.authenticate(Some(b"Basic \xff\xfe")));
    assert!(!a.authenticate(Some(&header("adminsecret"))));
}

#[test]
fn credentials_must_fit_the_buffer_and_be_utf8() {
    let long = format!("admin:{}", "x".repeat(200));
    assert_eq!(parse_basic_credentials(&header(&long)), None);
    let mut raw = b"Basic ".to_vec();
    raw.extend(base64::prelude::BASE64_STANDARD.encode([0x61u8, 0x3a, 0xff]).bytes());
    assert_eq!(parse_basic_credentials(&raw), None);
    assert_eq!(parse_basic_credentials(&header("a:")), Some((b"a".to_vec(), vec![])));
}
