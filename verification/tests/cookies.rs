use cbc::cipher::block_padding::Pkcs7;
use cbc::cipher::{BlockEncryptMut, KeyIvInit};
use fbm::browser::BrowserKind;
use fbm::cookies::{
    any_needs_key, check_login_cookies, chromium_cookies, chromium_key,
    chromium_plaintext_to_string, cookie_copy_name, decrypt_chromium_cookie, dedupe_cookies,
    firefox_cookies, keychain_refused, keychain_service, plaintext_value, BrowserCookie,
    ChromiumRow, CookieSearch, FirefoxRow,
};
use fbm::error::{simple_error, SimpleError};
use fbm::paths::Platform;
use sha2::{Digest, Sha256};

fn cookie(domain: &str, path: &str, key: &str, value: &str) -> BrowserCookie {
    BrowserCookie {
        key: key.to_string(),
        name: Some(key.to_string()),
        value: value.to_string(),
        domain: domain.to_string(),
        path: path.to_string(),
        expires: None,
        secure: None,
    }
}

fn encrypt(key: &[u8], plain: &[u8]) -> Vec<u8> {
    let iv = [b' '; 16];
    let mut buf = vec![0u8; plain.len() + 16];
    buf[..plain.len()].copy_from_slice(plain);
    let cipher = cbc::Encryptor::<aes::Aes128>::new_from_slices(key, &iv).unwrap();
    cipher.encrypt_padded_mut::<Pkcs7>(&mut buf, plain.len()).unwrap().to_vec()
}

#[test]
fn strips_chromium_host_hash_cookie_prefix() -> Result<(), SimpleError> {
    let mut plaintext = Sha256::digest(b".facebook.com").to_vec();
    plaintext.extend_from_slice(b"cookie-value");
    assert_eq!(
        chromium_plaintext_to_string(plaintext, ".facebook.com")?,
        "cookie-value"
    );
    Ok(())
}

#[test]
fn a_plaintext_without_the_hash_stays_as_it_is() {
    let hash = [7u8; 32];
    assert_eq!(plaintext_value(b"short".to_vec(), &hash).unwrap(), "short");
    let mut long = vec![b'x'; 40];
    assert_eq!(plaintext_value(long.clone(), &hash).unwrap(), "x".repeat(40));
    long[..32].copy_from_slice(&hash);
    assert_eq!(plaintext_value(long, &hash).unwrap(), "x".repeat(8));
    assert_eq!(plaintext_value(hash.to_vec(), &hash).unwrap(), "\u{7}".repeat(32));
    assert_eq!(
        plaintext_value(vec![b'a', 0xff], &hash).err().unwrap().message,
        "invalid utf-8 sequence of 1 bytes from index 1"
    );
    let other = chromium_plaintext_to_string(Sha256::digest(b".facebook.com").to_vec(), "x");
    assert!(other.is_err());
}

#[test]
fn encrypted_cookies_are_decrypted() {
    let key = [3u8; 16];
    for version in ["v10", "v11"] {
        let mut encrypted = version.as_bytes().to_vec();
        encrypted.extend(encrypt(&key, b"secret value"));
        assert_eq!(
            decrypt_chromium_cookie(&encrypted, &key, ".facebook.com").unwrap(),
            "secret value"
        );
        assert_eq!(
            decrypt_chromium_cookie(&encrypted, &[0u8; 15], ".facebook.com").err().unwrap().message,
            "Invalid Length"
        );
    }
    assert_eq!(
        decrypt_chromium_cookie(b"v10abc", &key, "h").err().unwrap().message,
        "invalid Chromium cookie padding: UnpadError"
    );
    assert_eq!(
        decrypt_chromium_cookie(b"v10", &key, "h").err().unwrap().message,
        "invalid Chromium cookie padding: UnpadError"
    );
    assert_eq!(decrypt_chromium_cookie(b"v12plain", &key, "h").unwrap(), "v12plain");
    assert_eq!(decrypt_chromium_cookie(b"", &key, "h").unwrap(), "");
}

#[test]
fn keys_come_from_passwords() {
    assert_eq!(
        chromium_key(b"peanuts\n".to_vec()).unwrap(),
        vec![217, 160, 157, 73, 155, 78, 27, 116, 97, 242, 142, 103, 151, 44, 109, 189]
    );
    assert!(chromium_key(vec![0xff]).is_err());
}

#[test]
fn the_keychain_is_asked_by_service() {
    for (kind, service) in [
        (BrowserKind::Chrome, "Chrome Safe Storage"),
        (BrowserKind::Brave, "Brave Safe Storage"),
        (BrowserKind::Edge, "Microsoft Edge Safe Storage"),
        (BrowserKind::Comet, "Comet Safe Storage"),
        (BrowserKind::Chromium, "Chromium Safe Storage"),
        (BrowserKind::Firefox, "Chrome Safe Storage"),
    ] {
        assert_eq!(keychain_service(Platform::MacOs, kind).unwrap(), service);
    }
    assert_eq!(
        keychain_service(Platform::Other, BrowserKind::Chrome).err().unwrap().message,
        "encrypted Chromium cookie decryption is currently implemented for macOS; use Firefox or appstate auth"
    );
    assert_eq!(
        keychain_refused("Comet Safe Storage").message,
        "could not read macOS Keychain item `Comet Safe Storage`; allow terminal Keychain access or use Firefox/appstate auth"
    );
}

#[test]
fn of_equal_cookies_the_last_stays() {
    let list = dedupe_cookies(vec![
        cookie("b", "/", "k", "1"),
        cookie("a", "/", "z", "2"),
        cookie("b", "/", "k", "3"),
        cookie("a", "/", "k", "4"),
        cookie("a", "", "z", "5"),
    ]);
    let values: Vec<&str> = list.iter().map(|c| c.value.as_str()).collect();
    assert_eq!(values, vec!["5", "4", "2", "3"]);
    let again = dedupe_cookies(list);
    assert_eq!(again.len(), 4);
    assert_eq!(again[0].value, "5");
}

#[test]
fn firefox_rows_become_cookies() {
    let row = |name: &str, value: &str, expiry: Option<i64>| FirefoxRow {
        name: name.to_string(),
        value: value.to_string(),
        host: ".facebook.com".to_string(),
        path: None,
        expiry,
        is_secure: Some(1),
    };
    let rows = vec![row("xs", "token", Some(2_000_000_000)), row("empty", "", None), row("c_user", "123", None)];
    let cookies = firefox_cookies(&rows);
    assert_eq!(cookies.len(), 2);
    assert_eq!(cookies[0].key, "c_user");
    assert_eq!(cookies[1].expires, Some(2_000_000_000_000));
    assert_eq!(cookies[1].path, "/");
    assert_eq!(cookies[1].secure, Some(true));
    assert_eq!(cookies[1].name.as_deref(), Some("xs"));
    assert!(row("x", "y", Some(9_223_372_036_854_775)).has_fitting_expiry());
    assert!(!row("x", "y", Some(9_223_372_036_854_776)).has_fitting_expiry());
    assert!(row("x", "y", Some(-9_223_372_036_854_775)).has_fitting_expiry());
    assert!(!row("x", "y", Some(i64::MIN)).has_fitting_expiry());
    assert!(row("x", "", Some(i64::MAX)).cookie().is_none());
    let rows = vec![row("x", "", Some(i64::MAX)), row("xs", "token", Some(1))];
    let cookies = firefox_cookies(&rows);
    assert_eq!(cookies.len(), 1);
    assert_eq!(cookies[0].expires, Some(1000));
}

fn chromium_row(name: &str, value: Option<&str>, encrypted: Option<Vec<u8>>) -> ChromiumRow {
    ChromiumRow {
        name: name.to_string(),
        value: value.map(|v| v.to_string()),
        host_key: ".facebook.com".to_string(),
        path: Some("/x".to_string()),
        expires_utc: Some(13_354_473_600_000_000),
        is_secure: None,
        encrypted_value: encrypted,
    }
}

#[test]
fn chromium_rows_become_cookies() {
    let key = [9u8; 16];
    let mut encrypted = b"v10".to_vec();
    encrypted.extend(encrypt(&key, b"hidden"));
    let rows = vec![
        chromium_row("a", Some("plain"), Some(vec![1, 2, 3])),
        chromium_row("b", Some(""), Some(encrypted)),
        chromium_row("c", None, None),
    ];
    assert!(any_needs_key(&rows));
    assert!(!any_needs_key(&rows[..1]));
    let cookies = chromium_cookies(&rows, &key, "/store").unwrap();
    assert_eq!(cookies.len(), 2);
    assert_eq!((cookies[0].value.as_str(), cookies[1].value.as_str()), ("plain", "hidden"));
    assert_eq!(cookies[0].expires, Some(1_710_000_000_000));
    assert_eq!(cookies[0].path, "/x");
    assert_eq!(cookies[0].secure, None);
    assert_eq!(
        chromium_cookies(&rows, &[], "/store").err().unwrap().message,
        "decrypt Chromium cookie `b` from /store: Invalid Length"
    );
}

#[test]
fn a_login_needs_its_cookies() {
    let user = cookie(".facebook.com", "/", "c_user", "1");
    let mut xs = cookie(".facebook.com", "/", "other", "2");
    assert_eq!(
        check_login_cookies(&[]).err().unwrap().message,
        "browser cookies did not include required Facebook cookie `c_user`; log into facebook.com in the selected browser profile first"
    );
    assert_eq!(
        check_login_cookies(&[user]).err().unwrap().message,
        "browser cookies did not include required Facebook cookie `xs`; log into facebook.com in the selected browser profile first"
    );
    xs.name = Some("xs".to_string());
    assert!(check_login_cookies(&[cookie("", "", "c_user", "1"), xs]).is_ok());
}

#[test]
fn the_search_ends_at_the_first_store_with_cookies() {
    let mut search = CookieSearch::new();
    assert!(search.take("/a", Ok(vec![])).is_none());
    assert!(search.take("/b", Err(simple_error("broken".to_string()))).is_none());
    assert_eq!(
        search.failure().message,
        "could not load Facebook cookies from browser profiles. Tried:\n/a had no Facebook cookies\n/b: broken"
    );
    let found = search.take("/c", Ok(vec![cookie("d", "/", "k", "v")])).unwrap();
    assert_eq!(found.len(), 1);
    assert_eq!(search.notes.len(), 2);
}

#[test]
fn stores_are_copied_under_a_name_with_the_time() {
    assert_eq!(cookie_copy_name(17, "/home/u/Cookies"), "17-Cookies");
    assert_eq!(cookie_copy_name(-1, "/"), "-1-cookies.sqlite");
}
