//! The cookies of browsers, from the rows of their stores to a login.
use vstd::prelude::*;
use vstd::string::StringSliceAdditionalSpecFns;

use crate::browser::BrowserKind;
use crate::crypto::{
    aes128_cbc, aes128_cbc_of, pbkdf2_sha1, pbkdf2_sha1_of, sha256, sha256_of, utf8_fault,
    utf8_text, CipherFault,
};
use crate::error::{error2, error3, outcome, simple_error, SimpleError};
use crate::number::{i64_text, int_text, opt_int};
use crate::order::{key_before, text_before, text_order, Order};
use crate::parts::{is_white, join, join_all, lemma_trim_end_white, trim_end, trimmed_end};
use crate::paths::{file_name, last_name, Platform};
use crate::sorted::{collect, collected, last_of_key, Keyed};
use crate::text::{
    contains_text, is_text, lemma_end_is_found, lemma_found_stays, lemma_part_is_found,
    lemma_texts_push, opt_text, same, starts_with, text_or_empty, texts, Text,
};
use crate::time::chromium_time_to_ms;

verus! {

/// A cookie.
#[derive(Debug)]
pub struct BrowserCookie {
    pub key: String,
    pub name: Option<String>,
    pub value: String,
    pub domain: String,
    pub path: String,
    /// When the cookie expires, in milliseconds since 1970.
    pub expires: Option<i64>,
    pub secure: Option<bool>,
}

/// The values of [`BrowserCookie`].
pub struct CookieView {
    pub key: Text,
    pub name: Option<Text>,
    pub value: Text,
    pub domain: Text,
    pub path: Text,
    pub expires: Option<int>,
    pub secure: Option<bool>,
}

impl View for BrowserCookie {
    type V = CookieView;

    open spec fn view(&self) -> CookieView {
        CookieView {
            key: self.key@,
            name: opt_text(self.name),
            value: self.value@,
            domain: self.domain@,
            path: self.path@,
            expires: opt_int(self.expires),
            secure: self.secure,
        }
    }
}

proof fn lemma_triple_order(a: Seq<Text>, b: Seq<Text>)
    requires
        a.len() == 3,
        b.len() == 3,
    ensures
        a[0] != b[0] ==> key_before(a, b) == text_before(a[0], b[0]),
        a[0] == b[0] && a[1] != b[1] ==> key_before(a, b) == text_before(a[1], b[1]),
        a[0] == b[0] && a[1] == b[1] && a[2] != b[2] ==> key_before(a, b) == text_before(
            a[2],
            b[2],
        ),
        a[0] == b[0] && a[1] == b[1] && a[2] == b[2] ==> a == b,
{
    reveal_with_fuel(key_before, 4);
    assert(a.skip(1)[0] == a[1]);
    assert(b.skip(1)[0] == b[1]);
    assert(a.skip(1).skip(1)[0] == a[2]);
    assert(b.skip(1).skip(1)[0] == b[2]);
    if a[0] == b[0] && a[1] == b[1] && a[2] == b[2] {
        assert(a =~= b);
    }
}

impl Keyed for BrowserCookie {
    /// Domain, path and key.
    open spec fn key(&self) -> Seq<Text> {
        seq![self.domain@, self.path@, self.key@]
    }

    fn key_order(&self, other: &Self) -> (r: Order) {
        proof {
            lemma_triple_order(Keyed::key(self), Keyed::key(other));
            lemma_triple_order(Keyed::key(other), Keyed::key(self));
        }
        match text_order(self.domain.as_str(), other.domain.as_str()) {
            Order::Same => match text_order(self.path.as_str(), other.path.as_str()) {
                Order::Same => text_order(self.key.as_str(), other.key.as_str()),
                order => order,
            },
            order => order,
        }
    }
}

/// The cookies in the order of domain, path and key, of those that agree in all three the last.
pub fn dedupe_cookies(cookies: Vec<BrowserCookie>) -> (r: Vec<BrowserCookie>)
    ensures
        collected(r@, cookies@),
{
    collect(cookies)
}

/// A row of the cookie store of Firefox.
#[derive(Debug)]
pub struct FirefoxRow {
    pub name: String,
    pub value: String,
    pub host: String,
    pub path: Option<String>,
    /// When the cookie expires, in seconds since 1970.
    pub expiry: Option<i64>,
    pub is_secure: Option<i64>,
}

/// The path of a cookie, `/` where none is given.
pub open spec fn path_or_root(path: Option<Text>) -> Text {
    match path {
        Some(p) => p,
        None => "/"@,
    }
}

fn or_root(path: &Option<String>) -> (r: String)
    ensures
        r@ == path_or_root(opt_text(*path)),
{
    match path {
        Some(p) => p.clone(),
        None => "/".to_owned(),
    }
}

/// A number as a truth value.
pub open spec fn opt_flag(n: Option<i64>) -> Option<bool> {
    match n {
        Some(v) => Some(v != 0),
        None => None,
    }
}

fn opt_bool(n: Option<i64>) -> (r: Option<bool>)
    ensures
        r == opt_flag(n),
{
    match n {
        Some(v) => Some(v != 0),
        None => None,
    }
}

impl FirefoxRow {
    /// The time at which the cookie expires can be told in milliseconds.
    pub open spec fn expiry_fits(self) -> bool {
        self.expiry matches Some(seconds) ==> i64::MIN <= seconds * 1000 <= i64::MAX
    }

    /// The cookie of the row; a row without a value has none.
    pub open spec fn spec_cookie(self) -> Option<CookieView> {
        if self.value@.len() == 0 {
            None
        } else {
            Some(
                CookieView {
                    key: self.name@,
                    name: Some(self.name@),
                    value: self.value@,
                    domain: self.host@,
                    path: path_or_root(opt_text(self.path)),
                    expires: match self.expiry {
                        Some(seconds) => Some(seconds * 1000),
                        None => None,
                    },
                    secure: opt_flag(self.is_secure),
                },
            )
        }
    }

    /// The time at which the cookie expires can be told in milliseconds.
    pub fn has_fitting_expiry(&self) -> (r: bool)
        ensures
            r == self.expiry_fits(),
    {
        match self.expiry {
            Some(seconds) => -9_223_372_036_854_775 <= seconds && seconds <= 9_223_372_036_854_775,
            None => true,
        }
    }

    /// The cookie of the row.
    pub fn cookie(&self) -> (r: Option<BrowserCookie>)
        requires
            self.value@.len() == 0 || self.expiry_fits(),
        ensures
            match r {
                Some(c) => self.spec_cookie() == Some(c@),
                None => self.spec_cookie() is None,
            },
    {
        if self.value.as_str().is_empty() {
            return None;
        }
        Some(
            BrowserCookie {
                key: self.name.clone(),
                name: Some(self.name.clone()),
                value: self.value.clone(),
                domain: self.host.clone(),
                path: or_root(&self.path),
                expires: match self.expiry {
                    Some(seconds) => Some(seconds * 1000),
                    None => None,
                },
                secure: opt_bool(self.is_secure),
            },
        )
    }
}

/// The values of some cookies.
pub open spec fn cookie_views(cookies: Seq<BrowserCookie>) -> Seq<CookieView> {
    cookies.map_values(|c: BrowserCookie| c@)
}

/// The cookies of the rows that have one, in their order.
pub open spec fn firefox_found(rows: Seq<FirefoxRow>) -> Seq<CookieView>
    decreases rows.len(),
{
    if rows.len() == 0 {
        Seq::empty()
    } else {
        let before = firefox_found(rows.drop_last());
        match rows.last().spec_cookie() {
            Some(c) => before.push(c),
            None => before,
        }
    }
}

/// Domain, path and key of a cookie.
pub open spec fn cookie_id(c: CookieView) -> Seq<Text> {
    seq![c.domain, c.path, c.key]
}

/// No later cookie has the same domain, path and key.
pub open spec fn is_last(given: Seq<CookieView>, i: int) -> bool {
    forall|j: int|
        i < j < given.len() ==> cookie_id(#[trigger] given[j]) != cookie_id(given[i])
}

/// The list holds the given cookies without those that a later one replaces, in the order of
/// domain, path and key.
pub open spec fn deduped(list: Seq<CookieView>, given: Seq<CookieView>) -> bool {
    &&& forall|i: int, j: int|
        0 <= i < j < list.len() ==> key_before(
            cookie_id(#[trigger] list[i]),
            cookie_id(#[trigger] list[j]),
        )
    &&& forall|c: CookieView| #[trigger]
        list.contains(c) <==> exists|i: int|
            0 <= i < given.len() && #[trigger] given[i] == c && is_last(given, i)
}

proof fn lemma_deduped(list: Seq<BrowserCookie>, all: Seq<BrowserCookie>)
    requires
        collected(list, all),
    ensures
        deduped(cookie_views(list), cookie_views(all)),
{
    let views = cookie_views(list);
    let given = cookie_views(all);
    assert forall|i: int, j: int| 0 <= i < j < views.len() implies key_before(
        cookie_id(#[trigger] views[i]),
        cookie_id(#[trigger] views[j]),
    ) by {
        assert(key_before(Keyed::key(&list[i]), Keyed::key(&list[j])));
    }
    assert forall|i: int| 0 <= i < all.len() implies (#[trigger] last_of_key(all, i) <==> is_last(
        given,
        i,
    )) by {
        assert forall|j: int| i < j < all.len() implies cookie_id(#[trigger] given[j]) == Keyed::key(
            &all[j],
        ) by {}
        assert(cookie_id(given[i]) == Keyed::key(&all[i]));
        if last_of_key(all, i) {
            assert forall|j: int| i < j < given.len() implies cookie_id(#[trigger] given[j])
                != cookie_id(given[i]) by {
                assert(Keyed::key(&all[j]) != Keyed::key(&all[i]));
            }
        }
        if is_last(given, i) {
            assert forall|j: int| i < j < all.len() implies Keyed::key(&(#[trigger] all[j]))
                != Keyed::key(&all[i]) by {
                assert(cookie_id(given[j]) != cookie_id(given[i]));
            }
        }
    }
    assert forall|c: CookieView| #[trigger] views.contains(c) <==> exists|i: int|
        0 <= i < given.len() && #[trigger] given[i] == c && is_last(given, i) by {
        if views.contains(c) {
            let k = choose|k: int| 0 <= k < views.len() && views[k] == c;
            assert(list.contains(list[k]));
            let i = choose|i: int|
                0 <= i < all.len() && #[trigger] all[i] == list[k] && last_of_key(all, i);
            assert(given[i] == c && is_last(given, i));
        }
        if exists|i: int| 0 <= i < given.len() && #[trigger] given[i] == c && is_last(given, i) {
            let i = choose|i: int|
                0 <= i < given.len() && #[trigger] given[i] == c && is_last(given, i);
            assert(all[i] == all[i] && last_of_key(all, i));
            assert(list.contains(all[i]));
            let k = choose|k: int| 0 <= k < list.len() && list[k] == all[i];
            assert(views[k] == c);
        }
    }
}

/// The cookies of a store of Firefox.
pub fn firefox_cookies(rows: &[FirefoxRow]) -> (r: Vec<BrowserCookie>)
    requires
        forall|i: int|
            0 <= i < rows@.len() ==> (#[trigger] rows@[i]).value@.len() == 0
                || rows@[i].expiry_fits(),
    ensures
        deduped(cookie_views(r@), firefox_found(rows@)),
{
    let mut found: Vec<BrowserCookie> = Vec::new();
    let mut i: usize = 0;
    proof {
        assert(rows@.take(0) =~= Seq::<FirefoxRow>::empty());
        assert(cookie_views(found@) =~= firefox_found(rows@.take(0)));
    }
    while i < rows.len()
        invariant
            0 <= i <= rows@.len(),
            forall|i: int|
                0 <= i < rows@.len() ==> (#[trigger] rows@[i]).value@.len() == 0
                    || rows@[i].expiry_fits(),
            cookie_views(found@) == firefox_found(rows@.take(i as int)),
        decreases rows@.len() - i,
    {
        proof {
            assert(rows@.take(i + 1).drop_last() =~= rows@.take(i as int));
            assert(rows@.take(i + 1).last() == rows@[i as int]);
        }
        match rows[i].cookie() {
            Some(c) => {
                proof {
                    assert(cookie_views(found@.push(c)) =~= cookie_views(found@).push(c@));
                }
                found.push(c);
            },
            None => {},
        }
        i += 1;
    }
    proof {
        assert(rows@.take(rows@.len() as int) =~= rows@);
    }
    let ghost all = found@;
    let list = dedupe_cookies(found);
    proof {
        lemma_deduped(list@, all);
    }
    list
}

/// What bytes say as text, or what is said where they are no text.
pub open spec fn bytes_text(bytes: Seq<u8>) -> Result<Text, Text> {
    if vstd::utf8::valid_utf8(bytes) {
        Ok(vstd::utf8::decode_utf8(bytes))
    } else {
        Err(utf8_fault(bytes))
    }
}

fn text_of_bytes(bytes: Vec<u8>) -> (r: Result<String, SimpleError>)
    ensures
        outcome(r) == bytes_text(bytes@),
{
    match utf8_text(bytes) {
        Ok(s) => Ok(s),
        Err(e) => Err(simple_error(e)),
    }
}

/// The plain value of a cookie: what is behind the hash of the host, where that stands before it.
pub open spec fn without_hash(plaintext: Seq<u8>, hash: Seq<u8>) -> Seq<u8> {
    if plaintext.len() > 32 && plaintext.take(32) == hash {
        plaintext.skip(32)
    } else {
        plaintext
    }
}

/// The bytes from a place on.
fn bytes_from(bytes: &[u8], from: usize) -> (r: Vec<u8>)
    requires
        from <= bytes@.len(),
    ensures
        r@ == bytes@.skip(from as int),
{
    let mut out: Vec<u8> = Vec::new();
    let mut i: usize = from;
    while i < bytes.len()
        invariant
            from <= i <= bytes@.len(),
            out@ == bytes@.subrange(from as int, i as int),
        decreases bytes@.len() - i,
    {
        out.push(bytes[i]);
        proof {
            assert(bytes@.subrange(from as int, i + 1) =~= bytes@.subrange(
                from as int,
                i as int,
            ).push(bytes@[i as int]));
        }
        i += 1;
    }
    proof {
        assert(bytes@.subrange(from as int, bytes@.len() as int) =~= bytes@.skip(from as int));
    }
    out
}

/// The bytes begin with the given ones.
fn bytes_begin(bytes: &[u8], start: &[u8]) -> (r: bool)
    ensures
        r == (bytes@.len() >= start@.len() && bytes@.take(start@.len() as int) == start@),
{
    if bytes.len() < start.len() {
        return false;
    }
    let mut i: usize = 0;
    while i < start.len()
        invariant
            0 <= i <= start@.len() <= bytes@.len(),
            forall|k: int| 0 <= k < i ==> bytes@[k] == start@[k],
        decreases start@.len() - i,
    {
        if bytes[i] != start[i] {
            proof {
                assert(bytes@.take(start@.len() as int)[i as int] == bytes@[i as int]);
            }
            return false;
        }
        i += 1;
    }
    proof {
        assert(bytes@.take(start@.len() as int) =~= start@);
    }
    true
}

/// The value of a cookie from its plaintext and the hash of its host.
pub fn plaintext_value(plaintext: Vec<u8>, hash: &[u8]) -> (r: Result<String, SimpleError>)
    requires
        hash@.len() == 32,
    ensures
        outcome(r) == bytes_text(without_hash(plaintext@, hash@)),
{
    if plaintext.len() > 32 && bytes_begin(&plaintext, hash) {
        text_of_bytes(bytes_from(&plaintext, 32))
    } else {
        text_of_bytes(plaintext)
    }
}

/// The value of a cookie from its plaintext, which may begin with the hash of its host.
pub open spec fn plaintext_text(plaintext: Seq<u8>, host: Text) -> Result<Text, Text> {
    bytes_text(without_hash(plaintext, sha256_of(vstd::utf8::encode_utf8(host))))
}

/// The value of a cookie from its plaintext, which may begin with the hash of its host.
pub fn chromium_plaintext_to_string(plaintext: Vec<u8>, host_key: &str) -> (r: Result<
    String,
    SimpleError,
>)
    ensures
        outcome(r) == plaintext_text(plaintext@, host_key@),
{
    let hash = sha256(host_key.as_bytes());
    proof {
        assert(host_key.spec_bytes() == vstd::utf8::encode_utf8(host_key@));
    }
    plaintext_value(plaintext, &hash)
}

/// What is left of a plaintext with the hash before it is the value.
pub proof fn law_hash_is_stripped(hash: Seq<u8>, value: Seq<u8>)
    requires
        hash.len() == 32,
        value.len() > 0,
    ensures
        without_hash(hash + value, hash) == value,
{
    assert((hash + value).take(32) =~= hash);
    assert((hash + value).skip(32) =~= value);
}

/// The encrypted value is marked as one of the versions that are encrypted by a key.
pub open spec fn is_encrypted(bytes: Seq<u8>) -> bool {
    bytes.len() >= 3 && bytes[0] == 118 && bytes[1] == 49 && (bytes[2] == 48 || bytes[2] == 49)
}

/// Sixteen spaces, the initial vector of the encryption.
pub open spec fn cookie_iv() -> Seq<u8> {
    Seq::new(16, |i: int| 32u8)
}

/// The value of an encrypted cookie.
pub open spec fn decrypted(encrypted: Seq<u8>, key: Seq<u8>, host: Text) -> Result<Text, Text> {
    if !is_encrypted(encrypted) {
        bytes_text(encrypted)
    } else if key.len() != 16 {
        Err("Invalid Length"@)
    } else {
        match aes128_cbc_of(key, cookie_iv(), encrypted.skip(3)) {
            Some(plaintext) => plaintext_text(plaintext, host),
            None => Err("invalid Chromium cookie padding: UnpadError"@),
        }
    }
}

/// The value of an encrypted cookie.
pub fn decrypt_chromium_cookie(encrypted: &[u8], key: &[u8], host_key: &str) -> (r: Result<
    String,
    SimpleError,
>)
    ensures
        outcome(r) == decrypted(encrypted@, key@, host_key@),
{
    if !(encrypted.len() >= 3 && encrypted[0] == 118 && encrypted[1] == 49 && (encrypted[2] == 48
        || encrypted[2] == 49)) {
        let bytes = bytes_from(encrypted, 0);
        proof {
            assert(bytes@ =~= encrypted@);
        }
        return text_of_bytes(bytes);
    }
    let iv: [u8; 16] = [32; 16];
    proof {
        assert(iv@ =~= cookie_iv());
    }
    let data = bytes_from(encrypted, 3);
    match aes128_cbc(key, &iv, &data) {
        Ok(plaintext) => chromium_plaintext_to_string(plaintext, host_key),
        Err(CipherFault::Length(e)) => Err(simple_error(e)),
        Err(CipherFault::Padding(e)) => {
            proof {
                reveal_strlit("invalid Chromium cookie padding: ");
                reveal_strlit("UnpadError");
                reveal_strlit("invalid Chromium cookie padding: UnpadError");
                assert("invalid Chromium cookie padding: "@ + "UnpadError"@
                    =~= "invalid Chromium cookie padding: UnpadError"@);
            }
            Err(error2("invalid Chromium cookie padding: ", e.as_str()))
        },
    }
}

/// The entry of the keychain that holds the password of a browser.
pub open spec fn service_name(kind: BrowserKind) -> Text {
    match kind {
        BrowserKind::Chrome => "Chrome Safe Storage"@,
        BrowserKind::Brave => "Brave Safe Storage"@,
        BrowserKind::Edge => "Microsoft Edge Safe Storage"@,
        BrowserKind::Comet => "Comet Safe Storage"@,
        BrowserKind::Chromium => "Chromium Safe Storage"@,
        BrowserKind::Auto | BrowserKind::Firefox => "Chrome Safe Storage"@,
    }
}

/// The entry of the keychain that holds the password of a browser; only macOS has one.
pub fn keychain_service(platform: Platform, kind: BrowserKind) -> (r: Result<
    &'static str,
    SimpleError,
>)
    ensures
        match r {
            Ok(service) => platform == Platform::MacOs && service@ == service_name(kind),
            Err(e) => platform == Platform::Other && e@
                == "encrypted Chromium cookie decryption is currently implemented for macOS; use Firefox or appstate auth"@,
        },
{
    match platform {
        Platform::MacOs => Ok(
            match kind {
                BrowserKind::Chrome => "Chrome Safe Storage",
                BrowserKind::Brave => "Brave Safe Storage",
                BrowserKind::Edge => "Microsoft Edge Safe Storage",
                BrowserKind::Comet => "Comet Safe Storage",
                BrowserKind::Chromium => "Chromium Safe Storage",
                BrowserKind::Auto | BrowserKind::Firefox => "Chrome Safe Storage",
            },
        ),
        Platform::Other => Err(
            simple_error(
                "encrypted Chromium cookie decryption is currently implemented for macOS; use Firefox or appstate auth".to_owned(),
            ),
        ),
    }
}

/// What is said when the keychain does not give the password.
pub fn keychain_refused(service: &str) -> (r: SimpleError)
    ensures
        r@ == "could not read macOS Keychain item `"@ + service@
            + "`; allow terminal Keychain access or use Firefox/appstate auth"@,
{
    error3(
        "could not read macOS Keychain item `",
        service,
        "`; allow terminal Keychain access or use Firefox/appstate auth",
    )
}

/// The key of a browser from its password.
pub open spec fn cookie_key(password: Text) -> Seq<u8> {
    pbkdf2_sha1_of(vstd::utf8::encode_utf8(password), salt(), 1003, 16)
}

/// The salt of the keys: `saltysalt`.
pub open spec fn salt() -> Seq<u8> {
    seq![115u8, 97u8, 108u8, 116u8, 121u8, 115u8, 97u8, 108u8, 116u8]
}

/// The key of a browser from what the keychain printed: the password, with white space behind it.
pub open spec fn printed_key(printed: Seq<u8>) -> Result<Seq<u8>, Text> {
    match bytes_text(printed) {
        Ok(text) => Ok(cookie_key(trim_end(text))),
        Err(e) => Err(e),
    }
}

/// The key is that of the password that the keychain printed, whatever white space it printed
/// behind it; what is no text has no key.
pub proof fn law_key_is_that_of_the_printed_password(password: Text, white: Text, printed: Seq<u8>)
    requires
        password.len() > 0,
        !is_white(password.last()),
        forall|i: int| 0 <= i < white.len() ==> is_white(#[trigger] white[i]),
    ensures
        printed_key(vstd::utf8::encode_utf8(password + white)) == Ok::<Seq<u8>, Text>(
            cookie_key(password),
        ),
        !vstd::utf8::valid_utf8(printed) ==> printed_key(printed) == Err::<Seq<u8>, Text>(
            utf8_fault(printed),
        ),
{
    law_bytes_say_what_they_encode(password + white, printed);
    lemma_trim_end_white(password, white);
}

/// The key of a browser from what the keychain printed: the password, with white space behind it.
pub fn chromium_key(printed: Vec<u8>) -> (r: Result<Vec<u8>, SimpleError>)
    ensures
        match r {
            Ok(key) => printed_key(printed@) == Ok::<Seq<u8>, Text>(key@),
            Err(e) => printed_key(printed@) == Err::<Seq<u8>, Text>(e@),
        },
        match r {
            Ok(key) => bytes_text(printed@) is Ok && key@ == cookie_key(
                trim_end(bytes_text(printed@)->Ok_0),
            ) && key@.len() == 16,
            Err(e) => bytes_text(printed@) == Err::<Text, Text>(e@),
        },
{
    match text_of_bytes(printed) {
        Ok(text) => {
            let password = trimmed_end(text.as_str());
            let salt: [u8; 9] = [115, 97, 108, 116, 121, 115, 97, 108, 116];
            let bytes = password.as_str();
            proof {
                assert(salt@ =~= crate::cookies::salt());
                assert(bytes.spec_bytes() == vstd::utf8::encode_utf8(bytes@));
            }
            Ok(pbkdf2_sha1(bytes.as_bytes(), &salt, 1003, 16))
        },
        Err(e) => Err(e),
    }
}

/// A row of the cookie store of a browser of the Chromium family.
#[derive(Debug)]
pub struct ChromiumRow {
    pub name: String,
    pub value: Option<String>,
    pub host_key: String,
    pub path: Option<String>,
    /// When the cookie expires, in microseconds since 1601.
    pub expires_utc: Option<i64>,
    pub is_secure: Option<i64>,
    pub encrypted_value: Option<Vec<u8>>,
}

/// The bytes of an optional list, none where there is none.
pub open spec fn opt_bytes(o: Option<Vec<u8>>) -> Seq<u8> {
    match o {
        Some(v) => v@,
        None => Seq::empty(),
    }
}

/// The time at which a cookie of the Chromium family expires, in milliseconds since 1970.
pub open spec fn chromium_expiry(time: Option<i64>) -> Option<int> {
    match time {
        Some(t) => if t <= 0 {
            None
        } else {
            Some(t as int / 1000 - 11_644_473_600_000)
        },
        None => None,
    }
}

impl ChromiumRow {
    /// The value has to be decrypted.
    pub open spec fn spec_needs_key(self) -> bool {
        text_or_empty(opt_text(self.value)).len() == 0 && opt_bytes(self.encrypted_value).len() > 0
    }

    /// The value of the cookie.
    pub open spec fn spec_value(self, key: Seq<u8>) -> Result<Text, Text> {
        if self.spec_needs_key() {
            decrypted(opt_bytes(self.encrypted_value), key, self.host_key@)
        } else {
            Ok(text_or_empty(opt_text(self.value)))
        }
    }

    /// The cookie of the row, given its value; a row without a value has none.
    pub open spec fn spec_cookie(self, value: Text) -> Option<CookieView> {
        if value.len() == 0 {
            None
        } else {
            Some(
                CookieView {
                    key: self.name@,
                    name: Some(self.name@),
                    value,
                    domain: self.host_key@,
                    path: path_or_root(opt_text(self.path)),
                    expires: chromium_expiry(self.expires_utc),
                    secure: opt_flag(self.is_secure),
                },
            )
        }
    }

    /// The value has to be decrypted.
    pub fn needs_key(&self) -> (r: bool)
        ensures
            r == self.spec_needs_key(),
    {
        let plain = match &self.value {
            Some(v) => !v.as_str().is_empty(),
            None => false,
        };
        let encrypted = match &self.encrypted_value {
            Some(v) => v.len() > 0,
            None => false,
        };
        !plain && encrypted
    }

    /// The value of the cookie.
    pub fn decrypted_value(&self, key: &[u8]) -> (r: Result<String, SimpleError>)
        ensures
            outcome(r) == self.spec_value(key@),
    {
        if self.needs_key() {
            match &self.encrypted_value {
                Some(v) => decrypt_chromium_cookie(v, key, self.host_key.as_str()),
                None => Ok(String::new()),
            }
        } else {
            match &self.value {
                Some(v) => Ok(v.clone()),
                None => Ok(String::new()),
            }
        }
    }

    /// The cookie of the row, given its value.
    pub fn cookie(&self, value: String) -> (r: Option<BrowserCookie>)
        ensures
            match r {
                Some(c) => self.spec_cookie(value@) == Some(c@),
                None => self.spec_cookie(value@) is None,
            },
    {
        if value.as_str().is_empty() {
            return None;
        }
        Some(
            BrowserCookie {
                key: self.name.clone(),
                name: Some(self.name.clone()),
                value,
                domain: self.host_key.clone(),
                path: or_root(&self.path),
                expires: match self.expires_utc {
                    Some(t) => chromium_time_to_ms(t),
                    None => None,
                },
                secure: opt_bool(self.is_secure),
            },
        )
    }
}

/// Some row has to be decrypted.
pub fn any_needs_key(rows: &[ChromiumRow]) -> (r: bool)
    ensures
        r <==> exists|i: int| 0 <= i < rows@.len() && (#[trigger] rows@[i]).spec_needs_key(),
{
    let mut i: usize = 0;
    while i < rows.len()
        invariant
            0 <= i <= rows@.len(),
            forall|k: int| 0 <= k < i ==> !(#[trigger] rows@[k]).spec_needs_key(),
        decreases rows@.len() - i,
    {
        if rows[i].needs_key() {
            return true;
        }
        i += 1;
    }
    false
}

/// What is said when a cookie cannot be decrypted.
pub open spec fn decrypt_failure(name: Text, store: Text, reason: Text) -> Text {
    "decrypt Chromium cookie `"@ + name + "` from "@ + store + ": "@ + reason
}

fn decrypt_error(name: &str, store: &str, reason: &str) -> (r: SimpleError)
    ensures
        r@ == decrypt_failure(name@, store@, reason@),
{
    let mut out = "decrypt Chromium cookie `".to_owned();
    out.append(name);
    out.append("` from ");
    out.append(store);
    out.append(": ");
    out.append(reason);
    simple_error(out)
}

/// The cookies of the rows that have one, in their order; the first value that cannot be decrypted
/// is an error.
pub open spec fn chromium_found(rows: Seq<ChromiumRow>, key: Seq<u8>, store: Text) -> Result<
    Seq<CookieView>,
    Text,
>
    decreases rows.len(),
{
    if rows.len() == 0 {
        Ok(Seq::empty())
    } else {
        let row = rows.last();
        match chromium_found(rows.drop_last(), key, store) {
            Err(e) => Err(e),
            Ok(before) => match row.spec_value(key) {
                Err(e) => Err(decrypt_failure(row.name@, store, e)),
                Ok(value) => match row.spec_cookie(value) {
                    Some(c) => Ok(before.push(c)),
                    None => Ok(before),
                },
            },
        }
    }
}

/// An error of the first rows is an error of all.
proof fn lemma_first_failure(rows: Seq<ChromiumRow>, key: Seq<u8>, store: Text, n: int)
    requires
        0 <= n <= rows.len(),
        chromium_found(rows.take(n), key, store) is Err,
    ensures
        chromium_found(rows, key, store) == chromium_found(rows.take(n), key, store),
    decreases rows.len(),
{
    if n == rows.len() {
        assert(rows.take(n) =~= rows);
    } else {
        assert(rows.drop_last().take(n) =~= rows.take(n));
        lemma_first_failure(rows.drop_last(), key, store, n);
    }
}

/// The cookies of a store of the Chromium family, decrypted with the given key where needed.
pub fn chromium_cookies(rows: &[ChromiumRow], key: &[u8], store: &str) -> (r: Result<
    Vec<BrowserCookie>,
    SimpleError,
>)
    ensures
        match r {
            Ok(list) => chromium_found(rows@, key@, store@) is Ok && deduped(
                cookie_views(list@),
                chromium_found(rows@, key@, store@)->Ok_0,
            ),
            Err(e) => chromium_found(rows@, key@, store@) == Err::<Seq<CookieView>, Text>(e@),
        },
{
    let mut found: Vec<BrowserCookie> = Vec::new();
    let mut i: usize = 0;
    proof {
        assert(rows@.take(0) =~= Seq::<ChromiumRow>::empty());
        assert(cookie_views(found@) =~= Seq::<CookieView>::empty());
    }
    while i < rows.len()
        invariant
            0 <= i <= rows@.len(),
            chromium_found(rows@.take(i as int), key@, store@) == Ok::<Seq<CookieView>, Text>(
                cookie_views(found@),
            ),
        decreases rows@.len() - i,
    {
        proof {
            assert(rows@.take(i + 1).drop_last() =~= rows@.take(i as int));
            assert(rows@.take(i + 1).last() == rows@[i as int]);
        }
        match rows[i].decrypted_value(key) {
            Ok(value) => match rows[i].cookie(value) {
                Some(c) => {
                    proof {
                        assert(cookie_views(found@.push(c)) =~= cookie_views(found@).push(c@));
                    }
                    found.push(c);
                },
                None => {},
            },
            Err(e) => {
                proof {
                    lemma_first_failure(rows@, key@, store@, i + 1);
                }
                return Err(decrypt_error(rows[i].name.as_str(), store, e.message.as_str()));
            },
        }
        i += 1;
    }
    proof {
        assert(rows@.take(rows@.len() as int) =~= rows@);
    }
    let ghost all = found@;
    let list = dedupe_cookies(found);
    proof {
        lemma_deduped(list@, all);
    }
    Ok(list)
}

/// Some cookie has the given name.
pub open spec fn has_cookie(cookies: Seq<BrowserCookie>, name: Text) -> bool {
    exists|i: int|
        0 <= i < cookies.len() && ((#[trigger] cookies[i]).key@ == name || opt_text(
            cookies[i].name,
        ) == Some(name))
}

fn cookie_present(cookies: &[BrowserCookie], name: &str) -> (r: bool)
    ensures
        r == has_cookie(cookies@, name@),
{
    let mut i: usize = 0;
    while i < cookies.len()
        invariant
            0 <= i <= cookies@.len(),
            forall|k: int|
                0 <= k < i ==> !((#[trigger] cookies@[k]).key@ == name@ || opt_text(
                    cookies@[k].name,
                ) == Some(name@)),
        decreases cookies@.len() - i,
    {
        if same(cookies[i].key.as_str(), name) || is_text(&cookies[i].name, name) {
            return true;
        }
        i += 1;
    }
    false
}

/// What is said when a cookie that a login needs is not there.
pub open spec fn missing_cookie(name: Text) -> Text {
    "browser cookies did not include required Facebook cookie `"@ + name
        + "`; log into facebook.com in the selected browser profile first"@
}

/// Whether the cookies are a login: they need `c_user` and `xs`.
pub open spec fn login_check(cookies: Seq<BrowserCookie>) -> Result<(), Text> {
    if !has_cookie(cookies, "c_user"@) {
        Err(missing_cookie("c_user"@))
    } else if !has_cookie(cookies, "xs"@) {
        Err(missing_cookie("xs"@))
    } else {
        Ok(())
    }
}

/// Whether the cookies are a login.
pub fn check_login_cookies(cookies: &[BrowserCookie]) -> (r: Result<(), SimpleError>)
    ensures
        match r {
            Ok(_) => login_check(cookies@) is Ok,
            Err(e) => login_check(cookies@) == Err::<(), Text>(e@),
        },
{
    let first = "browser cookies did not include required Facebook cookie `";
    let last = "`; log into facebook.com in the selected browser profile first";
    if !cookie_present(cookies, "c_user") {
        return Err(error3(first, "c_user", last));
    }
    if !cookie_present(cookies, "xs") {
        return Err(error3(first, "xs", last));
    }
    Ok(())
}

/// Cookies are a login exactly when each cookie that is needed is among them.
pub proof fn law_login_has_its_cookies(cookies: Seq<BrowserCookie>)
    ensures
        login_check(cookies) is Ok <==> has_cookie(cookies, "c_user"@) && has_cookie(
            cookies,
            "xs"@,
        ),
{
}

/// The search for a store that has cookies.
#[derive(Debug)]
pub struct CookieSearch {
    /// What was found wrong with the stores so far.
    pub notes: Vec<String>,
}

impl View for CookieSearch {
    type V = Seq<Text>;

    open spec fn view(&self) -> Seq<Text> {
        texts(self.notes@)
    }
}

/// What is noted of a store that could not be read, or has no cookies.
pub open spec fn store_note(store: Text, failure: Option<Text>) -> Text {
    match failure {
        Some(e) => store + ": "@ + e,
        None => store + " had no Facebook cookies"@,
    }
}

/// What is noted behind a store from which a number of cookies was read, or which could not be read.
pub open spec fn notes_after(notes: Seq<Text>, store: Text, read: Result<nat, Text>) -> Seq<Text> {
    match read {
        Ok(n) => if n > 0 {
            notes
        } else {
            notes.push(store_note(store, None))
        },
        Err(e) => notes.push(store_note(store, Some(e))),
    }
}

/// A store that gives no cookies is noted, with the reason; one that gives some is not.
pub proof fn law_stores_without_cookies_are_noted(
    notes: Seq<Text>,
    store: Text,
    n: nat,
    reason: Text,
)
    ensures
        n > 0 ==> notes_after(notes, store, Ok(n)) == notes,
        notes_after(notes, store, Ok(0)) == notes.push(store + " had no Facebook cookies"@),
        notes_after(notes, store, Err(reason)) == notes.push(store + ": "@ + reason),
{
}

impl CookieSearch {
    /// Begins a search.
    pub fn new() -> (r: CookieSearch)
        ensures
            r@ == Seq::<Text>::empty(),
    {
        let r = CookieSearch { notes: Vec::new() };
        proof {
            assert(r@ =~= Seq::<Text>::empty());
        }
        r
    }

    /// Takes what reading a store came to. Cookies end the search; all else is noted.
    pub fn take(
        &mut self,
        store: &str,
        read: Result<Vec<BrowserCookie>, SimpleError>,
    ) -> (r: Option<Vec<BrowserCookie>>)
        ensures
            final(self)@ == notes_after(
                old(self)@,
                store@,
                match read {
                    Ok(cookies) => Ok(cookies@.len()),
                    Err(e) => Err(e@),
                },
            ),
            r is Some <==> read is Ok && read->Ok_0@.len() > 0,
            match read {
                Ok(cookies) => if cookies@.len() > 0 {
                    r == Some(cookies) && final(self)@ == old(self)@
                } else {
                    r is None && final(self)@ == old(self)@.push(store_note(store@, None))
                },
                Err(e) => r is None && final(self)@ == old(self)@.push(
                    store_note(store@, Some(e@)),
                ),
            },
    {
        let mut note = store.to_owned();
        match read {
            Ok(cookies) => {
                if cookies.len() > 0 {
                    return Some(cookies);
                }
                note.append(" had no Facebook cookies");
            },
            Err(e) => {
                note.append(": ");
                note.append(e.message.as_str());
            },
        }
        proof {
            lemma_texts_push(self.notes@, note);
        }
        self.notes.push(note);
        None
    }

    /// What is said when no store had cookies.
    pub fn failure(&self) -> (r: SimpleError)
        ensures
            r@ == "could not load Facebook cookies from browser profiles. Tried:\n"@ + join(
                self@,
                "\n"@,
            ),
    {
        error2(
            "could not load Facebook cookies from browser profiles. Tried:\n",
            join_all(&self.notes, "\n").as_str(),
        )
    }
}

/// The name under which a store is copied before it is read.
pub open spec fn copy_name(now: int, path: Text) -> Text {
    int_text(now) + "-"@ + (match file_name(path) {
        Some(name) => name,
        None => "cookies.sqlite"@,
    })
}

/// The name under which a store is copied before it is read.
pub fn cookie_copy_name(now: i64, path: &str) -> (r: String)
    ensures
        r@ == copy_name(now as int, path@),
{
    let mut out = i64_text(now);
    out.append("-");
    match last_name(path) {
        Some(name) => {
            out.append(name.as_str());
        },
        None => {
            out.append("cookies.sqlite");
        },
    }
    out
}

/// The cookies that the first places have, in their order.
spec fn gathered(n: int, cookie: spec_fn(int) -> Option<CookieView>) -> Seq<CookieView>
    decreases n,
{
    if n <= 0 {
        Seq::empty()
    } else {
        match cookie(n - 1) {
            Some(c) => gathered(n - 1, cookie).push(c),
            None => gathered(n - 1, cookie),
        }
    }
}

proof fn lemma_gathered_alike(
    n: int,
    a: spec_fn(int) -> Option<CookieView>,
    b: spec_fn(int) -> Option<CookieView>,
)
    requires
        forall|i: int| 0 <= i < n ==> #[trigger] a(i) == b(i),
    ensures
        gathered(n, a) == gathered(n, b),
    decreases n,
{
    if n > 0 {
        lemma_gathered_alike(n - 1, a, b);
        assert(a(n - 1) == b(n - 1));
    }
}

/// What the first places have stands before all that follows.
proof fn lemma_gathered_grows(n: int, m: int, cookie: spec_fn(int) -> Option<CookieView>)
    requires
        0 <= n <= m,
    ensures
        gathered(n, cookie).len() <= gathered(m, cookie).len(),
        forall|k: int|
            0 <= k < gathered(n, cookie).len() ==> #[trigger] gathered(m, cookie)[k] == gathered(
                n,
                cookie,
            )[k],
    decreases m - n,
{
    if n < m {
        lemma_gathered_grows(n, m - 1, cookie);
    }
}

/// The cookie of a place stands behind those of the places before it.
proof fn lemma_gathered_at(n: int, cookie: spec_fn(int) -> Option<CookieView>, i: int)
    requires
        0 <= i < n,
        cookie(i) is Some,
    ensures
        gathered(i, cookie).len() < gathered(n, cookie).len(),
        gathered(n, cookie)[gathered(i, cookie).len() as int] == cookie(i)->0,
{
    lemma_gathered_grows(i + 1, n, cookie);
    assert(gathered(i + 1, cookie).last() == cookie(i)->0);
}

/// Each cookie is that of a place.
proof fn lemma_gathered_from(n: int, cookie: spec_fn(int) -> Option<CookieView>, k: int) -> (i: int)
    requires
        0 <= k < gathered(n, cookie).len(),
    ensures
        0 <= i < n,
        cookie(i) == Some(gathered(n, cookie)[k]),
        gathered(i, cookie).len() == k,
    decreases n,
{
    if k < gathered(n - 1, cookie).len() {
        lemma_gathered_from(n - 1, cookie, k)
    } else {
        n - 1
    }
}

/// Behind each cookie, or in its place, stands the last one of its domain, path and key.
proof fn lemma_last_of_id(given: Seq<CookieView>, i: int) -> (j: int)
    requires
        0 <= i < given.len(),
    ensures
        i <= j < given.len(),
        cookie_id(given[j]) == cookie_id(given[i]),
        is_last(given, j),
    decreases given.len() - i,
{
    if is_last(given, i) {
        i
    } else {
        let k = choose|k: int|
            i < k < given.len() && cookie_id(#[trigger] given[k]) == cookie_id(given[i]);
        lemma_last_of_id(given, k)
    }
}

proof fn lemma_same_id(a: CookieView, b: CookieView)
    ensures
        cookie_id(a) == cookie_id(b) <==> a.domain == b.domain && a.path == b.path && a.key
            == b.key,
{
    let x = cookie_id(a);
    let y = cookie_id(b);
    assert(x[0] == a.domain && x[1] == a.path && x[2] == a.key);
    assert(y[0] == b.domain && y[1] == b.path && y[2] == b.key);
    if a.domain == b.domain && a.path == b.path && a.key == b.key {
        assert(x =~= y);
    }
}

/// The cookie is the one of a place behind which none is of the same domain, path and key.
spec fn is_kept(n: int, cookie: spec_fn(int) -> Option<CookieView>, c: CookieView) -> bool {
    exists|i: int| 0 <= i < n && cookie(i) == Some(c) && #[trigger] stays_last(n, cookie, i)
}

/// What is kept of the cookies of some places: the last of each domain, path and key.
proof fn lemma_kept(
    list: Seq<CookieView>,
    n: int,
    cookie: spec_fn(int) -> Option<CookieView>,
)
    requires
        deduped(list, gathered(n, cookie)),
    ensures
        forall|k: int| 0 <= k < list.len() ==> is_kept(n, cookie, #[trigger] list[k]),
        forall|i: int|
            0 <= i < n && (#[trigger] cookie(i)) is Some ==> exists|k: int|
                0 <= k < list.len() && (#[trigger] list[k]).domain == cookie(i)->0.domain
                    && list[k].path == cookie(i)->0.path && list[k].key == cookie(i)->0.key,
{
    let given = gathered(n, cookie);
    assert forall|k: int| 0 <= k < list.len() implies is_kept(n, cookie, #[trigger] list[k]) by {
        assert(list.contains(list[k]));
        let g = choose|g: int|
            0 <= g < given.len() && #[trigger] given[g] == list[k] && is_last(given, g);
        let i = lemma_gathered_from(n, cookie, g);
        assert forall|j: int| i < j < n && (#[trigger] cookie(j)) is Some implies !(
        cookie(j)->0.domain == cookie(i)->0.domain && cookie(j)->0.path == cookie(i)->0.path
            && cookie(j)->0.key == cookie(i)->0.key) by {
            lemma_gathered_at(n, cookie, j);
            lemma_gathered_at(n, cookie, i);
            lemma_gathered_grows(i + 1, j, cookie);
            let m = gathered(j, cookie).len() as int;
            assert(m > g);
            assert(cookie_id(given[m]) != cookie_id(given[g]));
            lemma_same_id(given[m], given[g]);
        }
        assert(stays_last(n, cookie, i));
    }
    assert forall|i: int| 0 <= i < n && (#[trigger] cookie(i)) is Some implies exists|k: int|
        0 <= k < list.len() && (#[trigger] list[k]).domain == cookie(i)->0.domain && list[k].path
            == cookie(i)->0.path && list[k].key == cookie(i)->0.key by {
        lemma_gathered_at(n, cookie, i);
        let g = gathered(i, cookie).len() as int;
        let m = lemma_last_of_id(given, g);
        assert(given[m] == given[m] && is_last(given, m));
        assert(list.contains(given[m]));
        let k = choose|k: int| 0 <= k < list.len() && list[k] == given[m];
        lemma_same_id(given[m], given[g]);
        assert(list[k].domain == cookie(i)->0.domain);
    }
}

/// No later place has a cookie of the same domain, path and key.
spec fn stays_last(n: int, cookie: spec_fn(int) -> Option<CookieView>, i: int) -> bool {
    forall|j: int|
        i < j < n && (#[trigger] cookie(j)) is Some ==> !(cookie(j)->0.domain == cookie(i)->0.domain
            && cookie(j)->0.path == cookie(i)->0.path && cookie(j)->0.key == cookie(i)->0.key)
}

proof fn lemma_firefox_gathered(rows: Seq<FirefoxRow>)
    ensures
        firefox_found(rows) == gathered(rows.len() as int, |i: int| rows[i].spec_cookie()),
    decreases rows.len(),
{
    if rows.len() > 0 {
        let init = rows.drop_last();
        lemma_firefox_gathered(init);
        let a = |i: int| init[i].spec_cookie();
        let b = |i: int| rows[i].spec_cookie();
        assert forall|i: int| 0 <= i < init.len() implies #[trigger] a(i) == b(i) by {
            assert(init[i] == rows[i]);
        }
        lemma_gathered_alike(init.len() as int, a, b);
    }
}

/// A path is that of a row, which is `/` where the row has none.
pub open spec fn is_row_path(path: Text, given: Option<String>) -> bool {
    &&& given matches Some(p) ==> path == p@
    &&& given is None ==> path == "/"@
}

/// Every cookie that is read from Firefox is that of a row: it has the row's name, value, host and
/// path, expires when the row says, told in milliseconds, and no later row with a value is of the
/// same name, host and path.
pub proof fn law_firefox_cookies_are_those_of_the_rows(
    list: Seq<CookieView>,
    rows: Seq<FirefoxRow>,
    k: int,
)
    requires
        deduped(list, firefox_found(rows)),
        0 <= k < list.len(),
    ensures
        exists|i: int|
            {
                &&& 0 <= i < rows.len()
                &&& (#[trigger] rows[i]).value@ == list[k].value
                &&& rows[i].value@.len() > 0
                &&& rows[i].name@ == list[k].key
                &&& list[k].name == Some(rows[i].name@)
                &&& rows[i].host@ == list[k].domain
                &&& rows[i].path matches Some(p) ==> list[k].path == p@
                &&& rows[i].path is None ==> list[k].path == "/"@
                &&& rows[i].expiry is None <==> list[k].expires is None
                &&& rows[i].expiry matches Some(seconds) ==> list[k].expires == Some(
                    seconds * 1000,
                )
                &&& rows[i].is_secure is None <==> list[k].secure is None
                &&& rows[i].is_secure matches Some(flag) ==> list[k].secure == Some(flag != 0)
                &&& forall|j: int|
                    i < j < rows.len() && (#[trigger] rows[j]).value@.len() > 0 && rows[j].name@
                        == rows[i].name@ && rows[j].host@ == rows[i].host@ ==> !is_row_path(
                        list[k].path,
                        rows[j].path,
                    )
            },
{
    let cookie = |i: int| rows[i].spec_cookie();
    let n = rows.len() as int;
    lemma_firefox_gathered(rows);
    lemma_kept(list, n, cookie);
    assert(is_kept(n, cookie, list[k]));
    let i = choose|i: int|
        0 <= i < n && cookie(i) == Some(list[k]) && #[trigger] stays_last(n, cookie, i);
    assert(rows[i].spec_cookie() == Some(list[k]));
    assert forall|j: int|
        i < j < rows.len() && (#[trigger] rows[j]).value@.len() > 0 && rows[j].name@
            == rows[i].name@ && rows[j].host@ == rows[i].host@ implies !is_row_path(
        list[k].path,
        rows[j].path,
    ) by {
        assert(cookie(j) is Some);
    }
}

/// Every row of Firefox that has a value has a cookie of its name, host and path.
pub proof fn law_every_firefox_row_has_a_cookie(
    list: Seq<CookieView>,
    rows: Seq<FirefoxRow>,
    i: int,
)
    requires
        deduped(list, firefox_found(rows)),
        0 <= i < rows.len(),
        rows[i].value@.len() > 0,
    ensures
        exists|k: int|
            0 <= k < list.len() && (#[trigger] list[k]).key == rows[i].name@ && list[k].domain
                == rows[i].host@ && is_row_path(list[k].path, rows[i].path),
{
    let cookie = |i: int| rows[i].spec_cookie();
    lemma_firefox_gathered(rows);
    lemma_kept(list, rows.len() as int, cookie);
    assert(cookie(i) is Some);
    let k = choose|k: int|
        0 <= k < list.len() && (#[trigger] list[k]).domain == cookie(i)->0.domain && list[k].path
            == cookie(i)->0.path && list[k].key == cookie(i)->0.key;
    assert(list[k].key == rows[i].name@);
}

proof fn lemma_chromium_gathered(rows: Seq<ChromiumRow>, key: Seq<u8>, store: Text)
    requires
        chromium_found(rows, key, store) is Ok,
    ensures
        chromium_found(rows, key, store)->Ok_0 == gathered(
            rows.len() as int,
            |i: int| rows[i].spec_cookie(rows[i].spec_value(key)->Ok_0),
        ),
        forall|i: int| 0 <= i < rows.len() ==> (#[trigger] rows[i]).spec_value(key) is Ok,
    decreases rows.len(),
{
    if rows.len() > 0 {
        let init = rows.drop_last();
        lemma_chromium_gathered(init, key, store);
        let a = |i: int| init[i].spec_cookie(init[i].spec_value(key)->Ok_0);
        let b = |i: int| rows[i].spec_cookie(rows[i].spec_value(key)->Ok_0);
        assert forall|i: int| 0 <= i < init.len() implies #[trigger] a(i) == b(i) by {
            assert(init[i] == rows[i]);
        }
        lemma_gathered_alike(init.len() as int, a, b);
        assert forall|i: int| 0 <= i < rows.len() implies (#[trigger] rows[i]).spec_value(key)
            is Ok by {
            if i < init.len() {
                assert(init[i] == rows[i]);
            }
        }
    }
}

/// Every cookie that is read from a browser of the Chromium family is that of a row: it has the
/// row's name, host and path, the plain value of the row or else the decrypted one, and no later
/// row with a value is of the same name, host and path.
pub proof fn law_chromium_cookies_are_those_of_the_rows(
    list: Seq<CookieView>,
    rows: Seq<ChromiumRow>,
    key: Seq<u8>,
    store: Text,
    k: int,
)
    requires
        chromium_found(rows, key, store) is Ok,
        deduped(list, chromium_found(rows, key, store)->Ok_0),
        0 <= k < list.len(),
    ensures
        exists|i: int|
            {
                &&& 0 <= i < rows.len()
                &&& (#[trigger] rows[i]).name@ == list[k].key
                &&& list[k].name == Some(rows[i].name@)
                &&& list[k].value.len() > 0
                &&& rows[i].value matches Some(v) ==> (v@.len() > 0 ==> list[k].value == v@)
                &&& (rows[i].value matches Some(v) ==> v@.len() == 0)
                    ==> rows[i].encrypted_value is Some && decrypted(
                    rows[i].encrypted_value->0@,
                    key,
                    rows[i].host_key@,
                ) == Ok::<Text, Text>(list[k].value)
                &&& rows[i].host_key@ == list[k].domain
                &&& rows[i].path matches Some(p) ==> list[k].path == p@
                &&& rows[i].path is None ==> list[k].path == "/"@
                &&& rows[i].expires_utc is None ==> list[k].expires is None
                &&& rows[i].expires_utc matches Some(t) ==> list[k].expires == (if t <= 0 {
                    None::<int>
                } else {
                    Some(t as int / 1000 - 11_644_473_600_000)
                })
                &&& rows[i].is_secure is None <==> list[k].secure is None
                &&& rows[i].is_secure matches Some(flag) ==> list[k].secure == Some(flag != 0)
                &&& forall|j: int|
                    i < j < rows.len() && (#[trigger] rows[j]).value is Some
                        && rows[j].value->0@.len() > 0 && rows[j].name@ == rows[i].name@
                        && rows[j].host_key@ == rows[i].host_key@ ==> !is_row_path(
                        list[k].path,
                        rows[j].path,
                    )
            },
{
    let cookie = |i: int| rows[i].spec_cookie(rows[i].spec_value(key)->Ok_0);
    let n = rows.len() as int;
    lemma_chromium_gathered(rows, key, store);
    lemma_kept(list, n, cookie);
    assert(is_kept(n, cookie, list[k]));
    let i = choose|i: int|
        0 <= i < n && cookie(i) == Some(list[k]) && #[trigger] stays_last(n, cookie, i);
    assert(rows[i].spec_cookie(rows[i].spec_value(key)->Ok_0) == Some(list[k]));
    assert(rows[i].spec_value(key) is Ok);
    assert forall|j: int|
        i < j < rows.len() && (#[trigger] rows[j]).value is Some && rows[j].value->0@.len() > 0
            && rows[j].name@ == rows[i].name@ && rows[j].host_key@
            == rows[i].host_key@ implies !is_row_path(list[k].path, rows[j].path) by {
        assert(rows[j].spec_value(key) is Ok);
        assert(cookie(j) is Some);
    }
}

/// Every row of the Chromium family whose value is there, plain or decrypted, has a cookie of its
/// name, host and path.
pub proof fn law_every_chromium_row_has_a_cookie(
    list: Seq<CookieView>,
    rows: Seq<ChromiumRow>,
    key: Seq<u8>,
    store: Text,
    i: int,
)
    requires
        chromium_found(rows, key, store) is Ok,
        deduped(list, chromium_found(rows, key, store)->Ok_0),
        0 <= i < rows.len(),
        rows[i].value is Some && rows[i].value->0@.len() > 0 || (rows[i].value is None
            && rows[i].encrypted_value is Some && rows[i].encrypted_value->0@.len() > 0
            && decrypted(rows[i].encrypted_value->0@, key, rows[i].host_key@) is Ok && decrypted(
            rows[i].encrypted_value->0@,
            key,
            rows[i].host_key@,
        )->Ok_0.len() > 0),
    ensures
        exists|k: int|
            0 <= k < list.len() && (#[trigger] list[k]).key == rows[i].name@ && list[k].domain
                == rows[i].host_key@ && is_row_path(list[k].path, rows[i].path),
{
    let cookie = |i: int| rows[i].spec_cookie(rows[i].spec_value(key)->Ok_0);
    lemma_chromium_gathered(rows, key, store);
    lemma_kept(list, rows.len() as int, cookie);
    assert(cookie(i) is Some);
    let k = choose|k: int|
        0 <= k < list.len() && (#[trigger] list[k]).domain == cookie(i)->0.domain && list[k].path
            == cookie(i)->0.path && list[k].key == cookie(i)->0.key;
    assert(list[k].key == rows[i].name@);
}

/// Rows fail to be read exactly where one of them has to be decrypted and cannot be; the message is
/// about the first such row.
pub proof fn law_undecryptable_rows_are_errors(
    rows: Seq<ChromiumRow>,
    key: Seq<u8>,
    store: Text,
    i: int,
)
    requires
        0 <= i < rows.len(),
        forall|j: int| 0 <= j < i ==> (#[trigger] rows[j]).spec_value(key) is Ok,
        rows[i].spec_value(key) is Err,
    ensures
        chromium_found(rows, key, store) is Err,
        contains_text(chromium_found(rows, key, store)->Err_0, "`"@ + rows[i].name@ + "`"@),
        contains_text(chromium_found(rows, key, store)->Err_0, rows[i].spec_value(key)->Err_0),
{
    let few = rows.take(i + 1);
    assert(few.drop_last() =~= rows.take(i));
    assert(few.last() == rows[i]);
    lemma_decryptable(rows.take(i), key, store);
    assert(chromium_found(few, key, store) is Err);
    lemma_first_failure(rows, key, store, i + 1);
    let reason = rows[i].spec_value(key)->Err_0;
    let name = rows[i].name@;
    reveal_strlit("decrypt Chromium cookie `");
    reveal_strlit("decrypt Chromium cookie ");
    reveal_strlit("`");
    reveal_strlit("` from ");
    reveal_strlit(" from ");
    assert("decrypt Chromium cookie `"@ =~= "decrypt Chromium cookie "@ + "`"@);
    assert("` from "@ =~= "`"@ + " from "@);
    let head = "decrypt Chromium cookie `"@ + name + "` from "@;
    let p = "`"@ + name + "`"@;
    assert(head =~= "decrypt Chromium cookie "@ + p + " from "@);
    lemma_part_is_found("decrypt Chromium cookie "@, p, " from "@);
    lemma_found_stays(head, p, store);
    lemma_found_stays(head + store, p, ": "@);
    lemma_found_stays(head + store + ": "@, p, reason);
    lemma_end_is_found(head + store + ": "@, reason);
}

proof fn lemma_decryptable(rows: Seq<ChromiumRow>, key: Seq<u8>, store: Text)
    requires
        forall|j: int| 0 <= j < rows.len() ==> (#[trigger] rows[j]).spec_value(key) is Ok,
    ensures
        chromium_found(rows, key, store) is Ok,
    decreases rows.len(),
{
    if rows.len() > 0 {
        let init = rows.drop_last();
        assert forall|j: int| 0 <= j < init.len() implies (#[trigger] init[j]).spec_value(key)
            is Ok by {
            assert(init[j] == rows[j]);
        }
        lemma_decryptable(init, key, store);
        assert(rows[rows.len() - 1].spec_value(key) is Ok);
    }
}

/// A plain value is taken as it is, whatever is encrypted beside it; a row without either has an
/// empty value.
pub proof fn law_plain_values_are_not_decrypted(row: ChromiumRow, key: Seq<u8>)
    ensures
        row.value matches Some(v) ==> (v@.len() > 0 ==> !row.spec_needs_key() && row.spec_value(key)
            == Ok::<Text, Text>(v@)),
        row.value is None && row.encrypted_value is None ==> !row.spec_needs_key()
            && row.spec_value(key) == Ok::<Text, Text>(Seq::<char>::empty()),
        row.value is None && row.encrypted_value is Some && row.encrypted_value->0@.len() > 0
            ==> row.spec_needs_key() && row.spec_value(key) == decrypted(
            row.encrypted_value->0@,
            key,
            row.host_key@,
        ),
{
}

/// Behind the mark of a version, `v10` or `v11`, stands what is decrypted with the key, from an
/// initial vector of sixteen spaces; bytes without such a mark are the value themselves.
pub proof fn law_marked_values_are_decrypted(
    data: Seq<u8>,
    key: Seq<u8>,
    host: Text,
    plain: Seq<u8>,
)
    requires
        key.len() == 16,
    ensures
        ({
            let iv = Seq::new(16, |i: int| 32u8);
            let opened = match aes128_cbc_of(key, iv, data) {
                Some(plaintext) => plaintext_text(plaintext, host),
                None => Err("invalid Chromium cookie padding: UnpadError"@),
            };
            &&& decrypted(seq![118u8, 49u8, 48u8] + data, key, host) == opened
            &&& decrypted(seq![118u8, 49u8, 49u8] + data, key, host) == opened
            &&& plain.len() < 3 || plain[0] != 118 || plain[1] != 49 ==> decrypted(plain, key, host)
                == bytes_text(plain)
        }),
{
    let ten = seq![118u8, 49u8, 48u8] + data;
    let eleven = seq![118u8, 49u8, 49u8] + data;
    assert(ten[0] == 118 && ten[1] == 49 && ten[2] == 48);
    assert(eleven[0] == 118 && eleven[1] == 49 && eleven[2] == 49);
    assert(ten.skip(3) =~= data);
    assert(eleven.skip(3) =~= data);
    assert(cookie_iv() =~= Seq::new(16, |i: int| 32u8));
}

/// The hash of the host is left out of the value of a cookie, and nothing else is; a plaintext that
/// does not begin with it is the value itself.
pub proof fn law_value_stands_behind_the_hash_of_its_host(
    host: Text,
    value: Seq<u8>,
    plain: Seq<u8>,
)
    requires
        sha256_of(vstd::utf8::encode_utf8(host)).len() == 32,
        value.len() > 0,
        plain.len() <= 32 || plain.take(32) != sha256_of(vstd::utf8::encode_utf8(host)),
    ensures
        plaintext_text(sha256_of(vstd::utf8::encode_utf8(host)) + value, host) == bytes_text(value),
        plaintext_text(plain, host) == bytes_text(plain),
{
    law_hash_is_stripped(sha256_of(vstd::utf8::encode_utf8(host)), value);
}

/// Bytes say what they encode, and bytes that are no UTF-8 say nothing.
pub proof fn law_bytes_say_what_they_encode(text: Text, bytes: Seq<u8>)
    ensures
        bytes_text(vstd::utf8::encode_utf8(text)) == Ok::<Text, Text>(text),
        bytes_text(bytes) is Ok <==> vstd::utf8::valid_utf8(bytes),
{
    vstd::utf8::encode_utf8_valid_utf8(text);
    vstd::utf8::encode_utf8_decode_utf8(text);
}

/// The key of a browser is derived from its password with the salt `saltysalt`, in 1003 rounds, and
/// has 16 bytes; white space behind the password does not count.
pub proof fn law_key_is_derived_from_the_password(password: Text)
    ensures
        salt().len() == "saltysalt"@.len(),
        forall|i: int| 0 <= i < salt().len() ==> (#[trigger] salt()[i]) as char == "saltysalt"@[i],
        cookie_key(password) == pbkdf2_sha1_of(
            vstd::utf8::encode_utf8(password),
            salt(),
            1003,
            16,
        ),
{
    reveal_strlit("saltysalt");
}

/// Each browser has an entry of its own in the keychain, which begins with its name.
pub proof fn law_keychain_entry_names_the_browser()
    ensures
        starts_with(service_name(BrowserKind::Chrome), "Chrome "@),
        starts_with(service_name(BrowserKind::Brave), "Brave "@),
        starts_with(service_name(BrowserKind::Edge), "Microsoft Edge "@),
        starts_with(service_name(BrowserKind::Comet), "Comet "@),
        starts_with(service_name(BrowserKind::Chromium), "Chromium "@),
{
    reveal_strlit("Chrome ");
    reveal_strlit("Brave ");
    reveal_strlit("Microsoft Edge ");
    reveal_strlit("Comet ");
    reveal_strlit("Chromium ");
    reveal_strlit("Chrome Safe Storage");
    reveal_strlit("Brave Safe Storage");
    reveal_strlit("Microsoft Edge Safe Storage");
    reveal_strlit("Comet Safe Storage");
    reveal_strlit("Chromium Safe Storage");
    assert("Chrome Safe Storage"@.subrange(0, 7) =~= "Chrome "@);
    assert("Brave Safe Storage"@.subrange(0, 6) =~= "Brave "@);
    assert("Microsoft Edge Safe Storage"@.subrange(0, 15) =~= "Microsoft Edge "@);
    assert("Comet Safe Storage"@.subrange(0, 6) =~= "Comet "@);
    assert("Chromium Safe Storage"@.subrange(0, 9) =~= "Chromium "@);
}

/// A login needs a cookie `c_user` and a cookie `xs`, each under its key or its name, and nothing
/// else; the message names the one that is missing.
pub proof fn law_login_needs_user_and_session(cookies: Seq<BrowserCookie>)
    ensures
        ({
            let user = exists|i: int|
                0 <= i < cookies.len() && ((#[trigger] cookies[i]).key@ == "c_user"@ || (
                cookies[i].name is Some && cookies[i].name->0@ == "c_user"@));
            let session = exists|i: int|
                0 <= i < cookies.len() && ((#[trigger] cookies[i]).key@ == "xs"@ || (
                cookies[i].name is Some && cookies[i].name->0@ == "xs"@));
            &&& login_check(cookies) is Ok <==> user && session
            &&& !user ==> login_check(cookies) == Err::<(), Text>(missing_cookie("c_user"@))
            &&& user && !session ==> login_check(cookies) == Err::<(), Text>(missing_cookie("xs"@))
        }),
{
}

/// What is said of a cookie that is missing names it, and says what to do.
pub proof fn law_missing_cookie_is_named(name: Text)
    ensures
        starts_with(
            missing_cookie(name),
            "browser cookies did not include required Facebook cookie `"@ + name + "`"@,
        ),
        missing_cookie(name) == "browser cookies did not include required Facebook cookie `"@ + name
            + "`; log into facebook.com in the selected browser profile first"@,
{
    reveal_strlit("`");
    reveal_strlit("`; log into facebook.com in the selected browser profile first");
    let head = "browser cookies did not include required Facebook cookie `"@ + name;
    assert((head + "`"@) =~= missing_cookie(name).take((head + "`"@).len() as int));
}

/// A copy of a store is named by the time and by the name of the store, so that copies of one time
/// are of one name only.
pub proof fn law_copies_are_named_by_time_and_store(now: int, path: Text)
    ensures
        starts_with(copy_name(now, path), int_text(now) + "-"@),
        file_name(path) matches Some(name) ==> copy_name(now, path) == int_text(now) + "-"@ + name,
        file_name(path) is None ==> copy_name(now, path) == int_text(now) + "-"@
            + "cookies.sqlite"@,
{
    let head = int_text(now) + "-"@;
    let all = copy_name(now, path);
    assert(all.subrange(0, head.len() as int) =~= head);
}

} // verus!
