//! Tests of the encryption stage: the round trip back to the plaintext with
//! the same KDF, cipher and iteration count, the cipher-data cache, and the
//! password hygiene rules.

use aes_gcm::aead::generic_array::GenericArray;
use aes_gcm::aead::Aead;
use aes_gcm::KeyInit;
use base64::Engine;

use trellis::encryption::{count_words, EncryptCache, EncryptContent, PBKDF2_ITERATIONS};
use trellis::types::Page;

fn protected_page(password: &str, html: &str) -> Page {
    let mut page = Page::new("p".to_string(), "p.md".to_string(), "body".to_string());
    page.frontmatter.password = Some(password.to_string());
    page.html = Some(html.to_string());
    page
}

fn attr_of<'a>(html: &'a str, name: &str) -> &'a str {
    let marker = format!("{}=\"", name);
    let start = html.find(&marker).unwrap() + marker.len();
    let rest = &html[start..];
    let end = rest.find('"').unwrap();
    &rest[..end]
}

#[test]
fn encryption_round_trip_decrypts_to_plaintext() {
    let enc = EncryptContent;
    let mut cache = EncryptCache::new();
    let plaintext = "<p>Secret note body</p>";
    let out = enc.transform(protected_page("hunter2", plaintext), &mut cache).unwrap();
    let html = out.html.unwrap();
    let b64 = base64::engine::general_purpose::STANDARD;
    let ct = b64.decode(attr_of(&html, "data-ciphertext")).unwrap();
    let salt = b64.decode(attr_of(&html, "data-salt")).unwrap();
    let nonce = b64.decode(attr_of(&html, "data-nonce")).unwrap();
    assert_eq!(salt.len(), 16);
    assert_eq!(nonce.len(), 12);
    assert_eq!(attr_of(&html, "data-iterations"), "120000");
    assert_eq!(attr_of(&html, "data-algo"), "AES-256-GCM");
    let key = pbkdf2::pbkdf2_hmac_array::<sha2::Sha256, 32>(
        b"hunter2",
        &salt,
        PBKDF2_ITERATIONS,
    );
    let cipher = aes_gcm::Aes256Gcm::new_from_slice(&key).unwrap();
    let decrypted = cipher
        .decrypt(GenericArray::from_slice(&nonce), ct.as_slice())
        .unwrap();
    assert_eq!(decrypted, plaintext.as_bytes());
}

#[test]
fn identical_inputs_hit_the_cipher_cache() {
    let enc = EncryptContent;
    let mut cache = EncryptCache::new();
    let a = enc
        .transform(protected_page("pw", "<p>same</p>"), &mut cache)
        .unwrap();
    let b = enc
        .transform(protected_page("pw", "<p>same</p>"), &mut cache)
        .unwrap();
    // Same password and plaintext: the cached cipher data is reused, so the
    // output bytes are identical rather than freshly salted.
    assert_eq!(a.html.unwrap(), b.html.unwrap());
}

#[test]
fn different_plaintexts_do_not_share_cipher_data() {
    let enc = EncryptContent;
    let mut cache = EncryptCache::new();
    let a = enc
        .transform(protected_page("pw", "<p>one</p>"), &mut cache)
        .unwrap();
    let b = enc
        .transform(protected_page("pw", "<p>two</p>"), &mut cache)
        .unwrap();
    assert_ne!(a.html.unwrap(), b.html.unwrap());
}

#[test]
fn password_is_blanked_and_metadata_recorded() {
    let enc = EncryptContent;
    let mut cache = EncryptCache::new();
    let out = enc
        .transform(protected_page("pw", "<p>three words here</p>"), &mut cache)
        .unwrap();
    assert_eq!(out.frontmatter.password.as_deref(), Some(""));
    assert_eq!(out.frontmatter.encrypted, Some(true));
    assert_eq!(out.frontmatter.word_count, Some(3));
    assert!(!out.html.unwrap().contains("pw"));
}

#[test]
fn empty_password_is_a_no_op() {
    let enc = EncryptContent;
    let mut cache = EncryptCache::new();
    let out = enc.transform(protected_page("", "<p>open</p>"), &mut cache).unwrap();
    assert_eq!(out.html.as_deref(), Some("<p>open</p>"));
    assert_eq!(out.frontmatter.encrypted, None);
}

#[test]
fn page_without_html_passes_through() {
    let enc = EncryptContent;
    let mut cache = EncryptCache::new();
    let mut page = Page::new("p".to_string(), "p.md".to_string(), "body".to_string());
    page.frontmatter.password = Some("pw".to_string());
    let out = enc.transform(page, &mut cache).unwrap();
    assert!(out.html.is_none());
    assert_eq!(out.frontmatter.password.as_deref(), Some("pw"));
}

#[test]
fn word_count_counts_whitespace_separated_runs() {
    assert_eq!(count_words(&"one two\tthree\nfour".chars().collect()), 4);
    assert_eq!(count_words(&"  spaced   out  ".chars().collect()), 2);
    assert_eq!(count_words(&"".chars().collect()), 0);
}
