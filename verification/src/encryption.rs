//! The encryption stage: a page whose frontmatter sets a nonempty `password`
//! has its rendered HTML encrypted for client-side decryption.
//!
//! A key is derived from the password and a random salt by PBKDF2-SHA256 at
//! a fixed iteration count; the HTML bytes are sealed with AES-256-GCM under
//! a random nonce; the page's HTML becomes a fixed shell carrying the
//! base64 ciphertext, salt and nonce. The password never leaves the
//! pipeline: it is overwritten with an empty value. A cache keyed by a
//! digest over password, plaintext, iteration count and algorithm tag lets
//! repeated renders of unchanged content reuse the computed cipher data.

use vstd::prelude::*;
use vstd::slice::slice_to_vec;

use crate::digest::{sha256_of, sha256_hex, spec_to_hex};
use crate::errors::RenderError;
use crate::text::{push_str_chars, str_eq, to_chars, to_string};
use crate::types::Page;

verus! {

broadcast use vstd::string::group_string_axioms;

/// The fixed PBKDF2 iteration count.
pub const PBKDF2_ITERATIONS: u32 = 120000;

/// The PBKDF2-SHA256 key derived from a password and salt: 32 bytes,
/// depending on the arguments alone.
pub uninterp spec fn pbkdf2_key(password: Seq<u8>, salt: Seq<u8>, rounds: u32) -> Seq<u8>;

/// Relies on `pbkdf2::pbkdf2_hmac_array` with SHA-256: a 32-byte key that
/// depends on its arguments alone.
#[verifier::external_body]
fn derive_key(password: &Vec<u8>, salt: &Vec<u8>, rounds: u32) -> (r: Vec<u8>)
    ensures
        r@ == pbkdf2_key(password@, salt@, rounds),
        r@.len() == 32,
{
    pbkdf2::pbkdf2_hmac_array::<sha2::Sha256, 32>(
        password.as_slice(),
        salt.as_slice(),
        rounds,
    ).to_vec()
}

/// The AES-256-GCM sealing of a plaintext under a key and nonce (ciphertext
/// with the authentication tag appended): deterministic in its arguments.
pub uninterp spec fn aes_gcm_ct(key: Seq<u8>, nonce: Seq<u8>, plaintext: Seq<u8>) -> Seq<u8>;

/// Relies on `aes_gcm::Aes256Gcm` (`KeyInit::new_from_slice`, then
/// `Aead::encrypt`): encryption is deterministic in key, nonce and
/// plaintext. The key is 32 bytes and the nonce 12, so cipher construction
/// cannot fail on length.
#[verifier::external_body]
fn aes256_gcm_encrypt(key: &Vec<u8>, nonce: &Vec<u8>, plaintext: &Vec<u8>) -> (r: Result<
    Vec<u8>,
    (),
>)
    requires
        key@.len() == 32,
        nonce@.len() == 12,
    ensures
        r matches Ok(ct) ==> ct@ == aes_gcm_ct(key@, nonce@, plaintext@),
{
    let cipher = match <aes_gcm::Aes256Gcm as aes_gcm::KeyInit>::new_from_slice(key.as_slice()) {
        Ok(c) => c,
        Err(_) => {
            return Err(());
        },
    };
    let nonce_ga = aes_gcm::aead::generic_array::GenericArray::from_slice(nonce.as_slice());
    match aes_gcm::aead::Aead::encrypt(&cipher, nonce_ga, plaintext.as_slice()) {
        Ok(ct) => Ok(ct),
        Err(_) => Err(()),
    }
}

/// The standard-alphabet base64 encoding of a byte string.
pub uninterp spec fn base64_std(data: Seq<u8>) -> Seq<char>;

/// Relies on base64's `STANDARD` engine: the encoding depends on the bytes
/// alone.
#[verifier::external_body]
fn b64_encode(data: &Vec<u8>) -> (r: String)
    ensures
        r@ == base64_std(data@),
{
    base64::Engine::encode(&base64::engine::general_purpose::STANDARD, data.as_slice())
}

/// Relies on `getrandom::fill` for operating-system randomness; nothing is
/// assumed of the bytes beyond their count.
#[verifier::external_body]
fn random_bytes(n: usize) -> (r: Result<Vec<u8>, ()>)
    ensures
        r matches Ok(b) ==> b@.len() == n,
{
    let mut buf = vec![0u8; n];
    match getrandom::fill(&mut buf) {
        Ok(()) => Ok(buf),
        Err(_) => Err(()),
    }
}

/// The four little-endian bytes of a 32-bit value.
pub open spec fn spec_le32(x: u32) -> Seq<u8> {
    seq![
        (x as int % 256) as u8,
        (x as int / 256 % 256) as u8,
        (x as int / 65536 % 256) as u8,
        (x as int / 16777216 % 256) as u8,
    ]
}

/// The four little-endian bytes of a 32-bit value, executably.
fn le32(x: u32) -> (r: Vec<u8>)
    ensures
        r@ =~= spec_le32(x),
{
    let mut r: Vec<u8> = Vec::new();
    r.push((x % 256) as u8);
    r.push((x / 256 % 256) as u8);
    r.push((x / 65536 % 256) as u8);
    r.push((x / 16777216 % 256) as u8);
    r
}

/// Is `c` whitespace for word counting (space, tab, newline, return)?
pub open spec fn word_ws(c: char) -> bool {
    c == ' ' || c == '\t' || c == '\n' || c == '\r'
}

/// The cipher data kept for one (password, plaintext) digest.
#[derive(Debug, Clone)]
pub struct CachedCipher {
    pub ciphertext_b64: String,
    pub salt_b64: String,
    pub nonce_b64: String,
}

/// The mathematical value of cached cipher data.
pub struct CipherV {
    pub ciphertext_b64: Seq<char>,
    pub salt_b64: Seq<char>,
    pub nonce_b64: Seq<char>,
}

impl View for CachedCipher {
    type V = CipherV;

    open spec fn view(&self) -> CipherV {
        CipherV {
            ciphertext_b64: self.ciphertext_b64@,
            salt_b64: self.salt_b64@,
            nonce_b64: self.nonce_b64@,
        }
    }
}

/// The value stored for digest `k`, if any.
pub open spec fn cache_get(m: Seq<(Seq<char>, CipherV)>, k: Seq<char>) -> Option<CipherV>
    decreases m.len(),
{
    if m.len() == 0 {
        None
    } else if m[0].0 == k {
        Some(m[0].1)
    } else {
        cache_get(m.drop_first(), k)
    }
}

/// `m` with the entry for `k` replaced in place, or appended.
pub open spec fn cache_set(m: Seq<(Seq<char>, CipherV)>, k: Seq<char>, v: CipherV) -> Seq<
    (Seq<char>, CipherV),
>
    decreases m.len(),
{
    if m.len() == 0 {
        seq![(k, v)]
    } else if m[0].0 == k {
        seq![(k, v)] + m.drop_first()
    } else {
        seq![m[0]] + cache_set(m.drop_first(), k, v)
    }
}

/// The cache of computed cipher data, keyed by a digest over password,
/// plaintext, iteration count and algorithm tag.
#[derive(Debug)]
pub struct EncryptCache {
    entries: Vec<(String, CachedCipher)>,
}

impl View for EncryptCache {
    type V = Seq<(Seq<char>, CipherV)>;

    closed spec fn view(&self) -> Seq<(Seq<char>, CipherV)> {
        Seq::new(self.entries@.len(), |i: int| (self.entries@[i].0@, self.entries@[i].1@))
    }
}

impl EncryptCache {
    /// An empty cache.
    pub fn new() -> (r: EncryptCache)
        ensures
            r@ == Seq::<(Seq<char>, CipherV)>::empty(),
    {
        let r = EncryptCache { entries: Vec::new() };
        proof {
            assert(r@ =~= Seq::<(Seq<char>, CipherV)>::empty());
        }
        r
    }

    /// Look up cipher data by its digest.
    pub fn get(&self, k: &str) -> (r: Option<&CachedCipher>)
        ensures
            match r {
                Some(c) => cache_get(self@, k@) == Some(c@),
                None => cache_get(self@, k@) is None,
            },
    {
        let n = self.entries.len();
        let mut i: usize = 0;
        while i < n
            invariant
                n == self.entries@.len(),
                i <= n,
                forall|j: int| 0 <= j < i ==> self.entries@[j].0@ != k@,
            decreases n - i,
        {
            if str_eq(self.entries[i].0.as_str(), k) {
                proof {
                    lemma_cache_get_at(self@, k@, i as int);
                }
                return Some(&self.entries[i].1);
            }
            i = i + 1;
        }
        proof {
            lemma_cache_get_missing(self@, k@);
        }
        None
    }

    /// Store cipher data under its digest, replacing an earlier entry.
    pub fn insert(&mut self, k: String, c: CachedCipher)
        ensures
            final(self)@ =~~= cache_set(old(self)@, k@, c@),
    {
        let n = self.entries.len();
        let mut i: usize = 0;
        while i < n
            invariant
                n == self.entries@.len(),
                i <= n,
                self.entries@ == old(self).entries@,
                forall|j: int| 0 <= j < i ==> old(self).entries@[j].0@ != k@,
            decreases n - i,
        {
            if str_eq(self.entries[i].0.as_str(), k.as_str()) {
                self.entries[i] = (k, c);
                proof {
                    lemma_cache_set_at(old(self)@, k@, c@, i as int);
                    assert(self@ =~~= old(self)@.update(i as int, (k@, c@)));
                }
                return ;
            }
            i = i + 1;
        }
        self.entries.push((k, c));
        proof {
            lemma_cache_set_missing(old(self)@, k@, c@);
            assert(self@ =~~= old(self)@.push((k@, c@)));
        }
    }
}

/// When `k` first occurs at `i`, `cache_get` yields that entry.
proof fn lemma_cache_get_at(m: Seq<(Seq<char>, CipherV)>, k: Seq<char>, i: int)
    requires
        0 <= i < m.len(),
        m[i].0 == k,
        forall|j: int| 0 <= j < i ==> m[j].0 != k,
    ensures
        cache_get(m, k) == Some(m[i].1),
    decreases m.len(),
{
    if i > 0 {
        assert forall|j: int| 0 <= j < i - 1 implies m.drop_first()[j].0 != k by {
            assert(m[j + 1].0 != k);
        }
        lemma_cache_get_at(m.drop_first(), k, i - 1);
    }
}

/// When `k` occurs nowhere, `cache_get` yields nothing.
proof fn lemma_cache_get_missing(m: Seq<(Seq<char>, CipherV)>, k: Seq<char>)
    requires
        forall|j: int| 0 <= j < m.len() ==> m[j].0 != k,
    ensures
        cache_get(m, k) is None,
    decreases m.len(),
{
    if m.len() > 0 {
        assert forall|j: int| 0 <= j < m.drop_first().len() implies m.drop_first()[j].0 != k by {
            assert(m[j + 1].0 != k);
        }
        lemma_cache_get_missing(m.drop_first(), k);
    }
}

/// When `k` first occurs at `i`, `cache_set` updates that entry.
proof fn lemma_cache_set_at(m: Seq<(Seq<char>, CipherV)>, k: Seq<char>, v: CipherV, i: int)
    requires
        0 <= i < m.len(),
        m[i].0 == k,
        forall|j: int| 0 <= j < i ==> m[j].0 != k,
    ensures
        cache_set(m, k, v) =~~= m.update(i, (k, v)),
    decreases m.len(),
{
    if i > 0 {
        assert forall|j: int| 0 <= j < i - 1 implies m.drop_first()[j].0 != k by {
            assert(m[j + 1].0 != k);
        }
        lemma_cache_set_at(m.drop_first(), k, v, i - 1);
        assert((seq![m[0]] + m.drop_first().update(i - 1, (k, v))) =~~= m.update(i, (k, v)));
    } else {
        assert((seq![(k, v)] + m.drop_first()) =~~= m.update(0, (k, v)));
    }
}

/// When `k` occurs nowhere, `cache_set` appends.
proof fn lemma_cache_set_missing(m: Seq<(Seq<char>, CipherV)>, k: Seq<char>, v: CipherV)
    requires
        forall|j: int| 0 <= j < m.len() ==> m[j].0 != k,
    ensures
        cache_set(m, k, v) =~~= m.push((k, v)),
    decreases m.len(),
{
    if m.len() > 0 {
        assert forall|j: int| 0 <= j < m.drop_first().len() implies m.drop_first()[j].0 != k by {
            assert(m[j + 1].0 != k);
        }
        lemma_cache_set_missing(m.drop_first(), k, v);
        assert((seq![m[0]] + m.drop_first().push((k, v))) =~~= m.push((k, v)));
    }
}

/// The bytes hashed into the cipher cache key: password, plaintext,
/// little-endian iteration count, and the algorithm/version tag.
pub open spec fn enc_key_bytes(pw: Seq<u8>, html: Seq<u8>) -> Seq<u8> {
    pw + html + spec_le32(PBKDF2_ITERATIONS) + vstd::utf8::encode_utf8("AES-256-GCM:v1"@)
}

/// The hex digest keying the cipher cache.
pub open spec fn enc_key_hex(pw: Seq<u8>, html: Seq<u8>) -> Seq<char> {
    spec_to_hex(sha256_of(enc_key_bytes(pw, html)))
}

/// The shell opening, up to the ciphertext attribute.
pub const ENC_SHELL_CT: &'static str = "<div class=\"encrypted-note\" data-ciphertext=\"";

/// Between the ciphertext and salt attributes.
pub const ENC_SHELL_SALT: &'static str = "\" data-salt=\"";

/// Between the salt and nonce attributes.
pub const ENC_SHELL_NONCE: &'static str = "\" data-nonce=\"";

/// The shell from the nonce attribute's close to the end: algorithm
/// parameters and the password form the client-side script fills.
pub const ENC_SHELL_TAIL: &'static str =
    "\" data-iterations=\"120000\" data-algo=\"AES-256-GCM\" data-kdf=\"PBKDF2-SHA256\" data-version=\"1\">\n  <div class=\"encrypted-note__chrome\">\n    <div class=\"encrypted-note__status\">Protected note \u{c2}\u{b7} Enter the password to decrypt locally.</div>\n    <form class=\"encrypted-note__form\" novalidate>\n      <div class=\"encrypted-note__field\">\n        <input class=\"encrypted-note__input\" type=\"password\" name=\"password\" autocomplete=\"current-password\" placeholder=\" \" required />\n        <label class=\"encrypted-note__label\">Password</label>\n      </div>\n      <div class=\"encrypted-note__actions\">\n        <button type=\"submit\">Decrypt</button>\n      </div>\n    </form>\n  </div>\n  <div class=\"encrypted-note__decode\" aria-live=\"polite\"></div>\n  <div class=\"encrypted-note__body\" hidden></div>\n</div>";

/// The HTML shell embedding base64 cipher data for client-side decryption.
pub open spec fn shell_html(ct64: Seq<char>, salt64: Seq<char>, nonce64: Seq<char>) -> Seq<char> {
    ENC_SHELL_CT@ + ct64 + ENC_SHELL_SALT@ + salt64 + ENC_SHELL_NONCE@ + nonce64
        + ENC_SHELL_TAIL@
}

/// Assemble the encrypted-note shell.
fn build_shell(ct64: &str, salt64: &str, nonce64: &str) -> (r: String)
    ensures
        r@ == shell_html(ct64@, salt64@, nonce64@),
{
    let mut out: Vec<char> = Vec::new();
    push_str_chars(&mut out, ENC_SHELL_CT);
    push_str_chars(&mut out, ct64);
    push_str_chars(&mut out, ENC_SHELL_SALT);
    push_str_chars(&mut out, salt64);
    push_str_chars(&mut out, ENC_SHELL_NONCE);
    push_str_chars(&mut out, nonce64);
    push_str_chars(&mut out, ENC_SHELL_TAIL);
    to_string(&out)
}

/// Will the encryption stage act on this page: a nonempty password and
/// rendered HTML present?
pub open spec fn needs_encryption(page: Page) -> bool {
    &&& page.frontmatter.password matches Some(p) && p@.len() > 0
    &&& page.html is Some
}

/// What the encryption stage leaves behind, besides the new HTML: the
/// password blanked, the word count of the plaintext recorded, the
/// encrypted flag set, and everything else untouched.
pub open spec fn encrypted_meta_ok(page: Page, p: Page) -> bool {
    &&& p.slug == page.slug
    &&& p.source_path == page.source_path
    &&& p.content == page.content
    &&& p.raw_frontmatter == page.raw_frontmatter
    &&& p.frontmatter.password matches Some(e) && e@.len() == 0
    &&& p.frontmatter.word_count matches Some(w) && w as int == spec_word_count(
        page.html.unwrap()@,
    )
    &&& p.frontmatter.encrypted == Some(true)
    &&& p.frontmatter.title == page.frontmatter.title
    &&& p.frontmatter.description == page.frontmatter.description
    &&& p.frontmatter.created == page.frontmatter.created
    &&& p.frontmatter.updated == page.frontmatter.updated
    &&& p.frontmatter.tags == page.frontmatter.tags
    &&& p.frontmatter.draft == page.frontmatter.draft
    &&& p.frontmatter.publish == page.frontmatter.publish
}

/// The digest keying the cipher cache for this page.
pub open spec fn page_enc_key(page: Page) -> Seq<char> {
    enc_key_hex(
        vstd::utf8::encode_utf8(page.frontmatter.password.unwrap()@),
        vstd::utf8::encode_utf8(page.html.unwrap()@),
    )
}

/// The shell produced when fresh cipher data was computed with `salt` and
/// `nonce`, and the cache entry recorded for it.
pub open spec fn fresh_cipher_v(page: Page, salt: Seq<u8>, nonce: Seq<u8>) -> CipherV {
    let pw = vstd::utf8::encode_utf8(page.frontmatter.password.unwrap()@);
    let pt = vstd::utf8::encode_utf8(page.html.unwrap()@);
    CipherV {
        ciphertext_b64: base64_std(aes_gcm_ct(pbkdf2_key(pw, salt, PBKDF2_ITERATIONS), nonce, pt)),
        salt_b64: base64_std(salt),
        nonce_b64: base64_std(nonce),
    }
}

/// What the encryption stage produces, relating the input page and cipher
/// cache to the output page and cache.
pub open spec fn enc_rel(
    page: Page,
    p: Page,
    cache0: Seq<(Seq<char>, CipherV)>,
    cache1: Seq<(Seq<char>, CipherV)>,
) -> bool {
    if !needs_encryption(page) {
        p == page && cache1 == cache0
    } else {
        &&& encrypted_meta_ok(page, p)
        &&& match cache_get(cache0, page_enc_key(page)) {
            Some(c) => {
                &&& p.html matches Some(h) && h@ == shell_html(
                    c.ciphertext_b64,
                    c.salt_b64,
                    c.nonce_b64,
                )
                &&& cache1 == cache0
            },
            None => exists|salt: Seq<u8>, nonce: Seq<u8>|
                {
                    &&& salt.len() == 16
                    &&& nonce.len() == 12
                    &&& p.html matches Some(h) && h@ == shell_html(
                        (#[trigger] fresh_cipher_v(page, salt, nonce)).ciphertext_b64,
                        fresh_cipher_v(page, salt, nonce).salt_b64,
                        fresh_cipher_v(page, salt, nonce).nonce_b64,
                    )
                    &&& cache1 == cache_set(
                        cache0,
                        page_enc_key(page),
                        fresh_cipher_v(page, salt, nonce),
                    )
                },
        }
    }
}

/// The encryption stage.
pub struct EncryptContent;

impl EncryptContent {
    /// Encrypt the rendered HTML of a password-protected page, reusing
    /// cached cipher data when the same password and plaintext were sealed
    /// before; pages without a nonempty password or without HTML pass
    /// through unchanged. Key derivation or cipher failure, and missing
    /// randomness, abort the page's render; no unencrypted output leaves on
    /// that path, and no such failure is possible on a cipher-cache hit,
    /// where no outside call is made.
    pub fn transform(&self, page: Page, cache: &mut EncryptCache) -> (r: Result<
        Page,
        RenderError,
    >)
        ensures
            match r {
                Ok(p) => enc_rel(page, p, old(cache)@, final(cache)@),
                Err(e) => {
                    &&& e is Crypto
                    &&& needs_encryption(page)
                    &&& final(cache)@ == old(cache)@
                    &&& cache_get(old(cache)@, page_enc_key(page)) is None
                },
            },
            (needs_encryption(page) && cache_get(old(cache)@, page_enc_key(page)) is Some)
                ==> r is Ok,
    {
        let pw: String = match &page.frontmatter.password {
            Some(p) => p.clone(),
            None => {
                return Ok(page);
            },
        };
        if pw.as_str().unicode_len() == 0 {
            return Ok(page);
        }
        let html: String = match &page.html {
            Some(h) => h.clone(),
            None => {
                return Ok(page);
            },
        };
        let mut kb = slice_to_vec(pw.as_str().as_bytes());
        let mut hb = slice_to_vec(html.as_str().as_bytes());
        kb.append(&mut hb);
        let mut ib = le32(PBKDF2_ITERATIONS);
        kb.append(&mut ib);
        let mut tb = slice_to_vec("AES-256-GCM:v1".as_bytes());
        kb.append(&mut tb);
        proof {
            assert(kb@ =~= enc_key_bytes(
                vstd::utf8::encode_utf8(pw@),
                vstd::utf8::encode_utf8(html@),
            ));
        }
        let key_hex = sha256_hex(&kb);
        assert(key_hex@ == page_enc_key(page));
        let html_chars = to_chars(html.as_str());
        let wc = count_words(&html_chars);
        let hit: Option<(String, String, String)> = match cache.get(key_hex.as_str()) {
            Some(c) => Some(
                (c.ciphertext_b64.clone(), c.salt_b64.clone(), c.nonce_b64.clone()),
            ),
            None => None,
        };
        let (ct64, salt64, nonce64): (String, String, String) = match hit {
            Some(t) => t,
            None => {
                let salt = match random_bytes(16) {
                    Ok(b) => b,
                    Err(_) => {
                        return Err(RenderError::Crypto);
                    },
                };
                let key = derive_key(&slice_to_vec(pw.as_str().as_bytes()), &salt,
                    PBKDF2_ITERATIONS);
                let nonce = match random_bytes(12) {
                    Ok(b) => b,
                    Err(_) => {
                        return Err(RenderError::Crypto);
                    },
                };
                let pt = slice_to_vec(html.as_str().as_bytes());
                let ct = match aes256_gcm_encrypt(&key, &nonce, &pt) {
                    Ok(c) => c,
                    Err(_) => {
                        return Err(RenderError::Crypto);
                    },
                };
                let ct64 = b64_encode(&ct);
                let salt64 = b64_encode(&salt);
                let nonce64 = b64_encode(&nonce);
                cache.insert(
                    key_hex.clone(),
                    CachedCipher {
                        ciphertext_b64: ct64.clone(),
                        salt_b64: salt64.clone(),
                        nonce_b64: nonce64.clone(),
                    },
                );
                proof {
                    let cv = fresh_cipher_v(page, salt@, nonce@);
                    assert(cv.ciphertext_b64 == ct64@ && cv.salt_b64 == salt64@ && cv.nonce_b64
                        == nonce64@);
                    assert(cache@ =~~= cache_set(old(cache)@, page_enc_key(page), cv));
                }
                (ct64, salt64, nonce64)
            },
        };
        let shell = build_shell(ct64.as_str(), salt64.as_str(), nonce64.as_str());
        let mut page = page;
        page.html = Some(shell);
        page.frontmatter.password = Some(String::new());
        page.frontmatter.word_count = Some(wc);
        page.frontmatter.encrypted = Some(true);
        Ok(page)
    }
}

/// Does a new word start at position `i`: a non-whitespace character at the
/// text's start or right after whitespace?
pub open spec fn is_word_start(s: Seq<char>, i: int) -> bool {
    0 <= i < s.len() && !word_ws(s[i]) && (i == 0 || word_ws(s[i - 1]))
}

/// The number of words starting at or after position `i`.
pub open spec fn word_count_from(s: Seq<char>, i: int) -> int
    decreases s.len() - i,
{
    if i < 0 || i >= s.len() {
        0
    } else {
        (if is_word_start(s, i) {
            1int
        } else {
            0int
        }) + word_count_from(s, i + 1)
    }
}

/// The number of whitespace-separated words in a text.
pub open spec fn spec_word_count(s: Seq<char>) -> int {
    word_count_from(s, 0)
}

/// Count the whitespace-separated words of a text.
#[verifier::loop_isolation(false)]
pub fn count_words(v: &Vec<char>) -> (r: u64)
    ensures
        r as int == spec_word_count(v@),
{
    let n = v.len();
    let mut count: usize = 0;
    let mut i: usize = 0;
    while i < n
        invariant
            i <= n,
            count <= i,
            count as int + word_count_from(v@, i as int) == spec_word_count(v@),
        decreases n - i,
    {
        let c = v[i];
        let ws = c == ' ' || c == '\t' || c == '\n' || c == '\r';
        let prev_ws = if i == 0 {
            true
        } else {
            let p = v[i - 1];
            p == ' ' || p == '\t' || p == '\n' || p == '\r'
        };
        if !ws && prev_ws {
            count = count + 1;
        }
        i = i + 1;
    }
    count as u64
}

} // verus!
