//! Citadel protocol: the public alias of a tenant and the redaction of
//! private identifiers from messages.
use vstd::prelude::*;
use base64::Engine;
use hmac::Mac;
use crate::text::{chars_match_at, chars_of, concat2, contains, occurs_at, string_from_chars};

verus! {

/// Failures of the identity layer.
#[derive(Debug, Clone, PartialEq)]
pub enum CitadelError {
    MissingRootKey,
    CryptoError(String),
}

impl CitadelError {
    pub fn message(&self) -> (m: String)
        ensures
            m@ == match *self {
                CitadelError::MissingRootKey => "Missing AEGIS_ROOT_KEY environment variable"@,
                CitadelError::CryptoError(e) => "Cryptographic error: "@ + e@,
            },
    {
        match self {
            CitadelError::MissingRootKey => crate::text::owned("Missing AEGIS_ROOT_KEY environment variable"),
            CitadelError::CryptoError(e) => concat2("Cryptographic error: ", e.as_str()),
        }
    }
}

/// A tenant's private id and its public alias.
#[derive(Debug, Clone)]
pub struct SafeIdentity {
    pub private_id: String,
    pub public_id: String,
}

// ---------------------------------------------------------------------------
// Base64, URL-safe alphabet, no padding (RFC 4648, section 5)
// ---------------------------------------------------------------------------

/// The URL-safe Base64 digit for a six-bit value.
pub open spec fn b64_digit(v: int) -> char {
    if 0 <= v < 26 {
        (65 + v) as char
    } else if 26 <= v < 52 {
        (97 + v - 26) as char
    } else if 52 <= v < 62 {
        (48 + v - 52) as char
    } else if v == 62 {
        '-'
    } else {
        '_'
    }
}

/// URL-safe Base64 of `b`, without `=` padding.
pub open spec fn base64_url_no_pad(b: Seq<u8>) -> Seq<char>
    decreases b.len(),
{
    if b.len() == 0 {
        Seq::empty()
    } else {
        let b0 = b[0] as int;
        if b.len() == 1 {
            seq![b64_digit(b0 / 4), b64_digit((b0 % 4) * 16)]
        } else {
            let b1 = b[1] as int;
            if b.len() == 2 {
                seq![b64_digit(b0 / 4), b64_digit((b0 % 4) * 16 + b1 / 16), b64_digit((b1 % 16) * 4)]
            } else {
                let b2 = b[2] as int;
                seq![
                    b64_digit(b0 / 4),
                    b64_digit((b0 % 4) * 16 + b1 / 16),
                    b64_digit((b1 % 16) * 4 + b2 / 64),
                    b64_digit(b2 % 64),
                ] + base64_url_no_pad(b.subrange(3, b.len() as int))
            }
        }
    }
}

/// `BASE64_URL_SAFE_NO_PAD.encode(bytes)` of the `base64` crate: the
/// RFC 4648 encoding with the URL-safe alphabet and no padding.
#[verifier::external_body]
fn base64_url_encode(bytes: &[u8]) -> (s: String)
    ensures
        s@ == base64_url_no_pad(bytes@),
{
    base64::engine::general_purpose::URL_SAFE_NO_PAD.encode(bytes)
}

/// Length of the encoding: four digits for every three bytes, and two or
/// three digits for a shorter tail.
pub proof fn lemma_base64_len(b: Seq<u8>)
    ensures
        base64_url_no_pad(b).len() == (4 * b.len() + 2) / 3,
    decreases b.len(),
{
    if b.len() >= 3 {
        lemma_base64_len(b.subrange(3, b.len() as int));
    }
}

// ---------------------------------------------------------------------------
// HMAC-SHA256
// ---------------------------------------------------------------------------

/// The HMAC-SHA256 tag of `msg` under `key`.
pub uninterp spec fn hmac_sha256_tag(key: Seq<u8>, msg: Seq<u8>) -> Seq<u8>;

/// `Hmac::<Sha256>::new_from_slice(key)`, `update(msg)`, `finalize()` of the
/// `hmac` and `sha2` crates. HMAC accepts keys of any length (the source's
/// `new_from_slice` for `HmacCore` always returns `Ok`), and the tag is the
/// 32 bytes of SHA-256's output; which bytes they are is `hmac_sha256_tag`.
#[verifier::external_body]
fn hmac_sha256(key: &[u8], msg: &[u8]) -> (r: Result<Vec<u8>, String>)
    ensures
        r is Ok,
        r matches Ok(tag) ==> tag@ == hmac_sha256_tag(key@, msg@),
        r matches Ok(tag) ==> tag@.len() == 32,
{
    let mut mac = hmac::Hmac::<sha2::Sha256>::new_from_slice(key).map_err(|e| e.to_string())?;
    mac.update(msg);
    Ok(mac.finalize().into_bytes().to_vec())
}

/// The public alias of a tenant id under a root key.
pub open spec fn public_tenant_id(raw_id: Seq<char>, root_key: Seq<u8>) -> Seq<char> {
    base64_url_no_pad(hmac_sha256_tag(root_key, vstd::utf8::encode_utf8(raw_id)))
}

/// Derives the deterministic public alias of a tenant id: HMAC-SHA256 of the
/// id's UTF-8 bytes under the root key, in URL-safe Base64 without padding.
pub fn generate_public_tenant_id(raw_id: &str, root_key: &[u8]) -> (r: Result<String, CitadelError>)
    ensures
        r matches Ok(id) && id@ == public_tenant_id(raw_id@, root_key@) && id@.len() == 43,
{
    match hmac_sha256(root_key, raw_id.as_bytes()) {
        Ok(tag) => {
            proof {
                lemma_base64_len(tag@);
            }
            Ok(base64_url_encode(tag.as_slice()))
        },
        Err(e) => Err(CitadelError::CryptoError(e)),
    }
}

// ---------------------------------------------------------------------------
// Redaction
// ---------------------------------------------------------------------------

/// `to` before every character of `s` and after the last (what replacing
/// the empty text does).
pub open spec fn around_each(s: Seq<char>, to: Seq<char>) -> Seq<char>
    decreases s.len(),
{
    if s.len() == 0 {
        to
    } else {
        to + seq![s[0]] + around_each(s.drop_first(), to)
    }
}

/// `str::replace`: the occurrences of `from` found from the left, without
/// overlap, each replaced by `to`.
pub open spec fn replaced(s: Seq<char>, from: Seq<char>, to: Seq<char>) -> Seq<char>
    decreases s.len(),
{
    if from.len() == 0 {
        around_each(s, to)
    } else if s.len() < from.len() {
        s
    } else if s.subrange(0, from.len() as int) == from {
        to + replaced(s.subrange(from.len() as int, s.len() as int), from, to)
    } else {
        seq![s[0]] + replaced(s.drop_first(), from, to)
    }
}

/// Replaces the private id in a message by the public one.
pub fn sanitize_error(message: &str, private_id: &str, public_id: &str) -> (r: String)
    ensures
        r@ == replaced(message@, private_id@, public_id@),
{
    let s = chars_of(message);
    let from = chars_of(private_id);
    let to = chars_of(public_id);
    let mut out: Vec<char> = Vec::new();
    if from.len() == 0 {
        let mut i: usize = 0;
        assert(s@.subrange(0, s@.len() as int) =~= s@);
        assert(out@ + around_each(s@, to@) =~= around_each(s@, to@));
        while i < s.len()
            invariant
                from@.len() == 0,
                i <= s@.len(),
                around_each(s@, to@) == out@ + around_each(s@.subrange(i as int, s@.len() as int), to@),
            decreases s@.len() - i,
        {
            let ghost rest = s@.subrange(i as int, s@.len() as int);
            assert(rest.drop_first() =~= s@.subrange(i + 1, s@.len() as int));
            let ghost before = out@;
            let mut k: usize = 0;
            while k < to.len()
                invariant
                    k <= to@.len(),
                    out@ == before + to@.subrange(0, k as int),
                decreases to@.len() - k,
            {
                out.push(to[k]);
                k = k + 1;
            }
            out.push(s[i]);
            proof {
                assert(to@.subrange(0, to@.len() as int) =~= to@);
                assert(out@ + around_each(s@.subrange(i + 1, s@.len() as int), to@) =~= before + (to@
                    + seq![rest[0]] + around_each(rest.drop_first(), to@)));
            }
            i = i + 1;
        }
        let ghost before = out@;
        let mut k: usize = 0;
        while k < to.len()
            invariant
                k <= to@.len(),
                out@ == before + to@.subrange(0, k as int),
            decreases to@.len() - k,
        {
            out.push(to[k]);
            k = k + 1;
        }
        proof {
            assert(to@.subrange(0, to@.len() as int) =~= to@);
            assert(s@.subrange(s@.len() as int, s@.len() as int) =~= Seq::<char>::empty());
        }
        return string_from_chars(&out);
    }
    let mut i: usize = 0;
    assert(s@.subrange(0, s@.len() as int) =~= s@);
    while i < s.len()
        invariant
            from@.len() > 0,
            i <= s@.len(),
            replaced(s@, from@, to@) == out@ + replaced(s@.subrange(i as int, s@.len() as int), from@, to@),
        decreases s@.len() - i,
    {
        let ghost rest = s@.subrange(i as int, s@.len() as int);
        let ghost before = out@;
        if chars_match_at(&s, i, &from) {
            proof {
                assert(rest.subrange(0, from@.len() as int) =~= from@);
                assert(rest.subrange(from@.len() as int, rest.len() as int) =~= s@.subrange(
                    i + from@.len(),
                    s@.len() as int,
                ));
            }
            let mut k: usize = 0;
            while k < to.len()
                invariant
                    k <= to@.len(),
                    out@ == before + to@.subrange(0, k as int),
                decreases to@.len() - k,
            {
                out.push(to[k]);
                k = k + 1;
            }
            proof {
                assert(to@.subrange(0, to@.len() as int) =~= to@);
                assert(before + to@ + replaced(s@.subrange(i + from@.len(), s@.len() as int), from@, to@)
                    =~= before + (to@ + replaced(s@.subrange(i + from@.len(), s@.len() as int), from@, to@)));
            }
            i = i + from.len();
        } else {
            proof {
                if rest.len() >= from@.len() {
                    assert(rest.subrange(0, from@.len() as int) =~= s@.subrange(i as int, i + from@.len()));
                }
                assert(rest.drop_first() =~= s@.subrange(i + 1, s@.len() as int));
            }
            out.push(s[i]);
            proof {
                if rest.len() < from@.len() {
                    // The tail is too short to hold the id: it is kept as it is.
                    lemma_short_kept(rest.drop_first(), from@, to@);
                    lemma_short_kept(rest, from@, to@);
                    assert(rest =~= seq![rest[0]] + rest.drop_first());
                }
                assert(out@ + replaced(s@.subrange(i + 1, s@.len() as int), from@, to@) =~= before + (
                seq![rest[0]] + replaced(rest.drop_first(), from@, to@)));
            }
            i = i + 1;
        }
    }
    proof {
        assert(s@.subrange(s@.len() as int, s@.len() as int) =~= Seq::<char>::empty());
        assert(out@ + Seq::<char>::empty() =~= out@);
    }
    string_from_chars(&out)
}

proof fn lemma_short_kept(s: Seq<char>, from: Seq<char>, to: Seq<char>)
    requires
        from.len() > 0,
        s.len() < from.len(),
    ensures
        replaced(s, from, to) == s,
{
}

/// Where the private id occurs in a message, the redacted message holds the
/// public id.
pub proof fn law_redaction_leaves_public_id(s: Seq<char>, from: Seq<char>, to: Seq<char>)
    requires
        from.len() > 0,
        contains(s, from),
    ensures
        contains(replaced(s, from, to), to),
    decreases s.len(),
{
    let i = choose|i: int| occurs_at(s, from, i);
    if s.subrange(0, from.len() as int) == from {
        let r = replaced(s, from, to);
        assert(r.subrange(0, to.len() as int) =~= to);
        assert(occurs_at(r, to, 0));
    } else {
        assert(i > 0);
        let d = s.drop_first();
        assert(d.subrange(i - 1, i - 1 + from.len()) =~= s.subrange(i, i + from.len()));
        assert(occurs_at(d, from, i - 1));
        law_redaction_leaves_public_id(d, from, to);
        let r2 = replaced(d, from, to);
        let k = choose|k: int| occurs_at(r2, to, k);
        let r = replaced(s, from, to);
        assert(r == seq![s[0]] + r2);
        assert(r.subrange(k + 1, k + 1 + to.len()) =~= r2.subrange(k, k + to.len()));
        assert(occurs_at(r, to, k + 1));
    }
}

/// A message in which the private id does not occur is left as it is.
pub proof fn law_redaction_keeps_clean_messages(s: Seq<char>, from: Seq<char>, to: Seq<char>)
    requires
        from.len() > 0,
        !contains(s, from),
    ensures
        replaced(s, from, to) == s,
    decreases s.len(),
{
    if s.len() >= from.len() {
        if s.subrange(0, from.len() as int) == from {
            assert(occurs_at(s, from, 0));
        }
        let d = s.drop_first();
        assert forall|i: int| !occurs_at(d, from, i) by {
            if occurs_at(d, from, i) {
                assert(s.subrange(i + 1, i + 1 + from.len()) =~= d.subrange(i, i + from.len()));
                assert(occurs_at(s, from, i + 1));
            }
        }
        law_redaction_keeps_clean_messages(d, from, to);
        assert(s =~= seq![s[0]] + d);
    }
}


/// While the redacted text shows no first character of the public id, it
/// copies the message.
proof fn lemma_redaction_copies_prefix(d: Seq<char>, from: Seq<char>, to: Seq<char>, n: int)
    requires
        from.len() > 0,
        to.len() > 0,
        0 <= n <= replaced(d, from, to).len(),
        forall|j: int| 0 <= j < n ==> #[trigger] replaced(d, from, to)[j] != to[0],
    ensures
        n <= d.len(),
        replaced(d, from, to).subrange(0, n) == d.subrange(0, n),
    decreases d.len(),
{
    if n > 0 && d.len() >= from.len() {
        if d.subrange(0, from.len() as int) == from {
            assert(replaced(d, from, to)[0] == to[0]);
        } else {
            let r = replaced(d.drop_first(), from, to);
            assert(replaced(d, from, to) == seq![d[0]] + r);
            assert forall|j: int| 0 <= j < n - 1 implies #[trigger] r[j] != to[0] by {
                assert(replaced(d, from, to)[j + 1] == r[j]);
            }
            lemma_redaction_copies_prefix(d.drop_first(), from, to, n - 1);
            assert(replaced(d, from, to).subrange(0, n) =~= seq![d[0]] + r.subrange(0, n - 1));
            assert(d.subrange(0, n) =~= seq![d[0]] + d.drop_first().subrange(0, n - 1));
        }
    }
}

/// Redaction removes the private id from a message, whenever neither id
/// holds the first character of the other (and the public id is not
/// empty): no occurrence can then straddle a replacement.
pub proof fn law_redaction_removes_private_id(s: Seq<char>, from: Seq<char>, to: Seq<char>)
    requires
        from.len() > 0,
        to.len() > 0,
        !to.contains(from[0]),
        !from.contains(to[0]),
    ensures
        !contains(replaced(s, from, to), from),
    decreases s.len(),
{
    let m = from.len() as int;
    let out = replaced(s, from, to);
    if s.len() >= m {
        if s.subrange(0, m) == from {
            let rest = s.subrange(m, s.len() as int);
            law_redaction_removes_private_id(rest, from, to);
            let r = replaced(rest, from, to);
            assert(out == to + r);
            if contains(out, from) {
                let k = choose|k: int| occurs_at(out, from, k);
                assert(out.subrange(k, k + m)[0] == from[0]);
                if k < to.len() {
                    assert(out[k] == to[k]);
                    assert(to.contains(from[0]));
                } else {
                    assert(r.subrange(k - to.len(), k - to.len() + m) =~= out.subrange(k, k + m));
                    assert(occurs_at(r, from, k - to.len()));
                }
            }
        } else {
            let d = s.drop_first();
            law_redaction_removes_private_id(d, from, to);
            let r = replaced(d, from, to);
            assert(out == seq![s[0]] + r);
            if contains(out, from) {
                let k = choose|k: int| occurs_at(out, from, k);
                if k > 0 {
                    assert(r.subrange(k - 1, k - 1 + m) =~= out.subrange(k, k + m));
                    assert(occurs_at(r, from, k - 1));
                } else {
                    assert forall|j: int| 0 <= j < m - 1 implies #[trigger] r[j] != to[0] by {
                        assert(out.subrange(0, m)[j + 1] == from[j + 1]);
                        assert(out[j + 1] == r[j]);
                        if r[j] == to[0] {
                            assert(from[j + 1] == to[0]);
                            assert(from.contains(to[0]));
                        }
                    }
                    lemma_redaction_copies_prefix(d, from, to, m - 1);
                    assert(s.subrange(0, m) =~= seq![s[0]] + d.subrange(0, m - 1));
                    assert(out.subrange(0, m) =~= seq![s[0]] + r.subrange(0, m - 1));
                }
            }
        }
    }
}


/// A digit of the URL-safe Base64 alphabet.
pub open spec fn is_url_safe_digit(c: char) -> bool {
    ||| 'A' <= c <= 'Z'
    ||| 'a' <= c <= 'z'
    ||| '0' <= c <= '9'
    ||| c == '-'
    ||| c == '_'
}

proof fn lemma_base64_digits(b: Seq<u8>)
    ensures
        forall|k: int|
            0 <= k < base64_url_no_pad(b).len() ==> is_url_safe_digit(#[trigger] base64_url_no_pad(b)[k]),
    decreases b.len(),
{
    if b.len() >= 3 {
        let rest = b.subrange(3, b.len() as int);
        lemma_base64_digits(rest);
        let out = base64_url_no_pad(b);
        assert forall|k: int| 0 <= k < out.len() implies is_url_safe_digit(#[trigger] out[k]) by {
            if k >= 4 {
                assert(out[k] == base64_url_no_pad(rest)[k - 4]);
            }
        }
    }
}

/// The public alias of a tenant is made of URL-safe Base64 digits only, so
/// it is safe in headers, paths and logs, and never holds a character of a
/// tenant id outside that alphabet.
pub proof fn law_public_id_is_url_safe(raw_id: Seq<char>, root_key: Seq<u8>)
    ensures
        forall|k: int|
            0 <= k < public_tenant_id(raw_id, root_key).len() ==> is_url_safe_digit(
                #[trigger] public_tenant_id(raw_id, root_key)[k],
            ),
{
    lemma_base64_digits(hmac_sha256_tag(root_key, vstd::utf8::encode_utf8(raw_id)));
}

} // verus!
