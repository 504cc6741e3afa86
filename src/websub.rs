use hmac::Mac;
use vstd::prelude::*;

verus! {

/// The HMAC-SHA1 tag of `msg` under `key`.
pub uninterp spec fn hmac_sha1(key: Seq<u8>, msg: Seq<u8>) -> Seq<u8>;

/// The HMAC-SHA256 tag of `msg` under `key`.
pub uninterp spec fn hmac_sha256(key: Seq<u8>, msg: Seq<u8>) -> Seq<u8>;

/// The HMAC-SHA384 tag of `msg` under `key`.
pub uninterp spec fn hmac_sha384(key: Seq<u8>, msg: Seq<u8>) -> Seq<u8>;

/// The HMAC-SHA512 tag of `msg` under `key`.
pub uninterp spec fn hmac_sha512(key: Seq<u8>, msg: Seq<u8>) -> Seq<u8>;

/// Relies on `hmac::Hmac<sha1::Sha1>`: it takes a key of any size, and
/// `verify_slice` accepts exactly the full tag.
#[verifier::external_body]
fn verify_hmac_sha1(key: &[u8], msg: &[u8], tag: &[u8]) -> (r: bool)
    ensures
        r == (tag@ == hmac_sha1(key@, msg@)),
{
    let mut mac = <hmac::Hmac<sha1::Sha1> as hmac::Mac>::new_from_slice(key).expect("HMAC can take key of any size");
    mac.update(msg);
    mac.verify_slice(tag).is_ok()
}

/// Relies on `hmac::Hmac<sha2::Sha256>`: it takes a key of any size, and
/// `verify_slice` accepts exactly the full tag.
#[verifier::external_body]
fn verify_hmac_sha256(key: &[u8], msg: &[u8], tag: &[u8]) -> (r: bool)
    ensures
        r == (tag@ == hmac_sha256(key@, msg@)),
{
    let mut mac = <hmac::Hmac<sha2::Sha256> as hmac::Mac>::new_from_slice(key).expect("HMAC can take key of any size");
    mac.update(msg);
    mac.verify_slice(tag).is_ok()
}

/// Relies on `hmac::Hmac<sha2::Sha384>`: it takes a key of any size, and
/// `verify_slice` accepts exactly the full tag.
#[verifier::external_body]
fn verify_hmac_sha384(key: &[u8], msg: &[u8], tag: &[u8]) -> (r: bool)
    ensures
        r == (tag@ == hmac_sha384(key@, msg@)),
{
    let mut mac = <hmac::Hmac<sha2::Sha384> as hmac::Mac>::new_from_slice(key).expect("HMAC can take key of any size");
    mac.update(msg);
    mac.verify_slice(tag).is_ok()
}

/// Relies on `hmac::Hmac<sha2::Sha512>`: it takes a key of any size, and
/// `verify_slice` accepts exactly the full tag.
#[verifier::external_body]
fn verify_hmac_sha512(key: &[u8], msg: &[u8], tag: &[u8]) -> (r: bool)
    ensures
        r == (tag@ == hmac_sha512(key@, msg@)),
{
    let mut mac = <hmac::Hmac<sha2::Sha512> as hmac::Mac>::new_from_slice(key).expect("HMAC can take key of any size");
    mac.update(msg);
    mac.verify_slice(tag).is_ok()
}

pub open spec fn is_hex_digit(c: char) -> bool {
    ('0' <= c && c <= '9') || ('a' <= c && c <= 'f') || ('A' <= c && c <= 'F')
}

pub open spec fn hex_value(c: char) -> int {
    if '0' <= c && c <= '9' {
        c as int - '0' as int
    } else if 'a' <= c && c <= 'f' {
        c as int - 'a' as int + 10
    } else {
        c as int - 'A' as int + 10
    }
}

/// The bytes that a string of hex digits spells, two digits a byte.
pub open spec fn hex_bytes(s: Seq<char>) -> Seq<u8> {
    Seq::new(s.len() / 2, |i: int| (hex_value(s[2 * i]) * 16 + hex_value(s[2 * i + 1])) as u8)
}

pub open spec fn is_hex(s: Seq<char>) -> bool {
    s.len() % 2 == 0 && forall|i: int| 0 <= i < s.len() ==> #[trigger] is_hex_digit(s[i])
}

/// Relies on `hex::decode`: an even number of hex digits of either case,
/// two a byte, high digit first; anything else is refused.
#[verifier::external_body]
fn decode_hex(s: &str) -> (r: Option<Vec<u8>>)
    ensures
        r is Some <==> is_hex(s@),
        r is Some ==> r->0@ == hex_bytes(s@),
{
    hex::decode(s).ok()
}

/// WebSub signature algorithms.
#[derive(Clone, Copy, Debug, PartialEq, Eq, Structural)]
pub enum XHubSignatureAlgorithm {
    Sha1,
    Sha256,
    Sha384,
    Sha512,
}

pub open spec fn algorithm_name(a: XHubSignatureAlgorithm) -> Seq<char> {
    match a {
        XHubSignatureAlgorithm::Sha1 => seq!['s', 'h', 'a', '1'],
        XHubSignatureAlgorithm::Sha256 => seq!['s', 'h', 'a', '2', '5', '6'],
        XHubSignatureAlgorithm::Sha384 => seq!['s', 'h', 'a', '3', '8', '4'],
        XHubSignatureAlgorithm::Sha512 => seq!['s', 'h', 'a', '5', '1', '2'],
    }
}

pub open spec fn digest_length(a: XHubSignatureAlgorithm) -> nat {
    match a {
        XHubSignatureAlgorithm::Sha1 => 20,
        XHubSignatureAlgorithm::Sha256 => 32,
        XHubSignatureAlgorithm::Sha384 => 48,
        XHubSignatureAlgorithm::Sha512 => 64,
    }
}

fn str_eq(a: &str, b: &str) -> (r: bool)
    ensures
        r == (a@ == b@),
{
    let n = a.unicode_len();
    if n != b.unicode_len() {
        return false;
    }
    let mut i: usize = 0;
    while i < n
        invariant
            n == a@.len(),
            n == b@.len(),
            i <= n,
            forall|k: int| 0 <= k < i ==> a@[k] == b@[k],
        decreases n - i,
    {
        if a.get_char(i) != b.get_char(i) {
            return false;
        }
        i = i + 1;
    }
    proof {
        assert(a@ =~= b@);
    }
    true
}

impl XHubSignatureAlgorithm {
    /// Length in bytes of the algorithm's digest.
    pub fn signature_length(&self) -> (r: usize)
        ensures
            r == digest_length(*self),
    {
        match self {
            XHubSignatureAlgorithm::Sha1 => 20,
            XHubSignatureAlgorithm::Sha256 => 32,
            XHubSignatureAlgorithm::Sha384 => 48,
            XHubSignatureAlgorithm::Sha512 => 64,
        }
    }

    /// The algorithm's registered name.
    pub fn name(&self) -> (r: &'static str)
        ensures
            r@ == algorithm_name(*self),
    {
        proof {
            reveal_strlit("sha1");
            reveal_strlit("sha256");
            reveal_strlit("sha384");
            reveal_strlit("sha512");
        }
        let r = match self {
            XHubSignatureAlgorithm::Sha1 => "sha1",
            XHubSignatureAlgorithm::Sha256 => "sha256",
            XHubSignatureAlgorithm::Sha384 => "sha384",
            XHubSignatureAlgorithm::Sha512 => "sha512",
        };
        assert(r@ =~= algorithm_name(*self));
        r
    }

    /// The algorithm with this name, if there is one.
    pub fn try_from(value: &str) -> (r: Option<XHubSignatureAlgorithm>)
        ensures
            r is Some ==> algorithm_name(r->0) == value@,
            r is None ==> forall|a: XHubSignatureAlgorithm| algorithm_name(a) != value@,
    {
        let candidates = [
            XHubSignatureAlgorithm::Sha1,
            XHubSignatureAlgorithm::Sha256,
            XHubSignatureAlgorithm::Sha384,
            XHubSignatureAlgorithm::Sha512,
        ];
        let mut i: usize = 0;
        while i < 4
            invariant
                i <= 4,
                candidates@ == seq![
                    XHubSignatureAlgorithm::Sha1,
                    XHubSignatureAlgorithm::Sha256,
                    XHubSignatureAlgorithm::Sha384,
                    XHubSignatureAlgorithm::Sha512,
                ],
                forall|k: int| 0 <= k < i ==> algorithm_name(#[trigger] candidates@[k]) != value@,
            decreases 4 - i,
        {
            let a = candidates[i];
            if str_eq(a.name(), value) {
                return Some(a);
            }
            i = i + 1;
        }
        proof {
            assert forall|a: XHubSignatureAlgorithm| algorithm_name(a) != value@ by {
                match a {
                    XHubSignatureAlgorithm::Sha1 => assert(candidates@[0] == a),
                    XHubSignatureAlgorithm::Sha256 => assert(candidates@[1] == a),
                    XHubSignatureAlgorithm::Sha384 => assert(candidates@[2] == a),
                    XHubSignatureAlgorithm::Sha512 => assert(candidates@[3] == a),
                }
            }
        }
        None
    }
}

/// A WebSub signature: the algorithm and the digest it claims.
#[derive(Clone, Debug)]
pub struct XHubSignature {
    pub algorithm: XHubSignatureAlgorithm,
    pub signature: Vec<u8>,
}

/// The tag of `body` under `secret` with the algorithm.
pub open spec fn expected_tag(a: XHubSignatureAlgorithm, secret: Seq<u8>, body: Seq<u8>) -> Seq<u8> {
    match a {
        XHubSignatureAlgorithm::Sha1 => hmac_sha1(secret, body),
        XHubSignatureAlgorithm::Sha256 => hmac_sha256(secret, body),
        XHubSignatureAlgorithm::Sha384 => hmac_sha384(secret, body),
        XHubSignatureAlgorithm::Sha512 => hmac_sha512(secret, body),
    }
}

/// How many times `c` occurs in `s`.
pub open spec fn count_char(s: Seq<char>, c: char) -> nat
    decreases s.len(),
{
    if s.len() == 0 {
        0
    } else {
        count_char(s.subrange(0, s.len() - 1), c) + if s[s.len() - 1] == c {
            1nat
        } else {
            0nat
        }
    }
}

/// A header value `<algorithm>=<hex digest>` that names a known algorithm
/// and whose digest has that algorithm's length.
pub open spec fn header_parses(value: Seq<char>, sig: XHubSignature) -> bool {
    exists|i: int|
        0 <= i < value.len() && value[i] == '=' && count_char(value, '=') == 1
            && algorithm_name(sig.algorithm) == value.subrange(0, i)
            && is_hex(value.subrange(i + 1, value.len() as int))
            && sig.signature@ == hex_bytes(value.subrange(i + 1, value.len() as int))
            && sig.signature@.len() == digest_length(sig.algorithm)
}

proof fn lemma_count_zero(s: Seq<char>, c: char)
    requires
        count_char(s, c) == 0,
    ensures
        forall|k: int| 0 <= k < s.len() ==> s[k] != c,
    decreases s.len(),
{
    if s.len() > 0 {
        let s0 = s.subrange(0, s.len() - 1);
        lemma_count_zero(s0, c);
        assert forall|k: int| 0 <= k < s.len() implies s[k] != c by {
            if k < s.len() - 1 {
                assert(s0[k] == s[k]);
            }
        }
    }
}

proof fn lemma_names_differ(a: XHubSignatureAlgorithm, b: XHubSignatureAlgorithm)
    requires
        algorithm_name(a) == algorithm_name(b),
    ensures
        a == b,
{
    let na = algorithm_name(a);
    let nb = algorithm_name(b);
    assert(na.len() == nb.len());
    if na.len() == 6 {
        assert(na[3] == nb[3]);
    }
}

impl XHubSignature {
    /// Parses a header value `<algorithm>=<hex digest>`.
    pub fn decode(value: &str) -> (r: Option<XHubSignature>)
        ensures
            r is Some ==> header_parses(value@, r->0),
            r is None ==> forall|sig: XHubSignature| !header_parses(value@, sig),
    {
        let n = value.unicode_len();
        let mut eq_at: usize = n;
        let mut count: usize = 0;
        let mut i: usize = 0;
        proof {
            assert(value@.subrange(0, 0) =~= Seq::<char>::empty());
        }
        while i < n
            invariant
                n == value@.len(),
                i <= n,
                count == count_char(value@.subrange(0, i as int), '='),
                count <= i,
                count == 0 ==> eq_at == n,
                count > 0 ==> eq_at < i && value@[eq_at as int] == '=',
                count > 0 ==> forall|k: int| 0 <= k < eq_at ==> value@[k] != '=',
                count == 1 ==> forall|k: int| eq_at < k < i ==> value@[k] != '=',
            decreases n - i,
        {
            let c = value.get_char(i);
            proof {
                assert(value@.subrange(0, i + 1).subrange(0, i as int) =~= value@.subrange(0, i as int));
            }
            if c == '=' {
                if count == 0 {
                    proof {
                        lemma_count_zero(value@.subrange(0, i as int), '=');
                        assert forall|k: int| 0 <= k < i implies value@[k] != '=' by {
                            assert(value@.subrange(0, i as int)[k] == value@[k]);
                        }
                    }
                    eq_at = i;
                }
                count = count + 1;
            }
            i = i + 1;
        }
        proof {
            assert(value@.subrange(0, n as int) =~= value@);
        }
        if count != 1 {
            return None;
        }
        proof {
            assert forall|j: int| 0 <= j < value@.len() && value@[j] == '=' implies j == eq_at by {}
        }
        let name = value.substring_char(0, eq_at);
        let digits = value.substring_char(eq_at + 1, n);
        let algorithm = match XHubSignatureAlgorithm::try_from(name) {
            Some(a) => a,
            None => {
                proof {
                    assert forall|sig: XHubSignature| !header_parses(value@, sig) by {
                        if header_parses(value@, sig) {
                            let j = choose|j: int| 0 <= j < value@.len() && value@[j] == '=' && count_char(value@, '=') == 1
                                && algorithm_name(sig.algorithm) == value@.subrange(0, j)
                                && is_hex(value@.subrange(j + 1, value@.len() as int))
                                && sig.signature@ == hex_bytes(value@.subrange(j + 1, value@.len() as int))
                                && sig.signature@.len() == digest_length(sig.algorithm);
                            assert(j == eq_at);
                        }
                    }
                }
                return None;
            },
        };
        let signature = match decode_hex(digits) {
            Some(bytes) => bytes,
            None => {
                proof {
                    assert forall|sig: XHubSignature| !header_parses(value@, sig) by {
                        if header_parses(value@, sig) {
                            let j = choose|j: int| 0 <= j < value@.len() && value@[j] == '=' && count_char(value@, '=') == 1
                                && algorithm_name(sig.algorithm) == value@.subrange(0, j)
                                && is_hex(value@.subrange(j + 1, value@.len() as int))
                                && sig.signature@ == hex_bytes(value@.subrange(j + 1, value@.len() as int))
                                && sig.signature@.len() == digest_length(sig.algorithm);
                            assert(j == eq_at);
                        }
                    }
                }
                return None;
            },
        };
        if signature.len() != algorithm.signature_length() {
            proof {
                assert forall|sig: XHubSignature| !header_parses(value@, sig) by {
                    if header_parses(value@, sig) {
                        let j = choose|j: int| 0 <= j < value@.len() && value@[j] == '=' && count_char(value@, '=') == 1
                            && algorithm_name(sig.algorithm) == value@.subrange(0, j)
                            && is_hex(value@.subrange(j + 1, value@.len() as int))
                            && sig.signature@ == hex_bytes(value@.subrange(j + 1, value@.len() as int))
                            && sig.signature@.len() == digest_length(sig.algorithm);
                        assert(j == eq_at);
                        lemma_names_differ(sig.algorithm, algorithm);
                    }
                }
            }
            return None;
        }
        let r = XHubSignature { algorithm, signature };
        proof {
            assert(header_parses(value@, r));
        }
        Some(r)
    }

    /// Whether the signature is the HMAC of `body` under `secret`.
    pub fn is_valid(&self, secret: &[u8], body: &[u8]) -> (r: bool)
        ensures
            r == (self.signature@ == expected_tag(self.algorithm, secret@, body@)),
    {
        match self.algorithm {
            XHubSignatureAlgorithm::Sha1 => verify_hmac_sha1(secret, body, self.signature.as_slice()),
            XHubSignatureAlgorithm::Sha256 => verify_hmac_sha256(secret, body, self.signature.as_slice()),
            XHubSignatureAlgorithm::Sha384 => verify_hmac_sha384(secret, body, self.signature.as_slice()),
            XHubSignatureAlgorithm::Sha512 => verify_hmac_sha512(secret, body, self.signature.as_slice()),
        }
    }
}

/// Parameters of a webhook request: the domain it is for, if it says.
#[derive(Clone, Debug, PartialEq)]
pub struct Params {
    pub domain: Option<String>,
}

/// A configured domain and its webhook secret.
#[derive(Clone, Debug)]
pub struct DomainSecret {
    pub domain: String,
    pub secret: Vec<u8>,
}

/// Why a webhook request is turned away.
#[derive(Clone, Copy, Debug, PartialEq, Eq, Structural)]
pub enum WebhookRejection {
    /// The signature uses another algorithm than SHA-256.
    UnsupportedAlgorithm,
    /// No candidate domain's secret validates the signature.
    NoSigner,
    /// More than one candidate domain's secret validates the signature.
    AmbiguousSigner,
}

/// A domain is a candidate when no domain was asked for, or it is the one.
pub open spec fn is_candidate(d: DomainSecret, requested: Option<Seq<char>>) -> bool {
    requested is None || d.domain@ == requested->0
}

/// The domain at `j` is a candidate and its secret validates the signature.
pub open spec fn signs(sig: XHubSignature, domains: Seq<DomainSecret>, requested: Option<Seq<char>>, body: Seq<u8>, j: int) -> bool {
    is_candidate(domains[j], requested) && sig.signature@ == expected_tag(sig.algorithm, domains[j].secret@, body)
}

/// The outcome of routing a signed request: only SHA-256 is accepted, and
/// exactly one candidate domain must validate the signature.
pub open spec fn routed(r: Result<usize, WebhookRejection>, sig: XHubSignature, domains: Seq<DomainSecret>, requested: Option<Seq<char>>, body: Seq<u8>) -> bool {
    &&& (sig.algorithm != XHubSignatureAlgorithm::Sha256 <==> r == Err::<usize, WebhookRejection>(WebhookRejection::UnsupportedAlgorithm))
    &&& (r is Ok ==> {
        &&& r->Ok_0 < domains.len()
        &&& signs(sig, domains, requested, body, r->Ok_0 as int)
        &&& forall|k: int| 0 <= k < domains.len() && k != r->Ok_0 ==> !#[trigger] signs(sig, domains, requested, body, k)
    })
    &&& (sig.algorithm == XHubSignatureAlgorithm::Sha256 ==> {
        &&& (r == Err::<usize, WebhookRejection>(WebhookRejection::NoSigner) <==> forall|k: int| 0 <= k < domains.len() ==> !#[trigger] signs(sig, domains, requested, body, k))
        &&& (r == Err::<usize, WebhookRejection>(WebhookRejection::AmbiguousSigner) <==> exists|j: int, k: int|
            0 <= j < k < domains.len() && #[trigger] signs(sig, domains, requested, body, j) && #[trigger] signs(sig, domains, requested, body, k))
    })
}

pub open spec fn requested_view(requested: Option<&str>) -> Option<Seq<char>> {
    match requested {
        Some(d) => Some(d@),
        None => None,
    }
}

/// Finds the one domain that signed a webhook request, among all domains or
/// only the one asked for.
pub fn route_webhook(sig: &XHubSignature, domains: &Vec<DomainSecret>, requested: Option<&str>, body: &[u8]) -> (r: Result<usize, WebhookRejection>)
    ensures
        routed(r, *sig, domains@, requested_view(requested), body@),
{
    let ghost req = requested_view(requested);
    if sig.algorithm != XHubSignatureAlgorithm::Sha256 {
        return Err(WebhookRejection::UnsupportedAlgorithm);
    }
    let mut found: Option<usize> = None;
    let mut i: usize = 0;
    while i < domains.len()
        invariant
            i <= domains@.len(),
            sig.algorithm == XHubSignatureAlgorithm::Sha256,
            req == requested_view(requested),
            found is None ==> forall|k: int| 0 <= k < i ==> !#[trigger] signs(*sig, domains@, req, body@, k),
            found is Some ==> found->0 < i && signs(*sig, domains@, req, body@, found->0 as int)
                && forall|k: int| 0 <= k < i && k != found->0 ==> !#[trigger] signs(*sig, domains@, req, body@, k),
        decreases domains@.len() - i,
    {
        let d = &domains[i];
        let candidate = match requested {
            Some(name) => str_eq(d.domain.as_str(), name),
            None => true,
        };
        if candidate && sig.is_valid(d.secret.as_slice(), body) {
            proof {
                assert(signs(*sig, domains@, req, body@, i as int));
            }
            match found {
                Some(first) => {
                    proof {
                        assert(signs(*sig, domains@, req, body@, first as int));
                    }
                    return Err(WebhookRejection::AmbiguousSigner);
                },
                None => {
                    found = Some(i);
                },
            }
        } else {
            proof {
                assert(!signs(*sig, domains@, req, body@, i as int));
            }
        }
        i = i + 1;
    }
    match found {
        Some(j) => Ok(j),
        None => Err(WebhookRejection::NoSigner),
    }
}

/// Two domains that share a secret both validate any request that one of
/// them does, so such a request is turned away as ambiguous.
pub proof fn lemma_shared_secret_is_ambiguous(r: Result<usize, WebhookRejection>, sig: XHubSignature, domains: Seq<DomainSecret>, requested: Option<Seq<char>>, body: Seq<u8>, j: int, k: int)
    requires
        routed(r, sig, domains, requested, body),
        sig.algorithm == XHubSignatureAlgorithm::Sha256,
        0 <= j < k < domains.len(),
        is_candidate(domains[j], requested),
        is_candidate(domains[k], requested),
        domains[j].secret@ == domains[k].secret@,
        sig.signature@ == expected_tag(sig.algorithm, domains[j].secret@, body),
    ensures
        r == Err::<usize, WebhookRejection>(WebhookRejection::AmbiguousSigner),
{
    assert(signs(sig, domains, requested, body, j));
    assert(signs(sig, domains, requested, body, k));
}

} // verus!
