use automod::websub::{route_webhook, DomainSecret, WebhookRejection, XHubSignature, XHubSignatureAlgorithm};
use hmac::Mac;

fn sign(secret: &[u8], body: &[u8]) -> String {
    let mut mac = <hmac::Hmac<sha2::Sha256> as Mac>::new_from_slice(secret).unwrap();
    mac.update(body);
    format!("sha256={}", hex::encode(mac.finalize().into_bytes()))
}

fn domains() -> Vec<DomainSecret> {
    vec![
        DomainSecret { domain: "one.test".to_string(), secret: b"shared".to_vec() },
        DomainSecret { domain: "two.test".to_string(), secret: b"shared".to_vec() },
        DomainSecret { domain: "three.test".to_string(), secret: b"own".to_vec() },
    ]
}

#[test]
fn shared_secret_is_ambiguous() {
    let body = b"{\"event\":\"status.created\"}";
    let sig = XHubSignature::decode(&sign(b"shared", body)).expect("a signature");
    assert_eq!(route_webhook(&sig, &domains(), None, body), Err(WebhookRejection::AmbiguousSigner));
    assert_eq!(route_webhook(&sig, &domains(), Some("two.test"), body), Ok(1));
}

#[test]
fn unique_secret_routes() {
    let body = b"{}";
    let sig = XHubSignature::decode(&sign(b"own", body)).expect("a signature");
    assert!(sig.is_valid(b"own", body));
    assert!(!sig.is_valid(b"shared", body));
    assert_eq!(route_webhook(&sig, &domains(), None, body), Ok(2));
    assert_eq!(route_webhook(&sig, &domains(), Some("one.test"), body), Err(WebhookRejection::NoSigner));
}

#[test]
fn other_algorithms_are_unsupported() {
    let sig = XHubSignature { algorithm: XHubSignatureAlgorithm::Sha1, signature: vec![0; 20] };
    assert_eq!(route_webhook(&sig, &domains(), None, b"{}"), Err(WebhookRejection::UnsupportedAlgorithm));
}

#[test]
fn header_decoding() {
    let good = format!("sha1={}", "ab".repeat(20));
    let sig = XHubSignature::decode(&good).expect("a signature");
    assert_eq!(sig.algorithm, XHubSignatureAlgorithm::Sha1);
    assert_eq!(sig.signature, vec![0xab; 20]);
    assert!(XHubSignature::decode(&format!("sha1={}", "ab".repeat(19))).is_none());
    assert!(XHubSignature::decode(&format!("md5={}", "ab".repeat(16))).is_none());
    assert!(XHubSignature::decode("sha256").is_none());
    assert!(XHubSignature::decode(&format!("sha1={}=", "ab".repeat(20))).is_none());
    assert!(XHubSignature::decode(&format!("sha1={}", "zz".repeat(20))).is_none());
    assert_eq!(XHubSignatureAlgorithm::Sha512.signature_length(), 64);
    assert_eq!(XHubSignatureAlgorithm::try_from("sha384"), Some(XHubSignatureAlgorithm::Sha384));
    assert_eq!(XHubSignatureAlgorithm::Sha256.name(), "sha256");
}
