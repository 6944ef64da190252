use content_loader::{
    Cid, EndpointResponse, FetchOutcome, GatewayError, GatewayUrl, GatewayWalk, Source,
};
use multihash_codetable::{Code, MultihashDigest};

fn cid_of(data: &[u8]) -> Cid {
    let c = cid::Cid::new_v1(0x55, Code::Sha2_256.digest(data));
    Cid::from_bytes(c.to_bytes())
}

fn text_of(data: &[u8]) -> String {
    cid::Cid::new_v1(0x55, Code::Sha2_256.digest(data)).to_string()
}

#[test]
fn parse_full_and_subdomain() {
    match GatewayUrl::parse("https://ipfs.io").unwrap() {
        GatewayUrl::Full(u) => assert_eq!(u, "https://ipfs.io/"),
        _ => panic!("expected a full URL"),
    }
    match GatewayUrl::parse("dweb.link").unwrap() {
        GatewayUrl::Subdomain(s) => assert_eq!(s, "dweb.link"),
        _ => panic!("expected a subdomain"),
    }
    assert!(matches!(GatewayUrl::parse("http://[bad"), Err(GatewayError::InvalidUrl)));
    let parsed: GatewayUrl = "dweb.link".parse().unwrap();
    assert_eq!(parsed.as_string(), "dweb.link");
}

#[test]
fn fetch_urls() {
    let data = b"block";
    let cid = cid_of(data);
    let text = text_of(data);
    let full = GatewayUrl::parse("https://ipfs.io/ipfs/").unwrap();
    assert_eq!(full.as_url(&cid).unwrap(), format!("https://ipfs.io/ipfs/{text}?format=raw"));
    let sub = GatewayUrl::parse("dweb.link").unwrap();
    assert_eq!(sub.as_url(&cid).unwrap(), format!("https://{text}.ipfs.dweb.link/?format=raw"));
    assert_eq!(full.as_url(&Cid::from_bytes(vec![1, 2])), Err(GatewayError::InvalidCid));
}

#[test]
fn v0_cid_is_written_as_v1() {
    let v0 = cid::Cid::new_v0(Code::Sha2_256.digest(b"v0")).unwrap();
    let cid = Cid::from_bytes(v0.to_bytes());
    let v1 = v0.into_v1().unwrap().to_string();
    assert_eq!(cid.to_base32_v1(), Some(v1.clone()));
    assert!(v1.starts_with('b'));
}

#[test]
fn tampered_body_moves_to_next_endpoint() {
    let data = b"genuine".to_vec();
    let cid = cid_of(&data);
    let first = GatewayUrl::parse("https://one.example/").unwrap();
    let second = GatewayUrl::parse("two.example").unwrap();
    let mut walk = GatewayWalk::new();
    assert_eq!(walk.next_endpoint(2), Some(0));
    assert!(walk.on_response(&cid, &first, EndpointResponse::Body(b"forged".to_vec())).is_none());
    assert_eq!(walk.next_endpoint(2), Some(1));
    let loaded = walk.on_response(&cid, &second, EndpointResponse::Body(data.clone())).unwrap();
    assert_eq!(loaded.data, data);
    assert!(matches!(loaded.source, Source::Http(ref s) if s == "two.example"));
    assert_eq!(walk.next_endpoint(2), None);
}

#[test]
fn exhausted_gateways_report_outcome() {
    let cid = cid_of(b"x");
    let gw = GatewayUrl::parse("https://one.example/").unwrap();
    let mut walk = GatewayWalk::new();
    assert!(matches!(walk.exhausted(), FetchOutcome::Unavailable));
    walk.on_response(&cid, &gw, EndpointResponse::Unreachable);
    walk.on_response(&cid, &gw, EndpointResponse::Body(b"bad".to_vec()));
    assert!(matches!(walk.exhausted(), FetchOutcome::Unavailable));
    walk.on_response(&cid, &gw, EndpointResponse::Refused);
    assert!(matches!(walk.exhausted(), FetchOutcome::Missing));
}
