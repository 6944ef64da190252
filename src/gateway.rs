use vstd::prelude::*;
use crate::content_id::{hash_matches, v1_base32_text, verify_hash, Cid};
use crate::loader::{FetchOutcome, LoadedCid, Source};

verus! {

/// The serialization of the URL that `text` parses to, or `None` where it is
/// no valid absolute URL.
pub uninterp spec fn url_parse(text: Seq<char>) -> Option<Seq<char>>;

/// The serialization of the URL `rel` resolved against the URL `base`, or
/// `None` where either does not parse or the join fails.
pub uninterp spec fn url_join(base: Seq<char>, rel: Seq<char>) -> Option<Seq<char>>;

/// The serialization of the URL `url` with its query replaced by `query`,
/// or `None` where `url` does not parse.
pub uninterp spec fn url_with_query(url: Seq<char>, query: Seq<char>) -> Option<Seq<char>>;

/// Relies on `reqwest::Url::parse`; the parsed URL is handed back as its
/// serialization.
#[verifier::external_body]
fn parse_url(text: &str) -> (r: Option<String>)
    ensures
        r is Some <==> url_parse(text@) is Some,
        r is Some ==> r->0@ == url_parse(text@)->0,
{
    reqwest::Url::parse(text).ok().map(|u| u.to_string())
}

/// Relies on `reqwest::Url::join`; `base` is read back into a URL with
/// `Url::parse` and the result is handed back as its serialization.
#[verifier::external_body]
fn join_url(base: &str, rel: &str) -> (r: Option<String>)
    ensures
        r is Some <==> url_join(base@, rel@) is Some,
        r is Some ==> r->0@ == url_join(base@, rel@)->0,
{
    reqwest::Url::parse(base).and_then(|u| u.join(rel)).ok().map(|u| u.to_string())
}

/// Relies on `reqwest::Url::set_query`; `url` is read back into a URL with
/// `Url::parse` and the result is handed back as its serialization.
#[verifier::external_body]
fn set_url_query(url: &str, query: &str) -> (r: Option<String>)
    ensures
        r is Some <==> url_with_query(url@, query@) is Some,
        r is Some ==> r->0@ == url_with_query(url@, query@)->0,
{
    let mut parsed = reqwest::Url::parse(url).ok()?;
    parsed.set_query(Some(query));
    Some(parsed.to_string())
}

/// Why a gateway endpoint or a fetch URL could not be formed.
#[derive(Debug, Clone, Copy, PartialEq, Eq, Structural)]
pub enum GatewayError {
    /// The text starts like an HTTP URL but does not parse as one.
    InvalidUrl,
    /// The CID cannot be written as version-1 base32 text.
    InvalidCid,
}

/// An HTTP gateway: a full base URL, or the domain suffix of a gateway that
/// serves each CID on a subdomain of its own.
#[derive(Debug, Clone, PartialEq, Eq)]
pub enum GatewayUrl {
    /// A parsed base URL, held as its serialization.
    Full(String),
    /// A domain suffix, as in `https://<cid>.ipfs.<suffix>`.
    Subdomain(String),
}

pub open spec fn starts_with_http(s: Seq<char>) -> bool {
    s.len() >= 4 && s[0] == 'h' && s[1] == 't' && s[2] == 't' && s[3] == 'p'
}

/// Text that starts with `http` is a full URL; any other text is a
/// subdomain suffix.
pub open spec fn gateway_from_text(s: Seq<char>) -> Result<(bool, Seq<char>), GatewayError> {
    if starts_with_http(s) {
        match url_parse(s) {
            Some(u) => Ok((true, u)),
            None => Err(GatewayError::InvalidUrl),
        }
    } else {
        Ok((false, s))
    }
}

pub open spec fn fetch_query() -> Seq<char> {
    "format=raw"@
}

/// The URL from which the gateway `full` (with text `text`) serves `cid` in
/// raw form.
pub open spec fn fetch_url(full: bool, text: Seq<char>, cid: Seq<u8>) -> Result<Seq<char>, GatewayError> {
    match v1_base32_text(cid) {
        None => Err(GatewayError::InvalidCid),
        Some(c) => if full {
            match url_join(text, c) {
                None => Err(GatewayError::InvalidUrl),
                Some(joined) => match url_with_query(joined, fetch_query()) {
                    None => Err(GatewayError::InvalidUrl),
                    Some(u) => Ok(u),
                },
            }
        } else {
            match url_parse("https://"@ + c + ".ipfs."@ + text + "?format=raw"@) {
                None => Err(GatewayError::InvalidUrl),
                Some(u) => Ok(u),
            }
        },
    }
}

impl GatewayUrl {
    pub open spec fn is_full(&self) -> bool {
        self is Full
    }

    /// The URL serialization or the subdomain suffix.
    pub open spec fn text(&self) -> Seq<char> {
        match self {
            GatewayUrl::Full(s) => s@,
            GatewayUrl::Subdomain(s) => s@,
        }
    }

    /// Reads a gateway from configuration text.
    pub fn parse(input: &str) -> (r: Result<GatewayUrl, GatewayError>)
        ensures
            match gateway_from_text(input@) {
                Ok((full, text)) => r is Ok && r->Ok_0.is_full() == full && r->Ok_0.text() == text,
                Err(e) => r == Err::<GatewayUrl, GatewayError>(e),
            },
    {
        let n = input.unicode_len();
        let http = n >= 4 && input.get_char(0) == 'h' && input.get_char(1) == 't'
            && input.get_char(2) == 't' && input.get_char(3) == 'p';
        if http {
            match parse_url(input) {
                Some(u) => Ok(GatewayUrl::Full(u)),
                None => Err(GatewayError::InvalidUrl),
            }
        } else {
            Ok(GatewayUrl::Subdomain(input.to_owned()))
        }
    }

    /// The text that names this gateway as a provenance.
    pub fn as_string(&self) -> (r: String)
        ensures
            r@ == self.text(),
    {
        match self {
            GatewayUrl::Full(s) => s.clone(),
            GatewayUrl::Subdomain(s) => s.clone(),
        }
    }

    /// The URL from which this gateway serves `cid` as a raw block:
    /// `<base>/<cid>?format=raw` or `https://<cid>.ipfs.<suffix>?format=raw`.
    pub fn as_url(&self, cid: &Cid) -> (r: Result<String, GatewayError>)
        ensures
            match fetch_url(self.is_full(), self.text(), cid@) {
                Ok(u) => r is Ok && r->Ok_0@ == u,
                Err(e) => r == Err::<String, GatewayError>(e),
            },
    {
        let cid_text = match cid.to_base32_v1() {
            Some(t) => t,
            None => return Err(GatewayError::InvalidCid),
        };
        match self {
            GatewayUrl::Full(base) => {
                let joined = match join_url(base.as_str(), cid_text.as_str()) {
                    Some(j) => j,
                    None => return Err(GatewayError::InvalidUrl),
                };
                match set_url_query(joined.as_str(), "format=raw") {
                    Some(u) => Ok(u),
                    None => Err(GatewayError::InvalidUrl),
                }
            },
            GatewayUrl::Subdomain(suffix) => {
                let text = String::from_str("https://").concat(cid_text.as_str()).concat(
                    ".ipfs.",
                ).concat(suffix.as_str()).concat("?format=raw");
                match parse_url(text.as_str()) {
                    Some(u) => Ok(u),
                    None => Err(GatewayError::InvalidUrl),
                }
            },
        }
    }
}

impl std::str::FromStr for GatewayUrl {
    type Err = GatewayError;

    fn from_str(input: &str) -> Result<GatewayUrl, GatewayError> {
        GatewayUrl::parse(input)
    }
}

/// What one gateway endpoint answered.
#[derive(Debug)]
pub enum EndpointResponse {
    /// No answer: the URL could not be formed or the request failed.
    Unreachable,
    /// An answer without success status.
    Refused,
    /// A successful answer with this body.
    Body(Vec<u8>),
}

/// The walk over the configured gateway endpoints for one CID, in order.
#[derive(Debug)]
pub struct GatewayWalk {
    next: usize,
    reached: bool,
}

impl GatewayWalk {
    /// How many endpoints have been tried.
    pub closed spec fn tried(&self) -> nat {
        self.next as nat
    }

    /// Whether an endpoint answered, without a valid block.
    pub closed spec fn spec_reached(&self) -> bool {
        self.reached
    }

    pub fn new() -> (r: GatewayWalk)
        ensures
            r.tried() == 0,
            !r.spec_reached(),
    {
        GatewayWalk { next: 0, reached: false }
    }

    /// The index of the endpoint to try next, out of `count`.
    pub fn next_endpoint(&self, count: usize) -> (r: Option<usize>)
        ensures
            r is Some <==> self.tried() < count,
            r is Some ==> r->0 == self.tried(),
    {
        if self.next < count {
            Some(self.next)
        } else {
            None
        }
    }

    /// Feeds the answer of the endpoint `gateway` into the walk. A body is
    /// accepted only when it hashes to the digest that `cid` names; anything
    /// else moves the walk on to the next endpoint.
    pub fn on_response(&mut self, cid: &Cid, gateway: &GatewayUrl, response: EndpointResponse) -> (r:
        Option<LoadedCid>)
        requires
            old(self).tried() < usize::MAX,
        ensures
            r is Some <==> answer_verifies(cid@, response),
            r is Some ==> r->0.data@ == response->Body_0@ && r->0.source is Http
                && r->0.source->Http_0@ == gateway.text(),
            final(self).tried() == old(self).tried() + 1,
            final(self).spec_reached() == (old(self).spec_reached() || response is Refused),
    {
        self.next = self.next + 1;
        match response {
            EndpointResponse::Unreachable => None,
            EndpointResponse::Refused => {
                self.reached = true;
                None
            },
            EndpointResponse::Body(data) => {
                if verify_hash(cid, data.as_slice()) == Some(true) {
                    Some(LoadedCid { data, source: Source::Http(gateway.as_string()) })
                } else {
                    None
                }
            },
        }
    }

    /// The outcome of the gateway path once every endpoint failed: missing
    /// where an endpoint answered, unavailable where none did (or none is
    /// configured).
    pub fn exhausted(&self) -> (r: FetchOutcome)
        ensures
            self.spec_reached() ==> r is Missing,
            !self.spec_reached() ==> r is Unavailable,
    {
        if self.reached {
            FetchOutcome::Missing
        } else {
            FetchOutcome::Unavailable
        }
    }
}

/// Whether an endpoint's answer carries a body that hashes to `cid`.
pub open spec fn answer_verifies(cid: Seq<u8>, answer: EndpointResponse) -> bool {
    answer is Body && hash_matches(cid, answer->Body_0@) == Some(true)
}

/// The gateway path over the answers of the endpoints, taken in order as
/// `GatewayWalk` takes them: the index of the answer accepted, if any, and
/// whether an endpoint answered without a valid block before it.
pub open spec fn gateway_path(cid: Seq<u8>, answers: Seq<EndpointResponse>) -> (Option<int>, bool)
    decreases answers.len(),
{
    if answers.len() == 0 {
        (None, false)
    } else {
        let (accepted, reached) = gateway_path(cid, answers.drop_last());
        if accepted is Some {
            (accepted, reached)
        } else if answer_verifies(cid, answers.last()) {
            (Some(answers.len() - 1), reached)
        } else {
            (None, reached || answers.last() is Refused)
        }
    }
}

/// The gateway path accepts a body only if it hashes to the CID, and it
/// accepts the first such body: every earlier answer, a tampered body
/// included, was passed over for the next endpoint.
pub proof fn lemma_gateway_accepts_first_verified(cid: Seq<u8>, answers: Seq<EndpointResponse>)
    ensures
        gateway_path(cid, answers).0 matches Some(j) ==> {
            &&& 0 <= j < answers.len()
            &&& answer_verifies(cid, answers[j])
            &&& forall|i: int| 0 <= i < j ==> !answer_verifies(cid, #[trigger] answers[i])
        },
        gateway_path(cid, answers).0 is None ==> forall|i: int|
            0 <= i < answers.len() ==> !answer_verifies(cid, #[trigger] answers[i]),
    decreases answers.len(),
{
    if answers.len() > 0 {
        let shorter = answers.drop_last();
        lemma_gateway_accepts_first_verified(cid, shorter);
        assert forall|i: int| 0 <= i < shorter.len() implies shorter[i] == answers[i] by {}
    }
}

} // verus!
