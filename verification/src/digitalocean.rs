//! The data the DNS provider's API exchanges, and the verified compute side
//! of the client: credential validation, request paths, and status-code
//! classification. The HTTP round trips themselves happen outside the
//! library; they hand back a status code and a decoded body.

use vstd::prelude::*;
use vstd::string::*;
use crate::text::{i32_decimal, spec_i32_decimal};

verus! {

/// A DNS record of a domain, as the provider reports it.
#[derive(Debug)]
pub struct Record {
    /// A unique identifier for each domain record.
    pub id: i32,
    /// The type of the DNS record. For example: A, CNAME, TXT, ...
    pub ty: String,
    /// The host name, alias, or service being defined by the record.
    pub name: String,
    /// Variable data depending on record type. For an A record, the IPv4
    /// address the name maps to.
    pub data: String,
    /// The priority for SRV and MX records.
    pub priority: Option<i32>,
    /// The port for SRV records.
    pub port: Option<i32>,
    /// Time to live for the record, in seconds.
    pub ttl: i32,
    /// The weight for SRV records.
    pub weight: Option<i32>,
    /// An unsigned integer between 0-255 used for CAA records.
    pub flags: Option<i32>,
    /// The parameter tag for CAA records.
    pub tag: Option<String>,
}

/// A domain registered on the account.
#[derive(Debug)]
pub struct Domain {
    /// The name of the domain itself, in the standard domain.TLD format.
    pub name: String,
    /// Time to live for the records on this domain, in seconds.
    pub ttl: Option<i32>,
    /// The complete contents of the zone file for the selected domain.
    pub zone_file: Option<String>,
}

/// The body the provider sends with an error status.
pub struct ErrorResponse {
    /// The provider's description of what went wrong.
    pub message: String,
}

/// The body of a successful record listing.
pub struct ListDomainRecordsResponse {
    pub domain_records: Vec<Record>,
}

/// The body of a successful domain listing.
pub struct ListAllDomainsResponse {
    pub domains: Vec<Domain>,
}

/// How a provider call failed.
#[derive(Debug)]
pub enum QueryError {
    /// Status 429: too many requests.
    RateLimited(String),
    /// Status 401: the credential was rejected.
    Unauthorized(String),
    /// Status 404: no such domain or record.
    NotFound(String),
    /// Status 500: the provider's own failure.
    ServerError(String),
    /// Any other non-200 status.
    UnexpectedStatus(u16),
    /// Transport or decode failure, described in words.
    ReqwestError(String),
}

/// Why a client could not be built.
#[derive(Debug)]
pub enum NewClientError {
    /// Transport-layer construction failure, described in words.
    ReqwestError(String),
    /// The API key cannot be carried in an authorization header.
    InvalidApiKey,
}

/// May `c` stand in an HTTP header value? Following the rule of
/// `http::HeaderValue`, a byte is acceptable when it is 32 or above and not
/// 127, or is a tab; characters at 128 and above encode as bytes of 128 and
/// above, so only the low controls and delete are excluded.
pub open spec fn spec_header_char_ok(c: char) -> bool {
    (c as u32 >= 32 && c as u32 != 127) || c == '\t'
}

/// Is `key` acceptable as (part of) an HTTP header value?
pub open spec fn spec_api_key_ok(key: Seq<char>) -> bool {
    forall|i: int| 0 <= i < key.len() ==> spec_header_char_ok(key[i])
}

/// The check that building a client performs on the API key before anything
/// else: the bearer header `"Bearer {key}"` must be a well-formed header
/// value, which holds exactly when every character of the key is acceptable
/// (the fixed prefix always is).
pub fn validate_api_key(key: &str) -> (r: Result<(), NewClientError>)
    ensures
        r is Ok <==> spec_api_key_ok(key@),
        r is Err ==> r == Result::<(), NewClientError>::Err(NewClientError::InvalidApiKey),
{
    let len = key.unicode_len();
    let mut i: usize = 0;
    while i < len
        invariant
            i <= len,
            len == key@.len(),
            forall|j: int| 0 <= j < i ==> spec_header_char_ok(key@[j]),
        decreases len - i,
    {
        let c = key.get_char(i);
        if !((c as u32 >= 32 && c as u32 != 127) || c == '\t') {
            return Err(NewClientError::InvalidApiKey);
        }
        i += 1;
    }
    Ok(())
}

/// The request path that lists the account's domains (the first 200 of them).
pub fn domains_path() -> (r: String)
    ensures
        r@ == "/v2/domains?per_page=200"@,
{
    String::from_str("/v2/domains?per_page=200")
}

/// The request path that lists a domain's records.
pub fn domain_records_path(domain_name: &str) -> (r: String)
    ensures
        r@ == "/v2/domains/"@ + domain_name@ + "/records"@,
{
    let mut r = String::from_str("/v2/domains/");
    r.append(domain_name);
    r.append("/records");
    proof {
        assert(r@ =~= "/v2/domains/"@ + domain_name@ + "/records"@);
    }
    r
}

/// The request path that updates one record of a domain.
pub fn update_record_path(domain_name: &str, record_id: i32) -> (r: String)
    ensures
        r@ == "/v2/domains/"@ + domain_name@ + "/records/"@ + spec_i32_decimal(record_id as int),
{
    let mut r = String::from_str("/v2/domains/");
    r.append(domain_name);
    r.append("/records/");
    let id = i32_decimal(record_id);
    r.append(id.as_str());
    proof {
        assert(r@ =~= "/v2/domains/"@ + domain_name@ + "/records/"@ + spec_i32_decimal(
            record_id as int,
        ));
    }
    r
}

/// Does this status carry a provider error body whose message matters?
pub fn status_has_error_body(status: u16) -> (r: bool)
    ensures
        r == (status == 401 || status == 404 || status == 429 || status == 500),
{
    status == 401 || status == 404 || status == 429 || status == 500
}

/// The error a non-200 response stands for. For the four statuses whose body
/// was decoded, `message` is the provider's message; any other status is
/// unexpected and keeps only its code.
pub fn classify_error_status(status: u16, message: String) -> (r: QueryError)
    requires
        status != 200,
    ensures
        status == 401 ==> (r matches QueryError::Unauthorized(m) && m@ == message@),
        status == 404 ==> (r matches QueryError::NotFound(m) && m@ == message@),
        status == 429 ==> (r matches QueryError::RateLimited(m) && m@ == message@),
        status == 500 ==> (r matches QueryError::ServerError(m) && m@ == message@),
        (status != 401 && status != 404 && status != 429 && status != 500) ==> r
            == QueryError::UnexpectedStatus(status),
{
    if status == 401 {
        QueryError::Unauthorized(message)
    } else if status == 404 {
        QueryError::NotFound(message)
    } else if status == 429 {
        QueryError::RateLimited(message)
    } else if status == 500 {
        QueryError::ServerError(message)
    } else {
        QueryError::UnexpectedStatus(status)
    }
}

} // verus!
