//! Converts XML responses of the NameCheap API into a generic tree and reads
//! typed values out of it.
use vstd::prelude::*;

pub mod document;
pub mod naming;
pub mod node;
pub mod numbers;
pub mod paging;
pub mod parse_value;
pub mod request_builder;
pub mod responses;
pub mod xml_parser;

verus! {

/// The base address of the production API.
pub const NAMECHEAP_API_URL: &'static str = "https://api.namecheap.com";

/// The base address of the sandbox API.
pub const NAMECHEAP_SANDBOX_API_URL: &'static str = "https://api.sandbox.namecheap.com";

/// The credentials and the environment that requests are made with.
///
/// `api_user` and `user_name` are both the account's user name. With
/// `production` unset, requests go to the sandbox.
#[derive(Debug, Clone, PartialEq, Eq, Hash)]
pub struct NameCheapClient {
    pub api_user: String,
    pub api_key: String,
    pub client_ip: String,
    pub user_name: String,
    pub production: bool,
    pub api_url: Option<String>,
}

/// The base address that a client in the given environment uses.
pub open spec fn base_url(production: bool) -> Seq<char> {
    if production {
        NAMECHEAP_API_URL@
    } else {
        NAMECHEAP_SANDBOX_API_URL@
    }
}

impl NameCheapClient {
    /// A client with the given credentials, whose `api_url` is the base
    /// address of its environment.
    pub fn new(
        api_user: String,
        api_key: String,
        client_ip: String,
        user_name: String,
        production: bool,
    ) -> (r: Self)
        ensures
            r.api_user == api_user,
            r.api_key == api_key,
            r.client_ip == client_ip,
            r.user_name == user_name,
            r.production == production,
            r.api_url matches Some(u) && u@ == base_url(production),
    {
        let api_url = if production {
            NAMECHEAP_API_URL.to_owned()
        } else {
            NAMECHEAP_SANDBOX_API_URL.to_owned()
        };
        NameCheapClient { api_user, api_key, client_ip, user_name, production, api_url: Some(api_url) }
    }
}

/// A domain of the account, as a listing reports it.
#[derive(Debug, Clone, PartialEq, Eq, Hash)]
pub struct Domain {
    pub id: i64,
    pub name: String,
    pub user: String,
    pub created: String,
    pub expires: String,
    pub is_expired: bool,
    pub is_locked: bool,
    pub auto_renew: bool,
    pub whois_guard: bool,
    pub is_premium: bool,
    pub is_our_dns: bool,
}

/// One contact of a domain: registrant, technical, administrative or billing.
#[derive(Debug, Clone, PartialEq, Eq, Hash)]
pub struct Contact {
    pub type_: String,
    pub address_1: String,
    pub address_2: String,
    pub city: String,
    pub country: String,
    pub email_address: String,
    pub fax: String,
    pub first_name: String,
    pub job_title: String,
    pub last_name: String,
    pub organization_name: String,
    pub phone: String,
    pub phone_ext: String,
    pub postal_code: String,
    pub state_province: String,
    pub state_province_choice: String,
    pub read_only: bool,
}

/// One DNS host record to set.
#[derive(Debug, Clone, PartialEq, Eq, Hash)]
pub struct HostRequest {
    pub host_name: String,
    pub record_type: String,
    pub address: String,
    pub mx_pref: Option<String>,
    pub email_type: Option<String>,
    pub ttl: Option<String>,
    pub flag: Option<String>,
    pub tag: Option<String>,
}

impl HostRequest {
    pub fn new(
        host_name: String,
        record_type: String,
        address: String,
        mx_pref: Option<String>,
        email_type: Option<String>,
        ttl: Option<String>,
        flag: Option<String>,
        tag: Option<String>,
    ) -> (r: Self)
        ensures
            r == (HostRequest {
                host_name,
                record_type,
                address,
                mx_pref,
                email_type,
                ttl,
                flag,
                tag,
            }),
    {
        HostRequest { host_name, record_type, address, mx_pref, email_type, ttl, flag, tag }
    }
}

} // verus!
