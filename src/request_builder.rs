//! The query address of an API command.
use vstd::prelude::*;

use crate::numbers::{decimal_text, push_decimal};
use crate::{base_url, NameCheapClient, NAMECHEAP_API_URL, NAMECHEAP_SANDBOX_API_URL};

verus! {

/// One API command with its parameters.
#[derive(Debug, Clone, PartialEq, Eq, Hash)]
pub struct Request {
    /// The credentials and environment.
    pub client: NameCheapClient,
    /// The command, such as `namecheap.domains.getList`.
    pub command: String,
    /// The page of a paginated listing.
    pub page: Option<i64>,
    /// The domain that the command is about.
    pub domain_name: Option<String>,
    /// The domain's identifier.
    pub domain_id: Option<i64>,
    /// The second-level and top-level parts of the domain.
    pub sld_tld: Option<(String, String)>,
}

/// `&name=` followed by the decimal text of the value, where there is one.
pub open spec fn number_param(name: Seq<char>, v: Option<i64>) -> Seq<char> {
    match v {
        Some(n) => name + decimal_text(n as int),
        None => Seq::empty(),
    }
}

/// `&name=` followed by the text, where there is one.
pub open spec fn text_param(name: Seq<char>, v: Option<String>) -> Seq<char> {
    match v {
        Some(s) => name + s@,
        None => Seq::empty(),
    }
}

/// The address that [`Request::build_url`] returns.
pub open spec fn url_of(r: Request) -> Seq<char> {
    base_url(r.client.production) + "/xml.response?ApiUser="@ + r.client.api_user@
        + "&ApiKey="@ + r.client.api_key@ + "&UserName="@ + r.client.user_name@
        + "&Command="@ + r.command@ + "&ClientIp="@ + r.client.client_ip@
        + number_param("&Page="@, r.page) + text_param("&DomainName="@, r.domain_name)
        + number_param("&DomainID="@, r.domain_id) + match r.sld_tld {
        Some((sld, tld)) => "&SLD="@ + sld@ + "&TLD="@ + tld@,
        None => Seq::empty(),
    }
}

impl Request {
    /// A command with an optional page and domain name, and no domain
    /// identifier.
    pub fn new(
        client: NameCheapClient,
        command: String,
        page: Option<i64>,
        domain_name: Option<String>,
    ) -> (r: Self)
        ensures
            r == (Request { client, command, page, domain_name, domain_id: None, sld_tld: None }),
    {
        Request { client, command, page, domain_name, domain_id: None, sld_tld: None }
    }

    /// The full query address: the environment's base address, the
    /// credentials and the command, then each parameter that is set.
    pub fn build_url(&self) -> (r: String)
        ensures
            r@ == url_of(*self),
    {
        let mut url = String::new();
        if self.client.production {
            url.append(NAMECHEAP_API_URL);
        } else {
            url.append(NAMECHEAP_SANDBOX_API_URL);
        }
        url.append("/xml.response?ApiUser=");
        url.append(self.client.api_user.as_str());
        url.append("&ApiKey=");
        url.append(self.client.api_key.as_str());
        url.append("&UserName=");
        url.append(self.client.user_name.as_str());
        url.append("&Command=");
        url.append(self.command.as_str());
        url.append("&ClientIp=");
        url.append(self.client.client_ip.as_str());
        let ghost head = url@;
        if let Some(page) = self.page {
            url.append("&Page=");
            push_decimal(&mut url, page);
        }
        let ghost with_page = url@;
        assert(with_page =~= head + number_param("&Page="@, self.page));
        if let Some(domain_name) = &self.domain_name {
            url.append("&DomainName=");
            url.append(domain_name.as_str());
        }
        let ghost with_name = url@;
        assert(with_name =~= with_page + text_param("&DomainName="@, self.domain_name));
        if let Some(domain_id) = self.domain_id {
            url.append("&DomainID=");
            push_decimal(&mut url, domain_id);
        }
        let ghost with_id = url@;
        assert(with_id =~= with_name + number_param("&DomainID="@, self.domain_id));
        if let Some((sld, tld)) = &self.sld_tld {
            url.append("&SLD=");
            url.append(sld.as_str());
            url.append("&TLD=");
            url.append(tld.as_str());
        }
        assert(url@ =~= url_of(*self));
        url
    }

    /// The same command for the given domain name.
    pub fn with_domain_name(self, domain_name: String) -> (r: Self)
        ensures
            r == (Request { domain_name: Some(domain_name), ..self }),
    {
        Request { domain_name: Some(domain_name), ..self }
    }

    /// The same command for the given domain identifier.
    pub fn with_domain_id(self, domain_id: i64) -> (r: Self)
        ensures
            r == (Request { domain_id: Some(domain_id), ..self }),
    {
        Request { domain_id: Some(domain_id), ..self }
    }

    /// The same command for the domain `sld`.`tld`, passed as its two parts.
    pub fn with_sld_tld(self, sld: String, tld: String) -> (r: Self)
        ensures
            r == (Request { sld_tld: Some((sld, tld)), ..self }),
    {
        Request { sld_tld: Some((sld, tld)), ..self }
    }
}

} // verus!
