//! What each API command's response tree yields.
use vstd::prelude::*;

use crate::node::{get_model, Node, NodeModel};
use crate::numbers::{digits_of, push_digits};
use crate::paging::{extract_pagination_info, option_model, pagination_of};
use crate::parse_value::{
    i64_or, leaf_text, parse_bool, parse_i64, parse_string, string_or, text_at,
};
use crate::{Contact, Domain, HostRequest, NameCheapClient};

verus! {

pub open spec fn get_opt(n: Option<NodeModel>, key: Seq<char>) -> Option<NodeModel> {
    match n {
        Some(m) => get_model(m, key),
        None => None,
    }
}

/// The entry under `key` of the node, where there is a node.
pub fn get_in<'a>(n: Option<&'a Node>, key: &str) -> (r: Option<&'a Node>)
    ensures
        option_model(r) == get_opt(option_model(n), key@),
{
    match n {
        Some(x) => x.get(key),
        None => None,
    }
}

/// The `CommandResponse` of a response document.
pub open spec fn command_response(response: NodeModel) -> Option<NodeModel> {
    get_opt(get_model(response, "ApiResponse"@), "CommandResponse"@)
}

fn command_response_of(response: &Node) -> (r: Option<&Node>)
    ensures
        option_model(r) == command_response(response.model()),
{
    get_in(response.get("ApiResponse"), "CommandResponse")
}

/// The supported top-level domains of a `domains.getTldList` response.
pub fn tld_list(response: &Node) -> (r: Option<&Node>)
    ensures
        option_model(r) == get_opt(get_opt(command_response(response.model()), "Tlds"@), "Tld"@),
{
    get_in(get_in(command_response_of(response), "Tlds"), "Tld")
}

/// The name servers of a `domains.dns.getList` response.
pub fn dns_servers(response: &Node) -> (r: Option<&Node>)
    ensures
        option_model(r) == get_opt(
            get_opt(command_response(response.model()), "DomainDNSGetListResult"@),
            "Nameserver"@,
        ),
{
    get_in(get_in(command_response_of(response), "DomainDNSGetListResult"), "Nameserver")
}

/// The host records of a `domains.dns.getHosts` response.
pub fn dns_hosts(response: &Node) -> (r: Option<&Node>)
    ensures
        option_model(r) == get_opt(
            get_opt(command_response(response.model()), "DomainDNSGetHostsResult"@),
            "host"@,
        ),
{
    get_in(get_in(command_response_of(response), "DomainDNSGetHostsResult"), "host")
}

/// The result of a `domains.dns.setHosts` response.
pub fn set_hosts_result(response: &Node) -> (r: Option<&Node>)
    ensures
        option_model(r) == get_opt(command_response(response.model()), "DomainDNSSetHostsResult"@),
{
    get_in(command_response_of(response), "DomainDNSSetHostsResult")
}

/// The items of an entry: the elements of an array; none for an object or a
/// text.
pub open spec fn items_of(n: NodeModel) -> Seq<NodeModel> {
    match n {
        NodeModel::Array(items) => items,
        _ => Seq::empty(),
    }
}

/// References to the items of `n`, as [`items_of`] lists them.
fn item_refs(n: &Node) -> (r: Vec<&Node>)
    ensures
        r@.len() == items_of(n.model()).len(),
        forall|i: int| 0 <= i < r@.len() ==> (#[trigger] r@[i]).model() == items_of(n.model())[i],
{
    let mut r: Vec<&Node> = Vec::new();
    match n {
        Node::Array(items) => {
            proof {
                crate::node::lemma_items_model(items@);
            }
            let mut i: usize = 0;
            while i < items.len()
                invariant
                    i <= items.len(),
                    r@.len() == i,
                    n.model() == NodeModel::Array(crate::node::items_model(items@)),
                    crate::node::items_model(items@).len() == items.len(),
                    forall|k: int|
                        0 <= k < items.len() ==> #[trigger] crate::node::items_model(items@)[k]
                            == items@[k].model(),
                    forall|k: int| 0 <= k < i ==> (#[trigger] r@[k]).model() == items@[k].model(),
                decreases items.len() - i,
            {
                r.push(&items[i]);
                i = i + 1;
            }
        },
        _ => {},
    }
    r
}

/// The value of a flag: whether the text under `key` (or `default`) is `truth`.
pub open spec fn flag(m: NodeModel, key: Seq<char>, default: Seq<char>, truth: Seq<char>) -> bool {
    string_or(m, key, default) == truth
}

/// A domain read from its `Domain` element.
pub open spec fn domain_matches(d: Domain, m: NodeModel) -> bool {
    &&& d.id == i64_or(m, "id"@, 0)
    &&& d.name@ == string_or(m, "name"@, ""@)
    &&& d.user@ == string_or(m, "user"@, ""@)
    &&& d.created@ == string_or(m, "created"@, ""@)
    &&& d.expires@ == string_or(m, "expires"@, ""@)
    &&& d.is_expired == flag(m, "is_expired"@, "false"@, "true"@)
    &&& d.is_locked == flag(m, "is_locked"@, "false"@, "true"@)
    &&& d.auto_renew == flag(m, "auto_renew"@, "false"@, "true"@)
    &&& d.whois_guard == flag(m, "whois_guard"@, "NOTPRESENT"@, "ENABLED"@)
    &&& d.is_premium == flag(m, "is_premium"@, "false"@, "true"@)
    &&& d.is_our_dns == flag(m, "is_our_dns"@, "false"@, "true"@)
}

/// Reads a domain from its `Domain` element.
pub fn domain_from_node(node: &Node) -> (d: Domain)
    ensures
        domain_matches(d, node.model()),
{
    Domain {
        id: parse_i64(node, "id", 0),
        name: parse_string(node, "name", ""),
        user: parse_string(node, "user", ""),
        created: parse_string(node, "created", ""),
        expires: parse_string(node, "expires", ""),
        is_expired: parse_bool(node, "is_expired", "false", "true"),
        is_locked: parse_bool(node, "is_locked", "false", "true"),
        auto_renew: parse_bool(node, "auto_renew", "false", "true"),
        whois_guard: parse_bool(node, "whois_guard", "NOTPRESENT", "ENABLED"),
        is_premium: parse_bool(node, "is_premium", "false", "true"),
        is_our_dns: parse_bool(node, "is_our_dns", "false", "true"),
    }
}

/// One page of the account's domains.
#[derive(Debug, Clone, PartialEq, Eq)]
pub struct DomainListing {
    pub domains: Vec<Domain>,
    pub current_page: i64,
    pub total_pages: i64,
}

/// The paging block of a command response, where it is an object.
pub open spec fn paging_block(cr: NodeModel) -> Option<NodeModel> {
    match get_model(cr, "Paging"@) {
        Some(NodeModel::Object(fields)) => Some(NodeModel::Object(fields)),
        _ => None,
    }
}

/// The paging block of a listing response, where it has one.
pub fn listing_paging(response: &Node) -> (r: Option<&Node>)
    ensures
        option_model(r) == match command_response(response.model()) {
            Some(cr) => paging_block(cr),
            None => None,
        },
{
    match command_response_of(response) {
        Some(cr) => paging_in(cr),
        None => None,
    }
}

fn paging_in(cr: &Node) -> (r: Option<&Node>)
    ensures
        option_model(r) == paging_block(cr.model()),
{
    match cr.get("Paging") {
        Some(p) => match p {
            Node::Object(_) => Some(p),
            _ => None,
        },
        None => None,
    }
}

/// What [`domain_listing`] returns for a response.
pub open spec fn listing_matches(r: DomainListing, response: NodeModel) -> bool {
    match command_response(response) {
        Some(cr) => match get_opt(get_model(cr, "DomainGetListResult"@), "Domain"@) {
            Some(NodeModel::Array(items)) => {
                let p = pagination_of(paging_block(cr));
                &&& r.domains@.len() == items.len()
                &&& forall|i: int|
                    0 <= i < items.len() ==> domain_matches(#[trigger] r.domains@[i], items[i])
                &&& r.current_page == p.0
                &&& r.total_pages == p.3
            },
            _ => r.domains@.len() == 0 && r.current_page == 1 && r.total_pages == 1,
        },
        None => r.domains@.len() == 0 && r.current_page == 1 && r.total_pages == 1,
    }
}

/// The page of a listing to ask for: at least the first.
pub fn list_page(page: i64) -> (r: i64)
    ensures
        r == if page < 1 {
            1
        } else {
            page
        },
{
    if page < 1 {
        1
    } else {
        page
    }
}

/// The domains of a `domains.getList` response, one for each `Domain` element,
/// with the current page and the page count of its paging block. Unless the
/// response repeats `Domain` (so that the entry is an array), an empty first
/// page of one.
pub fn domain_listing(response: &Node) -> (r: DomainListing)
    ensures
        listing_matches(r, response.model()),
{
    let empty = DomainListing { domains: Vec::new(), current_page: 1, total_pages: 1 };
    let cr = match command_response_of(response) {
        Some(cr) => cr,
        None => {
            return empty;
        },
    };
    let paging = paging_in(cr);
    let (current_page, _, _, total_pages) = extract_pagination_info(paging);
    let ds = match get_in(cr.get("DomainGetListResult"), "Domain") {
        Some(ds) => match ds {
            Node::Array(_) => ds,
            _ => {
                return empty;
            },
        },
        None => {
            return empty;
        },
    };
    let items = item_refs(ds);
    let ghost im = items_of(ds.model());
    let mut domains: Vec<Domain> = Vec::new();
    let mut i: usize = 0;
    while i < items.len()
        invariant
            i <= items@.len(),
            items@.len() == im.len(),
            forall|k: int| 0 <= k < items@.len() ==> (#[trigger] items@[k]).model() == im[k],
            domains@.len() == i,
            forall|k: int| 0 <= k < i ==> domain_matches(#[trigger] domains@[k], im[k]),
        decreases items.len() - i,
    {
        domains.push(domain_from_node(items[i]));
        i = i + 1;
    }
    DomainListing { domains, current_page, total_pages }
}

/// A contact read from its element, of the given kind.
pub open spec fn contact_matches(c: Contact, kind: Seq<char>, m: NodeModel) -> bool {
    &&& c.type_@ == kind
    &&& c.first_name@ == string_or(m, "FirstName"@, ""@)
    &&& c.last_name@ == string_or(m, "LastName"@, ""@)
    &&& c.address_1@ == string_or(m, "Address1"@, ""@)
    &&& c.address_2@ == string_or(m, "Address2"@, ""@)
    &&& c.city@ == string_or(m, "City"@, ""@)
    &&& c.state_province@ == string_or(m, "StateProvince"@, ""@)
    &&& c.state_province_choice@ == string_or(m, "StateProvinceChoice"@, ""@)
    &&& c.postal_code@ == string_or(m, "PostalCode"@, ""@)
    &&& c.country@ == string_or(m, "Country"@, ""@)
    &&& c.phone@ == string_or(m, "Phone"@, ""@)
    &&& c.phone_ext@ == string_or(m, "PhoneExt"@, ""@)
    &&& c.fax@ == string_or(m, "Fax"@, ""@)
    &&& c.email_address@ == string_or(m, "EmailAddress"@, ""@)
    &&& c.organization_name@ == string_or(m, "OrganizationName"@, ""@)
    &&& c.job_title@ == string_or(m, "JobTitle"@, ""@)
    &&& c.read_only == flag(m, "read_only"@, "false"@, "true"@)
}

/// Reads a contact of the given kind from its element.
pub fn contact_from_node(kind: &str, node: &Node) -> (c: Contact)
    ensures
        contact_matches(c, kind@, node.model()),
{
    Contact {
        type_: kind.to_owned(),
        first_name: parse_string(node, "FirstName", ""),
        last_name: parse_string(node, "LastName", ""),
        address_1: parse_string(node, "Address1", ""),
        address_2: parse_string(node, "Address2", ""),
        city: parse_string(node, "City", ""),
        state_province: parse_string(node, "StateProvince", ""),
        state_province_choice: parse_string(node, "StateProvinceChoice", ""),
        postal_code: parse_string(node, "PostalCode", ""),
        country: parse_string(node, "Country", ""),
        phone: parse_string(node, "Phone", ""),
        phone_ext: parse_string(node, "PhoneExt", ""),
        fax: parse_string(node, "Fax", ""),
        email_address: parse_string(node, "EmailAddress", ""),
        organization_name: parse_string(node, "OrganizationName", ""),
        job_title: parse_string(node, "JobTitle", ""),
        read_only: parse_bool(node, "read_only", "false", "true"),
    }
}

/// The four contacts of a domain, each where the response has it.
#[derive(Debug, Clone, PartialEq, Eq)]
pub struct ContactSet {
    pub registrant: Option<Contact>,
    pub tech: Option<Contact>,
    pub admin: Option<Contact>,
    pub aux_billing: Option<Contact>,
}

/// The contact of a kind: read from the holder's element of that name, where
/// there is one.
pub open spec fn slot_matches(slot: Option<Contact>, kind: Seq<char>, holder: NodeModel) -> bool {
    match get_model(holder, kind) {
        Some(m) => slot matches Some(c) && contact_matches(c, kind, m),
        None => slot is None,
    }
}

pub open spec fn contact_set_matches(s: ContactSet, holder: NodeModel) -> bool {
    &&& slot_matches(s.registrant, "Registrant"@, holder)
    &&& slot_matches(s.tech, "Tech"@, holder)
    &&& slot_matches(s.admin, "Admin"@, holder)
    &&& slot_matches(s.aux_billing, "AuxBilling"@, holder)
}

fn contact_slot(holder: &Node, kind: &str) -> (r: Option<Contact>)
    ensures
        slot_matches(r, kind@, holder.model()),
{
    match holder.get(kind) {
        Some(m) => Some(contact_from_node(kind, m)),
        None => None,
    }
}

/// Reads the registrant, technical, administrative and billing contacts
/// under `holder`.
pub fn contact_set(holder: &Node) -> (r: ContactSet)
    ensures
        contact_set_matches(r, holder.model()),
{
    ContactSet {
        registrant: contact_slot(holder, "Registrant"),
        tech: contact_slot(holder, "Tech"),
        admin: contact_slot(holder, "Admin"),
        aux_billing: contact_slot(holder, "AuxBilling"),
    }
}

/// The contacts of a domain, with the privacy-service contacts where the
/// response has them.
#[derive(Debug, Clone, PartialEq, Eq)]
pub struct ContactDetails {
    pub contacts: ContactSet,
    pub domain: String,
    pub domain_id: String,
    pub whois_guard_contacts: Option<ContactSet>,
}

/// What [`contact_details`] returns for a response.
pub open spec fn details_match(r: Option<ContactDetails>, response: NodeModel) -> bool {
    match get_opt(command_response(response), "DomainContactsResult"@) {
        Some(res) => r matches Some(d) && {
            &&& contact_set_matches(d.contacts, res)
            &&& d.domain@ == string_or(res, "domain"@, ""@)
            &&& d.domain_id@ == string_or(res, "domainnameid"@, ""@)
            &&& match get_model(res, "WhoisGuardContact"@) {
                Some(w) => d.whois_guard_contacts matches Some(ws) && contact_set_matches(ws, w),
                None => d.whois_guard_contacts is None,
            }
        },
        None => r is None,
    }
}

/// The contacts of a `domains.getContacts` response, where it has a result.
pub fn contact_details(response: &Node) -> (r: Option<ContactDetails>)
    ensures
        details_match(r, response.model()),
{
    let res = match get_in(command_response_of(response), "DomainContactsResult") {
        Some(res) => res,
        None => {
            return None;
        },
    };
    let whois_guard_contacts = match res.get("WhoisGuardContact") {
        Some(w) => Some(contact_set(w)),
        None => None,
    };
    Some(
        ContactDetails {
            contacts: contact_set(res),
            domain: parse_string(res, "domain", ""),
            domain_id: parse_string(res, "domainnameid", ""),
            whois_guard_contacts,
        },
    )
}

/// The text where there is one, else nothing.
pub open spec fn text_or_empty(t: Option<Seq<char>>) -> Seq<char> {
    match t {
        Some(s) => s,
        None => Seq::empty(),
    }
}

pub open spec fn opt_string_model(t: Option<String>) -> Option<Seq<char>> {
    match t {
        Some(s) => Some(s@),
        None => None,
    }
}

/// A host record read from an existing record's entry, under the keys that a
/// record's fields are written under.
pub open spec fn host_matches(h: HostRequest, m: NodeModel) -> bool {
    &&& h.host_name@ == string_or(m, "HostName"@, ""@)
    &&& h.record_type@ == string_or(m, "RecordType"@, ""@)
    &&& h.address@ == string_or(m, "Address"@, ""@)
    &&& opt_string_model(h.mx_pref) == leaf_text(m, "MXPref"@)
    &&& opt_string_model(h.ttl) == leaf_text(m, "TTL"@)
    &&& h.email_type is None
    &&& h.flag is None
    &&& h.tag is None
}

fn owned_text(t: Option<&str>) -> (r: Option<String>)
    ensures
        opt_string_model(r) == match t {
            Some(s) => Some(s@),
            None => None::<Seq<char>>,
        },
{
    match t {
        Some(s) => Some(s.to_owned()),
        None => None,
    }
}

/// Reads a host record from an existing record's entry.
pub fn host_from_node(node: &Node) -> (h: HostRequest)
    ensures
        host_matches(h, node.model()),
{
    HostRequest {
        host_name: parse_string(node, "HostName", ""),
        record_type: parse_string(node, "RecordType", ""),
        address: parse_string(node, "Address", ""),
        mx_pref: owned_text(text_at(node, "MXPref")),
        email_type: None,
        ttl: owned_text(text_at(node, "TTL")),
        flag: None,
        tag: None,
    }
}

/// The records to set: the existing ones, where the `host` entry of a
/// `domains.dns.getHosts` response is an array of them, then the new ones.
pub fn combine_hosts(existing: Option<&Node>, new_hosts: Vec<HostRequest>) -> (r: Vec<
    HostRequest,
>)
    ensures
        match option_model(existing) {
            Some(m) => {
                let items = items_of(m);
                &&& r@.len() == items.len() + new_hosts@.len()
                &&& forall|i: int|
                    0 <= i < items.len() ==> host_matches(#[trigger] r@[i], items[i])
                &&& r@.subrange(items.len() as int, r@.len() as int) == new_hosts@
            },
            None => r@ == new_hosts@,
        },
{
    let mut r: Vec<HostRequest> = Vec::new();
    let ghost count: int = 0;
    if let Some(n) = existing {
        let items = item_refs(n);
        let ghost im = items_of(n.model());
        let mut i: usize = 0;
        while i < items.len()
            invariant
                i <= items@.len(),
                items@.len() == im.len(),
                forall|k: int| 0 <= k < items@.len() ==> (#[trigger] items@[k]).model() == im[k],
                r@.len() == i,
                forall|k: int| 0 <= k < i ==> host_matches(#[trigger] r@[k], im[k]),
            decreases items.len() - i,
        {
            r.push(host_from_node(items[i]));
            i = i + 1;
        }
        proof {
            count = im.len() as int;
        }
    }
    let ghost before = r@;
    let mut new_hosts = new_hosts;
    let ghost added = new_hosts@;
    r.append(&mut new_hosts);
    assert(r@.subrange(count, r@.len() as int) =~= added);
    proof {
        if existing is Some {
            assert forall|i: int| 0 <= i < count implies r@[i] == before[i] by {}
        }
    }
    r
}

/// The text of an optional value, or nothing.
fn push_optional(s: &mut String, t: &Option<String>)
    ensures
        final(s)@ == old(s)@ + text_or_empty(opt_string_model(*t)),
{
    match t {
        Some(v) => s.append(v.as_str()),
        None => {
            assert(old(s)@ + Seq::<char>::empty() =~= old(s)@);
        },
    }
}

/// The line of a `setHosts` request body for the record at position `index`
/// (from 1).
pub open spec fn host_line(index: nat, h: HostRequest) -> Seq<char> {
    "<Host HostId=\""@ + digits_of(index) + "\" Name=\""@ + h.host_name@ + "\" Type=\""@
        + h.record_type@ + "\" Address=\""@ + h.address@ + "\" TTL=\""@ + text_or_empty(
        opt_string_model(h.ttl),
    ) + "\" />"@
}

/// The record lines of a `setHosts` request body, one per record, joined by
/// line breaks.
pub open spec fn host_lines(hs: Seq<HostRequest>) -> Seq<char>
    decreases hs.len(),
{
    if hs.len() == 0 {
        Seq::empty()
    } else if hs.len() == 1 {
        host_line(1, hs[0])
    } else {
        host_lines(hs.drop_last()) + "\n"@ + host_line(hs.len(), hs.last())
    }
}

/// Appends the line of a record.
fn push_host_line(s: &mut String, index: u64, h: &HostRequest)
    ensures
        final(s)@ == old(s)@ + host_line(index as nat, *h),
{
    let ghost before = s@;
    s.append("<Host HostId=\"");
    push_digits(s, index);
    s.append("\" Name=\"");
    s.append(h.host_name.as_str());
    s.append("\" Type=\"");
    s.append(h.record_type.as_str());
    s.append("\" Address=\"");
    s.append(h.address.as_str());
    s.append("\" TTL=\"");
    push_optional(s, &h.ttl);
    s.append("\" />");
    assert(s@ =~= before + host_line(index as nat, *h));
}

/// The body of a `domains.dns.setHosts` request.
pub open spec fn set_hosts_text(
    client: NameCheapClient,
    sld: Seq<char>,
    tld: Seq<char>,
    hosts: Seq<HostRequest>,
) -> Seq<char> {
    "<?xml version=\"1.0\" encoding=\"UTF-8\"?>\n<ApiRequest>\n  <Command>namecheap.domains.dns.setHosts</Command>\n  <ClientIp>"@
        + client.client_ip@ + "</ClientIp>\n  <UserName>"@ + client.user_name@
        + "</UserName>\n  <ApiUser>"@ + client.api_user@ + "</ApiUser>\n  <ApiKey>"@
        + client.api_key@ + "</ApiKey>\n  <SLD>"@ + sld + "</SLD>\n  <TLD>"@ + tld
        + "</TLD>\n  "@ + host_lines(hosts) + "\n</ApiRequest>\n"@
}

/// Writes the body of a `domains.dns.setHosts` request: the credentials, the
/// domain, and one `Host` line per record, numbered from 1.
pub fn set_hosts_body(
    client: &NameCheapClient,
    sld: &str,
    tld: &str,
    hosts: &Vec<HostRequest>,
) -> (r: String)
    ensures
        r@ == set_hosts_text(*client, sld@, tld@, hosts@),
{
    let mut s = String::new();
    s.append(
        "<?xml version=\"1.0\" encoding=\"UTF-8\"?>\n<ApiRequest>\n  <Command>namecheap.domains.dns.setHosts</Command>\n  <ClientIp>",
    );
    s.append(client.client_ip.as_str());
    s.append("</ClientIp>\n  <UserName>");
    s.append(client.user_name.as_str());
    s.append("</UserName>\n  <ApiUser>");
    s.append(client.api_user.as_str());
    s.append("</ApiUser>\n  <ApiKey>");
    s.append(client.api_key.as_str());
    s.append("</ApiKey>\n  <SLD>");
    s.append(sld);
    s.append("</SLD>\n  <TLD>");
    s.append(tld);
    s.append("</TLD>\n  ");
    let ghost head = s@;
    let mut i: usize = 0;
    assert(hosts@.take(0) =~= Seq::<HostRequest>::empty());
    assert(head + host_lines(hosts@.take(0)) =~= head);
    while i < hosts.len()
        invariant
            i <= hosts@.len(),
            s@ == head + host_lines(hosts@.take(i as int)),
        decreases hosts.len() - i,
    {
        let ghost prev = s@;
        if i > 0 {
            s.append("\n");
        }
        let ghost mid = s@;
        push_host_line(&mut s, (i as u64) + 1, &hosts[i]);
        let ghost taken = hosts@.take(i + 1);
        assert(taken.drop_last() =~= hosts@.take(i as int));
        assert(taken.last() == hosts@[i as int]);
        proof {
            if i == 0 {
                assert(mid == prev);
                assert(prev =~= head + Seq::<char>::empty());
                assert(s@ =~= head + host_lines(taken));
            } else {
                assert(mid == prev + "\n"@);
                assert(s@ =~= prev + "\n"@ + host_line((i + 1) as nat, hosts@[i as int]));
            }
        }
        i = i + 1;
    }
    assert(hosts@.take(hosts@.len() as int) =~= hosts@);
    s.append("\n</ApiRequest>\n");
    s
}

} // verus!
