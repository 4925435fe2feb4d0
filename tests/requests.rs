use namecheap::request_builder::Request;
use namecheap::responses::{
    combine_hosts, contact_details, dns_hosts, dns_servers, domain_listing, list_page,
    set_hosts_body, set_hosts_result, tld_list,
};
use namecheap::node::Node;
use namecheap::xml_parser::parse_xml_to_json;
use namecheap::{HostRequest, NameCheapClient, NAMECHEAP_API_URL, NAMECHEAP_SANDBOX_API_URL};

fn client(production: bool) -> NameCheapClient {
    NameCheapClient::new("user".to_string(), "key".to_string(), "1.2.3.4".to_string(), "name".to_string(), production)
}

fn leaf(s: &str) -> Node {
    Node::Object(vec![("$text".to_string(), Node::Scalar(s.to_string()))])
}

#[test]
fn client_picks_its_environment() {
    let c = client(true);
    assert_eq!(c.api_url.as_deref(), Some(NAMECHEAP_API_URL));
    assert_eq!(c.api_user, "user");
    assert_eq!(c.user_name, "name");
    assert_eq!(client(false).api_url.as_deref(), Some(NAMECHEAP_SANDBOX_API_URL));
}

#[test]
fn url_has_credentials_and_command() {
    let r = Request::new(client(false), "namecheap.domains.getTldList".to_string(), None, None);
    assert_eq!(
        r.build_url(),
        "https://api.sandbox.namecheap.com/xml.response?ApiUser=user&ApiKey=key&UserName=name&Command=namecheap.domains.getTldList&ClientIp=1.2.3.4"
    );
}

#[test]
fn url_has_each_parameter_that_is_set() {
    let r = Request::new(client(true), "c".to_string(), Some(3), Some("xylex.ai".to_string()))
        .with_domain_id(-12)
        .with_sld_tld("xylex".to_string(), "ai".to_string());
    assert_eq!(
        r.build_url(),
        "https://api.namecheap.com/xml.response?ApiUser=user&ApiKey=key&UserName=name&Command=c&ClientIp=1.2.3.4&Page=3&DomainName=xylex.ai&DomainID=-12&SLD=xylex&TLD=ai"
    );
    let r = Request::new(client(true), "c".to_string(), None, None).with_domain_name("d.com".to_string());
    assert_eq!(r.domain_name.as_deref(), Some("d.com"));
    assert!(r.build_url().ends_with("&ClientIp=1.2.3.4&DomainName=d.com"));
}

#[test]
fn page_is_at_least_one() {
    assert_eq!(list_page(0), 1);
    assert_eq!(list_page(-5), 1);
    assert_eq!(list_page(4), 4);
}

#[test]
fn host_request_keeps_its_fields() {
    let h = HostRequest::new("@".to_string(), "A".to_string(), "1.1.1.1".to_string(), None, None, Some("60".to_string()), None, None);
    assert_eq!(h.host_name, "@");
    assert_eq!(h.ttl.as_deref(), Some("60"));
}

const LIST: &str = "<ApiResponse Status=\"OK\"><CommandResponse Type=\"namecheap.domains.getList\"><DomainGetListResult><Domain ID=\"11\" Name=\"a.com\" User=\"u\" Created=\"01/01/2024\" Expires=\"01/01/2025\" IsExpired=\"false\" IsLocked=\"true\" AutoRenew=\"false\" WhoisGuard=\"ENABLED\" IsPremium=\"false\" IsOurDNS=\"true\"/><Domain ID=\"x\" Name=\"b.com\" WhoisGuard=\"NOTPRESENT\"/></DomainGetListResult><Paging><TotalItems>45</TotalItems><CurrentPage>2</CurrentPage><PageSize>20</PageSize></Paging></CommandResponse></ApiResponse>";

#[test]
fn listing_reads_each_domain_and_the_pages() {
    let tree = parse_xml_to_json(LIST).unwrap();
    let listing = domain_listing(&tree);
    assert_eq!(listing.current_page, 2);
    assert_eq!(listing.total_pages, 3);
    assert_eq!(listing.domains.len(), 2);
    let a = &listing.domains[0];
    assert_eq!(a.id, 11);
    assert_eq!(a.name, "a.com");
    assert_eq!(a.created, "01/01/2024");
    assert!(a.is_locked && a.whois_guard && a.is_our_dns);
    assert!(!a.is_expired && !a.auto_renew && !a.is_premium);
    let b = &listing.domains[1];
    assert_eq!(b.id, 0);
    assert_eq!(b.user, "");
    assert!(!b.whois_guard);
}

#[test]
fn listing_of_a_lone_domain_and_of_none_is_empty() {
    let one = parse_xml_to_json("<ApiResponse><CommandResponse><DomainGetListResult><Domain Name=\"only.com\"/></DomainGetListResult><Paging><TotalItems>1</TotalItems></Paging></CommandResponse></ApiResponse>").unwrap();
    let listing = domain_listing(&one);
    assert!(listing.domains.is_empty());
    assert_eq!((listing.current_page, listing.total_pages), (1, 1));
    let none = parse_xml_to_json("<ApiResponse><Errors/></ApiResponse>").unwrap();
    let listing = domain_listing(&none);
    assert!(listing.domains.is_empty());
    assert_eq!((listing.current_page, listing.total_pages), (1, 1));
}

#[test]
fn contacts_are_read_by_kind() {
    let doc = "<ApiResponse><CommandResponse><DomainContactsResult Domain=\"xylex.ai\" domainnameid=\"77\"><Registrant ReadOnly=\"true\"><FirstName>Ann</FirstName><City>Oslo</City></Registrant><Tech><FirstName>Tom</FirstName></Tech><WhoisGuardContact><Admin><EmailAddress>a@b.c</EmailAddress></Admin></WhoisGuardContact></DomainContactsResult></CommandResponse></ApiResponse>";
    let tree = parse_xml_to_json(doc).unwrap();
    let d = contact_details(&tree).unwrap();
    assert_eq!(d.domain, "xylex.ai");
    assert_eq!(d.domain_id, "77");
    let r = d.contacts.registrant.unwrap();
    assert_eq!(r.type_, "Registrant");
    assert_eq!(r.first_name, "Ann");
    assert_eq!(r.city, "Oslo");
    assert_eq!(r.last_name, "");
    assert!(r.read_only);
    assert_eq!(d.contacts.tech.unwrap().first_name, "Tom");
    assert!(d.contacts.admin.is_none() && d.contacts.aux_billing.is_none());
    let w = d.whois_guard_contacts.unwrap();
    assert_eq!(w.admin.unwrap().email_address, "a@b.c");
    assert!(w.registrant.is_none());
    assert!(contact_details(&parse_xml_to_json("<ApiResponse/>").unwrap()).is_none());
}

#[test]
fn paths_into_responses() {
    let tree = parse_xml_to_json("<ApiResponse><CommandResponse><Tlds><Tld Name=\"com\"/><Tld Name=\"ai\"/></Tlds><DomainDNSGetListResult><Nameserver>dns1.registrar-servers.com</Nameserver><Nameserver>dns2.registrar-servers.com</Nameserver></DomainDNSGetListResult><DomainDNSGetHostsResult><host Name=\"@\" Type=\"A\" Address=\"1.2.3.4\" TTL=\"1800\"/></DomainDNSGetHostsResult><DomainDNSSetHostsResult IsSuccess=\"true\"/></CommandResponse></ApiResponse>").unwrap();
    assert!(matches!(tld_list(&tree), Some(Node::Array(items)) if items.len() == 2));
    assert_eq!(
        dns_servers(&tree),
        Some(&Node::Array(vec![leaf("dns1.registrar-servers.com"), leaf("dns2.registrar-servers.com")]))
    );
    assert!(matches!(dns_hosts(&tree), Some(Node::Object(_))));
    assert!(combine_hosts(dns_hosts(&tree), vec![]).is_empty());
    let result = set_hosts_result(&tree).unwrap();
    assert_eq!(result.get("is_success"), Some(&Node::Scalar("true".to_string())));
}

#[test]
fn set_hosts_body_lists_every_record() {
    let existing = parse_xml_to_json("<r><host HostName=\"@\" RecordType=\"A\" Address=\"1.2.3.4\" TTL=\"1800\"/><host Name=\"mail\" Type=\"MX\" Address=\"m.x\" MXPref=\"10\"/></r>").unwrap();
    let new_host = HostRequest::new("www".to_string(), "CNAME".to_string(), "example.com.".to_string(), None, None, Some("1200".to_string()), None, None);
    let hosts = combine_hosts(existing.get("r").unwrap().get("host"), vec![new_host.clone()]);
    assert_eq!(hosts.len(), 3);
    assert_eq!(hosts[0].host_name, "");
    assert_eq!(hosts[0].address, "");
    assert_eq!(hosts[1].host_name, "");
    assert_eq!(hosts[1].address, "");
    assert_eq!(hosts[2], new_host);
    let direct = Node::Object(vec![
        ("HostName".to_string(), Node::Scalar("@".to_string())),
        ("RecordType".to_string(), Node::Scalar("A".to_string())),
        ("Address".to_string(), Node::Scalar("1.2.3.4".to_string())),
        ("TTL".to_string(), leaf("1800")),
        ("MXPref".to_string(), Node::Scalar("10".to_string())),
    ]);
    let from_keys = combine_hosts(Some(&Node::Array(vec![direct])), vec![]);
    assert_eq!(from_keys[0].host_name, "@");
    assert_eq!(from_keys[0].record_type, "A");
    assert_eq!(from_keys[0].ttl.as_deref(), Some("1800"));
    assert_eq!(from_keys[0].mx_pref.as_deref(), Some("10"));
    let body = set_hosts_body(&client(false), "xylex", "ai", &hosts);
    assert_eq!(
        body,
        "<?xml version=\"1.0\" encoding=\"UTF-8\"?>\n<ApiRequest>\n  <Command>namecheap.domains.dns.setHosts</Command>\n  <ClientIp>1.2.3.4</ClientIp>\n  <UserName>name</UserName>\n  <ApiUser>user</ApiUser>\n  <ApiKey>key</ApiKey>\n  <SLD>xylex</SLD>\n  <TLD>ai</TLD>\n  <Host HostId=\"1\" Name=\"\" Type=\"\" Address=\"\" TTL=\"\" />\n<Host HostId=\"2\" Name=\"\" Type=\"\" Address=\"\" TTL=\"\" />\n<Host HostId=\"3\" Name=\"www\" Type=\"CNAME\" Address=\"example.com.\" TTL=\"1200\" />\n</ApiRequest>\n"
    );
    assert_eq!(combine_hosts(None, vec![]).len(), 0);
}
