//! Addresses and ports as texts.
use qvole::net::IpAddr;
use qvole::resolver::{
    dns_error, known_ip, lookup_port, lookup_result, parse_port, services_lookup, split_host_port,
    udp_target,
};

#[test]
fn test_split_host_port() {
    assert_eq!(
        split_host_port("127.0.0.1:8080").unwrap(),
        ("127.0.0.1".to_string(), "8080".to_string())
    );
    assert_eq!(
        split_host_port("[::1]:80").unwrap(),
        ("::1".to_string(), "80".to_string())
    );
    assert_eq!(
        split_host_port(":80").unwrap(),
        ("".to_string(), "80".to_string())
    );
    let cases = [
        ("x", "address x: missing port in address"),
        ("1.2.3.4", "address 1.2.3.4: missing port in address"),
        ("[::1]", "address [::1]: missing port in address"),
        ("a:b:c", "address a:b:c: too many colons in address"),
        ("[::1", "address [::1: missing ']' in address"),
        (
            "[foo]bar:baz",
            "address [foo]bar:baz: missing port in address",
        ),
        ("[foo:bar]", "address [foo:bar]: missing port in address"),
        (
            "[foo:bar]baz",
            "address [foo:bar]baz: missing port in address",
        ),
        (
            "foo[bar:baz",
            "address foo[bar:baz: unexpected '[' in address",
        ),
        (
            "foo]bar:baz",
            "address foo]bar:baz: unexpected ']' in address",
        ),
        ("a[b]:80", "address a[b]:80: unexpected '[' in address"),
    ];
    for (input, want) in cases {
        assert_eq!(split_host_port(input).unwrap_err(), want, "input {input:?}");
    }
}

#[test]
fn test_parse_port() {
    assert_eq!(parse_port("80"), Some(80));
    assert_eq!(parse_port("+80"), Some(80));
    assert_eq!(parse_port("0"), Some(0));
    assert_eq!(parse_port("65535"), Some(65535));
    assert_eq!(parse_port("99999"), Some(99999));
    assert_eq!(parse_port("-1"), Some(-1));
    assert!(parse_port("http").is_none());
    assert!(parse_port("8a").is_none());
    assert_eq!(parse_port(""), Some(0));
}

const SERVICES: &str = "\
# a services file
http\t\t80/tcp\t\twww
https\t\t443/tcp
https\t\t443/udp\t# HTTP/3
domain 53/udp nameserver
broken
odd 70000/udp
";

#[test]
fn test_services_lookup() {
    assert_eq!(services_lookup(SERVICES, "https"), Some(443));
    assert_eq!(services_lookup(SERVICES, "nosuchsvc99"), None);
}

#[test]
fn services_by_alias_and_protocol() {
    assert_eq!(services_lookup(SERVICES, "nameserver"), Some(53));
    assert_eq!(services_lookup(SERVICES, "http"), None, "tcp only");
    assert_eq!(services_lookup(SERVICES, "odd"), None, "no port");
    assert_eq!(services_lookup("", "https"), None);
}

#[test]
fn test_resolve_udp_addr_literal() {
    assert_eq!(udp_target("127.0.0.1:9009", None).unwrap(), ("127.0.0.1".to_string(), 9009));
    assert_eq!(udp_target("[::1]:80", None).unwrap(), ("::1".to_string(), 80));
    assert_eq!(udp_target(":9009", None).unwrap(), ("".to_string(), 9009));
    assert_eq!(udp_target("1.2.3.4:0", None).unwrap(), ("1.2.3.4".to_string(), 0));
}

#[test]
fn test_resolve_udp_addr_errors() {
    let err = |a: &str| udp_target(a, Some(SERVICES)).unwrap_err();
    assert_eq!(err("x"), "address x: missing port in address");
    assert_eq!(err("host:99999"), "address 99999: invalid port");
    assert_eq!(err("host:[bad"), "address host:[bad: unexpected '[' in address");
    assert_eq!(err("host:-1"), "address -1: invalid port");
    assert_eq!(err("host:nosuchsvc99"), "lookup udp/nosuchsvc99: unknown port");
    assert_eq!(udp_target("host:https", Some(SERVICES)).unwrap(), ("host".to_string(), 443));
}

#[test]
fn ports_without_a_services_file() {
    assert_eq!(lookup_port("53", None), Ok(53));
    assert!(lookup_port("domain", None).is_err());
    assert_eq!(lookup_port("domain", Some(SERVICES)), Ok(53));
}

#[test]
fn lookup_failures_are_worded() {
    let known = "failed to lookup address information: Name or service not known";
    assert_eq!(dns_error("h", known), "lookup h: no such host");
    let busy = "failed to lookup address information: Temporary failure in name resolution";
    assert_eq!(dns_error("h", busy), "lookup h: server misbehaving");
    assert_eq!(dns_error("h", "a: b: strange"), "lookup h: strange");
    assert_eq!(dns_error("h", "plain"), "lookup h: plain");
}

#[test]
fn hosts_that_need_no_lookup() {
    let ip = IpAddr::v4(192, 0, 2, 1);
    assert_eq!(known_ip("", None), Some(IpAddr::v4(0, 0, 0, 0)));
    assert_eq!(known_ip("192.0.2.1", Some(ip)), Some(ip));
    assert_eq!(known_ip("host.example", None), None);
}

#[test]
fn results_of_a_lookup() {
    let one = IpAddr::v4(192, 0, 2, 1);
    let two = IpAddr::v4(192, 0, 2, 2);
    assert_eq!(lookup_result("h", Ok(vec![two, one])), Ok(two));
    assert_eq!(lookup_result("h", Ok(vec![])), Err("lookup h: no such host".to_string()));
    let e = "failed to lookup address information: Temporary failure in name resolution";
    assert_eq!(
        lookup_result("h", Err(e.to_string())),
        Err("lookup h: server misbehaving".to_string())
    );
}
