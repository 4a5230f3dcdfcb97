//! What a peer is allowed.
use qvole::net::IpAddr;
use qvole::tunnel_allow::{build_forward_rules, known_ips, split_host_port, TunnelAllow};

#[test]
fn tunnel_allow_accepts() {
    let empty = TunnelAllow::default();
    assert!(
        !empty.accepts(),
        "empty allowlist should not accept anything"
    );

    let listen_only = TunnelAllow {
        all: false,
        listen: vec!["127.0.0.1:2222".into()],
        forward: vec![],
        forward_rules: vec![],
    };
    assert!(
        listen_only.accepts(),
        "listen entry should make allowlist accept"
    );

    let forward_only = TunnelAllow {
        all: false,
        listen: vec![],
        forward: vec!["localhost:80".into()],
        forward_rules: vec![],
    };
    assert!(
        forward_only.accepts(),
        "forward entry should make allowlist accept"
    );

    let all = TunnelAllow { all: true, ..Default::default() };
    assert!(all.accepts(), "All should make allowlist accept");
}

#[test]
fn tunnel_allow_validate() {
    let valid = [
        TunnelAllow::default(),
        TunnelAllow {
            all: false,
            listen: vec!["127.0.0.1:2222".into()],
            forward: vec![],
            forward_rules: vec![],
        },
        TunnelAllow {
            all: false,
            listen: vec![":8081".into()],
            forward: vec![],
            forward_rules: vec![],
        },
        TunnelAllow {
            all: false,
            listen: vec![],
            forward: vec!["localhost:80".into()],
            forward_rules: vec![],
        },
        TunnelAllow {
            all: false,
            listen: vec![],
            forward: vec!["[::1]:80".into()],
            forward_rules: vec![],
        },
    ];
    for a in &valid {
        assert!(a.validate().is_ok(), "Validate({a:?}) should pass");
    }

    let invalid = [
        TunnelAllow {
            all: false,
            listen: vec!["8081".into()],
            forward: vec![],
            forward_rules: vec![],
        },
        TunnelAllow {
            all: false,
            listen: vec!["localhost".into()],
            forward: vec![],
            forward_rules: vec![],
        },
        TunnelAllow {
            all: false,
            listen: vec!["localhost:".into()],
            forward: vec![],
            forward_rules: vec![],
        },
        TunnelAllow {
            all: false,
            listen: vec![],
            forward: vec!["host:port:extra".into()],
            forward_rules: vec![],
        },
        TunnelAllow {
            all: false,
            listen: vec![],
            forward: vec!["127.0.0.1:80".into(), "nonsense".into()],
            forward_rules: vec![],
        },
    ];
    for a in &invalid {
        assert!(a.validate().is_err(), "Validate({a:?}) should fail");
    }

    let err = TunnelAllow {
        all: false,
        listen: vec!["8081".into()],
        forward: vec!["bad".into()],
        forward_rules: vec![],
    }
    .validate()
    .unwrap_err();
    assert!(err.contains("-aL"), "error should name -aL: {err}");
    assert!(err.contains("-aF"), "error should name -aF: {err}");
}

#[test]
fn tunnel_allow_allows_listen() {
    let a = TunnelAllow {
        all: false,
        listen: vec!["127.0.0.1:2222".into(), ":8081".into()],
        forward: vec![],
        forward_rules: vec![],
    };

    let cases = [
        ("127.0.0.1:2222", true),
        ("127.0.0.1:8081", true), // wildcard host entry
        ("0.0.0.0:8081", true),   // wildcard host entry
        ("127.0.0.2:2222", false),
        ("0.0.0.0:2222", false),
        ("127.0.0.1:2223", false),
        ("127.0.0.1", false), // no port
        ("", false),
    ];
    for (addr, want) in cases {
        assert_eq!(
            a.allows_listen(addr),
            want,
            "AllowsListen({addr:?}) != {want}"
        );
    }

    assert!(
        !TunnelAllow::default().allows_listen("127.0.0.1:2222"),
        "empty allowlist must not allow any listen address"
    );
    assert!(
        TunnelAllow { all: true, ..Default::default() }
        .allows_listen("0.0.0.0:1"),
        "All must allow any listen address"
    );
}

#[test]
fn tunnel_allow_allows_forward() {
    let a = TunnelAllow {
        all: false,
        listen: vec![],
        forward: vec!["localhost:80".into(), "[::1]:443".into()],
        forward_rules: vec![],
    };

    let cases = [
        ("localhost:80", true),
        ("LOCALHOST:80", true), // case-insensitive host
        ("127.0.0.1:80", false),
        ("localhost:8080", false),
        ("[::1]:443", true),
        ("::1:443", false), // unbracketed IPv6 is not a valid host:port
        ("[::1]:444", false),
    ];
    for (addr, want) in cases {
        assert_eq!(
            a.allows_forward(addr),
            want,
            "AllowsForward({addr:?}) != {want}"
        );
    }

    assert!(
        !TunnelAllow::default().allows_forward("localhost:80"),
        "empty allowlist must not allow any forward target"
    );
    assert!(
        TunnelAllow { all: true, ..Default::default() }
        .allows_forward("10.0.0.5:22"),
        "All must allow any forward target"
    );
}

#[test]
fn split_host_port_cases() {
    assert_eq!(
        split_host_port("localhost:80"),
        Some(("localhost".into(), "80".into()))
    );
    assert_eq!(split_host_port(":8081"), Some(("".into(), "8081".into())));
    assert_eq!(
        split_host_port("localhost:"),
        Some(("localhost".into(), "".into()))
    );
    assert_eq!(
        split_host_port("[::1]:80"),
        Some(("::1".into(), "80".into()))
    );
    assert_eq!(split_host_port("8081"), None, "missing port");
    assert_eq!(split_host_port(""), None, "empty address");
    assert_eq!(split_host_port("host:port:extra"), None, "too many colons");
    assert_eq!(split_host_port("[::1"), None, "missing ']'");
    assert_eq!(split_host_port("[::1]"), None, "missing port after ']'");
}

/// The rules of `a`, with every host resolved to `ips`.
fn forward_ips(a: &TunnelAllow, addr: &str, target: &[IpAddr], ips: &[IpAddr]) -> (Vec<IpAddr>, String, bool) {
    let resolved: Vec<Vec<IpAddr>> = a.forward.iter().map(|_| ips.to_vec()).collect();
    a.forward_ips(addr, &target.to_vec(), &resolved)
}

#[test]
fn tunnel_allow_forward_ips() {
    let a = TunnelAllow {
        all: false,
        listen: vec![],
        forward: vec!["192.0.2.5:8080".into()],
        forward_rules: vec![],
    };
    let five = IpAddr::v4(192, 0, 2, 5);
    let six = IpAddr::v4(192, 0, 2, 6);
    let (ips, port, ok) = forward_ips(&a, "192.0.2.5:8080", &[five], &[five]);
    assert!(ok, "exact match must be allowed");
    assert_eq!(port, "8080");
    assert_eq!(ips, vec![five]);

    let (_, _, ok) = forward_ips(&a, "192.0.2.6:8080", &[six], &[five]);
    assert!(!ok, "must reject a target host not in the allowlist");

    let (_, _, ok) = forward_ips(&a, "192.0.2.5:8081", &[five], &[five]);
    assert!(!ok, "must reject a target port not in the allowlist");

    let (_, _, ok) = forward_ips(&TunnelAllow::default(), "192.0.2.5:8080", &[five], &[]);
    assert!(!ok, "empty allowlist must not allow any forward target");
}

#[test]
fn tunnel_allow_forward_ips_wildcard_and_all() {
    let wc = TunnelAllow {
        all: false,
        listen: vec![],
        forward: vec![":8080".into()],
        forward_rules: vec![],
    };
    let nine = IpAddr::v4(192, 0, 2, 9);
    let (_, _, ok) = forward_ips(&wc, "192.0.2.9:8080", &[nine], &[]);
    assert!(ok, "wildcard :port should allow any host on that port");

    let (_, _, ok) = forward_ips(&wc, "192.0.2.9:8081", &[nine], &[]);
    assert!(!ok, "wildcard :port must reject other ports");

    let all = TunnelAllow { all: true, ..Default::default() };
    let eight = IpAddr::v4(8, 8, 8, 8);
    let (ips, port, ok) = forward_ips(&all, "8.8.8.8:53", &[eight], &[]);
    assert!(ok, "All must allow any forward target");
    assert_eq!(port, "53");
    assert_eq!(ips, vec![eight]);
}

#[test]
fn tunnel_allow_resolve_alias() {
    let mut a = TunnelAllow {
        all: false,
        listen: vec![],
        forward: vec!["127.0.0.1:8080".into()],
        forward_rules: vec![],
    };
    let local = IpAddr::v4(127, 0, 0, 1);
    a.resolve(&vec![vec![local]]);
    let (ips, port, ok) = a.forward_ips("localhost:8080", &vec![local], &vec![]);
    assert!(ok);
    assert_eq!(port, "8080");
    assert!(ips.contains(&local));
}

#[test]
fn entries_are_resolved_one_by_one() {
    let one = IpAddr::v4(192, 0, 2, 1);
    let two = IpAddr::v4(192, 0, 2, 2);
    let three = IpAddr::v4(192, 0, 2, 3);
    let mut a = TunnelAllow {
        forward: vec!["one.example:80".into(), "two.example:81".into(), ":82".into()],
        ..Default::default()
    };
    let entries = vec![vec![one], vec![two, three], vec![]];
    let rules = build_forward_rules(&a.forward, &entries);
    let rules: Vec<(&str, Option<IpAddr>)> = rules.iter().map(|r| (r.port.as_str(), r.ip)).collect();
    assert_eq!(rules, vec![("80", Some(one)), ("81", Some(two)), ("81", Some(three)), ("82", None)]);
    assert!(a.unresolved());
    for resolved in [false, true] {
        if resolved {
            a.resolve(&entries);
            assert!(!a.unresolved());
        }
        // An address that one entry resolved to is not reached by the port of
        // another.
        let all = vec![three, one, two];
        assert_eq!(a.forward_ips("x:80", &all, &entries).0, vec![one]);
        assert_eq!(a.forward_ips("x:81", &all, &entries).0, vec![three, two]);
        assert_eq!(a.forward_ips("x:82", &all, &entries).0, all);
        assert!(!a.forward_ips("x:83", &all, &entries).2);
    }
}

#[test]
fn hosts_match_in_any_case() {
    let a = TunnelAllow {
        listen: vec!["LocalHost:80".into(), "BÜRO:80".into()],
        ..Default::default()
    };
    assert!(a.allows_listen("lOCALhOST:80"));
    assert!(a.allows_listen("büro:80"));
    assert!(!a.allows_listen("local_host:80"));
    assert!(!a.allows_listen("localhost:81"));
}

#[test]
fn unresolved_target_is_refused() {
    let all = TunnelAllow { all: true, ..Default::default() };
    let (ips, port, ok) = all.forward_ips("nosuch.invalid:80", &vec![], &vec![]);
    assert!(ips.is_empty() && port.is_empty() && !ok);
    let (_, _, ok) = all.forward_ips("no-port", &vec![IpAddr::v4(1, 2, 3, 4)], &vec![]);
    assert!(!ok);
}

#[test]
fn validate_names_every_bad_entry() {
    let a = TunnelAllow {
        all: false,
        listen: vec!["8081".into(), "127.0.0.1:1".into()],
        forward: vec!["bad".into()],
        forward_rules: vec![],
    };
    assert_eq!(
        a.validate().unwrap_err(),
        "invalid tunnel allowlist entries (expected addr:port): -aL \"8081\", -aF \"bad\""
    );
}

#[test]
fn hosts_that_are_addresses() {
    let ip = IpAddr::v4(10, 0, 0, 1);
    assert_eq!(known_ips("10.0.0.1", Some(ip)), Some(vec![ip]));
    assert_eq!(known_ips("10.0.0.01", Some(ip)), None, "not written in full");
    assert_eq!(known_ips("::1", Some(IpAddr::V6(1))), Some(vec![IpAddr::V6(1)]));
    assert_eq!(known_ips("", None), Some(vec![]));
    assert_eq!(known_ips("host.example", None), None);
}
