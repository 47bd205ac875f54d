use floppa_net::cli::{
    is_vless, needs_peer_list, select_peer_ids, CleanupKind, CleanupTunnel, PeerInfo,
    SelectError,
};
use floppa_net::dns::{
    dns_servers_from, resolv_conf, restore_dns, set_dns, write_dns, DnsPlan, ResolvEnv,
    RestorePlan,
};
use floppa_net::net::{
    contains_colon, get_default_gateway, is_ipv6_text, ip_args, ip_command3, ip_command5, owned,
    route_exists, run_ip, run_ip_quiet, IpError, IpOutcome, NetworkState, VerifyError,
};
use floppa_net::text::{is_whitespace, split_char, split_words, starts_with, trim_str};
use floppa_net::vless;

fn strings(v: &[&str]) -> Vec<String> {
    v.iter().map(|s| s.to_string()).collect()
}

fn outcome(success: bool, stdout: &str, stderr: &str) -> IpOutcome {
    IpOutcome {
        success,
        stdout: stdout.as_bytes().to_vec(),
        stderr: stderr.as_bytes().to_vec(),
    }
}

// ---- text ----

#[test]
fn whitespace_matches_std() {
    for c in ['a', ' ', '\t', '\n', '\u{a0}', '\u{2028}', '\u{3000}', '\u{200b}', 'x', '\u{85}'] {
        assert_eq!(is_whitespace(c), c.is_whitespace(), "{c:?}");
    }
}

#[test]
fn trim_matches_std() {
    for s in ["  hello \n", "", "   ", "a b", "\u{a0}x\u{3000}", "vless://x  "] {
        assert_eq!(trim_str(s), s.trim());
    }
}

#[test]
fn split_keeps_empty_pieces() {
    assert_eq!(split_char("a,,b,", ','), strings(&["a", "", "b", ""]));
    assert_eq!(split_char("", ','), strings(&[""]));
    assert_eq!(split_char("1.2.3.4:443", ':'), strings(&["1.2.3.4", "443"]));
}

#[test]
fn words_match_split_whitespace() {
    for s in ["default via 10.0.0.1 dev eth0", "  a  b\tc\n", "", "   ", "one"] {
        let expected: Vec<String> = s.split_whitespace().map(|w| w.to_string()).collect();
        assert_eq!(split_words(s), expected);
    }
}

#[test]
fn prefix_check() {
    assert!(starts_with("vless://abc", "vless://"));
    assert!(!starts_with("vles", "vless://"));
    assert!(starts_with("x", ""));
}

// ---- ip arguments and outcomes ----

#[test]
fn ip_args_adds_v6_flag_for_ipv6_route() {
    let args = strings(&["route", "del", "::/1", "dev", "floppa"]);
    assert_eq!(ip_args(args), strings(&["-6", "route", "del", "::/1", "dev", "floppa"]));
}

#[test]
fn ip_args_leaves_ipv4_route_alone() {
    let args = strings(&["route", "del", "10.0.0.0/8", "dev", "floppa"]);
    assert_eq!(ip_args(args.clone()), args);
    assert_eq!(ip_args(Vec::new()), Vec::<String>::new());
}

#[test]
fn colon_detection() {
    assert!(contains_colon("fd00::1/64"));
    assert!(contains_colon("2001:db8:1:2:3:4:5:6"));
    assert!(!contains_colon("10.0.0.1/32"));
    assert!(!contains_colon(""));
    assert!(is_ipv6_text("2001:db8:1:2:3:4:5:6/128"));
    assert!(is_ipv6_text("::/1"));
    assert!(is_ipv6_text("::ffff:10.0.0.1"));
    assert!(!is_ipv6_text("eth0:1"));
    assert!(!is_ipv6_text("10.0.0.0/8"));
}

#[test]
fn ip_args_ignores_interface_aliases() {
    let args = strings(&["link", "del", "eth0:1"]);
    assert_eq!(ip_args(args.clone()), args);
    let args = strings(&["addr", "add", "dead:beef", "dev", "x"]);
    assert_eq!(ip_args(args.clone()), args);
}

#[test]
fn ip_args_keeps_v6_flag_for_scoped_addresses() {
    let args = strings(&["route", "show", "fe80::1%eth0"]);
    assert_eq!(ip_args(args), strings(&["-6", "route", "show", "fe80::1%eth0"]));
}

#[test]
fn ip_args_adds_v6_flag_for_full_ipv6_address() {
    let args = strings(&["route", "add", "2001:db8:1:2:3:4:5:6/128", "dev", "floppa"]);
    assert_eq!(
        ip_args(args),
        strings(&["-6", "route", "add", "2001:db8:1:2:3:4:5:6/128", "dev", "floppa"])
    );
}

#[test]
fn ip_commands_build_words() {
    assert_eq!(ip_command3("link", "del", "wg0"), strings(&["link", "del", "wg0"]));
    assert_eq!(
        ip_command5("route", "show", "2001:db8::/32", "dev", "wg0"),
        strings(&["-6", "route", "show", "2001:db8::/32", "dev", "wg0"])
    );
    assert_eq!(owned(&["a", "b"]), strings(&["a", "b"]));
}

#[test]
fn run_ip_verdicts() {
    let args = strings(&["route", "replace", "0.0.0.0/1", "dev", "floppa"]);
    assert!(run_ip(&args, Ok(outcome(true, "", ""))).is_ok());
    match run_ip(&args, Ok(outcome(false, "", "RTNETLINK answers: File exists\n"))) {
        Err(IpError::Failed { args: a, stderr }) => {
            assert_eq!(a, args);
            assert_eq!(stderr, b"RTNETLINK answers: File exists\n".to_vec());
        }
        _ => panic!("expected a failure"),
    }
    match run_ip(&args, Err("No such file or directory".to_string())) {
        Err(IpError::Spawn { reason }) => assert_eq!(reason, "No such file or directory"),
        _ => panic!("expected a spawn error"),
    }
}

#[test]
fn quiet_runs_and_existence() {
    assert!(run_ip_quiet(&Ok(outcome(true, "", ""))));
    assert!(!run_ip_quiet(&Ok(outcome(false, "", "err"))));
    assert!(!run_ip_quiet(&Err("x".to_string())));
    assert!(route_exists(&Ok(outcome(true, "0.0.0.0/1 dev floppa scope link\n", ""))));
    assert!(!route_exists(&Ok(outcome(true, "", ""))));
    assert!(!route_exists(&Ok(outcome(false, "x", ""))));
    assert!(!route_exists(&Err("x".to_string())));
}

#[test]
fn default_gateway_is_word_after_via() {
    assert_eq!(
        get_default_gateway("default via 192.168.1.1 dev wlan0 proto dhcp metric 600\n"),
        Some("192.168.1.1".to_string())
    );
    assert_eq!(get_default_gateway("default dev ppp0 scope link"), None);
    assert_eq!(get_default_gateway("default via"), None);
    assert_eq!(get_default_gateway(""), None);
    assert_eq!(
        get_default_gateway("default via 10.0.0.1 dev a\ndefault via 10.0.0.2 dev b"),
        Some("10.0.0.1".to_string())
    );
}

fn wg_state() -> NetworkState {
    NetworkState {
        interface: "floppa".to_string(),
        endpoint_route: Some("203.0.113.5/32".to_string()),
        endpoint_gateway: Some("192.168.1.1".to_string()),
        added_routes: strings(&["0.0.0.0/1", "::/1"]),
    }
}

#[test]
fn wireguard_cleanup_removes_everything_recorded() {
    let cmds = floppa_net::net::cleanup_networking(&wg_state());
    assert_eq!(
        cmds,
        vec![
            strings(&["route", "del", "203.0.113.5/32", "via", "192.168.1.1"]),
            strings(&["route", "del", "0.0.0.0/1", "dev", "floppa"]),
            strings(&["-6", "route", "del", "::/1", "dev", "floppa"]),
            strings(&["link", "del", "floppa"]),
            strings(&["link", "del", "floppa0"]),
        ]
    );
}

#[test]
fn wireguard_cleanup_without_endpoint_route() {
    let mut state = wg_state();
    state.endpoint_gateway = None;
    state.added_routes.clear();
    let cmds = floppa_net::net::cleanup_networking(&state);
    assert_eq!(
        cmds,
        vec![strings(&["link", "del", "floppa"]), strings(&["link", "del", "floppa0"])]
    );
    state.interface = "floppa0".to_string();
    let cmds = floppa_net::net::cleanup_networking(&state);
    assert_eq!(cmds, vec![strings(&["link", "del", "floppa0"])]);
}

#[test]
fn wireguard_verification_checks() {
    let probes = floppa_net::net::verify_networking(&wg_state());
    let args: Vec<Vec<String>> = probes.iter().map(|p| p.args.clone()).collect();
    assert_eq!(
        args,
        vec![
            strings(&["link", "show", "floppa"]),
            strings(&["route", "show", "203.0.113.5/32"]),
            strings(&["route", "show", "0.0.0.0/1"]),
            strings(&["-6", "route", "show", "::/1"]),
        ]
    );
    assert!(matches!(&probes[0].missing, VerifyError::InterfaceDown { interface } if interface == "floppa"));
    assert!(matches!(&probes[1].missing,
        VerifyError::EndpointRouteMissing { route, gateway } if route == "203.0.113.5/32" && gateway == "192.168.1.1"));
    assert!(matches!(&probes[3].missing,
        VerifyError::RouteMissing { route, interface } if route == "::/1" && interface == "floppa"));
}

// ---- VLESS ----

fn settings(allowed: Option<&str>) -> vless::VlessSettings {
    vless::VlessSettings {
        server_addr: "203.0.113.5:443".to_string(),
        server_name: "example.com".to_string(),
        address: None,
        dns: None,
        mtu: None,
        allowed_ips: allowed.map(|s| s.to_string()),
    }
}

#[test]
fn vpn_defaults_fill_missing_values() {
    let c = vless::with_vpn_defaults(settings(None));
    assert_eq!(c.address.as_deref(), Some("10.0.0.2"));
    assert_eq!(c.dns.as_deref(), Some("1.1.1.1"));
    assert_eq!(c.mtu, Some(1500));
    assert_eq!(c.allowed_ips.as_deref(), Some("0.0.0.0/0, ::/0"));
    assert_eq!(c.server_addr, "203.0.113.5:443");
}

#[test]
fn vpn_defaults_keep_given_values() {
    let mut s = settings(Some("10.8.0.0/24"));
    s.address = Some("10.9.0.7".to_string());
    s.dns = Some("9.9.9.9".to_string());
    s.mtu = Some(1280);
    let c = vless::with_vpn_defaults(s);
    assert_eq!(c.address.as_deref(), Some("10.9.0.7"));
    assert_eq!(c.dns.as_deref(), Some("9.9.9.9"));
    assert_eq!(c.mtu, Some(1280));
    assert_eq!(c.allowed_ips.as_deref(), Some("10.8.0.0/24"));
    let again = vless::with_vpn_defaults(c.clone());
    assert_eq!(again.address, c.address);
}

#[test]
fn endpoint_host_drops_port() {
    assert_eq!(vless::endpoint_host("203.0.113.5:443"), "203.0.113.5");
    assert_eq!(vless::endpoint_host("vpn.example.com"), "vpn.example.com");
    assert_eq!(vless::endpoint_host(""), "");
}

#[test]
fn allowed_ips_parse_through_ipnetwork() {
    let nets = vless::parse_allowed_ips("0.0.0.0/0, ::/0");
    assert_eq!(nets.len(), 2);
    assert!(nets[0].is_ipv4 && nets[0].prefix == 0 && nets[0].text == "0.0.0.0/0");
    assert!(!nets[1].is_ipv4 && nets[1].prefix == 0 && nets[1].text == "::/0");
}

#[test]
fn allowed_ips_skip_garbage_and_canonicalise() {
    let nets = vless::parse_allowed_ips(" 10.0.0.1 ,bogus,, fd00::1/64");
    assert_eq!(nets.len(), 2);
    assert_eq!(nets[0].text, "10.0.0.1/32");
    assert_eq!(nets[0].prefix, 32);
    assert!(nets[0].is_ipv4);
    assert_eq!(nets[1].text, "fd00::1/64");
    assert!(!nets[1].is_ipv4);
}

fn step_args(plan: &vless::NetworkPlan) -> Vec<(Vec<String>, bool)> {
    plan.steps.iter().map(|s| (s.args.clone(), s.fatal)).collect()
}

#[test]
fn configure_plan_with_gateway_and_defaults() {
    let cfg = settings(None);
    let plan = vless::configure_networking(&cfg, "floppa", "203.0.113.5", Some("192.168.1.1".to_string()));
    assert_eq!(
        step_args(&plan),
        vec![
            (strings(&["route", "replace", "203.0.113.5/32", "via", "192.168.1.1"]), true),
            (strings(&["route", "replace", "0.0.0.0/1", "dev", "floppa"]), true),
            (strings(&["route", "replace", "128.0.0.0/1", "dev", "floppa"]), true),
            (strings(&["route", "replace", "::/1", "dev", "floppa"]), false),
            (strings(&["route", "replace", "8000::/1", "dev", "floppa"]), false),
        ]
    );
    assert_eq!(plan.state.interface, "floppa");
    assert_eq!(plan.state.endpoint_route.as_deref(), Some("203.0.113.5/32"));
    assert_eq!(plan.state.endpoint_gateway.as_deref(), Some("192.168.1.1"));
}

#[test]
fn configure_plan_without_gateway_and_specific_network() {
    let cfg = settings(Some("10.8.0.0/24"));
    let plan = vless::configure_networking(&cfg, "tun9", "198.51.100.1", None);
    assert_eq!(
        step_args(&plan),
        vec![(strings(&["route", "replace", "10.8.0.0/24", "dev", "tun9"]), true)]
    );
    assert_eq!(plan.state.endpoint_route, None);
    assert_eq!(plan.state.endpoint_gateway, None);
}

#[test]
fn ipv6_endpoint_gets_host_route() {
    let cfg = settings(None);
    let plan = vless::configure_networking(&cfg, "floppa", "2001:db8::1", Some("fe80::1".to_string()));
    assert_eq!(
        plan.steps[0].args,
        strings(&["route", "replace", "2001:db8::1/128", "via", "fe80::1"])
    );
    assert_eq!(plan.state.endpoint_route.as_deref(), Some("2001:db8::1/128"));
}

#[test]
fn step_verdicts() {
    let plan = vless::configure_networking(&settings(None), "floppa", "203.0.113.5", None);
    let fatal = &plan.steps[0];
    let tolerated = &plan.steps[2];
    assert!(fatal.fatal && !tolerated.fatal);
    assert!(matches!(vless::step_verdict(fatal, Ok(())), vless::StepVerdict::Done));
    let err = || IpError::Failed { args: strings(&["x"]), stderr: Vec::new() };
    assert!(matches!(vless::step_verdict(fatal, Err(err())), vless::StepVerdict::Abort(_)));
    assert!(matches!(vless::step_verdict(tolerated, Err(err())), vless::StepVerdict::Skipped(_)));
}

#[test]
fn verification_verdicts() {
    let state = vless::NetworkState {
        interface: "floppa".to_string(),
        endpoint_route: None,
        endpoint_gateway: None,
    };
    let probes = || vless::verify_networking(&state);
    assert!(vless::verification_result(probes(), &vec![true, true, true]).is_ok());
    assert!(matches!(
        vless::verification_result(probes(), &vec![false]),
        Err(vless::VerifyError::InterfaceDown { .. })
    ));
    assert!(matches!(
        vless::verification_result(probes(), &vec![true, false]),
        Err(vless::VerifyError::SplitRoutesMissing { .. })
    ));
    let wg = || floppa_net::net::verify_networking(&wg_state());
    assert!(floppa_net::net::verification_result(wg(), &vec![true; 4]).is_ok());
    assert!(matches!(
        floppa_net::net::verification_result(wg(), &vec![true, true, true, false]),
        Err(VerifyError::RouteMissing { route, .. }) if route == "::/1"
    ));
}

#[test]
fn vless_cleanup_and_verification() {
    let cfg = settings(None);
    let plan = vless::configure_networking(&cfg, "floppa", "203.0.113.5", Some("192.168.1.1".to_string()));
    let cmds = vless::cleanup_networking(&plan.state);
    assert_eq!(
        cmds,
        vec![
            strings(&["route", "del", "203.0.113.5/32", "via", "192.168.1.1"]),
            strings(&["route", "del", "0.0.0.0/1", "dev", "floppa"]),
            strings(&["route", "del", "128.0.0.0/1", "dev", "floppa"]),
            strings(&["route", "del", "::/1", "dev", "floppa"]),
            strings(&["route", "del", "8000::/1", "dev", "floppa"]),
            strings(&["link", "del", "floppa"]),
            strings(&["link", "del", "floppa0"]),
        ]
    );
    // every route the set-up added is deleted again
    for step in &plan.steps {
        if step.args[1] != "replace" {
            continue;
        }
        let dest = &step.args[2];
        assert!(cmds.iter().any(|c| &c[2] == dest), "{dest} not removed");
    }
    let probes = vless::verify_networking(&plan.state);
    let args: Vec<Vec<String>> = probes.iter().map(|p| p.args.clone()).collect();
    assert_eq!(
        args,
        vec![
            strings(&["link", "show", "floppa"]),
            strings(&["route", "show", "203.0.113.5/32"]),
            strings(&["route", "show", "0.0.0.0/1"]),
            strings(&["route", "show", "128.0.0.0/1"]),
        ]
    );
    assert!(matches!(&probes[3].missing, vless::VerifyError::SplitRoutesMissing { interface } if interface == "floppa"));
}

// ---- DNS ----

fn env(is_symlink: bool, resolvectl: bool, resolv_exists: bool, backup_exists: bool) -> ResolvEnv {
    ResolvEnv { is_symlink, resolvectl_available: resolvectl, resolv_exists, backup_exists }
}

#[test]
fn resolv_file_content() {
    assert_eq!(resolv_conf(&strings(&["1.1.1.1", "8.8.8.8"])), "nameserver 1.1.1.1\nnameserver 8.8.8.8\n");
}

#[test]
fn dns_written_to_file_with_backup() {
    let plan = write_dns(&strings(&["1.1.1.1"]), "floppa", &env(false, false, true, false));
    match plan {
        DnsPlan::WriteFile { backup_first, content } => {
            assert!(backup_first);
            assert_eq!(content, "nameserver 1.1.1.1\n");
        }
        _ => panic!("expected a file write"),
    }
    assert_eq!(restore_dns(&env(false, false, true, true)), RestorePlan::RestoreFromBackup);
}

#[test]
fn dns_existing_backup_is_kept() {
    match write_dns(&strings(&["1.1.1.1"]), "floppa", &env(false, false, true, true)) {
        DnsPlan::WriteFile { backup_first, .. } => assert!(!backup_first),
        _ => panic!("expected a file write"),
    }
}

#[test]
fn dns_through_resolvectl_on_resolved_hosts() {
    match write_dns(&strings(&["1.1.1.1", "9.9.9.9"]), "floppa", &env(true, true, true, false)) {
        DnsPlan::Resolvectl { args } => {
            assert_eq!(args, strings(&["dns", "floppa", "1.1.1.1", "9.9.9.9"]))
        }
        _ => panic!("expected resolvectl"),
    }
    // a symlink without resolvectl falls back to writing the file
    assert!(matches!(
        write_dns(&strings(&["1.1.1.1"]), "floppa", &env(true, false, true, false)),
        DnsPlan::WriteFile { .. }
    ));
}

#[test]
fn no_servers_no_change() {
    assert!(matches!(write_dns(&Vec::new(), "floppa", &env(false, false, true, false)), DnsPlan::Unchanged));
    assert!(matches!(set_dns(&Vec::new(), "floppa", &env(false, false, true, false)), DnsPlan::Unchanged));
    assert!(matches!(
        set_dns(&strings(&["10.0.0.1"]), "wg0", &env(false, false, false, false)),
        DnsPlan::WriteFile { backup_first: false, .. }
    ));
}

#[test]
fn dns_list_is_split_and_trimmed() {
    assert_eq!(dns_servers_from(" 1.1.1.1, 8.8.8.8 "), strings(&["1.1.1.1", "8.8.8.8"]));
    assert_eq!(dns_servers_from(""), strings(&[""]));
}

#[test]
fn restore_decisions() {
    assert_eq!(restore_dns(&env(false, false, true, false)), RestorePlan::Nothing);
    assert_eq!(restore_dns(&env(true, true, true, false)), RestorePlan::Nothing);
    assert_eq!(restore_dns(&env(true, true, true, true)), RestorePlan::DiscardBackup);
    assert_eq!(restore_dns(&env(false, false, true, true)), RestorePlan::RestoreFromBackup);
    // a symlink written through because resolvectl is missing is restored too
    assert_eq!(restore_dns(&env(true, false, true, true)), RestorePlan::RestoreFromBackup);
}

#[test]
fn symlink_without_resolvectl_round_trip() {
    let before = env(true, false, true, false);
    match write_dns(&strings(&["1.1.1.1"]), "floppa", &before) {
        DnsPlan::WriteFile { backup_first, .. } => assert!(backup_first),
        _ => panic!("expected a file write"),
    }
    let after = env(true, false, true, true);
    assert_eq!(restore_dns(&after), RestorePlan::RestoreFromBackup);
}

// ---- command line ----

#[test]
fn vless_links_are_recognised() {
    assert!(is_vless("vless://uuid@host:443?security=reality"));
    assert!(is_vless("  \nvless://x\n"));
    assert!(!is_vless("[Interface]\nPrivateKey = x"));
    assert!(!is_vless("VLESS://x"));
    assert!(!is_vless(""));
}

#[test]
fn cleanup_kind_restores_dns_only_when_changed() {
    let k = CleanupKind::wireguard(wg_state(), false);
    let plan = k.cleanup();
    assert!(!plan.restore_dns);
    assert_eq!(plan.commands, floppa_net::net::cleanup_networking(&wg_state()));
    let vs = vless::NetworkState {
        interface: "floppa".to_string(),
        endpoint_route: None,
        endpoint_gateway: None,
    };
    let k = CleanupKind::vless(vs.clone(), true);
    assert!(k.dns);
    assert!(matches!(k.tunnel, CleanupTunnel::Vless(_)));
    let plan = k.cleanup();
    assert!(plan.restore_dns);
    assert_eq!(plan.commands, vless::cleanup_networking(&vs));
}

fn peers() -> Vec<PeerInfo> {
    vec![
        PeerInfo { id: 1, protocol: "wireguard".to_string(), device_id: Some("dev-a".to_string()) },
        PeerInfo { id: 2, protocol: "vless".to_string(), device_id: Some("dev-a".to_string()) },
        PeerInfo { id: 3, protocol: "wireguard".to_string(), device_id: Some("dev-b".to_string()) },
        PeerInfo { id: 4, protocol: "wireguard".to_string(), device_id: None },
        PeerInfo { id: 5, protocol: "wireguard".to_string(), device_id: Some("dev-a".to_string()) },
    ]
}

#[test]
fn peer_selection() {
    let p = peers();
    assert_eq!(select_peer_ids(Some(42), &Some("wireguard".to_string()), true, &p, "dev-a"), Ok(vec![42]));
    assert_eq!(select_peer_ids(None, &Some("wireguard".to_string()), true, &p, "dev-a"), Ok(vec![1, 5]));
    assert_eq!(select_peer_ids(None, &Some("amneziawg".to_string()), false, &p, "dev-a"), Ok(vec![]));
    assert_eq!(select_peer_ids(None, &None, true, &p, ""), Ok(vec![1, 2, 3, 4, 5]));
    assert_eq!(select_peer_ids(None, &None, false, &p, ""), Err(SelectError::NoSelector));
    assert!(needs_peer_list(&None, true));
    assert!(needs_peer_list(&Some("vless".to_string()), false));
    assert!(!needs_peer_list(&None, false));
}
