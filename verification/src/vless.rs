//! The VLESS tunnel: URI defaults, the routes it sets up, and how they are
//! checked and taken down.

use vstd::prelude::*;

use crate::probe::{first_failure, first_missing, probe_args, probe_errors, Probe};

use crate::net::{
    contains_colon, endpoint_pair, has_colon, link_removals, links_to_remove, opt_view, views2, IpError,
};
use crate::text::{lemma_split_on_append_plain, lemma_split_on_append_sep, lemma_split_on_nonempty, split_char, split_on, trim_str, trimmed, views};

verus! {

/// The settings of a VLESS link that the client reads or fills in.
#[derive(Clone, Debug)]
pub struct VlessSettings {
    pub server_addr: String,
    pub server_name: String,
    pub address: Option<String>,
    pub dns: Option<String>,
    pub mtu: Option<u16>,
    pub allowed_ips: Option<String>,
}

/// Address given to the tunnel when the link names none.
pub open spec fn default_address() -> Seq<char> {
    "10.0.0.2"@
}

/// DNS server used when the link names none.
pub open spec fn default_dns() -> Seq<char> {
    "1.1.1.1"@
}

/// Networks routed through the tunnel when the link names none.
pub open spec fn default_allowed_ips() -> Seq<char> {
    "0.0.0.0/0, ::/0"@
}

/// Settings `d` are `c` with every missing VPN value filled with its default.
pub open spec fn has_vpn_defaults(c: VlessSettings, d: VlessSettings) -> bool {
    &&& d.server_addr == c.server_addr
    &&& d.server_name == c.server_name
    &&& opt_view(d.address) == Some(
        match c.address {
            Some(a) => a@,
            None => default_address(),
        },
    )
    &&& opt_view(d.dns) == Some(
        match c.dns {
            Some(a) => a@,
            None => default_dns(),
        },
    )
    &&& d.mtu == Some(
        match c.mtu {
            Some(m) => m,
            None => 1500u16,
        },
    )
    &&& opt_view(d.allowed_ips) == Some(
        match c.allowed_ips {
            Some(a) => a@,
            None => default_allowed_ips(),
        },
    )
}

/// Fill the VPN values that a parsed VLESS link left unset: address `10.0.0.2`,
/// DNS `1.1.1.1`, MTU 1500 and allowed IPs `0.0.0.0/0, ::/0`.
pub fn with_vpn_defaults(config: VlessSettings) -> (r: VlessSettings)
    ensures
        has_vpn_defaults(config, r),
{
    let mut c = config;
    if c.address.is_none() {
        c.address = Some(String::from_str("10.0.0.2"));
    }
    if c.dns.is_none() {
        c.dns = Some(String::from_str("1.1.1.1"));
    }
    if c.mtu.is_none() {
        c.mtu = Some(1500);
    }
    if c.allowed_ips.is_none() {
        c.allowed_ips = Some(String::from_str("0.0.0.0/0, ::/0"));
    }
    c
}

/// The host part of a `host:port` server address: what precedes the first `:`.
pub fn endpoint_host(server_addr: &str) -> (r: String)
    ensures
        r@ == split_on(server_addr@, ':')[0],
{
    let pieces = split_char(server_addr, ':');
    proof {
        lemma_split_on_nonempty(server_addr@, ':');
    }
    pieces[0].clone()
}

/// A network parsed from CIDR text, as plain values.
#[derive(Clone, Debug)]
pub struct IpNet {
    pub is_ipv4: bool,
    pub prefix: u8,
    pub text: String,
}

/// What `ipnetwork` makes of a CIDR text: `None` when it does not parse,
/// else whether it is IPv4, its prefix length and its canonical text.
pub uninterp spec fn ip_network_parse(text: Seq<char>) -> Option<(bool, u8, Seq<char>)>;

/// The view of a parsed network.
pub open spec fn net_view(n: IpNet) -> (bool, u8, Seq<char>) {
    (n.is_ipv4, n.prefix, n.text@)
}

/// Parses CIDR text with `ipnetwork::IpNetwork::from_str` and describes the
/// result by `IpNetwork::is_ipv4`, `IpNetwork::prefix` and its `Display` text.
/// The contract claims only that the description is a function of the text.
#[verifier::external_body]
fn parse_network(text: &str) -> (r: Option<IpNet>)
    ensures
        match r {
            Some(n) => ip_network_parse(text@) == Some(net_view(n)),
            None => ip_network_parse(text@) is None,
        },
{
    match text.parse::<ipnetwork::IpNetwork>() {
        Ok(net) => Some(IpNet { is_ipv4: net.is_ipv4(), prefix: net.prefix(), text: net.to_string() }),
        Err(_) => None,
    }
}

/// The networks among comma-separated pieces, each trimmed; pieces that do not
/// parse are dropped.
pub open spec fn parsed_networks(pieces: Seq<Seq<char>>) -> Seq<(bool, u8, Seq<char>)>
    decreases pieces.len(),
{
    if pieces.len() == 0 {
        Seq::<(bool, u8, Seq<char>)>::empty()
    } else {
        let rest = parsed_networks(pieces.drop_last());
        match ip_network_parse(trimmed(pieces.last())) {
            Some(n) => rest.push(n),
            None => rest,
        }
    }
}

/// The views of parsed networks.
pub open spec fn net_views(v: Seq<IpNet>) -> Seq<(bool, u8, Seq<char>)> {
    v.map_values(|n: IpNet| net_view(n))
}

/// The networks of a comma-separated allowed-IPs list; entries that do not parse
/// are skipped.
pub fn parse_allowed_ips(allowed: &str) -> (r: Vec<IpNet>)
    ensures
        net_views(r@) == parsed_networks(split_on(allowed@, ',')),
{
    let pieces = split_char(allowed, ',');
    let ghost pv = views(pieces@);
    let mut nets: Vec<IpNet> = Vec::new();
    let mut i: usize = 0;
    assert(pv.take(0) =~= Seq::<Seq<char>>::empty());
    while i < pieces.len()
        invariant
            i <= pieces@.len(),
            pv == views(pieces@),
            pv == split_on(allowed@, ','),
            net_views(nets@) =~= parsed_networks(pv.take(i as int)),
        decreases pieces@.len() - i,
    {
        let t = trim_str(pieces[i].as_str());
        let parsed = parse_network(t.as_str());
        let ghost before = net_views(nets@);
        assert(pv.take(i + 1).drop_last() =~= pv.take(i as int));
        assert(pv.take(i + 1).last() == pieces@[i as int]@);
        match parsed {
            Some(n) => {
                nets.push(n);
                assert(net_views(nets@) =~= before.push(net_view(n)));
            },
            None => {},
        }
        i = i + 1;
    }
    assert(pv.take(i as int) =~= pv);
    nets
}

/// One `ip` invocation of the set-up: its arguments, and whether its failure
/// aborts the set-up (else it is reported and skipped).
#[derive(Clone, Debug)]
pub struct RouteStep {
    pub args: Vec<String>,
    pub fatal: bool,
}

/// The view of a step.
pub open spec fn step_view(s: RouteStep) -> (Seq<Seq<char>>, bool) {
    (views(s.args@), s.fatal)
}

/// The views of steps.
pub open spec fn step_views(v: Seq<RouteStep>) -> Seq<(Seq<Seq<char>>, bool)> {
    v.map_values(|s: RouteStep| step_view(s))
}

/// `ip route replace <dest> dev <iface>`.
pub open spec fn replace_dev(dest: Seq<char>, iface: Seq<char>) -> Seq<Seq<char>> {
    seq!["route"@, "replace"@, dest, "dev"@, iface]
}

/// The steps that route one network through the tunnel. A default route is split
/// in two halves so that it wins over the host's default route; the IPv6 halves
/// may fail without aborting.
pub open spec fn steps_for(n: (bool, u8, Seq<char>), iface: Seq<char>) -> Seq<(Seq<Seq<char>>, bool)> {
    if n.1 == 0 {
        if n.0 {
            seq![
                (replace_dev("0.0.0.0/1"@, iface), true),
                (replace_dev("128.0.0.0/1"@, iface), true),
            ]
        } else {
            seq![(replace_dev("::/1"@, iface), false), (replace_dev("8000::/1"@, iface), false)]
        }
    } else {
        seq![(replace_dev(n.2, iface), true)]
    }
}

/// The steps for all networks, in order.
pub open spec fn route_steps(ns: Seq<(bool, u8, Seq<char>)>, iface: Seq<char>) -> Seq<
    (Seq<Seq<char>>, bool),
>
    decreases ns.len(),
{
    if ns.len() == 0 {
        Seq::<(Seq<Seq<char>>, bool)>::empty()
    } else {
        route_steps(ns.drop_last(), iface) + steps_for(ns.last(), iface)
    }
}

/// Five owned words.
pub fn args5(a: &str, b: &str, c: &str, d: &str, e: &str) -> (r: Vec<String>)
    ensures
        views(r@) == seq![a@, b@, c@, d@, e@],
{
    let mut v: Vec<String> = Vec::new();
    v.push(a.to_owned());
    v.push(b.to_owned());
    v.push(c.to_owned());
    v.push(d.to_owned());
    v.push(e.to_owned());
    assert(views(v@) =~= seq![a@, b@, c@, d@, e@]);
    v
}

/// Three owned words.
pub fn args3(a: &str, b: &str, c: &str) -> (r: Vec<String>)
    ensures
        views(r@) == seq![a@, b@, c@],
{
    let mut v: Vec<String> = Vec::new();
    v.push(a.to_owned());
    v.push(b.to_owned());
    v.push(c.to_owned());
    assert(views(v@) =~= seq![a@, b@, c@]);
    v
}

/// The `ip route replace` steps that send the allowed networks through `interface`.
pub fn vpn_routes(networks: &Vec<IpNet>, interface: &str) -> (r: Vec<RouteStep>)
    ensures
        step_views(r@) == route_steps(net_views(networks@), interface@),
{
    let mut steps: Vec<RouteStep> = Vec::new();
    let mut i: usize = 0;
    let ghost nv = net_views(networks@);
    assert(nv.take(0) =~= Seq::<(bool, u8, Seq<char>)>::empty());
    while i < networks.len()
        invariant
            i <= networks@.len(),
            nv == net_views(networks@),
            step_views(steps@) =~= route_steps(nv.take(i as int), interface@),
        decreases networks@.len() - i,
    {
        let n = &networks[i];
        let ghost before = step_views(steps@);
        assert(nv.take(i + 1).drop_last() =~= nv.take(i as int));
        assert(nv.take(i + 1).last() == net_view(*n));
        if n.prefix == 0 {
            if n.is_ipv4 {
                let s1 = RouteStep { args: args5("route", "replace", "0.0.0.0/1", "dev", interface), fatal: true };
                let s2 = RouteStep { args: args5("route", "replace", "128.0.0.0/1", "dev", interface), fatal: true };
                steps.push(s1);
                steps.push(s2);
                assert(step_views(steps@) =~= before + seq![step_view(s1), step_view(s2)]);
            } else {
                let s1 = RouteStep { args: args5("route", "replace", "::/1", "dev", interface), fatal: false };
                let s2 = RouteStep { args: args5("route", "replace", "8000::/1", "dev", interface), fatal: false };
                steps.push(s1);
                steps.push(s2);
                assert(step_views(steps@) =~= before + seq![step_view(s1), step_view(s2)]);
            }
        } else {
            let s1 = RouteStep { args: args5("route", "replace", n.text.as_str(), "dev", interface), fatal: true };
            steps.push(s1);
            assert(step_views(steps@) =~= before + seq![step_view(s1)]);
        }
        i = i + 1;
    }
    assert(nv.take(i as int) =~= nv);
    steps
}


/// What the VLESS set-up put in place: the interface and, when the host had a
/// default gateway, the host route that keeps the server reachable.
#[derive(Clone, Debug)]
pub struct NetworkState {
    pub interface: String,
    pub endpoint_route: Option<String>,
    pub endpoint_gateway: Option<String>,
}

/// The set-up to perform, in order, and the state it leaves.
#[derive(Clone, Debug)]
pub struct NetworkPlan {
    pub steps: Vec<RouteStep>,
    pub state: NetworkState,
}

/// What becomes of a set-up step once `ip` has run.
#[derive(Debug)]
pub enum StepVerdict {
    /// The step succeeded.
    Done,
    /// The step failed but its failure is tolerated: report it and go on.
    Skipped(IpError),
    /// The step failed and the set-up stops with this error.
    Abort(IpError),
}

/// The verdict on a set-up step: a failure aborts a fatal step and is skipped
/// for any other.
pub fn step_verdict(step: &RouteStep, result: Result<(), IpError>) -> (r: StepVerdict)
    ensures
        result is Ok ==> r is Done,
        result matches Err(e) ==> r == (if step.fatal {
            StepVerdict::Abort(e)
        } else {
            StepVerdict::Skipped(e)
        }),
{
    match result {
        Ok(()) => StepVerdict::Done,
        Err(e) => if step.fatal {
            StepVerdict::Abort(e)
        } else {
            StepVerdict::Skipped(e)
        },
    }
}

/// The host route to the server: `<ip>/128` for an IPv6 address (it holds a
/// colon), else `<ip>/32`.
pub open spec fn endpoint_route_of(ip: Seq<char>) -> Seq<char> {
    if has_colon(ip) {
        ip + "/128"@
    } else {
        ip + "/32"@
    }
}

/// The allowed-IPs text in force: the configured one, else the default.
pub open spec fn allowed_text(allowed: Option<Seq<char>>) -> Seq<char> {
    match allowed {
        Some(a) => a,
        None => default_allowed_ips(),
    }
}

/// All set-up steps: the endpoint host route via the gateway (when there is a
/// gateway), then the routes for the allowed networks.
pub open spec fn setup_steps(
    allowed: Option<Seq<char>>,
    iface: Seq<char>,
    ip: Seq<char>,
    gateway: Option<Seq<char>>,
) -> Seq<(Seq<Seq<char>>, bool)> {
    let ep = match gateway {
        Some(g) => seq![(seq!["route"@, "replace"@, endpoint_route_of(ip), "via"@, g], true)],
        None => Seq::<(Seq<Seq<char>>, bool)>::empty(),
    };
    ep + route_steps(parsed_networks(split_on(allowed_text(allowed), ',')), iface)
}

/// Plan the routes for the VLESS tunnel on `interface`: a host route to the
/// server at `endpoint_ip` through the default `gateway` (so the tunnel's own
/// traffic does not loop through it), then a route through the tunnel for each
/// allowed network. Every `route replace` is idempotent across restarts.
pub fn configure_networking(
    config: &VlessSettings,
    interface: &str,
    endpoint_ip: &str,
    gateway: Option<String>,
) -> (r: NetworkPlan)
    ensures
        step_views(r.steps@) == setup_steps(
            opt_view(config.allowed_ips),
            interface@,
            endpoint_ip@,
            opt_view(gateway),
        ),
        r.state.interface@ == interface@,
        opt_view(r.state.endpoint_route) == (match gateway {
            Some(_) => Some(endpoint_route_of(endpoint_ip@)),
            None => None,
        }),
        opt_view(r.state.endpoint_gateway) == opt_view(gateway),
{
    let mut steps: Vec<RouteStep> = Vec::new();
    let mut endpoint_route: Option<String> = None;
    match &gateway {
        Some(g) => {
            let mut route = endpoint_ip.to_owned();
            if contains_colon(endpoint_ip) {
                route.append("/128");
            } else {
                route.append("/32");
            }
            let s1 = RouteStep {
                args: args5("route", "replace", route.as_str(), "via", g.as_str()),
                fatal: true,
            };
            steps.push(s1);
            assert(step_views(steps@) =~= seq![step_view(s1)]);
            endpoint_route = Some(route);
        },
        None => {
            assert(step_views(steps@) =~= Seq::<(Seq<Seq<char>>, bool)>::empty());
        },
    }
    let ghost head = step_views(steps@);
    let allowed = match &config.allowed_ips {
        Some(a) => a.clone(),
        None => String::from_str("0.0.0.0/0, ::/0"),
    };
    let networks = parse_allowed_ips(allowed.as_str());
    let mut routes = vpn_routes(&networks, interface);
    let ghost rv = routes@;
    steps.append(&mut routes);
    assert(step_views(steps@) =~= head + step_views(rv));
    NetworkPlan {
        steps,
        state: NetworkState {
            interface: interface.to_owned(),
            endpoint_route,
            endpoint_gateway: gateway,
        },
    }
}

/// The four halves that stand in for the default routes.
pub open spec fn split_routes() -> Seq<Seq<char>> {
    seq!["0.0.0.0/1"@, "128.0.0.0/1"@, "::/1"@, "8000::/1"@]
}

/// The quiet commands that take down what `s` records, in order.
pub open spec fn cleanup_commands(s: NetworkState) -> Seq<Seq<Seq<char>>> {
    let ep = match endpoint_pair(s.endpoint_route, s.endpoint_gateway) {
        Some((r, g)) => seq![seq!["route"@, "del"@, r@, "via"@, g@]],
        None => Seq::<Seq<Seq<char>>>::empty(),
    };
    ep + split_routes().map_values(|r: Seq<char>| seq!["route"@, "del"@, r, "dev"@, s.interface@])
        + link_removals(s.interface@).map_values(|l: Seq<char>| seq!["link"@, "del"@, l])
}

/// The quiet `ip` commands that remove the endpoint route, the split default
/// routes, the interface and the stale `floppa0`; their failures are ignored.
pub fn cleanup_networking(state: &NetworkState) -> (r: Vec<Vec<String>>)
    ensures
        views2(r@) == cleanup_commands(*state),
{
    let iface = state.interface.as_str();
    let mut cmds: Vec<Vec<String>> = Vec::new();
    match (&state.endpoint_route, &state.endpoint_gateway) {
        (Some(route), Some(gateway)) => {
            cmds.push(args5("route", "del", route.as_str(), "via", gateway.as_str()));
        },
        _ => {},
    }
    let ghost ep = views2(cmds@);
    let c1 = args5("route", "del", "0.0.0.0/1", "dev", iface);
    let c2 = args5("route", "del", "128.0.0.0/1", "dev", iface);
    let c3 = args5("route", "del", "::/1", "dev", iface);
    let c4 = args5("route", "del", "8000::/1", "dev", iface);
    cmds.push(c1);
    cmds.push(c2);
    cmds.push(c3);
    cmds.push(c4);
    assert(views2(cmds@) =~= ep + seq![views(c1@), views(c2@), views(c3@), views(c4@)]);
    assert(split_routes().map_values(
        |r: Seq<char>| seq!["route"@, "del"@, r, "dev"@, state.interface@],
    ) =~= seq![views(c1@), views(c2@), views(c3@), views(c4@)]);
    let ghost mid = views2(cmds@);
    let links = links_to_remove(iface);
    let mut j: usize = 0;
    while j < links.len()
        invariant
            j <= links@.len(),
            views(links@) == link_removals(state.interface@),
            views2(cmds@) =~= mid + views(links@).take(j as int).map_values(
                |l: Seq<char>| seq!["link"@, "del"@, l],
            ),
        decreases links@.len() - j,
    {
        let ghost before = views2(cmds@);
        let c = args3("link", "del", links[j].as_str());
        cmds.push(c);
        assert(views(links@).take(j + 1) =~= views(links@).take(j as int).push(links@[j as int]@));
        assert(views2(cmds@) =~= before.push(views(c@)));
        j = j + 1;
    }
    assert(views(links@).take(j as int) =~= views(links@));
    cmds
}

/// Why the VLESS networking is not in place.
#[derive(Clone, Debug)]
pub enum VerifyError {
    InterfaceDown { interface: String },
    EndpointRouteMissing { route: String, gateway: String },
    SplitRoutesMissing { interface: String },
}

/// The `ip` arguments of the checks, in order.
pub open spec fn verify_commands(s: NetworkState) -> Seq<Seq<Seq<char>>> {
    let ep = match endpoint_pair(s.endpoint_route, s.endpoint_gateway) {
        Some((r, g)) => seq![seq!["route"@, "show"@, r@]],
        None => Seq::<Seq<Seq<char>>>::empty(),
    };
    seq![seq!["link"@, "show"@, s.interface@]] + ep + seq![
        seq!["route"@, "show"@, "0.0.0.0/1"@],
        seq!["route"@, "show"@, "128.0.0.0/1"@],
    ]
}

/// The errors of the checks, in order.
pub open spec fn verify_errors(s: NetworkState) -> Seq<VerifyError> {
    let ep = match endpoint_pair(s.endpoint_route, s.endpoint_gateway) {
        Some((r, g)) => seq![VerifyError::EndpointRouteMissing { route: r, gateway: g }],
        None => Seq::<VerifyError>::empty(),
    };
    seq![VerifyError::InterfaceDown { interface: s.interface }] + ep + seq![
        VerifyError::SplitRoutesMissing { interface: s.interface },
        VerifyError::SplitRoutesMissing { interface: s.interface },
    ]
}

/// The verdict of verification, given whether each check run so far found
/// something (`found[k]` for `probes[k]`; checks are run in order until one finds
/// nothing): the error of the first check that found nothing, else success.
pub fn verification_result(probes: Vec<Probe<VerifyError>>, found: &Vec<bool>) -> (r: Result<
    (),
    VerifyError,
>)
    ensures
        match first_missing(probe_errors(probes@), found@) {
            Some(e) => r == Err::<(), VerifyError>(e),
            None => r is Ok,
        },
{
    first_failure(probes, found)
}

/// The checks that the VLESS networking is up, in the order they are run: the
/// interface, the endpoint route (when recorded), then both IPv4 halves of the
/// default route. The first check that finds nothing gives its error.
pub fn verify_networking(state: &NetworkState) -> (r: Vec<Probe<VerifyError>>)
    ensures
        probe_args(r@) == verify_commands(*state),
        probe_errors(r@) == verify_errors(*state),
{
    let iface = state.interface.as_str();
    let mut probes: Vec<Probe<VerifyError>> = Vec::new();
    probes.push(
        Probe {
            args: args3("link", "show", iface),
            missing: VerifyError::InterfaceDown { interface: state.interface.clone() },
        },
    );
    match (&state.endpoint_route, &state.endpoint_gateway) {
        (Some(route), Some(gateway)) => {
            probes.push(
                Probe {
                    args: args3("route", "show", route.as_str()),
                    missing: VerifyError::EndpointRouteMissing {
                        route: route.clone(),
                        gateway: gateway.clone(),
                    },
                },
            );
        },
        _ => {},
    }
    let ghost head = probes@;
    let p1 = Probe {
        args: args3("route", "show", "0.0.0.0/1"),
        missing: VerifyError::SplitRoutesMissing { interface: state.interface.clone() },
    };
    let p2 = Probe {
        args: args3("route", "show", "128.0.0.0/1"),
        missing: VerifyError::SplitRoutesMissing { interface: state.interface.clone() },
    };
    probes.push(p1);
    probes.push(p2);
    assert(probes@ =~= head + seq![p1, p2]);
    assert(probe_args(probes@) =~= probe_args(head) + seq![views(p1.args@), views(p2.args@)]);
    assert(probe_errors(probes@) =~= probe_errors(head) + seq![p1.missing, p2.missing]);
    probes
}


/// Where a step's destination sits among the split default routes.
proof fn lemma_default_step_is_split(n: (bool, u8, Seq<char>), iface: Seq<char>, j: int) -> (d: int)
    requires
        n.1 == 0,
        0 <= j < steps_for(n, iface).len(),
    ensures
        0 <= d < 4,
        steps_for(n, iface)[j].0[2] == split_routes()[d],
{
    if n.0 {
        j
    } else {
        j + 2
    }
}

/// Every route that the set-up sends through the tunnel for a default network
/// (prefix length 0, IPv4 or IPv6) is deleted again by the clean-up of a state on
/// the same interface.
pub proof fn cleanup_removes_default_routes(ns: Seq<(bool, u8, Seq<char>)>, state: NetworkState, k: int)
    requires
        forall|i: int| 0 <= i < ns.len() ==> (#[trigger] ns[i]).1 == 0,
        0 <= k < route_steps(ns, state.interface@).len(),
    ensures
        cleanup_commands(state).contains(
            seq!["route"@, "del"@, route_steps(ns, state.interface@)[k].0[2], "dev"@, state.interface@],
        ),
    decreases ns.len(),
{
    let iface = state.interface@;
    let prev = route_steps(ns.drop_last(), iface);
    if k < prev.len() {
        assert forall|i: int| 0 <= i < ns.drop_last().len() implies (#[trigger] ns.drop_last()[i]).1 == 0 by {
            assert(ns.drop_last()[i] == ns[i]);
        }
        cleanup_removes_default_routes(ns.drop_last(), state, k);
    } else {
        let j = k - prev.len();
        assert(ns[ns.len() - 1].1 == 0);
        let d = lemma_default_step_is_split(ns.last(), iface, j);
        assert(route_steps(ns, iface)[k] == steps_for(ns.last(), iface)[j]);
        let c = cleanup_commands(state);
        let ep_len: int = match endpoint_pair(state.endpoint_route, state.endpoint_gateway) {
            Some(_) => 1,
            None => 0,
        };
        assert(c[ep_len + d] == seq!["route"@, "del"@, split_routes()[d], "dev"@, iface]);
    }
}

/// The host route to the server that the set-up adds through the gateway is
/// deleted through the same gateway on clean-up; the interface and the stale
/// `floppa0` go too.
pub proof fn cleanup_removes_endpoint_route(state: NetworkState, ip: Seq<char>, gateway: Seq<char>)
    requires
        opt_view(state.endpoint_route) == Some(endpoint_route_of(ip)),
        opt_view(state.endpoint_gateway) == Some(gateway),
    ensures
        cleanup_commands(state)[0] == seq!["route"@, "del"@, endpoint_route_of(ip), "via"@, gateway],
        cleanup_commands(state).contains(seq!["link"@, "del"@, state.interface@]),
        cleanup_commands(state).contains(seq!["link"@, "del"@, crate::net::stale_interface()]),
{
    let c = cleanup_commands(state);
    assert(c[5] == seq!["link"@, "del"@, state.interface@]);
    if state.interface@ == crate::net::stale_interface() {
        assert(c[5] == seq!["link"@, "del"@, crate::net::stale_interface()]);
    } else {
        assert(c[6] == seq!["link"@, "del"@, crate::net::stale_interface()]);
    }
}

/// An IPv4 default network makes the set-up add both IPv4 halves.
proof fn lemma_v4_halves_set_up(ns: Seq<(bool, u8, Seq<char>)>, iface: Seq<char>, i: int)
    requires
        0 <= i < ns.len(),
        ns[i].0,
        ns[i].1 == 0,
    ensures
        exists|j: int|
            0 <= j < route_steps(ns, iface).len() && (#[trigger] route_steps(ns, iface)[j]).0[2]
                == "0.0.0.0/1"@,
        exists|j: int|
            0 <= j < route_steps(ns, iface).len() && (#[trigger] route_steps(ns, iface)[j]).0[2]
                == "128.0.0.0/1"@,
    decreases ns.len(),
{
    let prev = route_steps(ns.drop_last(), iface);
    if i < ns.len() - 1 {
        assert(ns.drop_last()[i] == ns[i]);
        lemma_v4_halves_set_up(ns.drop_last(), iface, i);
        let j1 = choose|j: int| 0 <= j < prev.len() && (#[trigger] prev[j]).0[2] == "0.0.0.0/1"@;
        let j2 = choose|j: int| 0 <= j < prev.len() && (#[trigger] prev[j]).0[2] == "128.0.0.0/1"@;
        assert(route_steps(ns, iface)[j1] == prev[j1]);
        assert(route_steps(ns, iface)[j2] == prev[j2]);
    } else {
        assert(route_steps(ns, iface)[prev.len() as int] == steps_for(ns.last(), iface)[0]);
        assert(route_steps(ns, iface)[prev.len() as int + 1] == steps_for(ns.last(), iface)[1]);
    }
}

/// When the allowed networks hold an IPv4 default, every route that verification
/// looks for is one that the set-up added: the endpoint route, or a route of
/// the allowed networks.
pub proof fn verified_routes_were_set_up(
    ns: Seq<(bool, u8, Seq<char>)>,
    state: NetworkState,
    ip: Seq<char>,
    gateway: Option<Seq<char>>,
    k: int,
)
    requires
        exists|i: int| 0 <= i < ns.len() && (#[trigger] ns[i]).0 && ns[i].1 == 0,
        opt_view(state.endpoint_route) == (match gateway {
            Some(_) => Some(endpoint_route_of(ip)),
            None => None,
        }),
        opt_view(state.endpoint_gateway) == gateway,
        1 <= k < verify_commands(state).len(),
    ensures
        ({
            let dest = verify_commands(state)[k][2];
            ||| gateway is Some && dest == endpoint_route_of(ip)
            ||| exists|j: int|
                0 <= j < route_steps(ns, state.interface@).len() && (#[trigger] route_steps(
                    ns,
                    state.interface@,
                )[j]).0[2] == dest
        }),
{
    let i = choose|i: int| 0 <= i < ns.len() && (#[trigger] ns[i]).0 && ns[i].1 == 0;
    lemma_v4_halves_set_up(ns, state.interface@, i);
}

/// Filling the VPN defaults twice changes nothing more than filling them once.
pub proof fn vpn_defaults_idempotent(c: VlessSettings, d: VlessSettings, e: VlessSettings)
    requires
        has_vpn_defaults(c, d),
        has_vpn_defaults(d, e),
    ensures
        opt_view(e.address) == opt_view(d.address),
        opt_view(e.dns) == opt_view(d.dns),
        e.mtu == d.mtu,
        opt_view(e.allowed_ips) == opt_view(d.allowed_ips),
        e.server_addr == d.server_addr,
        e.server_name == d.server_name,
{
}


/// Disconnecting a VLESS tunnel always deletes its interface and the stale
/// `floppa0`, with or without an endpoint route.
pub proof fn cleanup_always_removes_links(state: NetworkState)
    ensures
        cleanup_commands(state).contains(seq!["link"@, "del"@, state.interface@]),
        cleanup_commands(state).contains(seq!["link"@, "del"@, "floppa0"@]),
{
    let c = cleanup_commands(state);
    let ep_len: int = match endpoint_pair(state.endpoint_route, state.endpoint_gateway) {
        Some(_) => 1,
        None => 0,
    };
    assert(c[ep_len + 4] == seq!["link"@, "del"@, state.interface@]);
    if state.interface@ == "floppa0"@ {
        assert(c[ep_len + 4] == seq!["link"@, "del"@, "floppa0"@]);
    } else {
        assert(c[ep_len + 5] == seq!["link"@, "del"@, "floppa0"@]);
    }
}


/// The number of default networks (prefix length 0) among `ns`.
pub open spec fn default_count(ns: Seq<(bool, u8, Seq<char>)>) -> nat
    decreases ns.len(),
{
    if ns.len() == 0 {
        0
    } else {
        default_count(ns.drop_last()) + if ns.last().1 == 0 {
            1nat
        } else {
            0nat
        }
    }
}

/// The steps for the first networks come first.
proof fn lemma_route_steps_prefix(ns: Seq<(bool, u8, Seq<char>)>, iface: Seq<char>, m: int)
    requires
        0 <= m <= ns.len(),
    ensures
        route_steps(ns.take(m), iface).len() <= route_steps(ns, iface).len(),
        route_steps(ns.take(m), iface) == route_steps(ns, iface).take(
            route_steps(ns.take(m), iface).len() as int,
        ),
    decreases ns.len(),
{
    if m == ns.len() {
        assert(ns.take(m) =~= ns);
        assert(route_steps(ns, iface).take(route_steps(ns, iface).len() as int) =~= route_steps(
            ns,
            iface,
        ));
    } else {
        assert(ns.take(m) =~= ns.drop_last().take(m));
        lemma_route_steps_prefix(ns.drop_last(), iface, m);
        let p = route_steps(ns.drop_last(), iface);
        let l = route_steps(ns.take(m), iface).len() as int;
        assert(route_steps(ns, iface) == p + steps_for(ns.last(), iface));
        assert(route_steps(ns, iface).take(l) =~= p.take(l));
    }
}

/// The set-up has one step for each non-default network and two for each
/// default one, and no others.
pub proof fn route_steps_count(ns: Seq<(bool, u8, Seq<char>)>, iface: Seq<char>)
    ensures
        route_steps(ns, iface).len() == ns.len() + default_count(ns),
    decreases ns.len(),
{
    if ns.len() > 0 {
        route_steps_count(ns.drop_last(), iface);
    }
}

/// The steps of network `i` stand, in order, right after those of the networks
/// before it: a non-default network, IPv4 or IPv6, is routed by one fatal
/// `route replace <its text> dev <interface>`; an IPv4 default by the fatal
/// halves `0.0.0.0/1` and `128.0.0.0/1`; an IPv6 default by the tolerated halves
/// `::/1` and `8000::/1`.
pub proof fn network_steps_in_place(ns: Seq<(bool, u8, Seq<char>)>, iface: Seq<char>, i: int)
    requires
        0 <= i < ns.len(),
    ensures
        ({
            let a = route_steps(ns.take(i), iface).len() as int;
            let r = route_steps(ns, iface);
            &&& a + (if ns[i].1 == 0 { 2int } else { 1int }) <= r.len()
            &&& ns[i].1 != 0 ==> r.subrange(a, a + 1) == seq![
                (seq!["route"@, "replace"@, ns[i].2, "dev"@, iface], true),
            ]
            &&& (ns[i].1 == 0 && ns[i].0) ==> r.subrange(a, a + 2) == seq![
                (seq!["route"@, "replace"@, "0.0.0.0/1"@, "dev"@, iface], true),
                (seq!["route"@, "replace"@, "128.0.0.0/1"@, "dev"@, iface], true),
            ]
            &&& (ns[i].1 == 0 && !ns[i].0) ==> r.subrange(a, a + 2) == seq![
                (seq!["route"@, "replace"@, "::/1"@, "dev"@, iface], false),
                (seq!["route"@, "replace"@, "8000::/1"@, "dev"@, iface], false),
            ]
        }),
{
    let a = route_steps(ns.take(i), iface).len() as int;
    let r = route_steps(ns, iface);
    let t = ns.take(i + 1);
    assert(t.drop_last() =~= ns.take(i));
    assert(t.last() == ns[i]);
    let st = steps_for(ns[i], iface);
    assert(route_steps(t, iface) == route_steps(ns.take(i), iface) + st);
    lemma_route_steps_prefix(ns, iface, i + 1);
    let l = route_steps(t, iface).len() as int;
    assert(l == a + st.len());
    assert(r.subrange(a, l) =~= st) by {
        assert forall|k: int| 0 <= k < st.len() implies r.subrange(a, l)[k] == st[k] by {
            assert(r.take(l)[a + k] == route_steps(t, iface)[a + k]);
        }
    }
}


/// The host of a server address is the text before its first `:`, or the
/// whole address when it has none.
pub proof fn endpoint_host_is_text_before_colon(s: Seq<char>, k: int)
    requires
        0 <= k <= s.len(),
        forall|j: int| 0 <= j < k ==> s[j] != ':',
        k == s.len() || s[k] == ':',
    ensures
        split_on(s, ':')[0] == s.take(k),
    decreases s.len(),
{
    if k == s.len() {
        lemma_split_on_append_plain(Seq::<char>::empty(), s, ':');
        assert(Seq::<char>::empty() + s =~= s);
        assert(split_on(Seq::<char>::empty(), ':') =~= seq![Seq::<char>::empty()]);
        assert(s.take(k) =~= s);
        assert(split_on(s, ':')[0] == Seq::<char>::empty() + s);
    } else if k == s.len() - 1 {
        let d = s.drop_last();
        assert(d =~= s.take(k));
        endpoint_host_is_text_before_colon(d, k);
        assert(s =~= d.push(':'));
        lemma_split_on_append_sep(d, ':');
        lemma_split_on_nonempty(d, ':');
        assert(d.take(k) =~= d);
        assert(split_on(s, ':')[0] == split_on(d, ':')[0]);
    } else {
        let d = s.drop_last();
        assert(d[k] == s[k]);
        endpoint_host_is_text_before_colon(d, k);
        assert(d.take(k) =~= s.take(k));
        lemma_split_on_has_two(d, k);
        let p = split_on(d, ':');
        assert(s.drop_last() == d);
        if s.last() == ':' {
            assert(split_on(s, ':') == p.push(Seq::<char>::empty()));
        } else {
            assert(split_on(s, ':') == p.update(p.len() - 1, p.last().push(s.last())));
        }
        assert(split_on(s, ':')[0] == p[0]);
    }
}

/// Text holding the separator splits into at least two pieces.
proof fn lemma_split_on_has_two(s: Seq<char>, k: int)
    requires
        0 <= k < s.len(),
        s[k] == ':',
    ensures
        split_on(s, ':').len() >= 2,
    decreases s.len(),
{
    lemma_split_on_nonempty(s.drop_last(), ':');
    if k < s.len() - 1 {
        assert(s.drop_last()[k] == s[k]);
        lemma_split_on_has_two(s.drop_last(), k);
    }
}

/// Verification always checks the interface first and both IPv4 halves of the
/// default route last, reporting the interface or the halves when missing.
pub proof fn verification_checks_interface_and_halves(state: NetworkState)
    ensures
        verify_commands(state)[0] == seq!["link"@, "show"@, state.interface@],
        verify_errors(state)[0] == (VerifyError::InterfaceDown { interface: state.interface }),
        verify_commands(state).len() == verify_errors(state).len(),
        verify_commands(state).last() == seq!["route"@, "show"@, "128.0.0.0/1"@],
        verify_commands(state)[verify_commands(state).len() - 2] == seq!["route"@, "show"@, "0.0.0.0/1"@],
        verify_errors(state).last() == (VerifyError::SplitRoutesMissing { interface: state.interface }),
{
}


/// The defaults are `10.0.0.2`, `1.1.1.1`, MTU 1500 and `0.0.0.0/0, ::/0`, and
/// values the link gives are kept as they are.
pub proof fn vpn_default_values(c: VlessSettings, d: VlessSettings)
    requires
        has_vpn_defaults(c, d),
    ensures
        c.address is None ==> opt_view(d.address) == Some("10.0.0.2"@),
        c.dns is None ==> opt_view(d.dns) == Some("1.1.1.1"@),
        c.mtu is None ==> d.mtu == Some(1500u16),
        c.allowed_ips is None ==> opt_view(d.allowed_ips) == Some("0.0.0.0/0, ::/0"@),
        c.address is Some ==> opt_view(d.address) == opt_view(c.address),
        c.dns is Some ==> opt_view(d.dns) == opt_view(c.dns),
        c.mtu is Some ==> d.mtu == c.mtu,
        c.allowed_ips is Some ==> opt_view(d.allowed_ips) == opt_view(c.allowed_ips),
{
}

/// The endpoint host route is `/128` for an address holding a colon (IPv6) and
/// `/32` for one without (IPv4).
pub proof fn endpoint_route_prefix(ip: Seq<char>)
    ensures
        (exists|k: int| 0 <= k < ip.len() && #[trigger] ip[k] == ':') ==> endpoint_route_of(ip) == ip
            + "/128"@,
        (forall|k: int| 0 <= k < ip.len() ==> #[trigger] ip[k] != ':') ==> endpoint_route_of(ip) == ip
            + "/32"@,
{
    if forall|k: int| 0 <= k < ip.len() ==> #[trigger] ip[k] != ':' {
        if has_colon(ip) {
            let k = choose|k: int| 0 <= k < ip.len() && #[trigger] ip[k] == ':';
            assert(ip[k] != ':');
        }
    }
}

} // verus!
