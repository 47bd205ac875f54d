//! `ip` command arguments, outcomes and the WireGuard-side route bookkeeping.

use vstd::prelude::*;

use crate::probe::{first_failure, first_missing, probe_args, probe_errors, Probe};

use crate::text::{is_word, split_words, views, words, words_are_words};

verus! {

/// Whether `s` holds a colon: IPv6 addresses do, IPv4 addresses never do.
pub open spec fn has_colon(s: Seq<char>) -> bool {
    exists|k: int| 0 <= k < s.len() && #[trigger] s[k] == ':'
}

/// Whether `s` holds `::`.
pub open spec fn has_double_colon(s: Seq<char>) -> bool {
    exists|k: int| 0 <= k < s.len() - 1 && #[trigger] s[k] == ':' && s[k + 1] == ':'
}

/// Whether `c` may appear in an IPv6 address or route: a hexadecimal digit,
/// `:`, `.` (an embedded IPv4 part) or `/` (a prefix length).
pub open spec fn ipv6_char(c: char) -> bool {
    ||| '0' <= c <= '9'
    ||| 'a' <= c <= 'f'
    ||| 'A' <= c <= 'F'
    ||| c == ':'
    ||| c == '.'
    ||| c == '/'
}

/// Whether `s` holds at least two colons.
pub open spec fn two_colons(s: Seq<char>) -> bool {
    exists|i: int, j: int| 0 <= i < j < s.len() && #[trigger] s[i] == ':' && #[trigger] s[j] == ':'
}

/// Whether `s` is an IPv6 address or route: it holds `::`, or it is written in
/// IPv6 characters only with at least two colons (a full eight-group address).
/// Interface names such as `eth0:1` are not.
pub open spec fn is_ipv6_arg(s: Seq<char>) -> bool {
    has_double_colon(s) || ((forall|k: int| 0 <= k < s.len() ==> ipv6_char(#[trigger] s[k]))
        && two_colons(s))
}

/// The arguments given to `ip`: `-6` goes first when some argument is IPv6.
pub open spec fn ip_args_spec(args: Seq<Seq<char>>) -> Seq<Seq<char>> {
    if exists|i: int| 0 <= i < args.len() && is_ipv6_arg(#[trigger] args[i]) {
        seq!["-6"@] + args
    } else {
        args
    }
}

/// The views of a sequence of argument vectors.
pub open spec fn views2(v: Seq<Vec<String>>) -> Seq<Seq<Seq<char>>> {
    v.map_values(|x: Vec<String>| views(x@))
}

/// The views of string slices.
pub open spec fn str_views(v: Seq<&str>) -> Seq<Seq<char>> {
    v.map_values(|x: &str| x@)
}

/// Owned copies of string slices.
pub fn owned(parts: &[&str]) -> (r: Vec<String>)
    ensures
        views(r@) == str_views(parts@),
{
    let mut r: Vec<String> = Vec::new();
    let mut i: usize = 0;
    while i < parts.len()
        invariant
            i <= parts@.len(),
            views(r@) =~= str_views(parts@).take(i as int),
        decreases parts@.len() - i,
    {
        let ghost before = views(r@);
        r.push(parts[i].to_owned());
        assert(views(r@) =~= before.push(parts@[i as int]@));
        i = i + 1;
    }
    assert(str_views(parts@).take(i as int) =~= str_views(parts@));
    r
}

/// Whether `s` holds a colon.
pub fn contains_colon(s: &str) -> (r: bool)
    ensures
        r == has_colon(s@),
{
    let n = s.unicode_len();
    let mut k: usize = 0;
    while k < n
        invariant
            k <= n,
            n == s@.len(),
            forall|j: int| 0 <= j < k ==> #[trigger] s@[j] != ':',
        decreases n - k,
    {
        if s.get_char(k) == ':' {
            return true;
        }
        k = k + 1;
    }
    false
}

/// Whether `c` may appear in an IPv6 address or route.
pub fn is_ipv6_char(c: char) -> (r: bool)
    ensures
        r == ipv6_char(c),
{
    ('0' <= c && c <= '9') || ('a' <= c && c <= 'f') || ('A' <= c && c <= 'F') || c == ':' || c
        == '.' || c == '/'
}

/// Whether `s` is an IPv6 address or route.
pub fn is_ipv6_text(s: &str) -> (r: bool)
    ensures
        r == is_ipv6_arg(s@),
{
    let n = s.unicode_len();
    let mut k: usize = 0;
    let mut dc = false;
    let mut shaped = true;
    let mut seen1 = false;
    let mut seen2 = false;
    let mut prev_colon = false;
    while k < n
        invariant
            k <= n,
            n == s@.len(),
            prev_colon == (k > 0 && s@[k - 1] == ':'),
            dc == exists|j: int| 0 <= j && j + 1 < k && #[trigger] s@[j] == ':' && s@[j + 1] == ':',
            shaped == forall|j: int| 0 <= j < k ==> ipv6_char(#[trigger] s@[j]),
            seen1 == exists|j: int| 0 <= j < k && #[trigger] s@[j] == ':',
            seen2 == exists|i: int, j: int|
                0 <= i < j < k && #[trigger] s@[i] == ':' && #[trigger] s@[j] == ':',
        decreases n - k,
    {
        let c = s.get_char(k);
        let colon = c == ':';
        if colon && prev_colon {
            assert(s@[k - 1] == ':' && s@[k - 1 + 1] == ':');
        }
        dc = dc || (colon && prev_colon);
        shaped = shaped && is_ipv6_char(c);
        if seen1 && colon {
            let ghost i0 = choose|j: int| 0 <= j < k && #[trigger] s@[j] == ':';
            assert(s@[i0] == ':' && s@[k as int] == ':');
        }
        seen2 = seen2 || (seen1 && colon);
        seen1 = seen1 || colon;
        prev_colon = colon;
        k = k + 1;
    }
    dc || (shaped && seen2)
}

/// Build arguments for `ip`, adding `-6` in front when an argument is an IPv6
/// address or route.
pub fn ip_args(args: Vec<String>) -> (r: Vec<String>)
    ensures
        views(r@) == ip_args_spec(views(args@)),
{
    let mut i: usize = 0;
    let mut is_ipv6 = false;
    while i < args.len()
        invariant
            i <= args@.len(),
            is_ipv6 == exists|j: int| 0 <= j < i && is_ipv6_arg(#[trigger] views(args@)[j]),
        decreases args@.len() - i,
    {
        let found = is_ipv6_text(args[i].as_str());
        assert(views(args@)[i as int] == args@[i as int]@);
        if found {
            is_ipv6 = true;
        }
        i = i + 1;
    }
    if is_ipv6 {
        let mut out = args;
        let ghost before = views(out@);
        out.insert(0, String::from_str("-6"));
        assert(views(out@) =~= seq!["-6"@] + before);
        out
    } else {
        args
    }
}

/// What running `ip` gave back, as plain values.
#[derive(Debug)]
pub struct IpOutcome {
    pub success: bool,
    pub stdout: Vec<u8>,
    pub stderr: Vec<u8>,
}

/// Why an `ip` invocation did not succeed.
#[derive(Debug)]
pub enum IpError {
    /// The command could not be started; the text says why.
    Spawn { reason: String },
    /// The command ran and reported failure.
    Failed { args: Vec<String>, stderr: Vec<u8> },
}

/// The verdict on an `ip` run whose failure is an error.
pub fn run_ip(full_args: &Vec<String>, run: Result<IpOutcome, String>) -> (r: Result<(), IpError>)
    ensures
        r is Ok <==> (run is Ok && run->Ok_0.success),
        run matches Err(reason) ==> r == Err::<(), IpError>(IpError::Spawn { reason }),
        run matches Ok(o) ==> (!o.success ==> (r matches Err(IpError::Failed { args, stderr })
            && views(args@) == views(full_args@) && stderr@ == o.stderr@)),
{
    match run {
        Err(reason) => Err(IpError::Spawn { reason }),
        Ok(o) => {
            if o.success {
                Ok(())
            } else {
                Err(IpError::Failed { args: full_args.clone(), stderr: o.stderr })
            }
        },
    }
}

/// Whether an `ip` run whose failure is tolerated succeeded.
pub fn run_ip_quiet(run: &Result<IpOutcome, String>) -> (r: bool)
    ensures
        r == (run is Ok && run->Ok_0.success),
{
    match run {
        Ok(o) => o.success,
        Err(_) => false,
    }
}

/// Whether an `ip ... show` run found something: it succeeded and printed output.
pub fn route_exists(run: &Result<IpOutcome, String>) -> (r: bool)
    ensures
        r == (run is Ok && run->Ok_0.success && run->Ok_0.stdout@.len() > 0),
{
    match run {
        Ok(o) => o.success && o.stdout.len() > 0,
        Err(_) => false,
    }
}

/// The word after the first `via` among `ws`, if there is one.
pub open spec fn word_after_via(ws: Seq<Seq<char>>) -> Option<Seq<char>>
    decreases ws.len(),
{
    if ws.len() == 0 {
        None
    } else if ws[0] == "via"@ {
        if ws.len() >= 2 {
            Some(ws[1])
        } else {
            None
        }
    } else {
        word_after_via(ws.drop_first())
    }
}

/// The view of an optional string.
pub open spec fn opt_view(o: Option<String>) -> Option<Seq<char>> {
    match o {
        Some(s) => Some(s@),
        None => None,
    }
}

/// The default gateway named in the output of `ip route show default`:
/// the word after the first `via`.
pub fn get_default_gateway(route_output: &str) -> (r: Option<String>)
    ensures
        opt_view(r) == word_after_via(words(route_output@)),
{
    let ws = split_words(route_output);
    let via_word = String::from_str("via");
    let mut i: usize = 0;
    assert(views(ws@).skip(0) =~= views(ws@));
    while i < ws.len()
        invariant
            i <= ws@.len(),
            via_word@ == "via"@,
            views(ws@) == words(route_output@),
            word_after_via(views(ws@)) == word_after_via(views(ws@).skip(i as int)),
        decreases ws@.len() - i,
    {
        let ghost rest = views(ws@).skip(i as int);
        assert(rest.drop_first() =~= views(ws@).skip(i + 1));
        assert(rest[0] == ws@[i as int]@);
        if ws[i] == via_word {
            if i + 1 < ws.len() {
                assert(rest[1] == ws@[i + 1]@);
                return Some(ws[i + 1].clone());
            } else {
                return None;
            }
        }
        i = i + 1;
    }
    None
}


/// The arguments `ip` gets for three words, `-6` added where needed.
pub fn ip_command3(a: &str, b: &str, c: &str) -> (r: Vec<String>)
    ensures
        views(r@) == ip_args_spec(seq![a@, b@, c@]),
{
    let mut v: Vec<String> = Vec::new();
    v.push(a.to_owned());
    v.push(b.to_owned());
    v.push(c.to_owned());
    assert(views(v@) =~= seq![a@, b@, c@]);
    ip_args(v)
}

/// The arguments `ip` gets for five words, `-6` added where needed.
pub fn ip_command5(a: &str, b: &str, c: &str, d: &str, e: &str) -> (r: Vec<String>)
    ensures
        views(r@) == ip_args_spec(seq![a@, b@, c@, d@, e@]),
{
    let mut v: Vec<String> = Vec::new();
    v.push(a.to_owned());
    v.push(b.to_owned());
    v.push(c.to_owned());
    v.push(d.to_owned());
    v.push(e.to_owned());
    assert(views(v@) =~= seq![a@, b@, c@, d@, e@]);
    ip_args(v)
}

/// What the WireGuard tunnel set up on the host and must take down again.
#[derive(Clone, Debug)]
pub struct NetworkState {
    pub interface: String,
    pub endpoint_route: Option<String>,
    pub endpoint_gateway: Option<String>,
    pub added_routes: Vec<String>,
}

/// Why the tunnel's networking is not in place.
#[derive(Clone, Debug)]
pub enum VerifyError {
    InterfaceDown { interface: String },
    EndpointRouteMissing { route: String, gateway: String },
    RouteMissing { route: String, interface: String },
}

/// The endpoint route and its gateway, when both are recorded.
pub open spec fn endpoint_pair(route: Option<String>, gateway: Option<String>) -> Option<(String, String)> {
    match (route, gateway) {
        (Some(r), Some(g)) => Some((r, g)),
        _ => None,
    }
}

/// The interface name that earlier versions used; a stale one is removed on
/// disconnect.
pub open spec fn stale_interface() -> Seq<char> {
    "floppa0"@
}

/// The links deleted on disconnect: the tunnel's interface, then the stale
/// `floppa0` when that is another interface.
pub open spec fn link_removals(iface: Seq<char>) -> Seq<Seq<char>> {
    if iface == stale_interface() {
        seq![iface]
    } else {
        seq![iface, stale_interface()]
    }
}

/// The links to delete on disconnect: `interface`, then `floppa0` unless that
/// is `interface`.
pub fn links_to_remove(interface: &str) -> (r: Vec<String>)
    ensures
        views(r@) == link_removals(interface@),
{
    let mut v: Vec<String> = Vec::new();
    v.push(interface.to_owned());
    let own = interface.to_owned();
    let stale = String::from_str("floppa0");
    if !(own == stale) {
        v.push(stale);
        assert(views(v@) =~= seq![interface@, stale_interface()]);
    } else {
        assert(views(v@) =~= seq![interface@]);
    }
    v
}

/// The commands that take down what `s` records, in order.
pub open spec fn cleanup_commands(s: NetworkState) -> Seq<Seq<Seq<char>>> {
    let ep = match endpoint_pair(s.endpoint_route, s.endpoint_gateway) {
        Some((r, g)) => seq![ip_args_spec(seq!["route"@, "del"@, r@, "via"@, g@])],
        None => Seq::<Seq<Seq<char>>>::empty(),
    };
    let routes = s.added_routes@.map_values(
        |r: String| ip_args_spec(seq!["route"@, "del"@, r@, "dev"@, s.interface@]),
    );
    ep + routes + link_removals(s.interface@).map_values(
        |l: Seq<char>| ip_args_spec(seq!["link"@, "del"@, l]),
    )
}

/// The `ip` arguments of the checks that `s` is in place, in order.
pub open spec fn verify_commands(s: NetworkState) -> Seq<Seq<Seq<char>>> {
    let ep = match endpoint_pair(s.endpoint_route, s.endpoint_gateway) {
        Some((r, g)) => seq![ip_args_spec(seq!["route"@, "show"@, r@])],
        None => Seq::<Seq<Seq<char>>>::empty(),
    };
    let routes = s.added_routes@.map_values(
        |r: String| ip_args_spec(seq!["route"@, "show"@, r@]),
    );
    seq![ip_args_spec(seq!["link"@, "show"@, s.interface@])] + ep + routes
}

/// The errors of the checks that `s` is in place, in order.
pub open spec fn verify_errors(s: NetworkState) -> Seq<VerifyError> {
    let ep = match endpoint_pair(s.endpoint_route, s.endpoint_gateway) {
        Some((r, g)) => seq![VerifyError::EndpointRouteMissing { route: r, gateway: g }],
        None => Seq::<VerifyError>::empty(),
    };
    let routes = s.added_routes@.map_values(
        |r: String| VerifyError::RouteMissing { route: r, interface: s.interface },
    );
    seq![VerifyError::InterfaceDown { interface: s.interface }] + ep + routes
}

/// The quiet `ip` commands that remove the endpoint route, every added route and
/// the interface; their failures are ignored.
pub fn cleanup_networking(state: &NetworkState) -> (r: Vec<Vec<String>>)
    ensures
        views2(r@) == cleanup_commands(*state),
{
    let mut cmds: Vec<Vec<String>> = Vec::new();
    let iface = state.interface.as_str();
    match (&state.endpoint_route, &state.endpoint_gateway) {
        (Some(route), Some(gateway)) => {
            cmds.push(ip_command5("route", "del", route.as_str(), "via", gateway.as_str()));
        },
        _ => {},
    }
    let ghost ep = views2(cmds@);
    let mut i: usize = 0;
    while i < state.added_routes.len()
        invariant
            i <= state.added_routes@.len(),
            iface@ == state.interface@,
            views2(cmds@) =~= ep + state.added_routes@.take(i as int).map_values(
                |r: String| ip_args_spec(seq!["route"@, "del"@, r@, "dev"@, state.interface@]),
            ),
        decreases state.added_routes@.len() - i,
    {
        let ghost before = views2(cmds@);
        let c = ip_command5("route", "del", state.added_routes[i].as_str(), "dev", iface);
        cmds.push(c);
        assert(state.added_routes@.take(i + 1) =~= state.added_routes@.take(i as int).push(
            state.added_routes@[i as int],
        ));
        assert(views2(cmds@) =~= before.push(views(c@)));
        i = i + 1;
    }
    assert(state.added_routes@.take(i as int) =~= state.added_routes@);
    let ghost mid = views2(cmds@);
    let links = links_to_remove(iface);
    let mut j: usize = 0;
    while j < links.len()
        invariant
            j <= links@.len(),
            views(links@) == link_removals(state.interface@),
            views2(cmds@) =~= mid + views(links@).take(j as int).map_values(
                |l: Seq<char>| ip_args_spec(seq!["link"@, "del"@, l]),
            ),
        decreases links@.len() - j,
    {
        let ghost before = views2(cmds@);
        let c = ip_command3("link", "del", links[j].as_str());
        cmds.push(c);
        assert(views(links@).take(j + 1) =~= views(links@).take(j as int).push(links@[j as int]@));
        assert(views2(cmds@) =~= before.push(views(c@)));
        j = j + 1;
    }
    assert(views(links@).take(j as int) =~= views(links@));
    cmds
}

/// The verdict of verification, given whether each check run so far found
/// something (`found[k]` for `probes[k]`; checks are run in order until one finds
/// nothing): the error of the first check that found nothing, else success.
pub fn verification_result(probes: Vec<Probe<VerifyError>>, found: &Vec<bool>) -> (r: Result<
    (),
    VerifyError,
>)
    ensures
        match first_missing(probe_errors(probes@), found@) {
            Some(e) => r == Err::<(), VerifyError>(e),
            None => r is Ok,
        },
{
    first_failure(probes, found)
}

/// The checks that the tunnel's networking is up, in the order they are run:
/// the interface, the endpoint route (when recorded), then every added route.
/// The first check that finds nothing gives its error.
pub fn verify_networking(state: &NetworkState) -> (r: Vec<Probe<VerifyError>>)
    ensures
        probe_args(r@) == verify_commands(*state),
        probe_errors(r@) == verify_errors(*state),
{
    let iface = state.interface.as_str();
    let mut probes: Vec<Probe<VerifyError>> = Vec::new();
    probes.push(
        Probe {
            args: ip_command3("link", "show", iface),
            missing: VerifyError::InterfaceDown { interface: state.interface.clone() },
        },
    );
    match (&state.endpoint_route, &state.endpoint_gateway) {
        (Some(route), Some(gateway)) => {
            probes.push(
                Probe {
                    args: ip_command3("route", "show", route.as_str()),
                    missing: VerifyError::EndpointRouteMissing {
                        route: route.clone(),
                        gateway: gateway.clone(),
                    },
                },
            );
        },
        _ => {},
    }
    let ghost head = probes@;
    let mut i: usize = 0;
    while i < state.added_routes.len()
        invariant
            i <= state.added_routes@.len(),
            iface@ == state.interface@,
            head.len() <= probes@.len(),
            probes@.take(head.len() as int) == head,
            probe_args(probes@) =~= probe_args(head) + state.added_routes@.take(
                i as int,
            ).map_values(|r: String| ip_args_spec(seq!["route"@, "show"@, r@])),
            probe_errors(probes@) =~= probe_errors(head) + state.added_routes@.take(
                i as int,
            ).map_values(
                |r: String| VerifyError::RouteMissing { route: r, interface: state.interface },
            ),
        decreases state.added_routes@.len() - i,
    {
        let ghost before = probes@;
        let route = &state.added_routes[i];
        let p = Probe {
            args: ip_command3("route", "show", route.as_str()),
            missing: VerifyError::RouteMissing {
                route: route.clone(),
                interface: state.interface.clone(),
            },
        };
        probes.push(p);
        assert(state.added_routes@.take(i + 1) =~= state.added_routes@.take(i as int).push(
            state.added_routes@[i as int],
        ));
        assert(probe_args(probes@) =~= probe_args(before).push(views(p.args@)));
        assert(probe_errors(probes@) =~= probe_errors(before).push(p.missing));
        assert(probes@.take(head.len() as int) =~= before.take(head.len() as int));
        i = i + 1;
    }
    assert(state.added_routes@.take(i as int) =~= state.added_routes@);
    probes
}


/// Every route that the WireGuard state records as added is removed on clean-up
/// and checked on verification; the interface and the stale `floppa0` are deleted.
pub proof fn added_routes_checked_and_removed(state: NetworkState, i: int)
    requires
        0 <= i < state.added_routes@.len(),
    ensures
        cleanup_commands(state).contains(
            ip_args_spec(seq!["route"@, "del"@, state.added_routes@[i]@, "dev"@, state.interface@]),
        ),
        verify_commands(state).contains(
            ip_args_spec(seq!["route"@, "show"@, state.added_routes@[i]@]),
        ),
        verify_errors(state).contains(
            VerifyError::RouteMissing { route: state.added_routes@[i], interface: state.interface },
        ),
        cleanup_commands(state).contains(ip_args_spec(seq!["link"@, "del"@, state.interface@])),
        cleanup_commands(state).contains(ip_args_spec(seq!["link"@, "del"@, stale_interface()])),
{
    let c = cleanup_commands(state);
    let ep_len: int = match endpoint_pair(state.endpoint_route, state.endpoint_gateway) {
        Some(_) => 1,
        None => 0,
    };
    assert(c[ep_len + i] == ip_args_spec(
        seq!["route"@, "del"@, state.added_routes@[i]@, "dev"@, state.interface@],
    ));
    let n = ep_len + state.added_routes@.len();
    assert(c[n] == ip_args_spec(seq!["link"@, "del"@, state.interface@]));
    if state.interface@ == stale_interface() {
        assert(c[n] == ip_args_spec(seq!["link"@, "del"@, stale_interface()]));
    } else {
        assert(c[n + 1] == ip_args_spec(seq!["link"@, "del"@, stale_interface()]));
    }
    let v = verify_commands(state);
    assert(v[1 + ep_len + i] == ip_args_spec(seq!["route"@, "show"@, state.added_routes@[i]@]));
    let e = verify_errors(state);
    assert(e[1 + ep_len + i] == VerifyError::RouteMissing {
        route: state.added_routes@[i],
        interface: state.interface,
    });
}

/// A recorded endpoint route is removed on clean-up through the gateway it was
/// added through, and checked on verification.
pub proof fn endpoint_route_checked_and_removed(state: NetworkState)
    requires
        state.endpoint_route is Some,
        state.endpoint_gateway is Some,
    ensures
        cleanup_commands(state)[0] == ip_args_spec(
            seq![
                "route"@,
                "del"@,
                state.endpoint_route->Some_0@,
                "via"@,
                state.endpoint_gateway->Some_0@,
            ],
        ),
        verify_commands(state)[1] == ip_args_spec(
            seq!["route"@, "show"@, state.endpoint_route->Some_0@],
        ),
{
}

/// `-6` is added exactly for IPv6 arguments, at most once, and the arguments
/// themselves are kept in order.
pub proof fn ip_args_keeps_arguments(args: Seq<Seq<char>>)
    ensures
        ip_args_spec(args).len() == args.len() || ip_args_spec(args) == seq!["-6"@] + args,
        ip_args_spec(args).subrange(ip_args_spec(args).len() - args.len(), ip_args_spec(args).len() as int) == args,
        (exists|i: int| 0 <= i < args.len() && is_ipv6_arg(#[trigger] args[i])) ==> ip_args_spec(args)[0] == "-6"@,
{
    let r = ip_args_spec(args);
    if exists|i: int| 0 <= i < args.len() && is_ipv6_arg(#[trigger] args[i]) {
        assert(r.subrange(1, r.len() as int) =~= args);
    } else {
        assert(r.subrange(0, r.len() as int) =~= args);
    }
}


/// The word after `via` is one of the words.
proof fn lemma_after_via_is_member(ws: Seq<Seq<char>>)
    ensures
        word_after_via(ws) matches Some(g) ==> exists|i: int| 0 <= i < ws.len() && ws[i] == g,
    decreases ws.len(),
{
    if ws.len() > 0 && ws[0] != "via"@ {
        lemma_after_via_is_member(ws.drop_first());
        if let Some(g) = word_after_via(ws) {
            let i = choose|i: int| 0 <= i < ws.drop_first().len() && ws.drop_first()[i] == g;
            assert(ws[i + 1] == g);
        }
    }
}

/// The gateway read from `ip route` output is a single word: non-empty and
/// free of white space.
pub proof fn gateway_is_a_word(route_output: Seq<char>)
    ensures
        word_after_via(words(route_output)) matches Some(g) ==> is_word(g),
{
    words_are_words(route_output);
    lemma_after_via_is_member(words(route_output));
    if let Some(g) = word_after_via(words(route_output)) {
        let i = choose|i: int| 0 <= i < words(route_output).len() && words(route_output)[i] == g;
        assert(is_word(words(route_output)[i]));
    }
}


/// The gateway is the word right after the first `via`, whatever words come
/// before it (such as `dev`).
pub proof fn gateway_follows_first_via(ws: Seq<Seq<char>>, i: int)
    requires
        0 <= i,
        i + 1 < ws.len(),
        ws[i] == "via"@,
        forall|j: int| 0 <= j < i ==> ws[j] != "via"@,
    ensures
        word_after_via(ws) == Some(ws[i + 1]),
    decreases i,
{
    if i > 0 {
        assert forall|j: int| 0 <= j < i - 1 implies ws.drop_first()[j] != "via"@ by {
            assert(ws.drop_first()[j] == ws[j + 1]);
        }
        assert(ws[0] != "via"@);
        gateway_follows_first_via(ws.drop_first(), i - 1);
    }
}

/// Without a `via` followed by a word there is no gateway.
pub proof fn no_gateway_without_via(ws: Seq<Seq<char>>)
    requires
        forall|j: int| 0 <= j < ws.len() - 1 ==> ws[j] != "via"@,
    ensures
        word_after_via(ws) is None,
    decreases ws.len(),
{
    if ws.len() > 1 {
        assert(ws[0] != "via"@);
        assert forall|j: int| 0 <= j < ws.drop_first().len() - 1 implies ws.drop_first()[j] != "via"@ by {
            assert(ws.drop_first()[j] == ws[j + 1]);
        }
        no_gateway_without_via(ws.drop_first());
    } else if ws.len() == 1 && ws[0] != "via"@ {
        assert(ws.drop_first().len() == 0);
        assert(word_after_via(ws.drop_first()) is None);
    }
}

/// Disconnecting a WireGuard tunnel always deletes its interface and the stale
/// `floppa0`, whatever else the state records.
pub proof fn cleanup_always_removes_links(state: NetworkState)
    ensures
        cleanup_commands(state).contains(ip_args_spec(seq!["link"@, "del"@, state.interface@])),
        cleanup_commands(state).contains(ip_args_spec(seq!["link"@, "del"@, "floppa0"@])),
{
    let c = cleanup_commands(state);
    let ep_len: int = match endpoint_pair(state.endpoint_route, state.endpoint_gateway) {
        Some(_) => 1,
        None => 0,
    };
    let n = ep_len + state.added_routes@.len();
    assert(c[n] == ip_args_spec(seq!["link"@, "del"@, state.interface@]));
    if state.interface@ == "floppa0"@ {
        assert(c[n] == ip_args_spec(seq!["link"@, "del"@, "floppa0"@]));
    } else {
        assert(c[n + 1] == ip_args_spec(seq!["link"@, "del"@, "floppa0"@]));
    }
}


/// Arguments without any colon (IPv4 routes, interface names, keywords) are
/// passed to `ip` unchanged.
pub proof fn ip_args_leaves_colon_free_arguments(args: Seq<Seq<char>>)
    requires
        forall|i: int, k: int| 0 <= i < args.len() && 0 <= k < args[i].len() ==> #[trigger] args[i][k] != ':',
    ensures
        ip_args_spec(args) == args,
{
    assert forall|i: int| 0 <= i < args.len() implies !is_ipv6_arg(#[trigger] args[i]) by {
        if has_double_colon(args[i]) {
            let k = choose|k: int| 0 <= k < args[i].len() - 1 && #[trigger] args[i][k] == ':' && args[i][k + 1] == ':';
            assert(args[i][k] != ':');
        }
        if two_colons(args[i]) {
            let (a, b) = choose|a: int, b: int| 0 <= a < b < args[i].len() && #[trigger] args[i][a] == ':' && #[trigger] args[i][b] == ':';
            assert(args[i][a] != ':');
        }
    }
}

/// An argument holding `::`, or written in hexadecimal digits, colons, dots and
/// slashes with at least two colons (a full IPv6 address or route), puts `-6`
/// in front of the arguments.
pub proof fn ip_args_flags_ipv6(args: Seq<Seq<char>>, i: int)
    requires
        0 <= i < args.len(),
        (exists|k: int| 0 <= k < args[i].len() - 1 && #[trigger] args[i][k] == ':' && args[i][k + 1] == ':')
            || ((forall|k: int| 0 <= k < args[i].len() ==> {
                let c = #[trigger] args[i][k];
                ('0' <= c <= '9') || ('a' <= c <= 'f') || ('A' <= c <= 'F') || c == ':' || c == '.' || c == '/'
            }) && exists|a: int, b: int| 0 <= a < b < args[i].len() && #[trigger] args[i][a] == ':' && #[trigger] args[i][b] == ':'),
    ensures
        ip_args_spec(args) == seq!["-6"@] + args,
{
    assert(is_ipv6_arg(args[i]));
}


/// 1 when the state records an endpoint route and its gateway, else 0.
pub open spec fn endpoint_count(state: NetworkState) -> int {
    if state.endpoint_route is Some && state.endpoint_gateway is Some {
        1
    } else {
        0
    }
}

/// Verification always checks the interface first, then one route per
/// recorded route (plus the endpoint route when recorded).
pub proof fn verification_checks_interface_first(state: NetworkState)
    ensures
        verify_commands(state)[0] == ip_args_spec(seq!["link"@, "show"@, state.interface@]),
        verify_errors(state)[0] == (VerifyError::InterfaceDown { interface: state.interface }),
        verify_commands(state).len() == verify_errors(state).len(),
        verify_commands(state).len() == 1 + state.added_routes@.len() + endpoint_count(state),
{
}

} // verus!
