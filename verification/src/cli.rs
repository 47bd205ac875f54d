//! Decisions of the command-line front end: which tunnel a configuration is
//! for, what disconnecting undoes, and which peers a delete request names.

use vstd::prelude::*;

use crate::net::views2;
use crate::text::{
    all_ws, has_prefix, is_ws, starts_with, trim_str, trimmed, trimmed_drops_only_outer_white_space,
};

verus! {

/// Whether a configuration text is a VLESS link: once trimmed it starts with `vless://`.
pub fn is_vless(config_str: &str) -> (r: bool)
    ensures
        r == has_prefix(trimmed(config_str@), "vless://"@),
{
    let t = trim_str(config_str);
    starts_with(t.as_str(), "vless://")
}

/// The tunnel whose networking disconnecting takes down.
#[derive(Clone, Debug)]
pub enum CleanupTunnel {
    WireGuard(crate::net::NetworkState),
    Vless(crate::vless::NetworkState),
}

/// What disconnecting must undo.
#[derive(Clone, Debug)]
pub struct CleanupKind {
    pub dns: bool,
    pub tunnel: CleanupTunnel,
}

/// What disconnecting does, in order: restore DNS (when flagged), then run the
/// tunnel's quiet clean-up commands.
#[derive(Clone, Debug)]
pub struct CleanupPlan {
    pub restore_dns: bool,
    pub commands: Vec<Vec<String>>,
}

impl CleanupKind {
    /// Clean-up for a WireGuard tunnel; `dns` says whether DNS was changed.
    pub fn wireguard(state: crate::net::NetworkState, dns: bool) -> (r: Self)
        ensures
            r.dns == dns,
            r.tunnel == CleanupTunnel::WireGuard(state),
    {
        Self { dns, tunnel: CleanupTunnel::WireGuard(state) }
    }

    /// Clean-up for a VLESS tunnel; `dns` says whether DNS was changed.
    pub fn vless(state: crate::vless::NetworkState, dns: bool) -> (r: Self)
        ensures
            r.dns == dns,
            r.tunnel == CleanupTunnel::Vless(state),
    {
        Self { dns, tunnel: CleanupTunnel::Vless(state) }
    }

    /// The clean-up to perform.
    pub fn cleanup(&self) -> (r: CleanupPlan)
        ensures
            r.restore_dns == self.dns,
            views2(r.commands@) == match self.tunnel {
                CleanupTunnel::WireGuard(s) => crate::net::cleanup_commands(s),
                CleanupTunnel::Vless(s) => crate::vless::cleanup_commands(s),
            },
    {
        let commands = match &self.tunnel {
            CleanupTunnel::WireGuard(state) => crate::net::cleanup_networking(state),
            CleanupTunnel::Vless(state) => crate::vless::cleanup_networking(state),
        };
        CleanupPlan { restore_dns: self.dns, commands }
    }
}

/// A peer as the delete command sees it.
#[derive(Clone, Debug)]
pub struct PeerInfo {
    pub id: i64,
    pub protocol: String,
    pub device_id: Option<String>,
}

/// Why a delete request names no peers.
#[derive(Clone, Copy, Debug, PartialEq, Eq, Structural)]
pub enum SelectError {
    /// None of `--peer-id`, `--protocol` or `--all` was given.
    NoSelector,
}

/// Whether the peer list and this device's identity are needed to answer the request.
pub fn needs_peer_list(protocol: &Option<String>, all: bool) -> (r: bool)
    ensures
        r == (protocol.is_some() || all),
{
    protocol.is_some() || all
}

/// The ids of the peers of `protocol` that belong to device `device`, in order.
pub open spec fn matching_ids(peers: Seq<PeerInfo>, protocol: Seq<char>, device: Seq<char>) -> Seq<i64>
    decreases peers.len(),
{
    if peers.len() == 0 {
        Seq::<i64>::empty()
    } else {
        let rest = matching_ids(peers.drop_last(), protocol, device);
        let p = peers.last();
        if peer_matches(p, protocol, device) {
            rest.push(p.id)
        } else {
            rest
        }
    }
}

/// The ids of all peers, in order.
pub open spec fn all_ids(peers: Seq<PeerInfo>) -> Seq<i64> {
    peers.map_values(|p: PeerInfo| p.id)
}

/// The peers a delete request names: the exact `peer_id` when given; else, with
/// `protocol`, this device's peers of that protocol; else, with `all`, every peer.
pub fn select_peer_ids(
    peer_id: Option<i64>,
    protocol: &Option<String>,
    all: bool,
    peers: &Vec<PeerInfo>,
    device_id: &str,
) -> (r: Result<Vec<i64>, SelectError>)
    ensures
        peer_id matches Some(id) ==> (r matches Ok(v) && v@ == seq![id]),
        (peer_id is None && protocol is Some) ==> (r matches Ok(v) && v@ == matching_ids(
            peers@,
            protocol->Some_0@,
            device_id@,
        )),
        (peer_id is None && protocol is None && all) ==> (r matches Ok(v) && v@ == all_ids(
            peers@,
        )),
        (peer_id is None && protocol is None && !all) ==> r == Err::<Vec<i64>, SelectError>(
            SelectError::NoSelector,
        ),
{
    let mut ids: Vec<i64> = Vec::new();
    match peer_id {
        Some(id) => {
            ids.push(id);
            assert(ids@ =~= seq![id]);
            return Ok(ids);
        },
        None => {},
    }
    match protocol {
        Some(proto) => {
            let dev = device_id.to_owned();
            let mut i: usize = 0;
            assert(peers@.take(0) =~= Seq::<PeerInfo>::empty());
            while i < peers.len()
                invariant
                    i <= peers@.len(),
                    dev@ == device_id@,
                    ids@ =~= matching_ids(peers@.take(i as int), proto@, device_id@),
                decreases peers@.len() - i,
            {
                let p = &peers[i];
                assert(peers@.take(i + 1).drop_last() =~= peers@.take(i as int));
                assert(peers@.take(i + 1).last() == *p);
                let same_device = match &p.device_id {
                    Some(d) => *d == dev,
                    None => false,
                };
                if p.protocol == *proto && same_device {
                    ids.push(p.id);
                }
                i = i + 1;
            }
            assert(peers@.take(i as int) =~= peers@);
            Ok(ids)
        },
        None => {
            if all {
                let mut i: usize = 0;
                while i < peers.len()
                    invariant
                        i <= peers@.len(),
                        ids@ =~= all_ids(peers@.take(i as int)),
                    decreases peers@.len() - i,
                {
                    ids.push(peers[i].id);
                    assert(peers@.take(i + 1) =~= peers@.take(i as int).push(peers@[i as int]));
                    i = i + 1;
                }
                assert(peers@.take(i as int) =~= peers@);
                Ok(ids)
            } else {
                Err(SelectError::NoSelector)
            }
        },
    }
}


/// Peer `p` has protocol `protocol` and belongs to device `device`.
pub open spec fn peer_matches(p: PeerInfo, protocol: Seq<char>, device: Seq<char>) -> bool {
    p.protocol@ == protocol && (p.device_id matches Some(d) && d@ == device)
}

/// A delete by protocol names only this device's peers of exactly that
/// protocol, and every one of them.
pub proof fn selected_peers_match(peers: Seq<PeerInfo>, protocol: Seq<char>, device: Seq<char>)
    ensures
        forall|k: int|
            #![trigger matching_ids(peers, protocol, device)[k]]
            0 <= k < matching_ids(peers, protocol, device).len() ==> exists|j: int|
                0 <= j < peers.len() && (#[trigger] peers[j]).id == matching_ids(
                    peers,
                    protocol,
                    device,
                )[k] && peers[j].protocol@ == protocol && peers[j].device_id is Some
                    && peers[j].device_id->Some_0@ == device,
        forall|j: int|
            0 <= j < peers.len() && (#[trigger] peers[j]).protocol@ == protocol
                && peers[j].device_id is Some && peers[j].device_id->Some_0@ == device
                ==> matching_ids(peers, protocol, device).contains(peers[j].id),
    decreases peers.len(),
{
    if peers.len() > 0 {
        let init = peers.drop_last();
        selected_peers_match(init, protocol, device);
        let m = matching_ids(peers, protocol, device);
        let mi = matching_ids(init, protocol, device);
        if peer_matches(peers.last(), protocol, device) {
            assert(m == mi.push(peers.last().id));
        } else {
            assert(m == mi);
        }
        assert forall|k: int| #![trigger m[k]] 0 <= k < m.len() implies exists|j: int|
            0 <= j < peers.len() && (#[trigger] peers[j]).id == m[k] && peer_matches(
                peers[j],
                protocol,
                device,
            ) by {
            if k < mi.len() {
                let j = choose|j: int|
                    0 <= j < init.len() && (#[trigger] init[j]).id == mi[k] && peer_matches(
                        init[j],
                        protocol,
                        device,
                    );
                assert(peers[j] == init[j]);
            } else {
                assert(peers[peers.len() - 1] == peers.last());
            }
        }
        assert forall|j: int|
            0 <= j < peers.len() && peer_matches(#[trigger] peers[j], protocol, device) implies m.contains(
            peers[j].id) by {
            if j < peers.len() - 1 {
                assert(init[j] == peers[j]);
                let k = choose|k: int| 0 <= k < mi.len() && mi[k] == peers[j].id;
                assert(m[k] == mi[k]);
            } else {
                assert(m[m.len() - 1] == peers[j].id);
            }
        }
    }
}


/// A `vless://` link is recognised whatever white space surrounds it.
pub proof fn vless_link_recognised(w: Seq<char>, t: Seq<char>)
    requires
        all_ws(w),
    ensures
        has_prefix(trimmed(w + "vless://"@ + t), "vless://"@),
{
    reveal_strlit("vless://");
    let v = "vless://"@;
    let s = w + v + t;
    let n = w.len() as int;
    trimmed_drops_only_outer_white_space(s);
    let (a, b) = choose|a: int, b: int|
        0 <= a <= b <= s.len() && all_ws(#[trigger] s.take(a)) && all_ws(#[trigger] s.skip(b))
            && trimmed(s) == s.subrange(a, b);
    assert forall|j: int| n <= j < n + 8 implies !is_ws(#[trigger] s[j]) by {
        assert(s[j] == v[j - n]);
    }
    if a > n {
        assert(s.take(a)[n] == s[n]);
    }
    if a < n {
        assert(s.subrange(a, b).len() > 0) by {
            if b <= a {
                assert(s.skip(b)[n - b] == s[n]);
            }
        }
        assert(trimmed(s)[0] == s[a]);
        assert(s[a] == w[a]);
    }
    if b < n + 8 {
        assert(s.skip(b)[n + 7 - b] == s[n + 7]);
    }
    assert(trimmed(s).take(8) =~= v);
}

/// Text whose trimmed form does not begin with `vless://` is not a VLESS link:
/// the check is exactly a prefix test on the trimmed text.
pub proof fn non_links_rejected(s: Seq<char>)
    requires
        !has_prefix(trimmed(s), "vless://"@),
    ensures
        !(exists|w: Seq<char>, t: Seq<char>| all_ws(w) && s == #[trigger] (w + "vless://"@ + t)),
{
    if exists|w: Seq<char>, t: Seq<char>| all_ws(w) && s == #[trigger] (w + "vless://"@ + t) {
        let (w, t) = choose|w: Seq<char>, t: Seq<char>| all_ws(w) && s == #[trigger] (w + "vless://"@ + t);
        vless_link_recognised(w, t);
    }
}


/// A delete of all peers names every peer's id, in order.
pub proof fn all_names_every_peer(peers: Seq<PeerInfo>)
    ensures
        all_ids(peers).len() == peers.len(),
        forall|k: int| 0 <= k < peers.len() ==> all_ids(peers)[k] == (#[trigger] peers[k]).id,
{
}

} // verus!
