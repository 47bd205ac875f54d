//! Where DNS servers go while the tunnel is up, and how the host's DNS comes back.

use vstd::prelude::*;

use crate::text::{lemma_split_on_append_plain, lemma_split_on_append_sep, lemma_split_on_nonempty, split_char, split_on, trim_str, trimmed, views};

verus! {

/// What the host's resolver configuration looks like, as plain facts.
/// `resolvectl_available` is only consulted when `is_symlink` holds.
#[derive(Clone, Copy, Debug)]
pub struct ResolvEnv {
    /// `/etc/resolv.conf` is a symbolic link (systemd-resolved's stub).
    pub is_symlink: bool,
    /// `resolvectl --version` ran and succeeded.
    pub resolvectl_available: bool,
    /// `/etc/resolv.conf` exists.
    pub resolv_exists: bool,
    /// The backup `/etc/resolv.conf.floppa-backup` exists.
    pub backup_exists: bool,
}

/// How to install DNS servers.
#[derive(Clone, Debug)]
pub enum DnsPlan {
    /// Nothing to do: there are no servers.
    Unchanged,
    /// Hand all servers to systemd-resolved in one `resolvectl <args>` run
    /// (each run replaces the link's whole server list).
    Resolvectl { args: Vec<String> },
    /// Write `content` to `/etc/resolv.conf`, first copying the file to the
    /// backup when `backup_first` holds.
    WriteFile { backup_first: bool, content: String },
}

/// The resolver file naming `servers`: one `nameserver <s>` line each.
pub open spec fn resolv_content(servers: Seq<Seq<char>>) -> Seq<char>
    decreases servers.len(),
{
    if servers.len() == 0 {
        Seq::<char>::empty()
    } else {
        resolv_content(servers.drop_last()) + "nameserver "@ + servers.last() + "\n"@
    }
}

/// The `resolvectl` arguments that give all `servers` to `iface`.
pub open spec fn resolvectl_args(servers: Seq<Seq<char>>, iface: Seq<char>) -> Seq<Seq<char>> {
    seq!["dns"@, iface] + servers
}

/// DNS goes through systemd-resolved: the resolver file is its symlink and
/// `resolvectl` works.
pub open spec fn uses_resolvectl(env: ResolvEnv) -> bool {
    env.is_symlink && env.resolvectl_available
}

/// `plan` installs `servers` for `iface` in the environment `env`.
pub open spec fn is_dns_plan(servers: Seq<Seq<char>>, iface: Seq<char>, env: ResolvEnv, plan: DnsPlan) -> bool {
    if servers.len() == 0 {
        plan is Unchanged
    } else if uses_resolvectl(env) {
        plan matches DnsPlan::Resolvectl { args } && views(args@) == resolvectl_args(servers, iface)
    } else {
        plan matches DnsPlan::WriteFile { backup_first, content } && backup_first == (
        env.resolv_exists && !env.backup_exists) && content@ == resolv_content(servers)
    }
}

/// The resolver file content for `servers`.
pub fn resolv_conf(servers: &Vec<String>) -> (r: String)
    ensures
        r@ == resolv_content(views(servers@)),
{
    let mut out = String::new();
    let mut i: usize = 0;
    assert(views(servers@).take(0) =~= Seq::<Seq<char>>::empty());
    while i < servers.len()
        invariant
            i <= servers@.len(),
            out@ == resolv_content(views(servers@).take(i as int)),
        decreases servers@.len() - i,
    {
        out.append("nameserver ");
        out.append(servers[i].as_str());
        out.append("\n");
        assert(views(servers@).take(i + 1).drop_last() =~= views(servers@).take(i as int));
        assert(views(servers@).take(i + 1).last() == servers@[i as int]@);
        i = i + 1;
    }
    assert(views(servers@).take(i as int) =~= views(servers@));
    out
}

/// Install DNS servers: through one `resolvectl dns <interface> <servers...>`
/// when `/etc/resolv.conf` is a systemd-resolved symlink and `resolvectl` works,
/// else by writing
/// `/etc/resolv.conf`, backing up the current file first unless a backup exists.
pub fn write_dns(servers: &Vec<String>, interface: &str, env: &ResolvEnv) -> (r: DnsPlan)
    ensures
        is_dns_plan(views(servers@), interface@, *env, r),
{
    if servers.len() == 0 {
        return DnsPlan::Unchanged;
    }
    if env.is_symlink && env.resolvectl_available {
        let mut args: Vec<String> = Vec::new();
        args.push(String::from_str("dns"));
        args.push(interface.to_owned());
        let ghost head = views(args@);
        assert(head =~= seq!["dns"@, interface@]);
        let mut i: usize = 0;
        while i < servers.len()
            invariant
                i <= servers@.len(),
                views(args@) =~= head + views(servers@).take(i as int),
            decreases servers@.len() - i,
        {
            let ghost before = views(args@);
            args.push(servers[i].clone());
            assert(views(args@) =~= before.push(servers@[i as int]@));
            assert(views(servers@).take(i + 1) =~= views(servers@).take(i as int).push(
                servers@[i as int]@,
            ));
            i = i + 1;
        }
        assert(views(servers@).take(i as int) =~= views(servers@));
        return DnsPlan::Resolvectl { args };
    }
    DnsPlan::WriteFile {
        backup_first: env.resolv_exists && !env.backup_exists,
        content: resolv_conf(servers),
    }
}

/// Install the DNS servers of a WireGuard configuration (`servers` is what the
/// configuration lists); nothing happens when it lists none.
pub fn set_dns(servers: &Vec<String>, interface: &str, env: &ResolvEnv) -> (r: DnsPlan)
    ensures
        is_dns_plan(views(servers@), interface@, *env, r),
{
    if servers.len() == 0 {
        return DnsPlan::Unchanged;
    }
    write_dns(servers, interface, env)
}

/// The DNS servers of a comma-separated list, each trimmed.
pub fn dns_servers_from(dns: &str) -> (r: Vec<String>)
    ensures
        views(r@) == split_on(dns@, ',').map_values(|s: Seq<char>| trimmed(s)),
        r@.len() >= 1,
{
    let pieces = split_char(dns, ',');
    proof {
        lemma_split_on_nonempty(dns@, ',');
    }
    let ghost pv = views(pieces@);
    let mut out: Vec<String> = Vec::new();
    let mut i: usize = 0;
    while i < pieces.len()
        invariant
            i <= pieces@.len(),
            pv == views(pieces@),
            pv == split_on(dns@, ','),
            views(out@) =~= pv.take(i as int).map_values(|s: Seq<char>| trimmed(s)),
        decreases pieces@.len() - i,
    {
        let t = trim_str(pieces[i].as_str());
        let ghost before = views(out@);
        out.push(t);
        assert(views(out@) =~= before.push(trimmed(pv[i as int])));
        assert(pv.take(i + 1) =~= pv.take(i as int).push(pv[i as int]));
        i = i + 1;
    }
    assert(pv.take(i as int) =~= pv);
    out
}

/// How to bring the host's DNS back.
#[derive(Clone, Copy, Debug, PartialEq, Eq, Structural)]
pub enum RestorePlan {
    /// No backup was taken: nothing to do.
    Nothing,
    /// DNS went through systemd-resolved, which owns the resolver file: leave it
    /// and delete the backup.
    DiscardBackup,
    /// Copy the backup over `/etc/resolv.conf` (through its symlink, if it is
    /// one), then delete the backup.
    RestoreFromBackup,
}

/// The restore decision: a backup is copied back whenever DNS was installed by
/// writing the resolver file, that is unless systemd-resolved handled it.
pub open spec fn restore_plan(env: ResolvEnv) -> RestorePlan {
    if !env.backup_exists {
        RestorePlan::Nothing
    } else if uses_resolvectl(env) {
        RestorePlan::DiscardBackup
    } else {
        RestorePlan::RestoreFromBackup
    }
}

/// Bring back the DNS configuration saved before the tunnel.
pub fn restore_dns(env: &ResolvEnv) -> (r: RestorePlan)
    ensures
        r == restore_plan(*env),
{
    if !env.backup_exists {
        RestorePlan::Nothing
    } else if env.is_symlink && env.resolvectl_available {
        RestorePlan::DiscardBackup
    } else {
        RestorePlan::RestoreFromBackup
    }
}

/// The environment after a plan ran: a backup exists if it did before or the
/// plan took one.
pub open spec fn env_after(env: ResolvEnv, plan: DnsPlan) -> ResolvEnv {
    ResolvEnv {
        backup_exists: env.backup_exists || (plan matches DnsPlan::WriteFile { backup_first, .. } && backup_first),
        ..env
    }
}

/// Whenever installing DNS writes the resolver file (a plain file, or a symlink
/// without a working `resolvectl`) and no earlier backup exists, it backs the
/// file up first, and restoring copies that backup back.
pub proof fn restore_undoes_write(servers: Seq<Seq<char>>, iface: Seq<char>, env: ResolvEnv, plan: DnsPlan)
    requires
        servers.len() > 0,
        is_dns_plan(servers, iface, env, plan),
        !uses_resolvectl(env),
        env.resolv_exists,
        !env.backup_exists,
    ensures
        plan matches DnsPlan::WriteFile { backup_first, content } && backup_first,
        restore_plan(env_after(env, plan)) == RestorePlan::RestoreFromBackup,
{
}

/// On a systemd-resolved host where `resolvectl` works, installing DNS leaves the
/// resolver file alone and takes no backup, and restoring never writes it.
pub proof fn resolved_symlink_never_written(
    servers: Seq<Seq<char>>,
    iface: Seq<char>,
    env: ResolvEnv,
    plan: DnsPlan,
)
    requires
        is_dns_plan(servers, iface, env, plan),
        uses_resolvectl(env),
    ensures
        !(plan is WriteFile),
        env_after(env, plan).backup_exists == env.backup_exists,
        restore_plan(env_after(env, plan)) != RestorePlan::RestoreFromBackup,
{
}

/// The resolver file holds exactly one `nameserver` line per server, in order.
pub proof fn resolv_content_lines(servers: Seq<Seq<char>>, k: int)
    requires
        0 <= k < servers.len(),
    ensures
        ({
            let before = resolv_content(servers.take(k));
            let line = "nameserver "@ + servers[k] + "\n"@;
            resolv_content(servers.take(k + 1)) == before + line
        }),
{
    assert(servers.take(k + 1).drop_last() =~= servers.take(k));
}


/// `s` holds no line break.
pub open spec fn single_line(s: Seq<char>) -> bool {
    forall|k: int| 0 <= k < s.len() ==> s[k] != '\n'
}

/// The lines of the resolver file for `servers`: `nameserver <s>` for each
/// server, in order, then the empty rest after the final line break.
pub proof fn resolv_content_splits_into_lines(servers: Seq<Seq<char>>)
    requires
        forall|i: int| 0 <= i < servers.len() ==> single_line(#[trigger] servers[i]),
    ensures
        split_on(resolv_content(servers), '\n') == servers.map_values(
            |s: Seq<char>| "nameserver "@ + s,
        ).push(Seq::<char>::empty()),
    decreases servers.len(),
{
    reveal_strlit("nameserver ");
    reveal_strlit("\n");
    if servers.len() == 0 {
        assert(split_on(Seq::<char>::empty(), '\n') =~= seq![Seq::<char>::empty()]);
        assert(servers.map_values(|s: Seq<char>| "nameserver "@ + s).push(Seq::<char>::empty())
            =~= seq![Seq::<char>::empty()]);
    } else {
        let init = servers.drop_last();
        assert forall|i: int| 0 <= i < init.len() implies single_line(#[trigger] init[i]) by {
            assert(init[i] == servers[i]);
        }
        resolv_content_splits_into_lines(init);
        let r = resolv_content(init);
        let line = "nameserver "@ + servers.last();
        assert(single_line(servers[servers.len() - 1]));
        assert forall|k: int| 0 <= k < line.len() implies line[k] != '\n' by {
            if k >= 11 {
                assert(line[k] == servers.last()[k - 11]);
            }
        }
        lemma_split_on_append_plain(r, line, '\n');
        lemma_split_on_append_sep(r + line, '\n');
        assert(resolv_content(servers) =~= (r + line).push('\n'));
        let m0 = init.map_values(|s: Seq<char>| "nameserver "@ + s);
        let p = m0.push(Seq::<char>::empty());
        assert(p.last() + line =~= line);
        assert(p.update(p.len() - 1, p.last() + line) =~= m0.push(line));
        assert(servers.map_values(|s: Seq<char>| "nameserver "@ + s) =~= m0.push(line));
    }
}

/// When DNS is installed by writing the resolver file, the file's lines are
/// exactly `nameserver <s>` for every given server, in order.
pub proof fn written_file_names_every_server(
    servers: Seq<Seq<char>>,
    iface: Seq<char>,
    env: ResolvEnv,
    plan: DnsPlan,
)
    requires
        servers.len() > 0,
        !(env.is_symlink && env.resolvectl_available),
        is_dns_plan(servers, iface, env, plan),
        forall|i: int| 0 <= i < servers.len() ==> single_line(#[trigger] servers[i]),
    ensures
        plan matches DnsPlan::WriteFile { content, .. } && split_on(content@, '\n')
            == servers.map_values(|s: Seq<char>| "nameserver "@ + s).push(Seq::<char>::empty()),
{
    resolv_content_splits_into_lines(servers);
}


/// On a systemd-resolved host, DNS is installed by one `resolvectl dns
/// <interface> <servers...>` that names every server, in order.
pub proof fn resolvectl_names_every_server(
    servers: Seq<Seq<char>>,
    iface: Seq<char>,
    env: ResolvEnv,
    plan: DnsPlan,
)
    requires
        servers.len() > 0,
        env.is_symlink && env.resolvectl_available,
        is_dns_plan(servers, iface, env, plan),
    ensures
        plan matches DnsPlan::Resolvectl { args } && views(args@).len() == servers.len() + 2
            && views(args@)[0] == "dns"@ && views(args@)[1] == iface && forall|k: int|
            0 <= k < servers.len() ==> views(args@)[k + 2] == #[trigger] servers[k],
{
}


/// Without a backup there is nothing to restore.
pub proof fn no_backup_nothing_to_restore(env: ResolvEnv)
    requires
        !env.backup_exists,
    ensures
        restore_plan(env) == RestorePlan::Nothing,
{
}

} // verus!
