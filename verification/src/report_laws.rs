//! What is reported to the user, and what is made of the user's words.

use crate::endpoint::EndpointId;
use crate::json::{
    bool_at, either_field, either_text, items_at, json_field_of, json_items_of, json_text_of,
};
use crate::local_api::{
    action_of, any_connected, code_of, direction_of, entries_of, first_refusal, idle_leaves,
    kept_alive, netcheck, peer_meant, pool_kept_alive, probe_count, probed, protocol_of, relay_word,
    seconds_until, ui_leaves, ApiErrorCode, FirewallAction, FirewallDirection, FirewallStats,
    LocalUi, Permission, PingNext, PingRun, Protocol, RelayState,
};
use crate::lookup::{host_peer, route_of};
use crate::membership::{HostnameRouteView, SubnetRouteView};
use crate::net::dotted;
use crate::net_text::law_address_text_is_unique;
use crate::policy_key::uuid_hyphenated;
use crate::pool::PoolView;
use crate::ssh_api::{
    recording_of, rendered, session_of, trim_start_of, unquoted, SshRecordingFields,
    SshSessionFields,
};
use crate::summaries::{
    cut_at, direct_place, firewall_of, host_infos, is_listed, network_summary, online_count,
    peer_summary, presence_of, subnet_infos, summaries_of, via_name, DirectRecord, NodeFacts,
    PeerSummaryView, PersistedState, Presence,
};
use crate::tables::{PeerView, TableModel};
use crate::text::{lower, trim_end_of};
use crate::tunnel_mesh::MeshView;
use vstd::prelude::*;

verus! {

/// A text holds a word somewhere.
pub open spec fn has_word(text: Seq<char>, word: Seq<char>) -> bool {
    exists|i: int|
        0 <= i && i + word.len() <= text.len() && #[trigger] text.subrange(i, i + word.len())
            == word
}

/// An error whose message speaks of something missing is a `NotFound`, whatever
/// else it says; of the others one that speaks of a denial is a `Denied`, and
/// one in which none of the known words stands is `Internal`.
#[verifier::rlimit(40)]
pub proof fn law_kinds_of_errors(m: Seq<char>)
    ensures
        has_word(lower(m), "not found"@) || has_word(lower(m), "no peer"@) || has_word(
            lower(m),
            "no pending"@,
        ) || has_word(lower(m), "missing"@) <==> code_of(m) == ApiErrorCode::NotFound,
        code_of(m) != ApiErrorCode::NotFound ==> (has_word(lower(m), "denied"@) || has_word(
            lower(m),
            "unauthorized"@,
        ) || has_word(lower(m), "only the coordinator"@) || has_word(lower(m), "permission"@)
            || has_word(lower(m), "reject"@) <==> code_of(m) == ApiErrorCode::Denied),
        code_of(m) == ApiErrorCode::DataPlaneDown ==> has_word(lower(m), "data plane"@),
        code_of(m) == ApiErrorCode::Internal ==> !has_word(lower(m), "invalid"@) && !has_word(
            lower(m),
            "must be"@,
        ) && !has_word(lower(m), "parse"@) && !has_word(lower(m), "usage:"@) && !has_word(
            lower(m),
            "data plane"@,
        ) && !has_word(lower(m), "not enrolled"@),
{
    let low = lower(m);
    assert forall|w: Seq<char>| #[trigger] crate::local_api::says(m, w) == has_word(low, w) by {
        if crate::text::occurs(w, low) {
            let i = choose|i: int|
                0 <= i <= low.len() - w.len() && #[trigger] low.subrange(i, i + w.len()) == w;
            assert(low.subrange(i, i + w.len()) == w);
        }
        if has_word(low, w) {
            let i = choose|i: int|
                0 <= i && i + w.len() <= low.len() && #[trigger] low.subrange(i, i + w.len())
                    == w;
            assert(low.subrange(i, i + w.len()) == w);
        }
    }
}

/// Without a word of the control plane every permission stays; with the
/// interface switched off reading alone stays; otherwise each of three goes
/// where it is not allowed, and all others stay.
pub proof fn law_which_permissions_stay(ui: LocalUi, p: Permission)
    ensures
        ui_leaves(None, p),
        !ui.enabled ==> (ui_leaves(Some(ui), p) <==> p == Permission::StatusRead || p
            == Permission::EventsRead),
        ui.enabled ==> (ui_leaves(Some(ui), Permission::DataPlaneWrite) <==> ui.allow_disconnect),
        ui.enabled ==> (ui_leaves(Some(ui), Permission::Serve) <==> ui.allow_serve),
        ui.enabled ==> (ui_leaves(Some(ui), Permission::Tunnel) <==> ui.allow_tunnel),
        ui.enabled && p != Permission::DataPlaneWrite && p != Permission::Serve && p
            != Permission::Tunnel ==> ui_leaves(Some(ui), p),
        idle_leaves(p) <==> p == Permission::StatusRead || p == Permission::EventsRead || p
            == Permission::Lifecycle,
{
}

/// The seconds until a moment are whole ones that do not pass it, and the next
/// one would; there are none once the moment has come.
pub proof fn law_seconds_until_a_moment(at: (i64, i32), now: (i64, i32))
    ensures
        ({
            let left = (at.0 - now.0) * 1_000_000_000 + (at.1 - now.1);
            let n = seconds_until(at, now);
            &&& left <= 0 ==> n == 0
            &&& left > 0 ==> n * 1_000_000_000 <= left < (n + 1) * 1_000_000_000
        }),
{
}

/// The word for the relays: `connected` where one is, `disabled` where there is
/// none, and otherwise the first refusal or that none is connected.
pub proof fn law_word_for_the_relays(relays: Seq<RelayState>, at: int)
    requires
        0 <= at <= relays.len(),
        forall|i: int| 0 <= i < at ==> (#[trigger] relays[i]).auth_denied is None,
        at < relays.len() ==> relays[at].auth_denied is Some,
    ensures
        (exists|i: int| 0 <= i < relays.len() && (#[trigger] relays[i]).connected) ==> relay_word(
            relays,
        ) == "connected"@,
        relays.len() == 0 ==> relay_word(relays) == "disabled"@,
        relays.len() > 0 && !any_connected(relays) && at == relays.len() ==> relay_word(relays)
            == "disconnected"@,
        !any_connected(relays) && at < relays.len() && relays[at].auth_denied->0@.len() > 0
            ==> relay_word(relays) == "auth_denied: "@ + relays[at].auth_denied->0@,
        !any_connected(relays) && at < relays.len() && relays[at].auth_denied->0@.len() == 0
            ==> relay_word(relays) == "auth_denied"@,
{
    lemma_first_refusal(relays, at);
}

proof fn lemma_first_refusal(relays: Seq<RelayState>, at: int)
    requires
        0 <= at <= relays.len(),
        forall|i: int| 0 <= i < at ==> (#[trigger] relays[i]).auth_denied is None,
        at < relays.len() ==> relays[at].auth_denied is Some,
    ensures
        at < relays.len() ==> first_refusal(relays) == Some(relays[at].auth_denied->0@),
        at == relays.len() ==> first_refusal(relays) is None,
    decreases relays.len(),
{
    if relays.len() > 0 && at > 0 {
        assert(relays[0].auth_denied is None);
        let rest = relays.drop_first();
        assert forall|i: int| 0 <= i < at - 1 implies (#[trigger] rest[i]).auth_denied is None by {
            assert(rest[i] == relays[i + 1]);
        }
        if at < relays.len() {
            assert(rest[at - 1] == relays[at]);
        }
        lemma_first_refusal(rest, at - 1);
    }
}

/// The check of the node looks at four things, each under its name: that the
/// agent runs, that it has an address, that names are served and that a state
/// has arrived.
pub proof fn law_what_is_checked(
    uptime_secs: u64,
    self_ip: u32,
    peer_dns: bool,
    suffix: Seq<char>,
    version: u64,
)
    ensures
        ({
            let checks = netcheck(uptime_secs, self_ip, peer_dns, suffix, version);
            &&& checks.len() == 4
            &&& checks[0].name == "agent_running"@ && checks[0].pass
            &&& checks[1].name == "has_mesh_ip"@ && checks[1].pass == (self_ip != 0)
            &&& checks[2].name == "peer_dns"@ && checks[2].pass == peer_dns
            &&& checks[3].name == "snapshot"@ && checks[3].pass == (version > 0)
            &&& checks[1].detail == dotted(self_ip)
            &&& peer_dns ==> checks[2].detail == "suffix ."@ + suffix
        }),
{
}

/// A peer is found by its address where the text is one, and otherwise by its
/// host name or, where no member has that name, by its key.
pub proof fn law_who_is_meant(t: TableModel, ip: u32, host: Seq<char>)
    ensures
        peer_meant(t, dotted(ip)) == route_of(t, ip),
        (forall|x: u32| host != #[trigger] dotted(x)) && host_peer(t, host) is Some ==> peer_meant(
            t,
            host,
        ) == host_peer(t, host),
        (forall|x: u32| host != #[trigger] dotted(x)) && host_peer(t, host) is None
            && t.by_endpoint.contains_key(host) ==> peer_meant(t, host) == Some(
            t.by_endpoint[host],
        ),
        (forall|x: u32| host != #[trigger] dotted(x)) && host_peer(t, host) is None
            && !t.by_endpoint.contains_key(host) ==> peer_meant(t, host) is None,
{
    let h = dotted(ip);
    assert(exists|x: u32| h == #[trigger] dotted(x));
    let chosen = choose|x: u32| h == #[trigger] dotted(x);
    law_address_text_is_unique(ip, chosen);
}

/// As many probes are sent as were asked for, but at least one and at most 64.
pub proof fn law_number_of_probes(asked: u32)
    ensures
        1 <= asked <= 64 ==> probe_count(asked) == asked,
        asked == 0 ==> probe_count(asked) == 1,
        asked > 64 ==> probe_count(asked) == 64,
{
}

/// Keeping a host alive enters its name and the member that has it, whatever
/// was entered before, and taking it back takes both out; nothing else of the
/// telemetry changes.
pub proof fn law_hosts_kept_alive(
    mesh: MeshView,
    peer: Option<PeerView>,
    hostname: Seq<char>,
    other: Seq<char>,
    member: EndpointId,
)
    ensures
        kept_alive(mesh, peer, hostname, true).hosts.contains(lower(hostname)),
        !kept_alive(mesh, peer, hostname, false).hosts.contains(lower(hostname)),
        lower(other) != lower(hostname) ==> {
            &&& kept_alive(mesh, peer, hostname, true).hosts.contains(lower(other))
                == mesh.hosts.contains(lower(other))
            &&& kept_alive(mesh, peer, hostname, false).hosts.contains(lower(other))
                == mesh.hosts.contains(lower(other))
        },
        peer matches Some(p) ==> {
            &&& kept_alive(mesh, peer, hostname, true).peers.contains(p.endpoint)
            &&& !kept_alive(mesh, peer, hostname, false).peers.contains(p.endpoint)
        },
        (peer is None || peer->0.endpoint != member) ==> {
            &&& kept_alive(mesh, peer, hostname, true).peers.contains(member)
                == mesh.peers.contains(member)
            &&& kept_alive(mesh, peer, hostname, false).peers.contains(member)
                == mesh.peers.contains(member)
        },
        kept_alive(mesh, peer, hostname, true).keep_alive == mesh.keep_alive,
        kept_alive(mesh, peer, hostname, true).snaps == mesh.snaps,
        kept_alive(mesh, peer, hostname, true).counters == mesh.counters,
{
}

/// The same for the pool, whose slot of that member says so too.
pub proof fn law_pooled_hosts_kept_alive(
    pool: PoolView,
    peer: PeerView,
    hostname: Seq<char>,
    enable: bool,
    now: u64,
    other: EndpointId,
)
    ensures
        ({
            let after = pool_kept_alive(pool, Some(peer), hostname, enable, now);
            &&& after.hosts.contains(lower(hostname)) == enable
            &&& after.kept.contains(peer.endpoint) == enable
            &&& after.entries.contains_key(peer.endpoint)
            &&& after.entries[peer.endpoint].peer_keep_alive == enable
            &&& pool.entries.contains_key(peer.endpoint) ==> after.entries[peer.endpoint].conn
                == pool.entries[peer.endpoint].conn && after.entries[peer.endpoint].state
                == pool.entries[peer.endpoint].state
            &&& other != peer.endpoint ==> after.entries.contains_key(other)
                == pool.entries.contains_key(other) && after.kept.contains(other)
                == pool.kept.contains(other)
            &&& after.metrics == pool.metrics && after.auth == pool.auth
        }),
{
}

/// Every member is listed with what is known of it, in order.
pub proof fn law_members_are_listed(members: Seq<PeerView>, i: int)
    requires
        0 <= i < members.len(),
    ensures
        entries_of(members).len() == members.len(),
        entries_of(members)[i].ip == members[i].ip,
        entries_of(members)[i].endpoint_id == members[i].endpoint_hex,
        entries_of(members)[i].hostname == members[i].hostname,
        entries_of(members)[i].tags == members[i].tags,
        entries_of(members)[i].ssh_host_key == members[i].ssh_host_key,
{
}

/// What is known of a peer from beacons is the first entry for it, and nothing
/// where there is none.
pub proof fn law_first_beacon_counts(list: Seq<Presence>, id: Seq<char>, at: int)
    requires
        0 <= at <= list.len(),
        forall|i: int| 0 <= i < at ==> (#[trigger] list[i]).endpoint_id@ != id,
        at < list.len() ==> list[at].endpoint_id@ == id,
    ensures
        at < list.len() ==> presence_of(list, id) == (
            list[at].online,
            list[at].last_seen_secs_ago,
        ),
        at == list.len() ==> presence_of(list, id) == (None::<bool>, None::<u64>),
    decreases list.len(),
{
    if list.len() > 0 && at > 0 {
        assert(list[0].endpoint_id@ != id);
        let rest = list.drop_first();
        assert forall|i: int| 0 <= i < at - 1 implies (#[trigger] rest[i]).endpoint_id@ != id by {
            assert(rest[i] == list[i + 1]);
        }
        if at < list.len() {
            assert(rest[at - 1] == list[at]);
        }
        law_first_beacon_counts(rest, id, at - 1);
    }
}

/// The report on a peer says who it is, and of its connection what the
/// telemetry holds, or that it is idle.
pub proof fn law_reports_on_peers(
    p: PeerView,
    m: MeshView,
    presence: (Option<bool>, Option<u64>),
    now: u64,
)
    ensures
        ({
            let r = peer_summary(p, m, presence, now);
            let known = m.snaps.contains_key(p.endpoint);
            let s = m.snaps[p.endpoint];
            &&& r.ip == dotted(p.ip)
            &&& r.hostname == p.hostname
            &&& r.endpoint_id == p.endpoint_hex
            &&& r.tags == p.tags
            &&& r.ssh_host_key == p.ssh_host_key
            &&& r.network_id == uuid_hyphenated(p.network_id)
            &&& known ==> r.conn_state == s.state && r.path == s.path && r.bytes_in == s.bytes_in
                && r.bytes_out == s.bytes_out
            &&& known && s.live ==> r.online == Some(true)
            &&& !(known && s.live) ==> r.online == presence.0
            &&& known && s.last_activity <= now ==> r.last_seen_secs_ago is Some
                && r.last_seen_secs_ago->0 * 1_000_000_000 <= now - s.last_activity < (
            r.last_seen_secs_ago->0 + 1) * 1_000_000_000
            &&& !known ==> r.conn_state == "idle"@ && r.path == "unknown"@ && r.bytes_in == 0
                && r.bytes_out == 0 && r.last_seen_secs_ago == presence.1
            &&& r.keep_alive <==> m.keep_alive || m.peers.contains(p.endpoint) || (known
                && s.keep_alive)
        }),
{
}

/// One of the reports is the one on a member.
pub open spec fn reported(
    reports: Seq<PeerSummaryView>,
    p: PeerView,
    m: MeshView,
    presence: Seq<Presence>,
    now: u64,
) -> bool {
    exists|k: int|
        0 <= k < reports.len() && #[trigger] reports[k] == peer_summary(
            p,
            m,
            presence_of(presence, p.endpoint_hex),
            now,
        )
}

/// Every member of the network that is asked for, or of any where none is, has
/// a report, but for this node itself; and there is no other report.
#[verifier::rlimit(40)]
pub proof fn law_all_members_are_reported(
    members: Seq<PeerView>,
    m: MeshView,
    presence: Seq<Presence>,
    self_id: Seq<char>,
    network_id: Option<u128>,
    now: u64,
)
    ensures
        ({
            let reports = summaries_of(members, m, presence, self_id, network_id, now);
            &&& forall|i: int|
                0 <= i < members.len() && (#[trigger] members[i]).endpoint_hex != self_id && (
                network_id is None || network_id == Some(members[i].network_id)) ==> reported(
                    reports,
                    members[i],
                    m,
                    presence,
                    now,
                )
            &&& forall|k: int|
                0 <= k < reports.len() ==> (#[trigger] reports[k]).endpoint_id != self_id
            &&& reports.len() <= members.len()
        }),
    decreases members.len(),
{
    if members.len() > 0 {
        let rest = members.drop_last();
        let last = members.last();
        law_all_members_are_reported(rest, m, presence, self_id, network_id, now);
        let before = summaries_of(rest, m, presence, self_id, network_id, now);
        let reports = summaries_of(members, m, presence, self_id, network_id, now);
        assert forall|i: int|
            0 <= i < members.len() && (#[trigger] members[i]).endpoint_hex != self_id && (
            network_id is None || network_id == Some(members[i].network_id)) implies reported(
            reports,
            members[i],
            m,
            presence,
            now,
        ) by {
            if i < rest.len() {
                assert(rest[i] == members[i]);
                let k = choose|k: int|
                    0 <= k < before.len() && #[trigger] before[k] == peer_summary(
                        rest[i],
                        m,
                        presence_of(presence, rest[i].endpoint_hex),
                        now,
                    );
                assert(reports[k] == before[k]);
            } else {
                assert(is_listed(last, self_id, network_id));
                assert(reports[reports.len() - 1] == peer_summary(
                    last,
                    m,
                    presence_of(presence, last.endpoint_hex),
                    now,
                ));
            }
        }
        assert forall|k: int| 0 <= k < reports.len() implies (#[trigger] reports[k]).endpoint_id
            != self_id by {
            if k < before.len() {
                assert(reports[k] == before[k]);
            }
        }
    }
}

/// As many are online as reports say so.
pub proof fn law_who_is_online(reports: Seq<PeerSummaryView>)
    ensures
        online_count(reports) == reports.filter(
            |r: PeerSummaryView| r.online == Some(true),
        ).len(),
        online_count(reports) <= reports.len(),
    decreases reports.len(),
{
    reveal(Seq::filter);
    if reports.len() > 0 {
        law_who_is_online(reports.drop_last());
    }
}

/// A firewall's counts are those of the first that runs for the network.
pub proof fn law_first_firewall_counts(list: Seq<(u128, FirewallStats)>, id: u128, at: int)
    requires
        0 <= at <= list.len(),
        forall|i: int| 0 <= i < at ==> (#[trigger] list[i]).0 != id,
        at < list.len() ==> list[at].0 == id,
    ensures
        at < list.len() ==> firewall_of(list, id) == Some(list[at].1),
        at == list.len() ==> firewall_of(list, id) is None,
    decreases list.len(),
{
    if list.len() > 0 && at > 0 {
        assert(list[0].0 != id);
        let rest = list.drop_first();
        assert forall|i: int| 0 <= i < at - 1 implies (#[trigger] rest[i]).0 != id by {
            assert(rest[i] == list[i + 1]);
        }
        if at < list.len() {
            assert(rest[at - 1] == list[at]);
        }
        law_first_firewall_counts(rest, id, at - 1);
    }
}

/// The report on a direct network tells its name, address and role, and counts
/// the members that are reported; one on a managed network tells who manages
/// it. A network that the node is not in has none.
#[verifier::rlimit(40)]
pub proof fn law_reports_on_networks(
    persisted: PersistedState,
    f: NodeFacts,
    members: Seq<PeerView>,
    mesh: MeshView,
    presence: Seq<Presence>,
    id: u128,
    now: u64,
    at: int,
)
    ensures
        ({
            let r = network_summary(persisted, f, members, mesh, presence, id, now);
            let peers = summaries_of(members, mesh, presence, f.self_id@, Some(id), now);
            match persisted {
                PersistedState::Managed(m) => {
                    &&& r is Some <==> m.network_id == id
                    &&& r matches Some(s) ==> s.network_name == m.network_name@ && s.mode
                        == "managed"@ && s.ip == dotted(f.self_ip) && s.peers_total == peers.len()
                        && s.peers_online == online_count(peers) && s.organization_id == Some(
                        m.organization_id@,
                    ) && s.control_url == Some(m.control_url@) && s.with_control && s.keep_alive
                        == mesh.keep_alive
                },
                PersistedState::Direct(list) => 0 <= at < list@.len() && list@[at].network_id == id
                    && (forall|j: int|
                    0 <= j < at ==> (#[trigger] list@[j]).network_id != id) ==> {
                    let d = list@[at];
                    &&& r matches Some(s) && s.network_name == d.network_name@ && s.mode
                        == "direct"@ && s.ip == dotted(d.ip) && s.peers_total == peers.len()
                        && s.peers_online == online_count(peers) && s.control_url is None
                        && !s.with_control && s.keep_alive == mesh.keep_alive && s.role
                        == if d.coordinator {
                        "coordinator"@
                    } else {
                        "member"@
                    }
                },
            }
        }),
{
    if let PersistedState::Direct(list) = persisted {
        if 0 <= at < list@.len() && list@[at].network_id == id && (forall|j: int|
            0 <= j < at ==> (#[trigger] list@[j]).network_id != id) {
            lemma_direct_place(list@, id, at);
        }
    }
}

proof fn lemma_direct_place(list: Seq<DirectRecord>, id: u128, at: int)
    requires
        0 <= at < list.len(),
        list[at].network_id == id,
        forall|j: int| 0 <= j < at ==> (#[trigger] list[j]).network_id != id,
    ensures
        direct_place(list, id) == at,
    decreases list.len(),
{
    if at > 0 {
        assert(list[0].network_id != id);
        let rest = list.drop_first();
        assert forall|j: int| 0 <= j < at - 1 implies (#[trigger] rest[j]).network_id != id by {
            assert(rest[j] == list[j + 1]);
        }
        assert(rest[at - 1] == list[at]);
        lemma_direct_place(rest, id, at - 1);
    }
}

/// A route is reported by the host name of the member that it goes through
/// where that is known, and otherwise by the start of the member's id.
pub proof fn law_names_of_gateways(t: TableModel, id: Seq<char>)
    ensures
        t.by_endpoint.contains_key(id) ==> via_name(t, id) == Some(t.by_endpoint[id].hostname),
        !t.by_endpoint.contains_key(id) ==> via_name(t, id) == cut_at(id, 8),
{
}

/// Every route behind a member is reported, in order and with what it says.
pub proof fn law_routes_are_reported(
    t: TableModel,
    subnets: Seq<SubnetRouteView>,
    hosts: Seq<HostnameRouteView>,
    self_id: Seq<char>,
    i: int,
)
    ensures
        subnet_infos(t, subnets, self_id).len() == subnets.len(),
        host_infos(t, hosts).len() == hosts.len(),
        0 <= i < subnets.len() ==> {
            let r = subnet_infos(t, subnets, self_id)[i];
            &&& r.cidr == subnets[i].cidr.cidr_text()
            &&& r.via_endpoint_id == subnets[i].via_endpoint_id
            &&& r.via_ip == dotted(subnets[i].via_ip)
            &&& r.advertised_by_self <==> subnets[i].via_endpoint_id == self_id
        },
        0 <= i < hosts.len() ==> {
            let r = host_infos(t, hosts)[i];
            &&& r.hostname == hosts[i].hostname
            &&& r.is_wildcard == hosts[i].is_wildcard
            &&& r.via_endpoint_id == hosts[i].via_endpoint_id
            &&& r.via_ip == dotted(hosts[i].via_ip)
            &&& hosts[i].target_ip matches Some(ip) ==> r.target_ip == Some(dotted(ip))
            &&& hosts[i].target_ip is None ==> r.target_ip is None
        },
{
}

/// Quotes at both ends of a text go, and nothing else does.
pub proof fn law_quotes_are_taken_off(s: Seq<char>)
    ensures
        ({
            let back = trim_end_of(s, '"');
            let t = unquoted(s);
            let from = back.len() - t.len();
            &&& 0 <= from
            &&& t == s.subrange(from, back.len() as int)
            &&& forall|i: int| 0 <= i < from ==> #[trigger] s[i] == '"'
            &&& forall|i: int| back.len() <= i < s.len() ==> #[trigger] s[i] == '"'
            &&& t.len() > 0 ==> t[0] != '"' && t.last() != '"'
        }),
{
    crate::text_laws::law_trimmed_end(s, '"');
    let back = trim_end_of(s, '"');
    lemma_trim_start(back, '"');
    let t = unquoted(s);
    let from = back.len() - t.len();
    assert(t =~= s.subrange(from, back.len() as int));
    assert forall|i: int| 0 <= i < from implies #[trigger] s[i] == '"' by {
        assert(back[i] == s[i]);
    }
    if t.len() > 0 {
        assert(t.last() == back.last());
    }
}

proof fn lemma_trim_start(s: Seq<char>, c: char)
    ensures
        ({
            let t = trim_start_of(s, c);
            let from = s.len() - t.len();
            &&& 0 <= from
            &&& t == s.skip(from)
            &&& t.len() > 0 ==> t[0] != c
            &&& forall|i: int| 0 <= i < from ==> #[trigger] s[i] == c
        }),
    decreases s.len(),
{
    if s.len() > 0 && s[0] == c {
        let rest = s.drop_first();
        lemma_trim_start(rest, c);
        let t = trim_start_of(s, c);
        let from = s.len() - t.len();
        assert(rest.skip(from - 1) =~= s.skip(from));
        assert forall|i: int| 0 <= i < from implies #[trigger] s[i] == c by {
            if i > 0 {
                assert(rest[i - 1] == s[i]);
            }
        }
    } else {
        assert(s.skip(0) =~= s);
    }
}

/// A session keeps every field that is there; what is missing is empty, and one
/// is recorded only where that is said.
pub proof fn law_fields_of_sessions(f: SshSessionFields)
    ensures
        ({
            let s = session_of(f);
            &&& f.id matches Some(x) ==> s.id == x@
            &&& f.id is None ==> s.id.len() == 0
            &&& f.src_endpoint_id matches Some(x) ==> s.src_endpoint_id == x@
            &&& f.dst_endpoint_id matches Some(x) ==> s.dst_endpoint_id == x@
            &&& f.src_hostname matches Some(x) ==> s.src_hostname == Some(x@)
            &&& f.dst_hostname matches Some(x) ==> s.dst_hostname == Some(x@)
            &&& f.target_user matches Some(x) ==> s.target_user == x@
            &&& f.status matches Some(x) ==> s.status == x@
            &&& s.recorded <==> f.recorded == Some(true)
            &&& f.started_at matches Some(x) ==> s.started_at == unquoted(x@)
            &&& f.started_at is None ==> s.started_at.len() == 0
            &&& s.duration_ms == f.duration_ms
        }),
{
    assert(rendered(None).len() == 0);
}

/// Of two names for a field the first counts where it is there.
pub proof fn law_either_name_of_a_field(doc: Seq<char>, key: Seq<char>, other: Seq<char>)
    ensures
        json_field_of(doc, key) is Some ==> either_field(doc, key, other) == json_field_of(
            doc,
            key,
        ),
        json_field_of(doc, key) is None ==> either_field(doc, key, other) == json_field_of(
            doc,
            other,
        ),
        either_field(doc, key, other) matches Some(v) ==> either_text(doc, key, other)
            == json_text_of(v),
        either_field(doc, key, other) is None ==> either_text(doc, key, other) is None,
        json_field_of(doc, key) is None ==> items_at(doc, key).len() == 0 && bool_at(
            doc,
            key,
        ) is None,
        json_field_of(doc, key) is Some && json_items_of(json_field_of(doc, key)->0) is Some
            ==> items_at(doc, key) == json_items_of(json_field_of(doc, key)->0)->0,
{
}

/// A recording keeps every field that is there; a size that is missing is zero.
pub proof fn law_fields_of_recordings(f: SshRecordingFields)
    ensures
        ({
            let r = recording_of(f);
            &&& f.session_id matches Some(x) ==> r.session_id == x@
            &&& f.session_id is None ==> r.session_id.len() == 0
            &&& f.src_hostname matches Some(x) ==> r.src_hostname == Some(x@)
            &&& f.dst_hostname matches Some(x) ==> r.dst_hostname == Some(x@)
            &&& f.target_user matches Some(x) ==> r.target_user == Some(x@)
            &&& f.byte_size matches Some(n) ==> r.byte_size == n
            &&& f.byte_size is None ==> r.byte_size == 0
            &&& f.created_at matches Some(x) ==> r.created_at == unquoted(x@)
            &&& f.content_sha256 matches Some(x) ==> r.content_sha256 == Some(x@)
        }),
{
}

/// The words of a firewall rule: a direction in either of two forms, an action,
/// and a protocol in any case. Any other word is none.
#[verifier::rlimit(40)]
pub proof fn law_words_of_firewall_rules(s: Seq<char>)
    ensures
        direction_of(s) == Some(FirewallDirection::In) <==> s == "in"@ || s == "inbound"@,
        direction_of(s) is Some ==> s == "in"@ || s == "inbound"@ || s == "out"@ || s
            == "outbound"@,
        action_of(s) == Some(FirewallAction::Allow) <==> s == "allow"@,
        action_of(s) is Some ==> s == "allow"@ || s == "deny"@ || s == "reject"@,
        action_of("deny"@) == Some(FirewallAction::Deny),
        action_of("reject"@) == Some(FirewallAction::Reject),
        protocol_of(s) == Some(Protocol::Tcp) <==> lower(s) == "tcp"@,
        protocol_of(s) == Some(Protocol::Udp) <==> lower(s) == "udp"@,
        protocol_of(s) == Some(Protocol::Icmp) <==> lower(s) == "icmp"@,
        protocol_of(s) == Some(Protocol::Icmpv6) <==> lower(s) == "icmpv6"@,
        protocol_of(s) == Some(Protocol::Any) <==> lower(s) == "any"@,
        protocol_of(lower(s)) == protocol_of(s),
{
    reveal_strlit("allow");
    reveal_strlit("deny");
    reveal_strlit("reject");
    reveal_strlit("tcp");
    reveal_strlit("udp");
    reveal_strlit("icmp");
    reveal_strlit("icmpv6");
    reveal_strlit("any");
    assert("deny"@[0] == 'd' && "allow"@[0] == 'a' && "reject"@[0] == 'r');
    assert("tcp"@[0] == 't' && "udp"@[0] == 'u' && "any"@[0] == 'a' && "icmp"@[0] == 'i'
        && "icmpv6"@[0] == 'i' && "icmp"@.len() == 4 && "icmpv6"@.len() == 6);
    if s.len() > 0 {
        crate::text_laws::law_lower_case(s, 0);
    } else {
        assert(lower(lower(s)) =~= lower(s));
    }
}

/// Every probe of a row is followed by the next one, and the last one by the
/// sum: as many as were to be sent, and as many as came back.
pub proof fn law_rows_of_probes(
    before: PingRun,
    after: PingRun,
    came_back: bool,
    next: PingNext,
)
    requires
        before.wf(),
        before.seq <= before.count,
        probed(before, after, came_back, next),
    ensures
        before.seq < before.count ==> next == PingNext::Probe((before.seq + 1) as u32)
            && after.seq == before.seq + 1,
        before.seq == before.count ==> (next matches PingNext::Summary { transmitted, received }
            && transmitted == before.count && received == before.received + (if came_back {
            1int
        } else {
            0
        })),
        came_back ==> after.received == before.received + 1,
        !came_back ==> after.received == before.received,
{
}

} // verus!
