//! How the data plane comes up and goes down, and who is served on the way.

use crate::accept::{
    framed, next_connect, AcceptClose, ConnectAskView, ConnectReply, ConnectStage, GrantClaim,
};
use crate::buffers::{be, from_be, lemma_be_len, lemma_be_limits, lemma_be_round_trip};
use crate::connectivity::{
    bad_place, first_denial, relay_map, relay_place, relay_url_of, token_of, with_relay,
    ConnectivityRelayConfig, HomeRelay,
};
use crate::dataplane::{
    brought_down, coming_up, fits, member_ips, next_plane, real_index, reconciled, DataPlane,
    DnsFault, PlaneAction, PlaneAskView, PlaneErrorView, PlaneMove, PlaneReply, PlaneStage,
    RouteFault,
};
use crate::membership::opt_text;
use crate::supervisor::{
    limit_of, plane_children, presence_children, start_order_of, stop_order_of, AgentParts, Child,
};
use crate::tables::PeerView;
use crate::text::decimal;
use vstd::prelude::*;

verus! {

/// A data plane that is down comes up where no other network is in the way and
/// its name service, its interface and the system's settings can be had: it
/// asks for one after the other, and at the end it is up and in view under the
/// next generation. That the routes could not be applied does not keep it down.
#[verifier::rlimit(40)]
pub proof fn law_plane_comes_up(p: DataPlane, index: Option<u32>, active: bool, routed: Result<(), RouteFault>)
    requires
        !p.up,
    ensures
        ({
            let asked = coming_up(p, Seq::empty());
            let looked = next_plane(asked.plane, PlaneReply::Conflicts(0));
            let named = if p.has_dns && !p.dns_running {
                next_plane(looked.plane, PlaneReply::DnsStarted(Ok(())))
            } else {
                looked
            };
            let built = next_plane(named.plane, PlaneReply::TunBuilt(Ok(index)));
            let ready = if p.has_dns {
                next_plane(built.plane, PlaneReply::DnsApplied(Ok(active)))
            } else {
                built
            };
            let end = next_plane(ready.plane, PlaneReply::Routed(routed));
            &&& asked.ask == PlaneAskView::CheckConflicts
            &&& p.has_dns && !p.dns_running ==> looked.ask == PlaneAskView::StartDns
            &&& named.ask == PlaneAskView::BuildTun
            &&& p.has_dns ==> built.ask == PlaneAskView::ApplyDns
            &&& ready.ask == PlaneAskView::ReconcileRoutes
            &&& built.actions[0] == PlaneAction::ConfigureFirewall
            &&& p.has_dns ==> ready.actions == seq![PlaneAction::SetDnsActive(active)]
            &&& !p.has_dns ==> ready.actions.last() == PlaneAction::SetDnsActive(false)
            &&& end.ask == PlaneAskView::Done(None)
            &&& end.actions == seq![
                PlaneAction::EnsureNat,
                PlaneAction::SpawnGeneration,
                PlaneAction::Publish,
                PlaneAction::ReportUp,
            ]
            &&& end.plane.up && end.plane.published && end.plane.spawned && end.plane.begun
            &&& end.plane.generation == p.generation.wrapping_add(1)
            &&& end.plane.stage == PlaneStage::Rest
            &&& end.plane.dns_running == (p.has_dns || p.dns_running)
            &&& end.plane.tun_if_index == if index == Some(0u32) {
                None
            } else {
                index
            }
        }),
{
}

/// A plane that is up already is left as it is when it is asked to come up.
pub proof fn law_coming_up_twice_is_coming_up_once(p: DataPlane)
    requires
        p.up,
        p.stage == PlaneStage::Rest,
    ensures
        coming_up(p, Seq::empty()).plane == p,
        coming_up(p, Seq::empty()).ask == PlaneAskView::Done(None),
        coming_up(p, Seq::empty()).actions.len() == 0,
{
}

/// Where other networks are in the way of a plane that is down, or its name
/// service does not start, it stays down and says why.
pub proof fn law_plane_stays_down(p: DataPlane, n: usize, e: String)
    requires
        !p.up,
        n > 0,
    ensures
        ({
            let looking = DataPlane { stage: PlaneStage::Conflicts, ..p };
            let conflict = next_plane(looking, PlaneReply::Conflicts(n));
            let starting = DataPlane { stage: PlaneStage::StartDns, ..p };
            let mute = next_plane(starting, PlaneReply::DnsStarted(Err(e)));
            &&& !conflict.plane.up && conflict.plane.stage == PlaneStage::Rest
            &&& conflict.ask == PlaneAskView::Done(
                Some(PlaneErrorView::Conflict(decimal(n as nat) + " conflict(s)"@)),
            )
            &&& conflict.actions.len() == 0
            &&& !mute.plane.up && mute.plane.stage == PlaneStage::Rest
            &&& mute.ask == PlaneAskView::Done(Some(PlaneErrorView::Dns(e@)))
        }),
{
}

/// Where the interface cannot be built or the system's name service refuses,
/// the error is passed on in these words.
pub proof fn law_what_a_failed_attempt_says(p: DataPlane, e: String)
    ensures
        next_plane(p, PlaneReply::TunBuilt(Err(e))).ask == PlaneAskView::Done(
            Some(PlaneErrorView::Tun(e@)),
        ),
        next_plane(p, PlaneReply::DnsApplied(Err(DnsFault::Refused(e)))).ask == PlaneAskView::Done(
            Some(PlaneErrorView::Dns("OS configuration: "@ + e@)),
        ),
        next_plane(p, PlaneReply::DnsApplied(Err(DnsFault::CutShort(e)))).ask
            == PlaneAskView::Done(Some(PlaneErrorView::Dns("configuration task: "@ + e@))),
        !next_plane(p, PlaneReply::TunBuilt(Err(e))).plane.up,
        !next_plane(p, PlaneReply::TunBuilt(Err(e))).plane.begun,
        !next_plane(p, PlaneReply::DnsApplied(Err(DnsFault::Refused(e)))).plane.up,
{
}

/// A plane of which anything is up goes out of view first, stops all that runs,
/// gives routes, address translation and name service back, and reports last
/// that it is down. A plane of which nothing is up does nothing.
#[verifier::rlimit(40)]
pub proof fn law_plane_goes_down(p: DataPlane)
    ensures
        p.up || p.published || p.dns_running ==> {
            let down = brought_down(p);
            let q = down.0;
            let actions = down.1;
            &&& !q.up && !q.published && !q.begun && !q.spawned && !q.dns_running
            &&& q.tun_if_index is None
            &&& q.is_direct == p.is_direct && q.has_dns == p.has_dns && q.generation
                == p.generation && q.stage == p.stage
            &&& actions[0] == PlaneAction::Unpublish
            &&& p.begun ==> actions.contains(PlaneAction::CancelGeneration)
            &&& p.spawned ==> actions.contains(PlaneAction::CloseHub)
            &&& p.spawned ==> actions.contains(PlaneAction::StopReader)
            &&& p.spawned ==> actions.contains(PlaneAction::StopWriter)
            &&& p.dns_running ==> actions.contains(PlaneAction::StopDns)
            &&& actions.contains(PlaneAction::ClearRoutes)
            &&& actions.contains(PlaneAction::TeardownNat)
            &&& p.has_dns ==> actions.contains(PlaneAction::RestoreDns)
            &&& actions[actions.len() - 2] == PlaneAction::MarkDown
            &&& actions.last() == PlaneAction::ReportDown
        },
        !(p.up || p.published || p.dns_running) ==> brought_down(p).0 == p && brought_down(
            p,
        ).1.len() == 0,
{
    if p.up || p.published || p.dns_running {
        let actions = brought_down(p).1;
        let b: int = if p.begun {
            1
        } else {
            0
        };
        let s: int = if p.spawned {
            3
        } else {
            0
        };
        let d: int = if p.dns_running {
            1
        } else {
            0
        };
        assert(p.begun ==> actions[1] == PlaneAction::CancelGeneration);
        assert(p.spawned ==> actions[1 + b] == PlaneAction::CloseHub);
        assert(p.spawned ==> actions[2 + b] == PlaneAction::StopReader);
        assert(p.spawned ==> actions[3 + b] == PlaneAction::StopWriter);
        assert(p.dns_running ==> actions[1 + b + s] == PlaneAction::StopDns);
        assert(actions[1 + b + s + d] == PlaneAction::ClearRoutes);
        assert(actions[2 + b + s + d] == PlaneAction::TeardownNat);
        assert(p.has_dns ==> actions[3 + b + s + d] == PlaneAction::RestoreDns);
    }
}

/// When membership changes, the workers of a plane that has any are held
/// against it; a managed plane that is up has its routes refreshed, and a
/// direct one looks at other networks again.
pub proof fn law_membership_refreshes_the_plane(p: DataPlane, dns_ended: bool)
    ensures
        ({
            let m = reconciled(p, dns_ended);
            &&& p.spawned ==> m.actions.len() > 0 && m.actions[0] == PlaneAction::ReconcileHub
            &&& !p.is_direct && p.up ==> m.ask == PlaneAskView::ReconcileRoutes && m.plane.up
            &&& !p.is_direct && !p.up ==> m.ask == PlaneAskView::Done(None) && m.plane
                == (DataPlane { stage: PlaneStage::Rest, ..p })
            &&& p.is_direct ==> m.ask == PlaneAskView::CheckConflicts && m.plane.stage
                == PlaneStage::Recheck
            &&& p.is_direct && p.dns_running && dns_ended ==> !m.plane.up && m.actions.len() > 0
                && m.actions.last() == PlaneAction::ReportDown
            &&& !(p.is_direct && p.dns_running && dns_ended) ==> m.plane.up == p.up
                && m.plane.published == p.published
        }),
{
}

/// A direct plane in whose way another network came goes down and says so; one
/// that is free has its routes refreshed while it is up, and comes up while it
/// is down.
pub proof fn law_conflicts_take_a_direct_plane_down(p: DataPlane, n: usize)
    requires
        p.stage == PlaneStage::Recheck,
    ensures
        n > 0 ==> {
            let m = next_plane(p, PlaneReply::Conflicts(n));
            &&& m.ask == PlaneAskView::Done(
                Some(PlaneErrorView::Conflict(decimal(n as nat) + " conflict(s)"@)),
            )
            &&& !m.plane.up
            &&& p.up ==> m.actions.len() > 0 && m.actions.last() == PlaneAction::ReportDown
            &&& !p.up ==> m.actions.len() == 0
        },
        p.up ==> next_plane(p, PlaneReply::Conflicts(0)).ask == PlaneAskView::ReconcileRoutes,
        !p.up ==> next_plane(p, PlaneReply::Conflicts(0)).ask == PlaneAskView::CheckConflicts,
{
}

/// Routes that could not be refreshed are an error of a direct plane alone, and
/// the plane stays up.
pub proof fn law_failed_refresh_is_reported(p: DataPlane, e: String)
    ensures
        p.stage == PlaneStage::DirectRefresh ==> {
            &&& next_plane(p, PlaneReply::Routed(Err(RouteFault::Failed(e)))).ask
                == PlaneAskView::Done(Some(PlaneErrorView::Routes(e@)))
            &&& next_plane(p, PlaneReply::Routed(Err(RouteFault::TimedOut))).ask
                == PlaneAskView::Done(Some(PlaneErrorView::Routes("route apply timed out"@)))
            &&& next_plane(p, PlaneReply::Routed(Ok(()))).ask == PlaneAskView::Done(None)
        },
        p.stage == PlaneStage::ManagedRefresh ==> next_plane(
            p,
            PlaneReply::Routed(Err(RouteFault::Failed(e))),
        ).ask == PlaneAskView::Done(None),
        p.stage == PlaneStage::DirectRefresh || p.stage == PlaneStage::ManagedRefresh
            ==> next_plane(p, PlaneReply::Routed(Err(RouteFault::Failed(e)))).plane.up == p.up,
{
}

/// An interface number of zero is none; any other is kept.
pub proof fn law_interface_numbers(i: u32)
    ensures
        i != 0 ==> real_index(Some(i)) == Some(i),
        i == 0 ==> real_index(Some(i)) is None,
        real_index(None) is None,
{
}

/// Every member's address is listed, in the order of the members.
pub proof fn law_addresses_of_members(members: Seq<PeerView>, i: int)
    requires
        0 <= i < members.len(),
    ensures
        member_ips(members).len() == members.len(),
        member_ips(members)[i] == members[i].ip,
{
}

/// An agent has a data plane and a register of sessions, and of the other parts
/// those that it was set up with; posture reports need the control plane.
pub open spec fn belongs(p: AgentParts, c: Child) -> bool {
    match c {
        Child::DataPlaneSupervisor => true,
        Child::SshRegistry => true,
        Child::Control => p.control,
        Child::Posture => p.posture && p.control,
        Child::Presence(i) => i < p.presences,
        Child::Update => p.update,
        Child::Route => false,
        Child::DataPlane => false,
    }
}

/// The parts that start are those that belong to the agent, the data plane's
/// first; that and the register of sessions stop last.
#[verifier::rlimit(40)]
pub proof fn law_what_an_agent_starts(p: AgentParts, c: Child)
    ensures
        start_order_of(p).contains(c) <==> belongs(p, c),
        start_order_of(p)[0] == Child::DataPlaneSupervisor,
        stop_order_of(p).len() >= 2,
        stop_order_of(p).last() == Child::SshRegistry,
        stop_order_of(p)[stop_order_of(p).len() - 2] == Child::DataPlaneSupervisor,
        p.control ==> stop_order_of(p)[0] == Child::Control,
        plane_children().len() == 2 && plane_children()[0] == Child::Route && plane_children()[1]
            == Child::DataPlane,
{
    let s = start_order_of(p);
    let k: int = if p.control {
        1
    } else {
        0
    };
    let q: int = if p.posture && p.control {
        1
    } else {
        0
    };
    let n = p.presences as int;
    assert(presence_children(p.presences as nat).len() == n);
    assert(s.len() == 2 + k + q + n + (if p.update {
        1int
    } else {
        0
    }));
    if belongs(p, c) {
        match c {
            Child::DataPlaneSupervisor => assert(s[0] == c),
            Child::SshRegistry => assert(s[1] == c),
            Child::Control => assert(s[2] == c),
            Child::Posture => assert(s[3] == c),
            Child::Presence(i) => assert(s[2 + k + q + i] == c),
            Child::Update => assert(s[2 + k + q + n] == c),
            Child::Route => {},
            Child::DataPlane => {},
        }
    }
    if s.contains(c) {
        let i = choose|i: int| 0 <= i < s.len() && s[i] == c;
        assert(i == 0 || i == 1 || i == 2 || i == 3 || (2 + k + q <= i < 2 + k + q + n) || i == 2 + k
            + q + n);
        if 2 + k + q <= i < 2 + k + q + n {
            assert(s[i] == Child::Presence((i - 2 - k - q) as usize));
        }
    }
}

/// Each part may be restarted a few times within minutes: most five times a
/// minute, the data plane's supervisor five times in two, the control plane's
/// ten times in two, presences three times in two and updates three in five.
pub proof fn law_limits_of_restarts(c: Child)
    ensures
        limit_of(c).times == match c {
            Child::Control => 10u32,
            Child::Presence(_) | Child::Update => 3u32,
            _ => 5u32,
        },
        limit_of(c).within_secs == match c {
            Child::DataPlaneSupervisor | Child::Control | Child::Presence(_) => 120u64,
            Child::Update => 300u64,
            _ => 60u64,
        },
{
}

/// A request to connect whose grant names the other end, is not revoked, is
/// valid and is for a known network is served, unless it only acknowledges an
/// earlier one; it is asked about on the way in this order. The response goes
/// out behind its length in four bytes.
#[verifier::rlimit(40)]
pub proof fn law_granted_requests_are_served(
    remote: Seq<char>,
    network: u128,
    kind: Option<Seq<char>>,
    length: Vec<u8>,
    body: Vec<u8>,
    grant: GrantClaim,
    response: Vec<u8>,
)
    requires
        length@.len() == 4,
        length@[0] == 0 && length@[1] == 0,
        grant.endpoint_id@ == remote,
        grant.network_id == network,
        response@.len() <= u32::MAX,
    ensures
        next_connect(ConnectStage::OpenStream, remote, network, kind, ConnectReply::Ready(true))
            == (ConnectStage::ReadLength, ConnectAskView::ReadLength),
        ({
            let n = length@[2] * 0x100 + length@[3];
            next_connect(
                ConnectStage::ReadLength,
                remote,
                network,
                kind,
                ConnectReply::Length(Some(length)),
            ) == (ConnectStage::ReadBody, ConnectAskView::ReadBody(n as usize))
        }),
        next_connect(
            ConnectStage::ReadBody,
            remote,
            network,
            kind,
            ConnectReply::Body(Some(body)),
        ) == (ConnectStage::ReadGrant, ConnectAskView::ReadGrant),
        next_connect(
            ConnectStage::ReadGrant,
            remote,
            network,
            kind,
            ConnectReply::Grant(Some(grant)),
        ) == (ConnectStage::CheckRevoked, ConnectAskView::CheckRevoked(network)),
        next_connect(ConnectStage::CheckRevoked, remote, network, kind, ConnectReply::Ready(true))
            == (ConnectStage::FindKey, ConnectAskView::FindKey(network)),
        next_connect(ConnectStage::FindKey, remote, network, kind, ConnectReply::Ready(true)) == (
            ConnectStage::VerifyGrant,
            ConnectAskView::VerifyGrant(network),
        ),
        next_connect(ConnectStage::VerifyGrant, remote, network, kind, ConnectReply::Ready(true))
            == (ConnectStage::FindNetwork, ConnectAskView::FindNetwork(network)),
        kind != Some("connect_accepted"@) ==> next_connect(
            ConnectStage::FindNetwork,
            remote,
            network,
            kind,
            ConnectReply::Ready(true),
        ) == (ConnectStage::Handle, ConnectAskView::Handle),
        kind == Some("connect_accepted"@) ==> next_connect(
            ConnectStage::FindNetwork,
            remote,
            network,
            kind,
            ConnectReply::Ready(true),
        ) == (
            ConnectStage::Closed,
            ConnectAskView::Close(None::<Seq<u8>>, AcceptClose::Served),
        ),
        next_connect(
            ConnectStage::Handle,
            remote,
            network,
            kind,
            ConnectReply::Handled(Some(response)),
        ) == (
            ConnectStage::Closed,
            ConnectAskView::Close(Some(framed(response@)), AcceptClose::Served),
        ),
        framed(response@).len() == 4 + response@.len(),
        framed(response@).skip(4) == response@,
        from_be(framed(response@).take(4)) == response@.len(),
{
    let f = framed(response@);
    lemma_be_limits();
    lemma_be_len(response@.len(), 4);
    lemma_be_round_trip(response@.len(), 4);
    assert(f.skip(4) =~= response@);
    assert(f.take(4) =~= be(response@.len(), 4));
    assert(length@ =~= seq![0u8, 0u8, length@[2], length@[3]]);
    crate::text_laws::law_bytes_are_read_as_written(0, 0, length@[2], length@[3]);
}

/// A request to connect is turned away with the word for what is wrong with it.
pub proof fn law_other_requests_are_turned_away(
    stage: ConnectStage,
    remote: Seq<char>,
    network: u128,
    kind: Option<Seq<char>>,
    length: Vec<u8>,
    grant: GrantClaim,
)
    requires
        length@.len() == 4,
    ensures
        from_be(length@) > 65_536 ==> next_connect(
            stage,
            remote,
            network,
            kind,
            ConnectReply::Length(Some(length)),
        ).1 == ConnectAskView::Close(None, AcceptClose::TooLarge),
        next_connect(stage, remote, network, kind, ConnectReply::Length(None)).1
            == ConnectAskView::Close(None, AcceptClose::BadRequest),
        next_connect(stage, remote, network, kind, ConnectReply::Body(None)).1
            == ConnectAskView::Close(None, AcceptClose::BadRequest),
        next_connect(stage, remote, network, kind, ConnectReply::Grant(None)).1
            == ConnectAskView::Close(None, AcceptClose::MissingGrant),
        grant.endpoint_id@ != remote ==> next_connect(
            stage,
            remote,
            network,
            kind,
            ConnectReply::Grant(Some(grant)),
        ).1 == ConnectAskView::Close(None, AcceptClose::GrantDenied),
        next_connect(stage, remote, network, kind, ConnectReply::Handled(None)).1
            == ConnectAskView::Close(None, AcceptClose::ConnectFailed),
        next_connect(ConnectStage::OpenStream, remote, network, kind, ConnectReply::Ready(false)).1
            == ConnectAskView::Close(None, AcceptClose::ConnectFailed),
        next_connect(
            ConnectStage::CheckRevoked,
            remote,
            network,
            kind,
            ConnectReply::Ready(false),
        ).1 == ConnectAskView::Close(None, AcceptClose::GrantDenied),
        next_connect(ConnectStage::FindKey, remote, network, kind, ConnectReply::Ready(false)).1
            == ConnectAskView::Close(None, AcceptClose::UnknownNetwork),
        next_connect(
            ConnectStage::VerifyGrant,
            remote,
            network,
            kind,
            ConnectReply::Ready(false),
        ).1 == ConnectAskView::Close(None, AcceptClose::GrantDenied),
        next_connect(
            ConnectStage::FindNetwork,
            remote,
            network,
            kind,
            ConnectReply::Ready(false),
        ).1 == ConnectAskView::Close(None, AcceptClose::UnknownNetwork),
{
}

/// A map of relays lists an address with a token.
pub open spec fn has_relay(
    map: Seq<(Seq<char>, Option<Seq<char>>)>,
    url: Seq<char>,
    token: Option<Seq<char>>,
) -> bool {
    exists|k: int| 0 <= k < map.len() && (#[trigger] map[k]).0 == url && map[k].1 == token
}

/// No configured relay behind a place names this address.
pub open spec fn last_named(relays: Seq<ConnectivityRelayConfig>, at: int) -> bool {
    forall|j: int|
        at < j < relays.len() ==> relay_url_of((#[trigger] relays[j]).url@) != relay_url_of(
            relays[at].url@,
        )
}

/// Where every address can be read, each is in the map, with the token of the
/// last relay that names it, an empty one being none; and the map holds no
/// other address. Where one cannot be read there is no map.
#[verifier::rlimit(40)]
pub proof fn law_every_relay_is_entered(relays: Seq<ConnectivityRelayConfig>)
    ensures
        relay_map(relays) is Some <==> forall|i: int|
            0 <= i < relays.len() ==> relay_url_of((#[trigger] relays[i]).url@) is Some,
        relay_map(relays) matches Some(map) ==> {
            &&& forall|i: int|
                0 <= i < relays.len() && #[trigger] last_named(relays, i) ==> has_relay(
                    map,
                    relay_url_of(relays[i].url@)->0,
                    token_of(opt_text(relays[i].auth_token)),
                )
            &&& forall|k: int|
                0 <= k < map.len() ==> exists|i: int|
                    0 <= i < relays.len() && relay_url_of((#[trigger] relays[i]).url@) == Some(
                        (#[trigger] map[k]).0,
                    )
        },
    decreases relays.len(),
{
    if relays.len() > 0 {
        let rest = relays.drop_last();
        law_every_relay_is_entered(rest);
        let last = relays.last();
        if relay_map(relays) is Some {
            let before = relay_map(rest)->0;
            let map = relay_map(relays)->0;
            let url = relay_url_of(last.url@)->0;
            let token = token_of(opt_text(last.auth_token));
            lemma_place(before, url);
            assert(map == with_relay(before, url, token));
            let at = relay_place(before, url);
            assert forall|i: int| 0 <= i < relays.len() implies relay_url_of(
                (#[trigger] relays[i]).url@,
            ) is Some by {
                if i < rest.len() {
                    assert(rest[i] == relays[i]);
                }
            }
            assert forall|i: int| 0 <= i < relays.len() && #[trigger] last_named(
                relays,
                i,
            ) implies has_relay(
                map,
                relay_url_of(relays[i].url@)->0,
                token_of(opt_text(relays[i].auth_token)),
            ) by {
                if i == relays.len() - 1 {
                    assert(map[at].0 == url && map[at].1 == token);
                } else {
                    assert(rest[i] == relays[i]);
                    assert(last_named(rest, i)) by {
                        assert forall|j: int| i < j < rest.len() implies relay_url_of(
                            (#[trigger] rest[j]).url@,
                        ) != relay_url_of(rest[i].url@) by {
                            assert(rest[j] == relays[j]);
                        }
                    }
                    let u = relay_url_of(rest[i].url@)->0;
                    let t = token_of(opt_text(rest[i].auth_token));
                    assert(has_relay(before, u, t));
                    let k = choose|k: int|
                        0 <= k < before.len() && (#[trigger] before[k]).0 == u && before[k].1 == t;
                    assert(relay_url_of(relays[relays.len() - 1].url@) != relay_url_of(
                        relays[i].url@,
                    ));
                    assert(relay_url_of(rest[i].url@) is Some);
                    assert(u != url);
                    assert(k != at);
                    assert(map[k] == before[k]);
                }
            }
            assert forall|k: int| 0 <= k < map.len() implies exists|i: int|
                0 <= i < relays.len() && relay_url_of((#[trigger] relays[i]).url@) == Some(
                    (#[trigger] map[k]).0,
                ) by {
                if k == at {
                    assert(relay_url_of(relays[relays.len() - 1].url@) == Some(map[k].0));
                } else {
                    assert(map[k] == before[k]);
                    let i = choose|i: int|
                        0 <= i < rest.len() && relay_url_of((#[trigger] rest[i]).url@) == Some(
                            before[k].0,
                        );
                    assert(relays[i] == rest[i]);
                }
            }
        } else {
            if relay_map(rest) is None {
                let i = choose|i: int|
                    0 <= i < rest.len() && relay_url_of((#[trigger] rest[i]).url@) is None;
                assert(relays[i] == rest[i]);
            } else {
                assert(relay_url_of(relays[relays.len() - 1].url@) is None);
            }
        }
    }
}

proof fn lemma_place(map: Seq<(Seq<char>, Option<Seq<char>>)>, url: Seq<char>)
    ensures
        0 <= relay_place(map, url) <= map.len(),
        relay_place(map, url) < map.len() ==> map[relay_place(map, url)].0 == url,
        forall|i: int| 0 <= i < relay_place(map, url) ==> (#[trigger] map[i]).0 != url,
    decreases map.len(),
{
    if map.len() > 0 && map[0].0 != url {
        let rest = map.skip(1);
        lemma_place(rest, url);
        assert forall|i: int| 0 <= i < relay_place(map, url) implies (#[trigger] map[i]).0
            != url by {
            if i > 0 {
                assert(rest[i - 1] == map[i]);
            }
        }
    }
}

/// The address that is named when one cannot be read is the first such.
pub proof fn law_first_bad_address_is_named(relays: Seq<ConnectivityRelayConfig>)
    ensures
        0 <= bad_place(relays) <= relays.len(),
        bad_place(relays) < relays.len() ==> relay_url_of(relays[bad_place(relays)].url@) is None,
        forall|i: int|
            0 <= i < bad_place(relays) ==> relay_url_of((#[trigger] relays[i]).url@) is Some,
    decreases relays.len(),
{
    if relays.len() > 0 && relay_url_of(relays[0].url@) is Some {
        let rest = relays.skip(1);
        law_first_bad_address_is_named(rest);
        assert forall|i: int| 0 <= i < bad_place(relays) implies relay_url_of(
            (#[trigger] relays[i]).url@,
        ) is Some by {
            if i > 0 {
                assert(rest[i - 1] == relays[i]);
            }
        }
        if bad_place(relays) < relays.len() {
            assert(rest[bad_place(relays) - 1] == relays[bad_place(relays)]);
        }
    }
}

/// A token that is empty is none; any other is shown.
pub proof fn law_tokens(token: Option<Seq<char>>)
    ensures
        token_of(token) is Some <==> token is Some && token->0.len() > 0,
        token_of(token) is Some ==> token_of(token) == token,
{
}

/// The relay that is reported as refusing is the first that does, with its
/// reason.
pub proof fn law_first_refusing_relay(relays: Seq<HomeRelay>, at: int)
    requires
        0 <= at <= relays.len(),
        forall|i: int| 0 <= i < at ==> (#[trigger] relays[i]).auth_denied is None,
        at < relays.len() ==> relays[at].auth_denied is Some,
    ensures
        at < relays.len() ==> first_denial(relays) == Some(
            (relays[at].url@, relays[at].auth_denied->0@),
        ),
        at == relays.len() ==> first_denial(relays) is None,
    decreases relays.len(),
{
    if relays.len() > 0 && at > 0 {
        assert(relays[0].auth_denied is None);
        let rest = relays.drop_first();
        assert forall|i: int| 0 <= i < at - 1 implies (#[trigger] rest[i]).auth_denied is None by {
            assert(rest[i] == relays[i + 1]);
        }
        if at < relays.len() {
            assert(rest[at - 1] == relays[at]);
        }
        law_first_refusing_relay(rest, at - 1);
    }
}

/// A request to connect may be up to 65536 bytes long.
pub proof fn law_length_of_requests(
    stage: ConnectStage,
    remote: Seq<char>,
    network: u128,
    kind: Option<Seq<char>>,
    length: Vec<u8>,
)
    ensures
        from_be(length@) <= 65_536 ==> next_connect(
            stage,
            remote,
            network,
            kind,
            ConnectReply::Length(Some(length)),
        ) == (ConnectStage::ReadBody, ConnectAskView::ReadBody(from_be(length@) as usize)),
{
}

/// What is asked for can be answered: the answer to each question fits the
/// stage that the data plane waits in, whether it comes up, is answered or
/// follows its membership.
pub open spec fn can_be_answered(m: PlaneMove, n: usize, index: Option<u32>, active: bool) -> bool {
    match m.ask {
        PlaneAskView::CheckConflicts => fits(m.plane.stage, PlaneReply::Conflicts(n)),
        PlaneAskView::StartDns => fits(m.plane.stage, PlaneReply::DnsStarted(Ok(()))),
        PlaneAskView::BuildTun => fits(m.plane.stage, PlaneReply::TunBuilt(Ok(index))),
        PlaneAskView::ApplyDns => fits(m.plane.stage, PlaneReply::DnsApplied(Ok(active))),
        PlaneAskView::ReconcileRoutes => fits(m.plane.stage, PlaneReply::Routed(Ok(()))),
        PlaneAskView::Done(_) => m.plane.stage == PlaneStage::Rest,
    }
}

/// Every question that the data plane asks can be answered.
pub proof fn law_questions_can_be_answered(
    p: DataPlane,
    reply: PlaneReply,
    dns_ended: bool,
    n: usize,
    index: Option<u32>,
    active: bool,
)
    ensures
        can_be_answered(coming_up(p, Seq::empty()), n, index, active),
        can_be_answered(next_plane(p, reply), n, index, active),
        can_be_answered(reconciled(p, dns_ended), n, index, active),
        !fits(PlaneStage::Rest, reply),
{
}

} // verus!
