//! Why a packet was dropped, and how that is counted.

use crate::tunnel_mesh::{MeshView, TunnelCounters, TunnelMesh};
use vstd::prelude::*;

verus! {

/// Why a packet went no further.
#[derive(Clone, Copy, Debug, PartialEq, Eq, Structural)]
pub enum DropReason {
    PacketStale,
    PeerQueueFull,
    DatagramTooLarge,
    DatagramSend,
    OverlayMalformed,
    OverlayExpired,
    OverlayEvicted,
    UnknownNetwork,
    Ipv6UnsupportedIn,
    Ipv6Unsupported,
    Antispoof,
    PolicyDenyIn,
    PolicyDeny,
    FwDenyIn,
    FwDenyOut,
    FwRejectIn,
    FwRejectOut,
    LocalSubnet,
    NoRoute,
    OwnAddress,
    TunWriteQueueFull,
    TunSendFailed,
}

/// The label that a reason is counted under.
pub open spec fn drop_label(reason: DropReason) -> Seq<char> {
    match reason {
        DropReason::PacketStale => "packet_stale"@,
        DropReason::PeerQueueFull => "peer_queue_full"@,
        DropReason::DatagramTooLarge => "datagram_too_large"@,
        DropReason::DatagramSend => "datagram_send"@,
        DropReason::OverlayMalformed => "overlay_malformed"@,
        DropReason::OverlayExpired => "overlay_expired"@,
        DropReason::OverlayEvicted => "overlay_evicted"@,
        DropReason::UnknownNetwork => "unknown_network"@,
        DropReason::Ipv6UnsupportedIn => "ipv6_unsupported_in"@,
        DropReason::Ipv6Unsupported => "ipv6_unsupported"@,
        DropReason::Antispoof => "antispoof"@,
        DropReason::PolicyDenyIn => "policy_deny_in"@,
        DropReason::PolicyDeny => "policy_deny"@,
        DropReason::FwDenyIn => "fw_deny_in"@,
        DropReason::FwDenyOut => "fw_deny_out"@,
        DropReason::FwRejectIn => "fw_reject_in"@,
        DropReason::FwRejectOut => "fw_reject_out"@,
        DropReason::LocalSubnet => "local_subnet"@,
        DropReason::NoRoute => "no_route"@,
        DropReason::OwnAddress => "self"@,
        DropReason::TunWriteQueueFull => "tun_write_queue_full"@,
        DropReason::TunSendFailed => "tun_send_failed"@,
    }
}

/// The tunnel's counters after one packet was dropped. Some reasons have a
/// counter of their own; the others are only counted by label.
pub open spec fn counted_drop(c: TunnelCounters, reason: DropReason) -> TunnelCounters {
    match reason {
        DropReason::PacketStale => TunnelCounters {
            stale_drops: c.stale_drops.wrapping_add(1),
            ..c
        },
        DropReason::PeerQueueFull => TunnelCounters {
            queue_full: c.queue_full.wrapping_add(1),
            ..c
        },
        DropReason::DatagramTooLarge => TunnelCounters {
            too_large: c.too_large.wrapping_add(1),
            ..c
        },
        DropReason::DatagramSend => TunnelCounters {
            send_errors: c.send_errors.wrapping_add(1),
            ..c
        },
        DropReason::OverlayMalformed => TunnelCounters {
            reassembly_malformed: c.reassembly_malformed.wrapping_add(1),
            ..c
        },
        DropReason::OverlayExpired => TunnelCounters {
            reassembly_expired: c.reassembly_expired.wrapping_add(1),
            ..c
        },
        DropReason::OverlayEvicted => TunnelCounters {
            reassembly_evicted: c.reassembly_evicted.wrapping_add(1),
            ..c
        },
        DropReason::UnknownNetwork => TunnelCounters {
            blocked_drops: c.blocked_drops.wrapping_add(1),
            ..c
        },
        DropReason::TunWriteQueueFull => TunnelCounters {
            tun_write_drops: c.tun_write_drops.wrapping_add(1),
            ..c
        },
        _ => c,
    }
}

impl DropReason {
    pub fn label(&self) -> (r: &'static str)
        ensures
            r@ == drop_label(*self),
    {
        match *self {
            DropReason::PacketStale => "packet_stale",
            DropReason::PeerQueueFull => "peer_queue_full",
            DropReason::DatagramTooLarge => "datagram_too_large",
            DropReason::DatagramSend => "datagram_send",
            DropReason::OverlayMalformed => "overlay_malformed",
            DropReason::OverlayExpired => "overlay_expired",
            DropReason::OverlayEvicted => "overlay_evicted",
            DropReason::UnknownNetwork => "unknown_network",
            DropReason::Ipv6UnsupportedIn => "ipv6_unsupported_in",
            DropReason::Ipv6Unsupported => "ipv6_unsupported",
            DropReason::Antispoof => "antispoof",
            DropReason::PolicyDenyIn => "policy_deny_in",
            DropReason::PolicyDeny => "policy_deny",
            DropReason::FwDenyIn => "fw_deny_in",
            DropReason::FwDenyOut => "fw_deny_out",
            DropReason::FwRejectIn => "fw_reject_in",
            DropReason::FwRejectOut => "fw_reject_out",
            DropReason::LocalSubnet => "local_subnet",
            DropReason::NoRoute => "no_route",
            DropReason::OwnAddress => "self",
            DropReason::TunWriteQueueFull => "tun_write_queue_full",
            DropReason::TunSendFailed => "tun_send_failed",
        }
    }

    /// Counts a drop in the tunnel's telemetry.
    pub fn count(&self, mesh: &mut TunnelMesh)
        requires
            old(mesh).wf(),
        ensures
            final(mesh).wf(),
            final(mesh).state() == (MeshView {
                counters: counted_drop(old(mesh).state().counters, *self),
                ..old(mesh).state()
            }),
    {
        match *self {
            DropReason::PacketStale => mesh.inc_stale(),
            DropReason::PeerQueueFull => mesh.inc_queue_full(),
            DropReason::DatagramTooLarge => mesh.inc_too_large(),
            DropReason::DatagramSend => mesh.inc_send_error(),
            DropReason::OverlayMalformed => mesh.inc_reassembly_malformed(),
            DropReason::OverlayExpired => mesh.inc_reassembly_expired(),
            DropReason::OverlayEvicted => mesh.inc_reassembly_evicted(),
            DropReason::UnknownNetwork => mesh.inc_blocked(),
            DropReason::TunWriteQueueFull => mesh.inc_tun_write_drop(),
            _ => {},
        }
    }
}

} // verus!
