//! How an endpoint is reached: the relays that were resolved for it, and the
//! ways of discovery, which are independent of them.

use crate::membership::{copy_opt_text, opt_text};
use crate::text::{is_blank, same_text};
use iroh_base::RelayUrl;
use vstd::prelude::*;

verus! {

/// Room for outgoing datagrams: tens of packets, not a second's worth.
pub const DATAGRAM_SEND_BUFFER: usize = 65536;

/// Room for incoming datagrams, larger so that a burst is not lost before it
/// can be taken in.
pub const DATAGRAM_RECEIVE_BUFFER: usize = 262144;

/// A relay of one's own. The token is a secret, so the type is not printable.
#[derive(PartialEq, Eq)]
pub struct ConnectivityRelayConfig {
    pub url: String,
    pub region: Option<String>,
    pub auth_token: Option<String>,
    pub metering: bool,
}

/// Which relays an endpoint uses.
#[derive(PartialEq, Eq)]
pub enum EffectiveRelayPolicy {
    /// The public ones.
    N0,
    /// Only these.
    Custom(Vec<ConnectivityRelayConfig>),
    /// None.
    Disabled,
}

impl EffectiveRelayPolicy {
    /// Whether the public relays and name lookups are contacted.
    pub fn uses_n0_infrastructure(&self) -> (r: bool)
        ensures
            r == (*self is N0),
    {
        match self {
            EffectiveRelayPolicy::N0 => true,
            _ => false,
        }
    }

    /// The relays of one's own, if any.
    pub fn custom_relays(&self) -> (r: &[ConnectivityRelayConfig])
        ensures
            r@ == match *self {
                EffectiveRelayPolicy::Custom(v) => v@,
                _ => Seq::empty(),
            },
    {
        match self {
            EffectiveRelayPolicy::Custom(v) => v.as_slice(),
            _ => &[],
        }
    }
}

/// The settings of an endpoint once its relays are resolved.
#[derive(PartialEq, Eq)]
pub struct ConnectivityOptions {
    pub relay: EffectiveRelayPolicy,
    pub enable_dht: bool,
    pub enable_mdns: bool,
    pub enable_lan_discovery: bool,
}

impl Default for ConnectivityOptions {
    fn default() -> (r: ConnectivityOptions)
        ensures
            r == (ConnectivityOptions {
                relay: EffectiveRelayPolicy::N0,
                enable_dht: true,
                enable_mdns: true,
                enable_lan_discovery: true,
            }),
    {
        ConnectivityOptions {
            relay: EffectiveRelayPolicy::N0,
            enable_dht: true,
            enable_mdns: true,
            enable_lan_discovery: true,
        }
    }
}

impl ConnectivityOptions {
    /// The settings for a relay policy, which may have failed to resolve, and
    /// the given ways of discovery.
    pub fn direct_from_input<E>(
        resolved: Result<EffectiveRelayPolicy, E>,
        enable_dht: bool,
        enable_mdns: bool,
        enable_lan_discovery: bool,
    ) -> (r: Result<ConnectivityOptions, E>)
        ensures
            r == match resolved {
                Ok(relay) => Ok(
                    ConnectivityOptions { relay, enable_dht, enable_mdns, enable_lan_discovery },
                ),
                Err(e) => Err(e),
            },
    {
        match resolved {
            Ok(relay) => Ok(
                ConnectivityOptions { relay, enable_dht, enable_mdns, enable_lan_discovery },
            ),
            Err(e) => Err(e),
        }
    }

    /// The settings of a node without a control plane. A configuration, or an
    /// override of it, that could not be read comes before the relays.
    pub fn from_direct_config<I, E>(
        input: Result<I, E>,
        resolved: Result<EffectiveRelayPolicy, E>,
        dht_default: bool,
        mdns_default: bool,
        lan_discovery_default: bool,
    ) -> (r: Result<ConnectivityOptions, E>)
        ensures
            r == match input {
                Err(e) => Err(e),
                Ok(_) => match resolved {
                    Ok(relay) => Ok(
                        ConnectivityOptions {
                            relay,
                            enable_dht: dht_default,
                            enable_mdns: mdns_default,
                            enable_lan_discovery: lan_discovery_default,
                        },
                    ),
                    Err(e) => Err(e),
                },
            },
    {
        match input {
            Err(e) => Err(e),
            Ok(_) => ConnectivityOptions::direct_from_input(
                resolved,
                dht_default,
                mdns_default,
                lan_discovery_default,
            ),
        }
    }

    /// A node without a control plane and without a word on relays uses the
    /// public ones.
    pub fn direct_default(enable_mdns: bool) -> (r: ConnectivityOptions)
        ensures
            r == (ConnectivityOptions {
                relay: EffectiveRelayPolicy::N0,
                enable_dht: true,
                enable_mdns,
                enable_lan_discovery: true,
            }),
    {
        ConnectivityOptions {
            relay: EffectiveRelayPolicy::N0,
            enable_dht: true,
            enable_mdns,
            enable_lan_discovery: true,
        }
    }

    /// A managed node uses nothing until the control plane has spoken.
    pub fn managed_default() -> (r: ConnectivityOptions)
        ensures
            r == (ConnectivityOptions {
                relay: EffectiveRelayPolicy::Disabled,
                enable_dht: false,
                enable_mdns: false,
                enable_lan_discovery: false,
            }),
    {
        ConnectivityOptions {
            relay: EffectiveRelayPolicy::Disabled,
            enable_dht: false,
            enable_mdns: false,
            enable_lan_discovery: false,
        }
    }

    /// The settings with the relays that the control plane's word resolved to.
    /// What was set locally is replaced; discovery stays.
    pub fn with_managed_snapshot<E>(self, resolved: Result<EffectiveRelayPolicy, E>) -> (r: Result<
        ConnectivityOptions,
        E,
    >)
        ensures
            r == match resolved {
                Ok(relay) => Ok(ConnectivityOptions { relay, ..self }),
                Err(e) => Err(e),
            },
    {
        match resolved {
            Ok(relay) => Ok(
                ConnectivityOptions {
                    relay,
                    enable_dht: self.enable_dht,
                    enable_mdns: self.enable_mdns,
                    enable_lan_discovery: self.enable_lan_discovery,
                },
            ),
            Err(e) => Err(e),
        }
    }
}

/// Whether a policy contacts the public relays and name lookups.
pub fn relay_uses_n0_preset(policy: &EffectiveRelayPolicy) -> (r: bool)
    ensures
        r == (*policy is N0),
{
    policy.uses_n0_infrastructure()
}

/// A relay of an endpoint's map: its address and the token to show.
pub struct RelayEntry {
    pub url: String,
    pub auth_token: Option<String>,
}

/// A relay as a value.
pub open spec fn entry_view(e: RelayEntry) -> (Seq<char>, Option<Seq<char>>) {
    (e.url@, opt_text(e.auth_token))
}

/// A map of relays as a value.
pub open spec fn entry_views(v: Seq<RelayEntry>) -> Seq<(Seq<char>, Option<Seq<char>>)> {
    Seq::new(v.len(), |i: int| entry_view(v[i]))
}

/// An address that is none of a relay.
#[derive(Debug)]
pub struct RelayUrlParseError {
    pub url: String,
}

/// The token that is shown: an empty one is none.
pub open spec fn token_of(token: Option<Seq<char>>) -> Option<Seq<char>> {
    match token {
        Some(t) => if t.len() > 0 {
            Some(t)
        } else {
            None
        },
        None => None,
    }
}

/// The text of the relay address that `RelayUrl` reads from a text.
pub uninterp spec fn relay_url_of(s: Seq<char>) -> Option<Seq<char>>;

/// Calls `RelayUrl::from_str` and `to_string`. The outcome depends on the text
/// alone, and two addresses are the same exactly when their texts are.
#[verifier::external_body]
fn parse_relay_url(s: &str) -> (r: Option<String>)
    ensures
        opt_text(r) == relay_url_of(s@),
{
    let url: RelayUrl = s.parse().ok()?;
    Some(url.to_string())
}

/// The place of a relay in a map; the number of relays when it is not there.
pub open spec fn relay_place(map: Seq<(Seq<char>, Option<Seq<char>>)>, url: Seq<char>) -> int
    decreases map.len(),
{
    if map.len() == 0 || map[0].0 == url {
        0
    } else {
        1 + relay_place(map.skip(1), url)
    }
}

/// The map with a relay, which takes the place of one at the same address.
pub open spec fn with_relay(
    map: Seq<(Seq<char>, Option<Seq<char>>)>,
    url: Seq<char>,
    token: Option<Seq<char>>,
) -> Seq<(Seq<char>, Option<Seq<char>>)> {
    let at = relay_place(map, url);
    if at < map.len() {
        map.update(at, (url, token))
    } else {
        map.push((url, token))
    }
}

/// The map of relays, unless an address is none.
pub open spec fn relay_map(relays: Seq<ConnectivityRelayConfig>) -> Option<
    Seq<(Seq<char>, Option<Seq<char>>)>,
>
    decreases relays.len(),
{
    if relays.len() == 0 {
        Some(Seq::empty())
    } else {
        match (relay_map(relays.drop_last()), relay_url_of(relays.last().url@)) {
            (Some(map), Some(url)) => Some(
                with_relay(map, url, token_of(opt_text(relays.last().auth_token))),
            ),
            _ => None,
        }
    }
}

/// The place of the first address that is none; the number of relays when each
/// is one.
pub open spec fn bad_place(relays: Seq<ConnectivityRelayConfig>) -> int
    decreases relays.len(),
{
    if relays.len() == 0 || relay_url_of(relays[0].url@) is None {
        0
    } else {
        1 + bad_place(relays.skip(1))
    }
}

proof fn lemma_relay_place(map: Seq<(Seq<char>, Option<Seq<char>>)>, url: Seq<char>)
    ensures
        0 <= relay_place(map, url) <= map.len(),
        forall|i: int| 0 <= i < relay_place(map, url) ==> (#[trigger] map[i]).0 != url,
        relay_place(map, url) < map.len() ==> map[relay_place(map, url)].0 == url,
    decreases map.len(),
{
    if map.len() > 0 && map[0].0 != url {
        let rest = map.skip(1);
        lemma_relay_place(rest, url);
        assert forall|i: int| 0 <= i < relay_place(map, url) implies (#[trigger] map[i]).0
            != url by {
            if i > 0 {
                assert(rest[i - 1] == map[i]);
            }
        }
    }
}

/// The first address that is none is behind as many that are.
proof fn lemma_bad_place(relays: Seq<ConnectivityRelayConfig>, at: int)
    requires
        0 <= at < relays.len(),
        forall|i: int| 0 <= i < at ==> relay_url_of((#[trigger] relays[i]).url@) is Some,
        relay_url_of(relays[at].url@) is None,
    ensures
        bad_place(relays) == at,
    decreases relays.len(),
{
    if at > 0 {
        let rest = relays.skip(1);
        assert forall|i: int| 0 <= i < at - 1 implies relay_url_of((#[trigger] rest[i]).url@)
            is Some by {
            assert(rest[i] == relays[i + 1]);
        }
        lemma_bad_place(rest, at - 1);
    }
}

/// With an address that is none there is no map.
proof fn lemma_no_map(relays: Seq<ConnectivityRelayConfig>, at: int)
    requires
        0 <= at < relays.len(),
        relay_url_of(relays[at].url@) is None,
    ensures
        relay_map(relays) is None,
    decreases relays.len(),
{
    if at < relays.len() - 1 {
        assert(relays.drop_last()[at] == relays[at]);
        lemma_no_map(relays.drop_last(), at);
    }
}

/// Enters a relay into a map under the address that was read, with its token
/// unless that is empty.
pub fn enter_relay(map: &mut Vec<RelayEntry>, url: String, auth_token: &Option<String>)
    ensures
        entry_views(final(map)@) == with_relay(
            entry_views(old(map)@),
            url@,
            token_of(opt_text(*auth_token)),
        ),
{
    let blank = match auth_token {
        Some(t) => is_blank(t.as_str()),
        None => false,
    };
    let auth_token = if blank {
        None
    } else {
        copy_opt_text(auth_token)
    };
    let ghost views = entry_views(map@);
    let ghost key = url@;
    let mut i: usize = 0;
    proof {
        lemma_relay_place(views, key);
    }
    while i < map.len() && !same_text(map[i].url.as_str(), url.as_str())
        invariant
            i <= map@.len(),
            views == entry_views(map@),
            key == url@,
            forall|j: int| 0 <= j < i ==> (#[trigger] views[j]).0 != key,
        decreases map@.len() - i,
    {
        assert(views[i as int].0 == map@[i as int].url@);
        i = i + 1;
    }
    proof {
        if i < map@.len() {
            assert(views[i as int].0 == key);
        }
        assert(relay_place(views, key) == i);
    }
    let entry = RelayEntry { url, auth_token };
    let ghost seen = entry_view(entry);
    if i < map.len() {
        map.set(i, entry);
        proof {
            assert(entry_views(map@) =~= views.update(i as int, seen));
        }
    } else {
        map.push(entry);
        proof {
            assert(entry_views(map@) =~= views.push(seen));
        }
    }
}

/// The map of relays that an endpoint is built with: each address once, with
/// the token of the last that names it.
pub fn relay_map_from_configs(relays: &[ConnectivityRelayConfig]) -> (r: Result<
    Vec<RelayEntry>,
    RelayUrlParseError,
>)
    ensures
        match r {
            Ok(map) => relay_map(relays@) == Some(entry_views(map@)),
            Err(e) => {
                &&& relay_map(relays@) is None
                &&& bad_place(relays@) < relays@.len()
                &&& e.url@ == relays@[bad_place(relays@)].url@
            },
        },
{
    let mut map: Vec<RelayEntry> = Vec::new();
    let mut i: usize = 0;
    proof {
        assert(entry_views(map@) =~= Seq::empty());
        assert(relay_map(relays@.take(0)) == Some(entry_views(map@)));
    }
    while i < relays.len()
        invariant
            i <= relays@.len(),
            relay_map(relays@.take(i as int)) == Some(entry_views(map@)),
            forall|j: int| 0 <= j < i ==> relay_url_of((#[trigger] relays@[j]).url@) is Some,
        decreases relays@.len() - i,
    {
        let ghost next = relays@.take(i + 1);
        proof {
            assert(next.drop_last() =~= relays@.take(i as int));
            assert(next.last() == relays@[i as int]);
        }
        match parse_relay_url(relays[i].url.as_str()) {
            Some(url) => enter_relay(&mut map, url, &relays[i].auth_token),
            None => {
                proof {
                    lemma_bad_place(relays@, i as int);
                    lemma_no_map(relays@, i as int);
                }
                return Err(RelayUrlParseError { url: relays[i].url.clone() });
            },
        }
        i = i + 1;
    }
    proof {
        assert(relays@.take(i as int) =~= relays@);
    }
    Ok(map)
}

/// No address stands twice in a map of relays.
pub proof fn law_each_relay_once(relays: Seq<ConnectivityRelayConfig>, i: int, j: int)
    requires
        relay_map(relays) is Some,
        0 <= i < j < relay_map(relays)->0.len(),
    ensures
        relay_map(relays)->0[i].0 != relay_map(relays)->0[j].0,
    decreases relays.len(),
{
    let before = relay_map(relays.drop_last())->0;
    let url = relay_url_of(relays.last().url@)->0;
    lemma_relay_place(before, url);
    if j < before.len() {
        law_each_relay_once(relays.drop_last(), i, j);
    }
}

/// What an endpoint is built from.
#[derive(Clone, Copy, Debug, PartialEq, Eq, Structural)]
pub struct EndpointPlan {
    /// Begin with the public preset, which brings relays and name lookups;
    /// else with next to nothing.
    pub n0_preset: bool,
    pub relays: RelayChoice,
    pub datagram_send_buffer: usize,
    pub datagram_receive_buffer: usize,
    /// Look addresses up in the distributed hash table.
    pub dht: bool,
    pub mdns: bool,
}

#[derive(Clone, Copy, Debug, PartialEq, Eq, Structural)]
pub enum RelayChoice {
    /// Those of the preset.
    FromPreset,
    /// Those of the policy.
    Custom,
    Disabled,
}

/// What an endpoint with these settings is built from. Only the public policy
/// begins with the public preset.
pub fn endpoint_plan(opts: &ConnectivityOptions) -> (r: EndpointPlan)
    ensures
        r == (EndpointPlan {
            n0_preset: opts.relay is N0,
            relays: match opts.relay {
                EffectiveRelayPolicy::N0 => RelayChoice::FromPreset,
                EffectiveRelayPolicy::Custom(_) => RelayChoice::Custom,
                EffectiveRelayPolicy::Disabled => RelayChoice::Disabled,
            },
            datagram_send_buffer: DATAGRAM_SEND_BUFFER,
            datagram_receive_buffer: DATAGRAM_RECEIVE_BUFFER,
            dht: opts.enable_dht,
            mdns: opts.enable_mdns,
        }),
{
    let relays = match &opts.relay {
        EffectiveRelayPolicy::N0 => RelayChoice::FromPreset,
        EffectiveRelayPolicy::Custom(_) => RelayChoice::Custom,
        EffectiveRelayPolicy::Disabled => RelayChoice::Disabled,
    };
    EndpointPlan {
        n0_preset: relay_uses_n0_preset(&opts.relay),
        relays,
        datagram_send_buffer: DATAGRAM_SEND_BUFFER,
        datagram_receive_buffer: DATAGRAM_RECEIVE_BUFFER,
        dht: opts.enable_dht,
        mdns: opts.enable_mdns,
    }
}

/// The state of one home relay: its address, and why it refuses this endpoint
/// where it does.
#[derive(Debug)]
pub struct HomeRelay {
    pub url: String,
    pub auth_denied: Option<String>,
}

/// The first relay that refuses this endpoint, and why.
pub open spec fn first_denial(relays: Seq<HomeRelay>) -> Option<(Seq<char>, Seq<char>)>
    decreases relays.len(),
{
    if relays.len() == 0 {
        None
    } else {
        match relays[0].auth_denied {
            Some(why) => Some((relays[0].url@, why@)),
            None => first_denial(relays.drop_first()),
        }
    }
}

/// The first home relay that refuses this endpoint, and why. Unlike other
/// failures this does not pass by waiting.
pub fn relay_auth_denied_detail(relays: &[HomeRelay]) -> (r: Option<(String, String)>)
    ensures
        match first_denial(relays@) {
            Some(d) => r matches Some(x) && x.0@ == d.0 && x.1@ == d.1,
            None => r is None,
        },
{
    let mut i: usize = 0;
    proof {
        assert(relays@.skip(0) =~= relays@);
    }
    while i < relays.len()
        invariant
            i <= relays@.len(),
            first_denial(relays@.skip(i as int)) == first_denial(relays@),
        decreases relays@.len() - i,
    {
        let ghost rest = relays@.skip(i as int);
        proof {
            assert(rest[0] == relays@[i as int]);
            assert(rest.drop_first() =~= relays@.skip(i + 1));
        }
        if let Some(why) = &relays[i].auth_denied {
            return Some((relays[i].url.clone(), why.clone()));
        }
        i = i + 1;
    }
    proof {
        assert(relays@.skip(i as int).len() == 0);
    }
    None
}

} // verus!
