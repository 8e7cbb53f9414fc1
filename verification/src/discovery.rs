//! Passive mDNS discovery: the report printed for each packet observed on
//! the local network.

use vstd::prelude::*;

verus! {

pub const QUERY_PREFIX: &'static str = "Detected query from ";
pub const PEER_PREFIX: &'static str = "Discovered peer ";
pub const ADDRESS_PREFIX: &'static str = " Address = ";
pub const SERVICE_QUERY_PREFIX: &'static str = "Detected service query from ";

/// A peer announced in an mDNS response: its identifier and the addresses it
/// reports for itself, each as printed.
pub struct DiscoveredPeer {
    pub id: String,
    pub addresses: Vec<String>,
}

/// An mDNS packet, with addresses and identifiers as printed.
pub enum MdnsEvent {
    /// A libp2p query, from the given remote address.
    Query(String),
    /// A response announcing peers.
    Response(Vec<DiscoveredPeer>),
    /// A DNS-SD service discovery query, from the given remote address.
    ServiceDiscovery(String),
}

/// The lines reported for one discovered peer: the peer, then each of its
/// addresses.
pub open spec fn peer_report(id: Seq<char>, addresses: Seq<Seq<char>>) -> Seq<Seq<char>> {
    seq![PEER_PREFIX@ + id] + addresses.map_values(|a: Seq<char>| ADDRESS_PREFIX@ + a)
}

/// The lines reported for a list of discovered peers, in order.
pub open spec fn peers_report(peers: Seq<DiscoveredPeer>) -> Seq<Seq<char>>
    decreases peers.len(),
{
    if peers.len() == 0 {
        seq![]
    } else {
        peers_report(peers.drop_last()) + peer_report(
            peers.last().id@,
            peers.last().addresses.deep_view(),
        )
    }
}

/// The lines reported for one mDNS packet.
pub open spec fn event_report(event: MdnsEvent) -> Seq<Seq<char>> {
    match event {
        MdnsEvent::Query(remote) => seq![QUERY_PREFIX@ + remote@],
        MdnsEvent::Response(peers) => peers_report(peers@),
        MdnsEvent::ServiceDiscovery(remote) => seq![SERVICE_QUERY_PREFIX@ + remote@],
    }
}

/// The number of lines reported for a list of peers: one per peer and one
/// per address.
pub open spec fn report_line_count(peers: Seq<DiscoveredPeer>) -> int
    decreases peers.len(),
{
    if peers.len() == 0 {
        0
    } else {
        report_line_count(peers.drop_last()) + 1 + peers.last().addresses@.len()
    }
}

/// The report of a response has one line for each peer and one for each of
/// its addresses; it ends with the last peer's block: the peer's line, then
/// one " Address = " line for every address of that peer, in order; what
/// comes before is the report of the other peers.
pub proof fn lemma_response_report_lines(peers: Vec<DiscoveredPeer>)
    ensures
        event_report(MdnsEvent::Response(peers)).len() == report_line_count(peers@),
        peers@.len() > 0 ==> {
            let r = event_report(MdnsEvent::Response(peers));
            let p = peers@.last();
            let start = r.len() - 1 - p.addresses@.len();
            &&& 0 <= start
            &&& r.subrange(0, start) == peers_report(peers@.drop_last())
            &&& r[start] == PEER_PREFIX@ + p.id@
            &&& forall|i: int|
                0 <= i < p.addresses@.len() ==> #[trigger] r[start + 1 + i] == ADDRESS_PREFIX@
                    + p.addresses@[i]@
        },
{
    lemma_peers_report_len(peers@);
    if peers@.len() > 0 {
        let r = peers_report(peers@);
        let p = peers@.last();
        let q = peers_report(peers@.drop_last());
        let b = peer_report(p.id@, p.addresses.deep_view());
        assert(r == q + b);
        assert(b.len() == 1 + p.addresses@.len());
        let start = r.len() - 1 - p.addresses@.len();
        assert(start == q.len());
        assert(r.subrange(0, start) =~= q);
        assert(r[start] == b[0]);
        assert forall|i: int| 0 <= i < p.addresses@.len() implies #[trigger] r[start + 1 + i]
            == ADDRESS_PREFIX@ + p.addresses@[i]@ by {
            assert(r[start + 1 + i] == b[1 + i]);
            assert(p.addresses.deep_view()[i] == p.addresses@[i]@);
        }
    }
}

/// The report of a response with a single peer: the peer's line, then one
/// " Address = " line for every address of the peer, in order.
pub proof fn lemma_one_peer_report(peers: Vec<DiscoveredPeer>)
    requires
        peers@.len() == 1,
    ensures
        event_report(MdnsEvent::Response(peers)).len() == 1 + peers@[0].addresses@.len(),
        event_report(MdnsEvent::Response(peers))[0] == PEER_PREFIX@ + peers@[0].id@,
        forall|i: int|
            0 <= i < peers@[0].addresses@.len() ==> #[trigger] event_report(
                MdnsEvent::Response(peers),
            )[i + 1] == ADDRESS_PREFIX@ + peers@[0].addresses@[i]@,
{
    lemma_response_report_lines(peers);
    let r = event_report(MdnsEvent::Response(peers));
    assert(peers@.drop_last().len() == 0);
    assert(peers_report(peers@.drop_last()).len() == 0);
    assert(peers@.last() == peers@[0]);
    assert forall|i: int| 0 <= i < peers@[0].addresses@.len() implies #[trigger] r[i + 1]
        == ADDRESS_PREFIX@ + peers@[0].addresses@[i]@ by {
        assert(r[0 + 1 + i] == ADDRESS_PREFIX@ + peers@.last().addresses@[i]@);
    }
}

/// A query or a service query is reported on exactly one line, naming where
/// it came from.
pub proof fn lemma_query_report_lines(remote: String)
    ensures
        event_report(MdnsEvent::Query(remote)) == seq![QUERY_PREFIX@ + remote@],
        event_report(MdnsEvent::ServiceDiscovery(remote)) == seq![SERVICE_QUERY_PREFIX@ + remote@],
{
}

proof fn lemma_peers_report_len(peers: Seq<DiscoveredPeer>)
    ensures
        peers_report(peers).len() == report_line_count(peers),
    decreases peers.len(),
{
    if peers.len() > 0 {
        lemma_peers_report_len(peers.drop_last());
    }
}

/// The report of peers announced together is the report of the first ones
/// followed by the report of the others.
pub proof fn lemma_peers_report_concat(first: Seq<DiscoveredPeer>, rest: Seq<DiscoveredPeer>)
    ensures
        peers_report(first + rest) == peers_report(first) + peers_report(rest),
    decreases rest.len(),
{
    if rest.len() == 0 {
        assert(first + rest =~= first);
        assert(peers_report(first) + peers_report(rest) =~= peers_report(first));
    } else {
        lemma_peers_report_concat(first, rest.drop_last());
        assert((first + rest).drop_last() =~= first + rest.drop_last());
        assert((first + rest).last() == rest.last());
        let pr = peer_report(rest.last().id@, rest.last().addresses.deep_view());
        assert(peers_report(first) + peers_report(rest.drop_last()) + pr =~= peers_report(first)
            + (peers_report(rest.drop_last()) + pr));
    }
}

/// A peer as plain values: its identifier and its addresses.
pub open spec fn peer_view(peer: DiscoveredPeer) -> (Seq<char>, Seq<Seq<char>>) {
    (peer.id@, peer.addresses.deep_view())
}

/// A list of peers as plain values.
pub open spec fn peers_view(peers: Seq<DiscoveredPeer>) -> Seq<(Seq<char>, Seq<Seq<char>>)> {
    peers.map_values(|p: DiscoveredPeer| peer_view(p))
}

/// A list of (peer, address) pairs as plain values.
pub open spec fn pairs_view(pairs: Seq<(String, String)>) -> Seq<(Seq<char>, Seq<char>)> {
    pairs.map_values(|p: (String, String)| (p.0@, p.1@))
}

/// Whether some group is that of the peer `id`.
pub open spec fn has_peer(groups: Seq<(Seq<char>, Seq<Seq<char>>)>, id: Seq<char>) -> bool {
    exists|k: int| 0 <= k < groups.len() && groups[k].0 == id
}

/// No peer has two groups.
pub open spec fn distinct_peers(groups: Seq<(Seq<char>, Seq<Seq<char>>)>) -> bool {
    forall|j: int, k: int|
        0 <= j < groups.len() && 0 <= k < groups.len() && j != k ==> groups[j].0 != groups[k].0
}

/// Adds the address `addr` of the peer `id`: to the end of that peer's
/// group where it has one, else as a new group at the end.
pub open spec fn join_group(
    groups: Seq<(Seq<char>, Seq<Seq<char>>)>,
    id: Seq<char>,
    addr: Seq<char>,
) -> Seq<(Seq<char>, Seq<Seq<char>>)> {
    if has_peer(groups, id) {
        let k = choose|k: int| 0 <= k < groups.len() && groups[k].0 == id;
        groups.update(k, (id, groups[k].1.push(addr)))
    } else {
        groups.push((id, seq![addr]))
    }
}

/// The (peer, address) pairs grouped by peer: peers in the order in which
/// they first occur, each with its addresses in the order in which they
/// occur.
pub open spec fn grouped(pairs: Seq<(Seq<char>, Seq<char>)>) -> Seq<(Seq<char>, Seq<Seq<char>>)>
    decreases pairs.len(),
{
    if pairs.len() == 0 {
        seq![]
    } else {
        join_group(grouped(pairs.drop_last()), pairs.last().0, pairs.last().1)
    }
}

/// Grouping never gives a peer two groups.
pub proof fn lemma_grouped_peers_distinct(pairs: Seq<(Seq<char>, Seq<char>)>)
    ensures
        distinct_peers(grouped(pairs)),
    decreases pairs.len(),
{
    if pairs.len() > 0 {
        lemma_grouped_peers_distinct(pairs.drop_last());
    }
}

/// The addresses that the pairs give for the peer `id`, in order: the
/// pairs whose peer is `id`, each taken for its address.
pub open spec fn addresses_of(pairs: Seq<(Seq<char>, Seq<char>)>, id: Seq<char>) -> Seq<Seq<char>>
    decreases pairs.len(),
{
    if pairs.len() == 0 {
        seq![]
    } else if pairs.last().0 == id {
        addresses_of(pairs.drop_last(), id).push(pairs.last().1)
    } else {
        addresses_of(pairs.drop_last(), id)
    }
}

/// The number of addresses over all groups.
pub open spec fn address_count(groups: Seq<(Seq<char>, Seq<Seq<char>>)>) -> int
    decreases groups.len(),
{
    if groups.len() == 0 {
        0
    } else {
        address_count(groups.drop_last()) + groups.last().1.len()
    }
}

proof fn lemma_addresses_of_absent(pairs: Seq<(Seq<char>, Seq<char>)>, id: Seq<char>)
    requires
        forall|j: int| 0 <= j < pairs.len() ==> pairs[j].0 != id,
    ensures
        addresses_of(pairs, id) == Seq::<Seq<char>>::empty(),
    decreases pairs.len(),
{
    if pairs.len() > 0 {
        assert forall|j: int| 0 <= j < pairs.drop_last().len() implies pairs.drop_last()[j].0 != id by {
            assert(pairs.drop_last()[j] == pairs[j]);
        }
        lemma_addresses_of_absent(pairs.drop_last(), id);
        assert(pairs.last() == pairs[pairs.len() - 1]);
    }
}

proof fn lemma_address_count_update(
    groups: Seq<(Seq<char>, Seq<Seq<char>>)>,
    k: int,
    v: (Seq<char>, Seq<Seq<char>>),
)
    requires
        0 <= k < groups.len(),
    ensures
        address_count(groups.update(k, v)) == address_count(groups) - groups[k].1.len() + v.1.len(),
    decreases groups.len(),
{
    let u = groups.update(k, v);
    if k == groups.len() - 1 {
        assert(u.drop_last() =~= groups.drop_last());
    } else {
        assert(u.drop_last() =~= groups.drop_last().update(k, v));
        lemma_address_count_update(groups.drop_last(), k, v);
    }
}

spec fn groups_exact(pairs: Seq<(Seq<char>, Seq<char>)>, g: Seq<(Seq<char>, Seq<Seq<char>>)>) -> bool {
    forall|k: int| 0 <= k < g.len() ==> #[trigger] g[k].1 == addresses_of(pairs, g[k].0)
}

spec fn groups_cover(pairs: Seq<(Seq<char>, Seq<char>)>, g: Seq<(Seq<char>, Seq<Seq<char>>)>) -> bool {
    forall|j: int|
        0 <= j < pairs.len() ==> exists|k: int|
            0 <= k < g.len() && #[trigger] g[k].0 == #[trigger] pairs[j].0 && g[k].1.contains(pairs[j].1)
}

spec fn groups_from(pairs: Seq<(Seq<char>, Seq<char>)>, g: Seq<(Seq<char>, Seq<Seq<char>>)>) -> bool {
    forall|k: int|
        0 <= k < g.len() ==> exists|j: int| 0 <= j < pairs.len() && #[trigger] pairs[j].0 == #[trigger] g[k].0
}

proof fn lemma_step_exact(pairs: Seq<(Seq<char>, Seq<char>)>)
    requires
        pairs.len() > 0,
        groups_exact(pairs.drop_last(), grouped(pairs.drop_last())),
        groups_cover(pairs.drop_last(), grouped(pairs.drop_last())),
        distinct_peers(grouped(pairs.drop_last())),
    ensures
        groups_exact(pairs, grouped(pairs)),
{
    let d = pairs.drop_last();
    let last = pairs.last();
    let g0 = grouped(d);
    let g = grouped(pairs);
    assert(g == join_group(g0, last.0, last.1));
    if has_peer(g0, last.0) {
        let k = choose|k: int| 0 <= k < g0.len() && g0[k].0 == last.0;
        assert(g == g0.update(k, (last.0, g0[k].1.push(last.1))));
        assert forall|m: int| 0 <= m < g.len() implies #[trigger] g[m].1 == addresses_of(pairs, g[m].0) by {
            if m != k {
                assert(g0[m].0 != g0[k].0);
                assert(g[m] == g0[m]);
            }
        }
    } else {
        assert(g == g0.push((last.0, seq![last.1])));
        assert forall|j: int| 0 <= j < d.len() implies d[j].0 != last.0 by {
            if d[j].0 == last.0 {
                let m0 = choose|m: int|
                    0 <= m < g0.len() && #[trigger] g0[m].0 == #[trigger] d[j].0 && g0[m].1.contains(d[j].1);
                assert(has_peer(g0, last.0));
            }
        }
        lemma_addresses_of_absent(d, last.0);
        assert forall|m: int| 0 <= m < g.len() implies #[trigger] g[m].1 == addresses_of(pairs, g[m].0) by {
            if m < g0.len() {
                assert(g[m] == g0[m]);
                if g0[m].0 == last.0 {
                    assert(has_peer(g0, last.0));
                }
            } else {
                assert(seq![last.1] =~= Seq::<Seq<char>>::empty().push(last.1));
            }
        }
    }
}

proof fn lemma_step_cover(pairs: Seq<(Seq<char>, Seq<char>)>)
    requires
        pairs.len() > 0,
        groups_cover(pairs.drop_last(), grouped(pairs.drop_last())),
    ensures
        groups_cover(pairs, grouped(pairs)),
{
    let d = pairs.drop_last();
    let last = pairs.last();
    let g0 = grouped(d);
    let g = grouped(pairs);
    assert(g == join_group(g0, last.0, last.1));
    assert(pairs[pairs.len() - 1] == last);
    if has_peer(g0, last.0) {
        let k = choose|k: int| 0 <= k < g0.len() && g0[k].0 == last.0;
        assert(g == g0.update(k, (last.0, g0[k].1.push(last.1))));
        assert forall|j: int| 0 <= j < pairs.len() implies exists|m: int|
            0 <= m < g.len() && #[trigger] g[m].0 == #[trigger] pairs[j].0 && g[m].1.contains(pairs[j].1) by {
            if j == pairs.len() - 1 {
                assert(g[k].1[g[k].1.len() - 1] == last.1);
                assert(g[k].0 == pairs[j].0 && g[k].1.contains(pairs[j].1));
            } else {
                assert(d[j] == pairs[j]);
                let m0 = choose|m: int|
                    0 <= m < g0.len() && #[trigger] g0[m].0 == #[trigger] d[j].0 && g0[m].1.contains(d[j].1);
                let i0 = choose|i: int| 0 <= i < g0[m0].1.len() && g0[m0].1[i] == d[j].1;
                assert(g[m0].1[i0] == d[j].1);
                assert(g[m0].0 == pairs[j].0 && g[m0].1.contains(pairs[j].1));
            }
        }
    } else {
        assert(g == g0.push((last.0, seq![last.1])));
        assert forall|j: int| 0 <= j < pairs.len() implies exists|m: int|
            0 <= m < g.len() && #[trigger] g[m].0 == #[trigger] pairs[j].0 && g[m].1.contains(pairs[j].1) by {
            if j == pairs.len() - 1 {
                let m = g.len() - 1;
                assert(g[m].1[0] == last.1);
                assert(g[m].0 == pairs[j].0 && g[m].1.contains(pairs[j].1));
            } else {
                assert(d[j] == pairs[j]);
                let m0 = choose|m: int|
                    0 <= m < g0.len() && #[trigger] g0[m].0 == #[trigger] d[j].0 && g0[m].1.contains(d[j].1);
                assert(g[m0] == g0[m0]);
                assert(g[m0].0 == pairs[j].0 && g[m0].1.contains(pairs[j].1));
            }
        }
    }
}

proof fn lemma_step_from(pairs: Seq<(Seq<char>, Seq<char>)>)
    requires
        pairs.len() > 0,
        groups_from(pairs.drop_last(), grouped(pairs.drop_last())),
    ensures
        groups_from(pairs, grouped(pairs)),
{
    let d = pairs.drop_last();
    let last = pairs.last();
    let g0 = grouped(d);
    let g = grouped(pairs);
    assert(g == join_group(g0, last.0, last.1));
    assert(pairs[pairs.len() - 1] == last);
    if has_peer(g0, last.0) {
        let k = choose|k: int| 0 <= k < g0.len() && g0[k].0 == last.0;
        assert(g == g0.update(k, (last.0, g0[k].1.push(last.1))));
        assert forall|m: int| 0 <= m < g.len() implies exists|j: int|
            0 <= j < pairs.len() && #[trigger] pairs[j].0 == #[trigger] g[m].0 by {
            let j0 = choose|j: int| 0 <= j < d.len() && #[trigger] d[j].0 == #[trigger] g0[m].0;
            assert(d[j0] == pairs[j0]);
            assert(pairs[j0].0 == g[m].0);
        }
    } else {
        assert(g == g0.push((last.0, seq![last.1])));
        assert forall|m: int| 0 <= m < g.len() implies exists|j: int|
            0 <= j < pairs.len() && #[trigger] pairs[j].0 == #[trigger] g[m].0 by {
            if m < g0.len() {
                let j0 = choose|j: int| 0 <= j < d.len() && #[trigger] d[j].0 == #[trigger] g0[m].0;
                assert(d[j0] == pairs[j0]);
                assert(pairs[j0].0 == g[m].0);
            } else {
                assert(pairs[pairs.len() - 1].0 == g[m].0);
            }
        }
    }
}

proof fn lemma_step_count(pairs: Seq<(Seq<char>, Seq<char>)>)
    requires
        pairs.len() > 0,
        address_count(grouped(pairs.drop_last())) == pairs.len() - 1,
    ensures
        address_count(grouped(pairs)) == pairs.len(),
{
    let d = pairs.drop_last();
    let last = pairs.last();
    let g0 = grouped(d);
    let g = grouped(pairs);
    assert(g == join_group(g0, last.0, last.1));
    if has_peer(g0, last.0) {
        let k = choose|k: int| 0 <= k < g0.len() && g0[k].0 == last.0;
        lemma_address_count_update(g0, k, (last.0, g0[k].1.push(last.1)));
    } else {
        assert(g.drop_last() =~= g0);
    }
}

proof fn lemma_grouped_facts(pairs: Seq<(Seq<char>, Seq<char>)>)
    ensures
        groups_exact(pairs, grouped(pairs)),
        groups_cover(pairs, grouped(pairs)),
        groups_from(pairs, grouped(pairs)),
        address_count(grouped(pairs)) == pairs.len(),
    decreases pairs.len(),
{
    if pairs.len() > 0 {
        lemma_grouped_facts(pairs.drop_last());
        lemma_grouped_peers_distinct(pairs.drop_last());
        lemma_step_exact(pairs);
        lemma_step_cover(pairs);
        lemma_step_from(pairs);
        lemma_step_count(pairs);
    }
}

/// Grouping keeps every pair and invents none: each group's addresses are
/// exactly the addresses the pairs give for its peer, in order; every pair's
/// address is in the group of its peer; every group's peer occurs in the
/// pairs; and the groups hold as many addresses as there are pairs.
pub proof fn lemma_grouped_keeps_every_pair(pairs: Seq<(Seq<char>, Seq<char>)>)
    ensures
        forall|k: int|
            0 <= k < grouped(pairs).len() ==> #[trigger] grouped(pairs)[k].1 == addresses_of(
                pairs,
                grouped(pairs)[k].0,
            ),
        forall|j: int|
            0 <= j < pairs.len() ==> exists|k: int|
                0 <= k < grouped(pairs).len() && #[trigger] grouped(pairs)[k].0 == #[trigger] pairs[j].0
                    && grouped(pairs)[k].1.contains(pairs[j].1),
        forall|k: int|
            0 <= k < grouped(pairs).len() ==> exists|j: int|
                0 <= j < pairs.len() && #[trigger] pairs[j].0 == #[trigger] grouped(pairs)[k].0,
        address_count(grouped(pairs)) == pairs.len(),
{
    lemma_grouped_facts(pairs);
}

/// The index of the peer `id` in `peers`, if it is there.
fn find_peer(peers: &Vec<DiscoveredPeer>, id: &String) -> (found: Option<usize>)
    ensures
        match found {
            Some(k) => k < peers@.len() && peers@[k as int].id@ == id@,
            None => forall|k: int| 0 <= k < peers@.len() ==> peers@[k].id@ != id@,
        },
{
    let n = peers.len();
    for k in 0..n
        invariant
            n == peers@.len(),
            forall|j: int| 0 <= j < k ==> peers@[j].id@ != id@,
    {
        if peers[k].id == *id {
            return Some(k);
        }
    }
    None
}

/// Groups the (peer, address) pairs that mDNS reported by peer, keeping the
/// order in which peers and addresses first occur.
pub fn group_by_peer(pairs: &Vec<(String, String)>) -> (peers: Vec<DiscoveredPeer>)
    ensures
        peers_view(peers@) == grouped(pairs_view(pairs@)),
        distinct_peers(peers_view(peers@)),
        forall|k: int|
            0 <= k < peers@.len() ==> #[trigger] peers@[k].addresses.deep_view() == addresses_of(
                pairs_view(pairs@),
                peers@[k].id@,
            ),
        address_count(peers_view(peers@)) == pairs@.len(),
{
    let ghost pvs = pairs_view(pairs@);
    let mut peers: Vec<DiscoveredPeer> = Vec::new();
    let n = pairs.len();
    assert(pvs.take(0) =~= Seq::<(Seq<char>, Seq<char>)>::empty());
    for i in 0..n
        invariant
            n == pairs@.len(),
            pvs == pairs_view(pairs@),
            peers_view(peers@) =~= grouped(pvs.take(i as int)),
    {
        proof {
            lemma_grouped_peers_distinct(pvs.take(i as int));
        }
        let ghost before = peers_view(peers@);
        let id = &pairs[i].0;
        let addr = &pairs[i].1;
        assert(pvs.take(i + 1).drop_last() =~= pvs.take(i as int));
        assert(pvs.take(i + 1).last() == (id@, addr@));
        match find_peer(&peers, id) {
            Some(k) => {
                assert(before[k as int].0 == id@);
                assert(has_peer(before, id@));
                let ghost c = choose|c: int| 0 <= c < before.len() && before[c].0 == id@;
                assert(c == k);
                let mut peer = peers.remove(k);
                let ghost old_addrs = peer.addresses.deep_view();
                peer.addresses.push(addr.clone());
                assert(peer.addresses.deep_view() =~= old_addrs.push(addr@));
                peers.insert(k, peer);
                assert(peers_view(peers@) =~= before.update(k as int, (id@, before[k as int].1.push(addr@))));
            },
            None => {
                assert(!has_peer(before, id@));
                let mut addresses: Vec<String> = Vec::new();
                addresses.push(addr.clone());
                assert(addresses.deep_view() =~= seq![addr@]);
                peers.push(DiscoveredPeer { id: id.clone(), addresses });
                assert(peers_view(peers@) =~= before.push((id@, seq![addr@])));
            },
        }
    }
    assert(pvs.take(n as int) =~= pvs);
    proof {
        lemma_grouped_peers_distinct(pvs);
        lemma_grouped_keeps_every_pair(pvs);
        assert forall|k: int| 0 <= k < peers@.len() implies #[trigger] peers@[k].addresses.deep_view()
            == addresses_of(pvs, peers@[k].id@) by {
            assert(peers_view(peers@)[k] == peer_view(peers@[k]));
        }
    }
    peers
}

fn prefixed(prefix: &str, text: &str) -> (line: String)
    ensures
        line@ == prefix@ + text@,
{
    let mut line = prefix.to_owned();
    line.append(text);
    line
}

/// Appends the report of one discovered peer to `lines`.
fn report_peer(peer: &DiscoveredPeer, lines: &mut Vec<String>)
    ensures
        final(lines).deep_view() == old(lines).deep_view() + peer_report(
            peer.id@,
            peer.addresses.deep_view(),
        ),
{
    let ghost start = lines.deep_view();
    lines.push(prefixed(PEER_PREFIX, peer.id.as_str()));
    let ghost addrs = peer.addresses.deep_view();
    assert(lines.deep_view() =~= start + seq![PEER_PREFIX@ + peer.id@]);
    let n = peer.addresses.len();
    for k in 0..n
        invariant
            n == peer.addresses.len(),
            addrs == peer.addresses.deep_view(),
            lines.deep_view() =~= start + seq![PEER_PREFIX@ + peer.id@] + addrs.take(k as int).map_values(
                |a: Seq<char>| ADDRESS_PREFIX@ + a,
            ),
    {
        let ghost before = lines.deep_view();
        lines.push(prefixed(ADDRESS_PREFIX, peer.addresses[k].as_str()));
        assert(addrs.take(k + 1) =~= addrs.take(k as int).push(addrs[k as int]));
        assert(lines.deep_view() =~= before.push(ADDRESS_PREFIX@ + addrs[k as int]));
    }
    assert(addrs.take(n as int) =~= addrs);
}

/// The lines to print for one mDNS packet.
pub fn report(event: &MdnsEvent) -> (lines: Vec<String>)
    ensures
        lines.deep_view() == event_report(*event),
        match event {
            MdnsEvent::Response(peers) => lines@.len() == report_line_count(peers@),
            _ => lines@.len() == 1,
        },
{
    proof {
        if let MdnsEvent::Response(peers) = event {
            lemma_response_report_lines(*peers);
        }
    }
    let mut lines: Vec<String> = Vec::new();
    match event {
        MdnsEvent::Query(remote) => {
            lines.push(prefixed(QUERY_PREFIX, remote.as_str()));
            assert(lines.deep_view() =~= seq![QUERY_PREFIX@ + remote@]);
        },
        MdnsEvent::Response(peers) => {
            let n = peers.len();
            for j in 0..n
                invariant
                    n == peers.len(),
                    lines.deep_view() =~= peers_report(peers@.take(j as int)),
            {
                report_peer(&peers[j], &mut lines);
                assert(peers@.take(j + 1).drop_last() =~= peers@.take(j as int));
            }
            assert(peers@.take(n as int) =~= peers@);
        },
        MdnsEvent::ServiceDiscovery(remote) => {
            lines.push(prefixed(SERVICE_QUERY_PREFIX, remote.as_str()));
            assert(lines.deep_view() =~= seq![SERVICE_QUERY_PREFIX@ + remote@]);
        },
    }
    lines
}

} // verus!
