use crate::edges::EdgesView;
use crate::graph::{
    lemma_evict_same_nodes, lemma_purge_incoming_of_same_nodes,
    lemma_purge_outgoing_of_same_nodes, lemma_with_edges_same_nodes, GraphView,
};
use crate::log::{logged, DagreEvent};
use crate::node::Handle;
use vstd::prelude::*;

verus! {

broadcast use vstd::seq_lib::group_to_multiset_ensures;

/// Inserting a key that was just inserted changes nothing: the store keeps
/// its size and the second insertion returns a handle to the same node as
/// the first.
pub proof fn lemma_upsert_idempotent(g: GraphView, key: u64, first: String, second: String)
    requires
        g.well_formed(),
        !g.nodes.contains_key(key) ==> g.next_serial < u64::MAX,
    ensures
        g.upsert(key, first).upsert(key, second) == g.upsert(key, first),
        g.upsert(key, first).upsert(key, second).len() == g.upsert(key, first).len(),
        g.upsert(key, first).upsert_handle(key) == g.upsert_handle(key),
{
}

/// After an edge from `a` to `b`, `b` occurs once more in the outgoing list
/// of `a` and `a` occurs once more in the incoming list of `b`.
pub proof fn lemma_link_adds_one_edge(g: GraphView, a: Handle, b: Handle)
    requires
        g.live(a),
        g.live(b),
    ensures
        g.link(a, b).nodes[a.key].edges.outgoing.to_multiset().count(b)
            == g.nodes[a.key].edges.outgoing.to_multiset().count(b) + 1,
        g.link(a, b).nodes[b.key].edges.incoming.to_multiset().count(a)
            == g.nodes[b.key].edges.incoming.to_multiset().count(a) + 1,
{
    let ea = g.nodes[a.key].edges;
    let lb = g.nodes[b.key].label;
    let g1 = g.with_edges(a.key, ea.with_outgoing(b, DagreEvent::To(lb)));
    assert(g1.nodes[a.key].edges.outgoing == ea.outgoing.push(b));
    assert(g1.nodes[b.key].edges.incoming == g.nodes[b.key].edges.incoming);
}

/// An edge from a node to itself puts the node in both its own lists.
pub proof fn lemma_self_loop(g: GraphView, a: Handle)
    requires
        g.live(a),
    ensures
        g.link(a, a).nodes[a.key].edges.incoming.contains(a),
        g.link(a, a).nodes[a.key].edges.outgoing.contains(a),
{
    let ea = g.nodes[a.key].edges;
    let g1 = g.with_edges(a.key, ea.with_outgoing(a, DagreEvent::To(g.nodes[a.key].label)));
    let out = g.link(a, a).nodes[a.key].edges.outgoing;
    let inc = g.link(a, a).nodes[a.key].edges.incoming;
    assert(out == ea.outgoing.push(a));
    assert(out[out.len() - 1] == a);
    assert(inc == g1.nodes[a.key].edges.incoming.push(a));
    assert(inc[inc.len() - 1] == a);
}

/// Removing one occurrence of `b` from `s` lowers its count by one, keeps
/// the count of every other handle and shortens `s` by one.
proof fn lemma_remove_value_count(s: Seq<Handle>, b: Handle)
    requires
        s.contains(b),
    ensures
        s.remove_value(b).len() == s.len() - 1,
        s.remove_value(b).to_multiset().count(b) == s.to_multiset().count(b) - 1,
        forall|x: Handle|
            x != b ==> #[trigger] s.remove_value(b).to_multiset().count(x)
                == s.to_multiset().count(x),
{
    s.index_of_first_ensures(b);
    let i = s.index_of_first(b).unwrap();
    assert(s.remove_value(b) == s.remove(i));
    assert(s.remove(i).to_multiset() =~= s.to_multiset().remove(s[i]));
}

/// Removing the edge from `a` to `b`, with parallel edges or not, lowers the
/// count of `b` in the outgoing list of `a` and of `a` in the incoming list
/// of `b` by exactly one, shortens each list by one and keeps every other
/// count. The logs, the other lists of the two nodes and all other nodes
/// stay as they were.
pub proof fn lemma_unlink_removes_one_edge(g: GraphView, a: Handle, b: Handle)
    requires
        g.live(a),
        g.live(b),
        g.nodes[a.key].edges.outgoing.contains(b),
        g.nodes[b.key].edges.incoming.contains(a),
    ensures
        g.unlink(a, b).nodes.dom() == g.nodes.dom(),
        g.unlink(a, b).nodes[a.key].edges.outgoing.len() == g.nodes[a.key].edges.outgoing.len()
            - 1,
        g.unlink(a, b).nodes[b.key].edges.incoming.len() == g.nodes[b.key].edges.incoming.len()
            - 1,
        g.unlink(a, b).nodes[a.key].edges.outgoing.to_multiset().count(b)
            == g.nodes[a.key].edges.outgoing.to_multiset().count(b) - 1,
        g.unlink(a, b).nodes[b.key].edges.incoming.to_multiset().count(a)
            == g.nodes[b.key].edges.incoming.to_multiset().count(a) - 1,
        forall|x: Handle|
            x != b ==> #[trigger] g.unlink(a, b).nodes[a.key].edges.outgoing.to_multiset().count(x)
                == g.nodes[a.key].edges.outgoing.to_multiset().count(x),
        forall|x: Handle|
            x != a ==> #[trigger] g.unlink(a, b).nodes[b.key].edges.incoming.to_multiset().count(x)
                == g.nodes[b.key].edges.incoming.to_multiset().count(x),
        a.key != b.key ==> g.unlink(a, b).nodes[a.key].edges.incoming
            == g.nodes[a.key].edges.incoming,
        a.key != b.key ==> g.unlink(a, b).nodes[b.key].edges.outgoing
            == g.nodes[b.key].edges.outgoing,
        g.unlink(a, b).nodes[a.key].edges.log == g.nodes[a.key].edges.log,
        g.unlink(a, b).nodes[b.key].edges.log == g.nodes[b.key].edges.log,
        forall|k: u64|
            k != a.key && k != b.key && #[trigger] g.nodes.contains_key(k) ==> g.unlink(
                a,
                b,
            ).nodes[k] == g.nodes[k],
{
    let ea = g.nodes[a.key].edges;
    let g1 = g.with_edges(a.key, EdgesView { outgoing: ea.outgoing.remove_value(b), ..ea });
    let eb = g1.nodes[b.key].edges;
    lemma_remove_value_count(ea.outgoing, b);
    lemma_remove_value_count(g.nodes[b.key].edges.incoming, a);
    assert(eb.incoming == g.nodes[b.key].edges.incoming);
    lemma_remove_value_count(eb.incoming, a);
    assert(g.unlink(a, b).nodes.dom() =~= g.nodes.dom());
}

/// Evicting a live node shrinks the store by one, and its handle no longer
/// resolves.
pub proof fn lemma_evict_shrinks(g: GraphView, a: Handle)
    requires
        g.well_formed(),
        g.live(a),
    ensures
        g.evict(a).len() == g.len() - 1,
        !g.evict(a).live(a),
{
    lemma_evict_same_nodes(g, a);
    assert(g.evict(a).nodes.dom() =~= g.nodes.dom().remove(a.key));
}

/// Inserting the key of an evicted node again creates a new identity: the
/// new handle differs from the old one, which stays stale.
pub proof fn lemma_reinsert_is_new_identity(g: GraphView, a: Handle, label: String)
    requires
        g.well_formed(),
        g.live(a),
    ensures
        g.evict(a).upsert_handle(a.key) != a,
        !g.evict(a).upsert(a.key, label).live(a),
{
    lemma_evict_same_nodes(g, a);
    assert(!g.evict(a).nodes.contains_key(a.key));
}

/// After the outgoing lists of the nodes of `hs` are purged, each of those
/// nodes that resolves has only entries that resolve in its outgoing list.
proof fn lemma_purge_outgoing_of_cleans(g: GraphView, hs: Seq<Handle>, label: String, n: Handle)
    requires
        hs.contains(n),
        g.purge_outgoing_of(hs, label).live(n),
    ensures
        g.purge_outgoing_of(hs, label).resolves_all(
            g.purge_outgoing_of(hs, label).nodes[n.key].edges.outgoing,
        ),
    decreases hs.len(),
{
    let r = g.purge_outgoing_of(hs, label);
    let g1 = g.purge_outgoing_of(hs.drop_last(), label);
    let last = hs.last();
    lemma_purge_outgoing_of_same_nodes(g, hs.drop_last(), label);
    lemma_purge_outgoing_of_same_nodes(g, hs, label);
    if g1.live(last) {
        let e = g1.nodes[last.key].edges;
        lemma_with_edges_same_nodes(
            g1,
            last.key,
            EdgesView {
                outgoing: e.outgoing.filter(g1.live_pred()),
                log: logged(e.log, DagreEvent::Remove(label), e.log_capacity),
                ..e
            },
        );
    }
    if g1.live(last) && last.key == n.key {
        let out = r.nodes[n.key].edges.outgoing;
        assert(out == g1.nodes[n.key].edges.outgoing.filter(g1.live_pred()));
        assert forall|i: int| 0 <= i < out.len() implies r.live(#[trigger] out[i]) by {
            g1.nodes[n.key].edges.outgoing.lemma_filter_pred(g1.live_pred(), i);
        }
    } else {
        assert(n != last);
        let k = choose|k: int| 0 <= k < hs.len() && hs[k] == n;
        assert(hs.drop_last()[k] == n);
        lemma_purge_outgoing_of_cleans(g, hs.drop_last(), label, n);
        assert(r.nodes[n.key].edges.outgoing == g1.nodes[n.key].edges.outgoing);
    }
}

/// After the incoming lists of the nodes of `hs` are purged, each of those
/// nodes that resolves has only entries that resolve in its incoming list.
proof fn lemma_purge_incoming_of_cleans(g: GraphView, hs: Seq<Handle>, label: String, n: Handle)
    requires
        hs.contains(n),
        g.purge_incoming_of(hs, label).live(n),
    ensures
        g.purge_incoming_of(hs, label).resolves_all(
            g.purge_incoming_of(hs, label).nodes[n.key].edges.incoming,
        ),
    decreases hs.len(),
{
    let r = g.purge_incoming_of(hs, label);
    let g1 = g.purge_incoming_of(hs.drop_last(), label);
    let last = hs.last();
    lemma_purge_incoming_of_same_nodes(g, hs.drop_last(), label);
    lemma_purge_incoming_of_same_nodes(g, hs, label);
    if g1.live(last) {
        let e = g1.nodes[last.key].edges;
        lemma_with_edges_same_nodes(
            g1,
            last.key,
            EdgesView {
                incoming: e.incoming.filter(g1.live_pred()),
                log: logged(e.log, DagreEvent::Remove(label), e.log_capacity),
                ..e
            },
        );
    }
    if g1.live(last) && last.key == n.key {
        let inc = r.nodes[n.key].edges.incoming;
        assert(inc == g1.nodes[n.key].edges.incoming.filter(g1.live_pred()));
        assert forall|i: int| 0 <= i < inc.len() implies r.live(#[trigger] inc[i]) by {
            g1.nodes[n.key].edges.incoming.lemma_filter_pred(g1.live_pred(), i);
        }
    } else {
        assert(n != last);
        let k = choose|k: int| 0 <= k < hs.len() && hs[k] == n;
        assert(hs.drop_last()[k] == n);
        lemma_purge_incoming_of_cleans(g, hs.drop_last(), label, n);
        assert(r.nodes[n.key].edges.incoming == g1.nodes[n.key].edges.incoming);
    }
}

/// Purging incoming lists leaves every outgoing list as it was.
proof fn lemma_purge_incoming_of_keeps_outgoing(g: GraphView, hs: Seq<Handle>, label: String, key: u64)
    requires
        g.nodes.contains_key(key),
    ensures
        g.purge_incoming_of(hs, label).nodes[key].edges.outgoing == g.nodes[key].edges.outgoing,
    decreases hs.len(),
{
    if hs.len() > 0 {
        lemma_purge_incoming_of_keeps_outgoing(g, hs.drop_last(), label, key);
    }
}

/// After a node is evicted, every neighbour it had an edge from that still
/// resolves keeps only resolving entries in its outgoing list, and every
/// neighbour it had an edge to that still resolves keeps only resolving
/// entries in its incoming list; in particular none of those lists holds the
/// evicted node any more.
pub proof fn lemma_evict_cleans_neighbours(g: GraphView, a: Handle)
    requires
        g.live(a),
    ensures
        !g.evict(a).live(a),
        forall|n: Handle|
            #[trigger] g.nodes[a.key].edges.incoming.contains(n) && g.evict(a).live(n)
                ==> g.evict(a).resolves_all(g.evict(a).nodes[n.key].edges.outgoing),
        forall|n: Handle|
            #[trigger] g.nodes[a.key].edges.outgoing.contains(n) && g.evict(a).live(n)
                ==> g.evict(a).resolves_all(g.evict(a).nodes[n.key].edges.incoming),
{
    let e = g.nodes[a.key];
    let g0 = GraphView { nodes: g.nodes.remove(a.key), ..g };
    let g1 = g0.purge_outgoing_of(e.edges.incoming, e.label);
    let r = g.evict(a);
    lemma_evict_same_nodes(g, a);
    lemma_purge_incoming_of_same_nodes(g1, e.edges.outgoing, e.label);
    assert forall|n: Handle|
        #[trigger] e.edges.incoming.contains(n) && r.live(n) implies r.resolves_all(
        r.nodes[n.key].edges.outgoing,
    ) by {
        lemma_purge_outgoing_of_cleans(g0, e.edges.incoming, e.label, n);
        lemma_purge_incoming_of_keeps_outgoing(g1, e.edges.outgoing, e.label, n.key);
    }
    assert forall|n: Handle|
        #[trigger] e.edges.outgoing.contains(n) && r.live(n) implies r.resolves_all(
        r.nodes[n.key].edges.incoming,
    ) by {
        lemma_purge_incoming_of_cleans(g1, e.edges.outgoing, e.label, n);
    }
}

} // verus!
