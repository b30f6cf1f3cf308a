use crate::edges::{Edges, EdgesView};
use crate::log::{log_text, logged, DagreEvent, LOG_CAPACITY};
use crate::node::{DagreNode, Handle, NodeLike};
use std::collections::BTreeMap;
use vstd::prelude::*;

verus! {

/// What the store holds for one live node.
pub struct NodeView {
    /// The identity given to the node when it was inserted.
    pub serial: u64,
    pub label: String,
    pub edges: EdgesView,
}

/// The store as a mathematical value: the live nodes by key, and the serial
/// that the next inserted node will get.
pub struct GraphView {
    pub nodes: Map<u64, NodeView>,
    pub next_serial: u64,
}

impl GraphView {
    /// Whether `h` resolves: the store holds a node under its key with its
    /// serial.
    pub open spec fn live(self, h: Handle) -> bool {
        self.nodes.contains_key(h.key) && self.nodes[h.key].serial == h.serial
    }

    /// `live` as a predicate, to filter adjacency lists with.
    pub open spec fn live_pred(self) -> spec_fn(Handle) -> bool {
        |h: Handle| self.live(h)
    }

    /// The number of live nodes.
    pub open spec fn len(self) -> nat {
        self.nodes.len()
    }

    /// Finitely many nodes, and every serial in use lies below the next one,
    /// so a newly inserted node gets an identity that no handle had before.
    pub open spec fn well_formed(self) -> bool {
        &&& self.nodes.dom().finite()
        &&& forall|k: u64| #[trigger]
            self.nodes.contains_key(k) ==> self.nodes[k].serial < self.next_serial
    }

    /// The store with the edge set of the node under `key` replaced by `e`.
    pub open spec fn with_edges(self, key: u64, e: EdgesView) -> GraphView {
        GraphView {
            nodes: self.nodes.insert(key, NodeView { edges: e, ..self.nodes[key] }),
            ..self
        }
    }

    /// The handle that inserting a payload with `key` returns: the live
    /// node's if there is one, else the new node's.
    pub open spec fn upsert_handle(self, key: u64) -> Handle {
        if self.nodes.contains_key(key) {
            Handle { key, serial: self.nodes[key].serial }
        } else {
            Handle { key, serial: self.next_serial }
        }
    }

    /// The store after a payload with `key` and `label` is inserted: unchanged
    /// if the key is live, else with a new node whose lists are empty and
    /// whose log holds its addition.
    pub open spec fn upsert(self, key: u64, label: String) -> GraphView {
        if self.nodes.contains_key(key) {
            self
        } else {
            GraphView {
                nodes: self.nodes.insert(
                    key,
                    NodeView {
                        serial: self.next_serial,
                        label,
                        edges: EdgesView {
                            incoming: Seq::empty(),
                            outgoing: Seq::empty(),
                            log: logged(Seq::empty(), DagreEvent::Add(label), LOG_CAPACITY as nat),
                            log_capacity: LOG_CAPACITY as nat,
                        },
                    },
                ),
                next_serial: (self.next_serial + 1) as u64,
            }
        }
    }

    /// The store after an edge from `a` to `b`: `b` is appended to the
    /// outgoing list of `a`, which logs the edge to `b`, then `a` is appended
    /// to the incoming list of `b`, which logs the edge from `a`. Unchanged
    /// if either handle is stale.
    pub open spec fn link(self, a: Handle, b: Handle) -> GraphView {
        if self.live(a) && self.live(b) {
            let la = self.nodes[a.key].label;
            let lb = self.nodes[b.key].label;
            let g = self.with_edges(
                a.key,
                self.nodes[a.key].edges.with_outgoing(b, DagreEvent::To(lb)),
            );
            g.with_edges(b.key, g.nodes[b.key].edges.with_incoming(a, DagreEvent::From(la)))
        } else {
            self
        }
    }

    /// The store after edges both ways between `a` and `b`: `a` gets `b` in
    /// both lists and logs both edges with `b`, then `b` gets `a` in both
    /// lists and logs both edges with `a`. Unchanged if either handle is
    /// stale.
    pub open spec fn link_both(self, a: Handle, b: Handle) -> GraphView {
        if self.live(a) && self.live(b) {
            let la = self.nodes[a.key].label;
            let lb = self.nodes[b.key].label;
            let g = self.with_edges(
                a.key,
                self.nodes[a.key].edges.with_outgoing(b, DagreEvent::To(lb)).with_incoming(
                    b,
                    DagreEvent::From(lb),
                ),
            );
            g.with_edges(
                b.key,
                g.nodes[b.key].edges.with_incoming(a, DagreEvent::From(la)).with_outgoing(
                    a,
                    DagreEvent::To(la),
                ),
            )
        } else {
            self
        }
    }
}

impl GraphView {
    /// The store after the edge from `a` to `b` is removed: the first entry
    /// equal to `b` leaves the outgoing list of `a`, then the first entry
    /// equal to `a` leaves the incoming list of `b`. A list without such an
    /// entry is left as it is, and so is the store if either handle is stale.
    /// Entries equal to a live handle are exactly those that resolve to its
    /// node.
    pub open spec fn unlink(self, a: Handle, b: Handle) -> GraphView {
        if self.live(a) && self.live(b) {
            let ea = self.nodes[a.key].edges;
            let g = self.with_edges(a.key, EdgesView { outgoing: ea.outgoing.remove_value(b), ..ea });
            let eb = g.nodes[b.key].edges;
            g.with_edges(b.key, EdgesView { incoming: eb.incoming.remove_value(a), ..eb })
        } else {
            self
        }
    }
}

impl GraphView {
    /// The store after the node under `key` logs the eviction of the node
    /// labelled `label` and its outgoing list loses every entry that does not
    /// resolve.
    pub open spec fn purge_outgoing(self, key: u64, label: String) -> GraphView {
        let e = self.nodes[key].edges;
        self.with_edges(
            key,
            EdgesView {
                outgoing: e.outgoing.filter(self.live_pred()),
                log: logged(e.log, DagreEvent::Remove(label), e.log_capacity),
                ..e
            },
        )
    }

    /// The store after the node under `key` logs the eviction of the node
    /// labelled `label` and its incoming list loses every entry that does not
    /// resolve.
    pub open spec fn purge_incoming(self, key: u64, label: String) -> GraphView {
        let e = self.nodes[key].edges;
        self.with_edges(
            key,
            EdgesView {
                incoming: e.incoming.filter(self.live_pred()),
                log: logged(e.log, DagreEvent::Remove(label), e.log_capacity),
                ..e
            },
        )
    }

    /// The store after `purge_outgoing` is applied, in order, to the node of
    /// each handle of `hs` that resolves.
    pub open spec fn purge_outgoing_of(self, hs: Seq<Handle>, label: String) -> GraphView
        decreases hs.len(),
    {
        if hs.len() == 0 {
            self
        } else {
            let g = self.purge_outgoing_of(hs.drop_last(), label);
            if g.live(hs.last()) {
                g.purge_outgoing(hs.last().key, label)
            } else {
                g
            }
        }
    }

    /// The store after `purge_incoming` is applied, in order, to the node of
    /// each handle of `hs` that resolves.
    pub open spec fn purge_incoming_of(self, hs: Seq<Handle>, label: String) -> GraphView
        decreases hs.len(),
    {
        if hs.len() == 0 {
            self
        } else {
            let g = self.purge_incoming_of(hs.drop_last(), label);
            if g.live(hs.last()) {
                g.purge_incoming(hs.last().key, label)
            } else {
                g
            }
        }
    }

    /// The store after the node that `h` names is evicted: its entry goes,
    /// then each node it had an incoming entry for purges its outgoing list,
    /// then each node it had an outgoing entry for purges its incoming list.
    /// Unchanged if `h` is stale.
    pub open spec fn evict(self, h: Handle) -> GraphView {
        if self.live(h) {
            let n = self.nodes[h.key];
            let g = GraphView { nodes: self.nodes.remove(h.key), ..self };
            g.purge_outgoing_of(n.edges.incoming, n.label).purge_incoming_of(
                n.edges.outgoing,
                n.label,
            )
        } else {
            self
        }
    }

    /// Whether every entry of `s` resolves.
    pub open spec fn resolves_all(self, s: Seq<Handle>) -> bool {
        forall|i: int| 0 <= i < s.len() ==> self.live(#[trigger] s[i])
    }

    /// Whether `other` has the same nodes with the same serials and labels,
    /// and the same next serial.
    pub open spec fn same_nodes(self, other: GraphView) -> bool {
        &&& self.nodes.dom() == other.nodes.dom()
        &&& self.next_serial == other.next_serial
        &&& forall|k: u64| #[trigger]
            self.nodes.contains_key(k) ==> self.nodes[k].serial == other.nodes[k].serial
                && self.nodes[k].label == other.nodes[k].label
    }
}

/// Replacing one node's edge set keeps the nodes, their serials and labels.
pub(crate) proof fn lemma_with_edges_same_nodes(g: GraphView, key: u64, e: EdgesView)
    requires
        g.nodes.contains_key(key),
    ensures
        g.with_edges(key, e).same_nodes(g),
{
    assert(g.with_edges(key, e).nodes.dom() =~= g.nodes.dom());
}

/// Purging outgoing lists keeps the nodes, their serials and labels.
pub(crate) proof fn lemma_purge_outgoing_of_same_nodes(g: GraphView, hs: Seq<Handle>, label: String)
    ensures
        g.purge_outgoing_of(hs, label).same_nodes(g),
    decreases hs.len(),
{
    if hs.len() > 0 {
        let g1 = g.purge_outgoing_of(hs.drop_last(), label);
        lemma_purge_outgoing_of_same_nodes(g, hs.drop_last(), label);
        if g1.live(hs.last()) {
            let e = g1.nodes[hs.last().key].edges;
            lemma_with_edges_same_nodes(
                g1,
                hs.last().key,
                EdgesView {
                    outgoing: e.outgoing.filter(g1.live_pred()),
                    log: logged(e.log, DagreEvent::Remove(label), e.log_capacity),
                    ..e
                },
            );
        }
    }
}

/// Purging incoming lists keeps the nodes, their serials and labels.
pub(crate) proof fn lemma_purge_incoming_of_same_nodes(g: GraphView, hs: Seq<Handle>, label: String)
    ensures
        g.purge_incoming_of(hs, label).same_nodes(g),
    decreases hs.len(),
{
    if hs.len() > 0 {
        let g1 = g.purge_incoming_of(hs.drop_last(), label);
        lemma_purge_incoming_of_same_nodes(g, hs.drop_last(), label);
        if g1.live(hs.last()) {
            let e = g1.nodes[hs.last().key].edges;
            lemma_with_edges_same_nodes(
                g1,
                hs.last().key,
                EdgesView {
                    incoming: e.incoming.filter(g1.live_pred()),
                    log: logged(e.log, DagreEvent::Remove(label), e.log_capacity),
                    ..e
                },
            );
        }
    }
}

/// Eviction removes exactly the evicted node and keeps the serials and
/// labels of the others.
pub(crate) proof fn lemma_evict_same_nodes(g: GraphView, h: Handle)
    requires
        g.live(h),
    ensures
        g.evict(h).same_nodes(GraphView { nodes: g.nodes.remove(h.key), ..g }),
{
    let n = g.nodes[h.key];
    let g0 = GraphView { nodes: g.nodes.remove(h.key), ..g };
    let g1 = g0.purge_outgoing_of(n.edges.incoming, n.label);
    lemma_purge_outgoing_of_same_nodes(g0, n.edges.incoming, n.label);
    lemma_purge_incoming_of_same_nodes(g1, n.edges.outgoing, n.label);
}

/// What the store keeps for a live node.
struct StoreEntry<T> {
    node: DagreNode<T>,
    serial: u64,
    edges: Edges,
}

impl<T> StoreEntry<T> {
    spec fn spec_view(&self) -> NodeView {
        NodeView { serial: self.serial, label: self.node.label, edges: self.edges@ }
    }
}

spec fn view_of<T>(m: Map<u64, StoreEntry<T>>) -> Map<u64, NodeView> {
    Map::new(|k: u64| m.contains_key(k), |k: u64| m[k].spec_view())
}

proof fn lemma_view_of_insert<T>(m: Map<u64, StoreEntry<T>>, k: u64, e: StoreEntry<T>)
    ensures
        view_of(m.insert(k, e)) == view_of(m).insert(k, e.spec_view()),
{
    assert(view_of(m.insert(k, e)) =~= view_of(m).insert(k, e.spec_view()));
}

proof fn lemma_view_of_remove<T>(m: Map<u64, StoreEntry<T>>, k: u64)
    ensures
        view_of(m.remove(k)) == view_of(m).remove(k),
{
    assert(view_of(m.remove(k)) =~= view_of(m).remove(k));
}

/// A graph store: an ordered map from key to the node stored under it, with
/// its serial and its edge set.
///
/// The store owns every node. Handles name nodes from outside and from the
/// adjacency lists; a handle whose node was evicted stays stale even if the
/// same key is inserted again.
pub struct DaggerMapGraph<T> {
    nodes: BTreeMap<u64, StoreEntry<T>>,
    next_serial: u64,
}

impl<T> View for DaggerMapGraph<T> {
    type V = GraphView;

    closed spec fn view(&self) -> GraphView {
        GraphView { nodes: view_of(self.nodes@), next_serial: self.next_serial }
    }
}

impl<T> DaggerMapGraph<T> {
    /// An empty store.
    pub fn new() -> (r: Self)
        ensures
            r@.nodes == Map::<u64, NodeView>::empty(),
            r@.next_serial == 0,
            r@.well_formed(),
    {
        let r = DaggerMapGraph { nodes: BTreeMap::new(), next_serial: 0 };
        assert(r@.nodes =~= Map::<u64, NodeView>::empty());
        r
    }

    /// The number of live nodes.
    pub fn len(&self) -> (r: usize)
        ensures
            r == self@.len(),
    {
        assert(view_of(self.nodes@).dom() =~= self.nodes@.dom());
        self.nodes.len()
    }

    /// Whether `h` resolves.
    fn resolves(&self, h: &Handle) -> (r: bool)
        ensures
            r == self@.live(*h),
    {
        match self.nodes.get(&h.key) {
            Some(e) => e.serial == h.serial,
            None => false,
        }
    }

    /// A copy of the label of the node under `key`.
    fn label_at(&self, key: u64) -> (r: String)
        requires
            self@.nodes.contains_key(key),
        ensures
            r == self@.nodes[key].label,
    {
        self.nodes.get(&key).unwrap().node.label.clone()
    }

    /// Takes the entry under `key` out of the map.
    fn take_entry(&mut self, key: u64) -> (r: StoreEntry<T>)
        requires
            old(self)@.nodes.contains_key(key),
        ensures
            r.spec_view() == old(self)@.nodes[key],
            final(self)@ == (GraphView { nodes: old(self)@.nodes.remove(key), ..old(self)@ }),
    {
        proof {
            lemma_view_of_remove(self.nodes@, key);
        }
        self.nodes.remove(&key).unwrap()
    }

    /// Puts `e` into the map under `key`.
    fn put_entry(&mut self, key: u64, e: StoreEntry<T>)
        ensures
            final(self)@ == (GraphView {
                nodes: old(self)@.nodes.insert(key, e.spec_view()),
                ..old(self)@
            }),
    {
        proof {
            lemma_view_of_insert(self.nodes@, key, e);
        }
        self.nodes.insert(key, e);
    }

    /// Inserts a wrapped payload unless a node with its key is live, and
    /// returns a handle to the node stored under the key.
    pub fn insert(&mut self, n: DagreNode<T>) -> (r: Handle)
        requires
            old(self)@.well_formed(),
            !old(self)@.nodes.contains_key(n.key) ==> old(self)@.next_serial < u64::MAX,
        ensures
            final(self)@.well_formed(),
            final(self)@ == old(self)@.upsert(n.key, n.label),
            r == old(self)@.upsert_handle(n.key),
    {
        match self.nodes.get(&n.key) {
            Some(e) => {
                return Handle { key: n.key, serial: e.serial };
            },
            None => {},
        }
        let key = n.key;
        let serial = self.next_serial;
        let mut edges = Edges::new();
        edges.mut_logs().record(DagreEvent::Add(n.label.clone()));
        let entry = StoreEntry { node: n, serial, edges };
        self.put_entry(key, entry);
        self.next_serial = serial + 1;
        proof {
            let g = old(self)@.upsert(key, n.label);
            assert(self@.nodes =~= g.nodes);
        }
        Handle { key, serial }
    }

    /// The handle to the node stored under `key`, with its edge set, if one
    /// is live.
    pub fn find_key(&self, key: u64) -> (r: Option<(Handle, &Edges)>)
        ensures
            match r {
                Some((h, e)) => {
                    &&& self@.nodes.contains_key(key)
                    &&& h == (Handle { key, serial: self@.nodes[key].serial })
                    &&& e@ == self@.nodes[key].edges
                },
                None => !self@.nodes.contains_key(key),
            },
    {
        match self.nodes.get(&key) {
            Some(e) => Some((Handle { key, serial: e.serial }, &e.edges)),
            None => None,
        }
    }

    /// The edge set of the node under `key`.
    fn edges_at(&self, key: u64) -> (r: &Edges)
        requires
            self@.nodes.contains_key(key),
        ensures
            r@ == self@.nodes[key].edges,
    {
        &self.nodes.get(&key).unwrap().edges
    }

    /// The entries of `hs` that resolve, in order.
    fn live_only(&self, hs: &Vec<Handle>) -> (r: Vec<Handle>)
        ensures
            r@ == hs@.filter(self@.live_pred()),
    {
        let mut r: Vec<Handle> = Vec::new();
        let n = hs.len();
        let mut i: usize = 0;
        while i < n
            invariant
                n == hs@.len(),
                i <= n,
                r@ == hs@.take(i as int).filter(self@.live_pred()),
            decreases n - i,
        {
            let h = hs[i];
            proof {
                let t = hs@.take(i + 1);
                reveal(Seq::filter);
                assert(t.drop_last() =~= hs@.take(i as int));
                assert(t.last() == h);
                assert(t.filter(self@.live_pred()) == if self@.live(h) {
                    hs@.take(i as int).filter(self@.live_pred()).push(h)
                } else {
                    hs@.take(i as int).filter(self@.live_pred())
                });
            }
            if self.resolves(&h) {
                r.push(h);
            }
            i = i + 1;
        }
        proof {
            assert(hs@.take(n as int) =~= hs@);
        }
        r
    }

    /// `purge_outgoing` on the node that `h` names, if `h` resolves.
    fn purge_outgoing_at(&mut self, h: &Handle, label: &String)
        ensures
            final(self)@ == if old(self)@.live(*h) {
                old(self)@.purge_outgoing(h.key, *label)
            } else {
                old(self)@
            },
    {
        if self.resolves(h) {
            let ghost g0 = self@;
            let kept = self.live_only(self.edges_at(h.key).outgoing());
            let mut entry = self.take_entry(h.key);
            entry.edges.mut_logs().record(DagreEvent::Remove(label.clone()));
            *entry.edges.mut_outgoing() = kept;
            self.put_entry(h.key, entry);
            assert(self@.nodes =~= g0.purge_outgoing(h.key, *label).nodes);
        }
    }

    /// `purge_incoming` on the node that `h` names, if `h` resolves.
    fn purge_incoming_at(&mut self, h: &Handle, label: &String)
        ensures
            final(self)@ == if old(self)@.live(*h) {
                old(self)@.purge_incoming(h.key, *label)
            } else {
                old(self)@
            },
    {
        if self.resolves(h) {
            let ghost g0 = self@;
            let kept = self.live_only(self.edges_at(h.key).incoming());
            let mut entry = self.take_entry(h.key);
            entry.edges.mut_logs().record(DagreEvent::Remove(label.clone()));
            *entry.edges.mut_incoming() = kept;
            self.put_entry(h.key, entry);
            assert(self@.nodes =~= g0.purge_incoming(h.key, *label).nodes);
        }
    }

    /// The text of the log of the node that `h` names, most recent entry
    /// first, or `None` if `h` is stale.
    pub fn dump_log(&self, h: &Handle) -> (r: Option<String>)
        ensures
            match r {
                Some(s) => self@.live(*h) && s@ == log_text(self@.nodes[h.key].edges.log),
                None => !self@.live(*h),
            },
    {
        if self.resolves(h) {
            Some(self.edges_at(h.key).logs().dump())
        } else {
            None
        }
    }
}

/// The operations of a graph store. Handles that are stale make every
/// operation a no-op or an absent result, never an error.
pub trait DagreProtocol<T: NodeLike>: View<V = GraphView> + Sized {
    /// The edge set of the node that `val` names, or `None` if `val` is stale.
    fn get_by(&self, val: &Handle) -> (r: Option<&Edges>)
        ensures
            match r {
                Some(e) => self@.live(*val) && e@ == self@.nodes[val.key].edges,
                None => !self@.live(*val),
            },
    ;

    /// Adds an edge from `origin` to `destination`; does nothing if either
    /// handle is stale. Parallel edges and self-loops are allowed.
    fn unidirectional(&mut self, origin: &Handle, destination: &Handle)
        requires
            old(self)@.well_formed(),
        ensures
            final(self)@.well_formed(),
            final(self)@ == old(self)@.link(*origin, *destination),
    ;

    /// Adds edges both ways between `origin` and `destination`; does nothing
    /// if either handle is stale.
    fn bidirectional(&mut self, origin: &Handle, destination: &Handle)
        requires
            old(self)@.well_formed(),
        ensures
            final(self)@.well_formed(),
            final(self)@ == old(self)@.link_both(*origin, *destination),
    ;

    /// Removes one edge from `from` to `to`: the first entry equal to `to` in
    /// the outgoing list of `from`, and the first entry equal to `from` in the
    /// incoming list of `to`. Does nothing if either handle is stale. Nothing
    /// is logged.
    fn unlink(&mut self, from: &Handle, to: &Handle)
        requires
            old(self)@.well_formed(),
        ensures
            final(self)@.well_formed(),
            final(self)@ == old(self)@.unlink(*from, *to),
    ;

    /// Evicts the node that `node` names: it stops resolving, through this
    /// handle and every other, and its neighbours clean up after it (see
    /// `Edges::invalidate_from`). Does nothing if `node` is stale.
    fn evict(&mut self, node: &Handle)
        requires
            old(self)@.well_formed(),
        ensures
            final(self)@.well_formed(),
            final(self)@ == old(self)@.evict(*node),
    ;

    /// Inserts a payload unless a node with its key is live, and returns a
    /// handle to the node stored under that key. The key and the label are
    /// what the payload reports.
    fn node(&mut self, data: T) -> (r: Handle)
        requires
            old(self)@.well_formed(),
            old(self)@.next_serial < u64::MAX,
        ensures
            final(self)@.well_formed(),
            exists|label: String|
                final(self)@ == old(self)@.upsert(r.key, label) && r == old(self)@.upsert_handle(
                    r.key,
                ),
    ;

    /// The handle to the live node with the payload's key, with its edge set,
    /// if there is one.
    fn find(&self, val: T) -> (r: Option<(Handle, &Edges)>)
        ensures
            r matches Some((h, e)) ==> self@.live(h) && e@ == self@.nodes[h.key].edges,
    ;
}

impl<T: NodeLike> DagreProtocol<T> for DaggerMapGraph<T> {
    fn get_by(&self, val: &Handle) -> Option<&Edges> {
        match self.nodes.get(&val.key) {
            Some(e) => {
                if e.serial == val.serial {
                    Some(&e.edges)
                } else {
                    None
                }
            },
            None => None,
        }
    }

    fn unidirectional(&mut self, origin: &Handle, destination: &Handle) {
        if self.resolves(origin) && self.resolves(destination) {
            let ghost g0 = self@;
            let to_label = self.label_at(destination.key);
            let from_label = self.label_at(origin.key);
            let mut from_entry = self.take_entry(origin.key);
            from_entry.edges.add_to_outgoing(destination);
            from_entry.edges.mut_logs().record(DagreEvent::To(to_label));
            self.put_entry(origin.key, from_entry);
            let ghost g1 = g0.with_edges(
                origin.key,
                g0.nodes[origin.key].edges.with_outgoing(*destination, DagreEvent::To(to_label)),
            );
            assert(self@.nodes =~= g1.nodes);
            let mut to_entry = self.take_entry(destination.key);
            to_entry.edges.add_to_incoming(origin);
            to_entry.edges.mut_logs().record(DagreEvent::From(from_label));
            self.put_entry(destination.key, to_entry);
            assert(self@.nodes =~= g0.link(*origin, *destination).nodes);
        }
    }

    fn bidirectional(&mut self, origin: &Handle, destination: &Handle) {
        if self.resolves(origin) && self.resolves(destination) {
            let ghost g0 = self@;
            let to_label = self.label_at(destination.key);
            let from_label = self.label_at(origin.key);
            let mut from_entry = self.take_entry(origin.key);
            from_entry.edges.add_to_outgoing(destination);
            from_entry.edges.add_to_incoming(destination);
            from_entry.edges.mut_logs().record(DagreEvent::To(to_label.clone()));
            from_entry.edges.mut_logs().record(DagreEvent::From(to_label));
            self.put_entry(origin.key, from_entry);
            let ghost g1 = g0.with_edges(
                origin.key,
                g0.nodes[origin.key].edges.with_outgoing(
                    *destination,
                    DagreEvent::To(g0.nodes[destination.key].label),
                ).with_incoming(*destination, DagreEvent::From(g0.nodes[destination.key].label)),
            );
            assert(self@.nodes =~= g1.nodes);
            let mut to_entry = self.take_entry(destination.key);
            to_entry.edges.add_to_incoming(origin);
            to_entry.edges.add_to_outgoing(origin);
            to_entry.edges.mut_logs().record(DagreEvent::From(from_label.clone()));
            to_entry.edges.mut_logs().record(DagreEvent::To(from_label));
            self.put_entry(destination.key, to_entry);
            assert(self@.nodes =~= g0.link_both(*origin, *destination).nodes);
        }
    }

    fn unlink(&mut self, from: &Handle, to: &Handle) {
        if self.resolves(from) && self.resolves(to) {
            let ghost g0 = self@;
            let mut from_entry = self.take_entry(from.key);
            match first_position(from_entry.edges.outgoing(), to) {
                Some(i) => {
                    from_entry.edges.mut_outgoing().remove(i);
                },
                None => {},
            }
            self.put_entry(from.key, from_entry);
            let ghost ea = g0.nodes[from.key].edges;
            let ghost g1 = g0.with_edges(
                from.key,
                EdgesView { outgoing: ea.outgoing.remove_value(*to), ..ea },
            );
            assert(self@.nodes =~= g1.nodes);
            let mut to_entry = self.take_entry(to.key);
            match first_position(to_entry.edges.incoming(), from) {
                Some(i) => {
                    to_entry.edges.mut_incoming().remove(i);
                },
                None => {},
            }
            self.put_entry(to.key, to_entry);
            assert(self@.nodes =~= g0.unlink(*from, *to).nodes);
        }
    }

    fn evict(&mut self, node: &Handle) {
        if self.resolves(node) {
            let entry = self.take_entry(node.key);
            let StoreEntry { node: n, serial: _, edges } = entry;
            edges.invalidate_from(self, n.label);
            proof {
                lemma_evict_same_nodes(old(self)@, *node);
                assert(self@.nodes.dom() =~= old(self)@.nodes.dom().remove(node.key));
            }
        }
    }

    fn node(&mut self, data: T) -> Handle {
        let n = DagreNode::create(data);
        let ghost label = n.label;
        let r = self.insert(n);
        assert(self@ == old(self)@.upsert(r.key, label));
        r
    }

    fn find(&self, val: T) -> Option<(Handle, &Edges)> {
        self.find_key(val.unique())
    }
}

impl Edges {
    /// Cleans up after the eviction of the node that owned this edge set and
    /// was labelled `labelremoved`: each node in the incoming list that still
    /// resolves logs the eviction and drops the entries of its outgoing list
    /// that no longer resolve; then the same for each node in the outgoing
    /// list, with its incoming list.
    pub fn invalidate_from<T>(self, graph: &mut DaggerMapGraph<T>, labelremoved: String)
        ensures
            final(graph)@ == old(graph)@.purge_outgoing_of(
                self@.incoming,
                labelremoved,
            ).purge_incoming_of(self@.outgoing, labelremoved),
    {
        let ghost g0 = graph@;
        let n = self.incoming().len();
        let mut i: usize = 0;
        while i < n
            invariant
                n == self@.incoming.len(),
                i <= n,
                graph@ == g0.purge_outgoing_of(self@.incoming.take(i as int), labelremoved),
            decreases n - i,
        {
            let h = self.incoming()[i];
            graph.purge_outgoing_at(&h, &labelremoved);
            proof {
                assert(self@.incoming.take(i + 1).drop_last() =~= self@.incoming.take(i as int));
            }
            i = i + 1;
        }
        proof {
            assert(self@.incoming.take(n as int) =~= self@.incoming);
        }
        let ghost g1 = graph@;
        let m = self.outgoing().len();
        let mut j: usize = 0;
        while j < m
            invariant
                m == self@.outgoing.len(),
                j <= m,
                graph@ == g1.purge_incoming_of(self@.outgoing.take(j as int), labelremoved),
            decreases m - j,
        {
            let h = self.outgoing()[j];
            graph.purge_incoming_at(&h, &labelremoved);
            proof {
                assert(self@.outgoing.take(j + 1).drop_last() =~= self@.outgoing.take(j as int));
            }
            j = j + 1;
        }
        proof {
            assert(self@.outgoing.take(m as int) =~= self@.outgoing);
        }
    }
}

/// The first position of `h` in `v`, as `Seq::index_of_first` gives it.
fn first_position(v: &Vec<Handle>, h: &Handle) -> (r: Option<usize>)
    ensures
        match r {
            Some(i) => i < v@.len() && v@.index_of_first(*h) == Some(i as int),
            None => v@.index_of_first(*h) is None,
        },
{
    proof {
        v@.index_of_first_ensures(*h);
    }
    let mut i: usize = 0;
    while i < v.len()
        invariant
            i <= v@.len(),
            forall|j: int| 0 <= j < i ==> v@[j] != *h,
        decreases v@.len() - i,
    {
        if v[i] == *h {
            proof {
                v@.index_of_first_ensures(*h);
            }
            return Some(i);
        }
        i = i + 1;
    }
    None
}

} // verus!
