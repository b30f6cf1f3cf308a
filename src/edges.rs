use crate::log::{logged, DagreEvent, DagreRingLog, LOG_CAPACITY};
use crate::node::Handle;
use vstd::prelude::*;

verus! {

/// What a node's edge set holds: the handles of the nodes with an edge to it,
/// the handles of the nodes it has an edge to, both in the order the edges
/// were added, and its event log with the log's capacity.
pub struct EdgesView {
    pub incoming: Seq<Handle>,
    pub outgoing: Seq<Handle>,
    pub log: Seq<DagreEvent>,
    pub log_capacity: nat,
}

impl EdgesView {
    /// This edge set after `h` is appended to the outgoing list and `e` is
    /// recorded in the log.
    pub open spec fn with_outgoing(self, h: Handle, e: DagreEvent) -> EdgesView {
        EdgesView {
            outgoing: self.outgoing.push(h),
            log: logged(self.log, e, self.log_capacity),
            ..self
        }
    }

    /// This edge set after `h` is appended to the incoming list and `e` is
    /// recorded in the log.
    pub open spec fn with_incoming(self, h: Handle, e: DagreEvent) -> EdgesView {
        EdgesView {
            incoming: self.incoming.push(h),
            log: logged(self.log, e, self.log_capacity),
            ..self
        }
    }
}

/// A node's incoming and outgoing adjacency lists and its event log.
///
/// The lists hold handles, which do not keep their nodes alive; the same
/// handle may appear more than once (parallel edges).
pub struct Edges {
    incoming: Vec<Handle>,
    outgoing: Vec<Handle>,
    log: DagreRingLog,
}

impl View for Edges {
    type V = EdgesView;

    closed spec fn view(&self) -> EdgesView {
        EdgesView {
            incoming: self.incoming@,
            outgoing: self.outgoing@,
            log: self.log@,
            log_capacity: self.log.spec_capacity(),
        }
    }
}

impl Default for Edges {
    fn default() -> (r: Self)
        ensures
            r@ == (EdgesView {
                incoming: Seq::empty(),
                outgoing: Seq::empty(),
                log: Seq::empty(),
                log_capacity: LOG_CAPACITY as nat,
            }),
    {
        Edges::new()
    }
}

impl Edges {
    /// Empty adjacency lists and an empty log of the default capacity.
    pub fn new() -> (r: Self)
        ensures
            r@ == (EdgesView {
                incoming: Seq::empty(),
                outgoing: Seq::empty(),
                log: Seq::empty(),
                log_capacity: LOG_CAPACITY as nat,
            }),
    {
        Edges { incoming: Vec::new(), outgoing: Vec::new(), log: DagreRingLog::new() }
    }

    /// The handles of the nodes with an edge to this one.
    pub fn incoming(&self) -> (r: &Vec<Handle>)
        ensures
            r@ == self@.incoming,
    {
        &self.incoming
    }

    /// The incoming list, to change in place.
    pub fn mut_incoming(&mut self) -> (r: &mut Vec<Handle>)
        ensures
            r@ == old(self)@.incoming,
            final(self)@ == (EdgesView { incoming: final(r)@, ..old(self)@ }),
    {
        &mut self.incoming
    }

    /// The event log.
    pub fn logs(&self) -> (r: &DagreRingLog)
        ensures
            r@ == self@.log,
            r.spec_capacity() == self@.log_capacity,
    {
        &self.log
    }

    /// The event log, to change in place.
    pub fn mut_logs(&mut self) -> (r: &mut DagreRingLog)
        ensures
            r@ == old(self)@.log,
            r.spec_capacity() == old(self)@.log_capacity,
            final(self)@ == (EdgesView {
                log: final(r)@,
                log_capacity: final(r).spec_capacity(),
                ..old(self)@
            }),
    {
        &mut self.log
    }

    /// The handles of the nodes this one has an edge to.
    pub fn outgoing(&self) -> (r: &Vec<Handle>)
        ensures
            r@ == self@.outgoing,
    {
        &self.outgoing
    }

    /// The outgoing list, to change in place.
    pub fn mut_outgoing(&mut self) -> (r: &mut Vec<Handle>)
        ensures
            r@ == old(self)@.outgoing,
            final(self)@ == (EdgesView { outgoing: final(r)@, ..old(self)@ }),
    {
        &mut self.outgoing
    }

    /// Appends `val` to the incoming list.
    pub fn add_to_incoming(&mut self, val: &Handle)
        ensures
            final(self)@ == (EdgesView { incoming: old(self)@.incoming.push(*val), ..old(self)@ }),
    {
        self.incoming.push(*val)
    }

    /// Appends `val` to the outgoing list.
    pub fn add_to_outgoing(&mut self, val: &Handle)
        ensures
            final(self)@ == (EdgesView { outgoing: old(self)@.outgoing.push(*val), ..old(self)@ }),
    {
        self.outgoing.push(*val)
    }
}

} // verus!
