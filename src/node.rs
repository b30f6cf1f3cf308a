use vstd::prelude::*;

verus! {

/// What a payload stored in the graph must offer: a key that identifies it
/// and a human-readable label.
///
/// Two payloads with equal keys are the same entity as far as the graph is
/// concerned.
pub trait NodeLike {
    /// The key that identifies this payload.
    fn unique(&self) -> u64;

    /// The label under which this payload appears in event logs.
    fn label(&self) -> String;
}

/// A non-owning name for a node of the graph.
///
/// `key` is the node's key and `serial` the identity that the store gave the
/// node when it was inserted. A handle resolves only while the store holds a
/// node under `key` with that same `serial`.
#[derive(Clone, Copy, Debug, PartialEq, Eq, Structural)]
pub struct Handle {
    pub key: u64,
    pub serial: u64,
}

/// A payload wrapped for the graph, with the key and label read from it once.
pub struct DagreNode<T> {
    pub data: T,
    pub key: u64,
    pub label: String,
}

impl<T: NodeLike> DagreNode<T> {
    /// Wraps a payload, asking it once for its key and its label.
    pub fn create(subject: T) -> (r: Self)
        ensures
            r.data == subject,
    {
        let key = subject.unique();
        let label = subject.label();
        DagreNode { data: subject, key, label }
    }
}

} // verus!
