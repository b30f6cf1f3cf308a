use dagre_graph::{DaggerMapGraph, DagreProtocol, Handle, NodeLike};

pub struct TestNode(usize);

impl NodeLike for TestNode {
    fn unique(&self) -> u64 {
        self.0 as u64
    }

    fn label(&self) -> String {
        self.0.to_string()
    }
}

fn count(list: &[Handle], h: &Handle) -> usize {
    list.iter().filter(|x| *x == h).count()
}

#[test]
fn graph_node_added() {
    let mut graph = DaggerMapGraph::new();
    graph.node(TestNode(20));
    graph.node(TestNode(30));
    assert_eq!(graph.len(), 2);
}

#[test]
fn graph_edge_added() {
    let mut graph = DaggerMapGraph::new();
    let i = graph.node(TestNode(20));
    let j = graph.node(TestNode(30));
    graph.unidirectional(&i, &j);
    graph.unidirectional(&j, &i);
    let b = graph.get_by(&i).unwrap();
    let q = graph.get_by(&j).unwrap();
    assert_eq!(b.incoming().len(), 1);
    assert_eq!(b.outgoing().len(), 1);
    assert_eq!(q.incoming().len(), 1);
    assert_eq!(q.outgoing().len(), 1);
}

#[test]
fn graph_node_removed() {
    let mut graph = DaggerMapGraph::new();
    let i = graph.node(TestNode(20));
    let j = graph.node(TestNode(30));
    graph.unidirectional(&i, &j);
    graph.unidirectional(&j, &i);
    graph.evict(&i);
    let b = graph.get_by(&i);
    let q = graph.get_by(&j).unwrap();
    assert!(b.is_none());
    assert_eq!(graph.len(), 1);
    assert_eq!(q.incoming().len(), 0);
}

#[test]
fn graph_edge_removed() {
    let mut graph = DaggerMapGraph::new();
    let i = graph.node(TestNode(20));
    let j = graph.node(TestNode(30));
    graph.unidirectional(&i, &j);
    graph.unidirectional(&j, &i);
    graph.unlink(&i, &j);
    graph.unlink(&j, &i);
    let b = graph.get_by(&i).unwrap();
    let q = graph.get_by(&j).unwrap();
    assert_eq!(graph.len(), 2);
    assert_eq!(q.incoming().len(), 0);
    assert_eq!(q.outgoing().len(), 0);
    assert_eq!(b.incoming().len(), 0);
    assert_eq!(b.outgoing().len(), 0);
}

#[test]
fn graph_directionality() {
    let mut graph = DaggerMapGraph::new();
    let i = graph.node(TestNode(20));
    let j = graph.node(TestNode(30));
    let k = graph.node(TestNode(40));
    let l = graph.node(TestNode(50));
    {
        graph.unidirectional(&i, &j);
        let b = graph.get_by(&i).unwrap();
        let q = graph.get_by(&j).unwrap();
        assert_eq!(q.incoming().len(), 1);
        assert_eq!(q.outgoing().len(), 0);
        assert_eq!(b.incoming().len(), 0);
        assert_eq!(b.outgoing().len(), 1);
    }
    {
        graph.bidirectional(&k, &l);
        let m = graph.get_by(&k).unwrap();
        let n = graph.get_by(&l).unwrap();
        assert_eq!(m.incoming().len(), 1);
        assert_eq!(m.outgoing().len(), 1);
        assert_eq!(n.incoming().len(), 1);
        assert_eq!(n.outgoing().len(), 1);
    }
    assert_eq!(graph.len(), 4);
}

#[test]
fn scenario_four_nodes_with_self_loop_then_evict() {
    let mut graph = DaggerMapGraph::new();
    let n10 = graph.node(TestNode(10));
    let n20 = graph.node(TestNode(20));
    let n30 = graph.node(TestNode(30));
    let n40 = graph.node(TestNode(40));
    assert_eq!(graph.len(), 4);
    graph.unidirectional(&n10, &n20);
    graph.unidirectional(&n40, &n20);
    graph.unidirectional(&n30, &n20);
    graph.unidirectional(&n10, &n30);
    graph.unidirectional(&n10, &n40);
    graph.unidirectional(&n10, &n10);
    assert_eq!(graph.len(), 4);
    assert_eq!(graph.get_by(&n20).unwrap().incoming().len(), 3);
    let e10 = graph.get_by(&n10).unwrap();
    assert_eq!(e10.outgoing().clone(), vec![n20, n30, n40, n10]);
    assert_eq!(e10.incoming().clone(), vec![n10]);

    graph.evict(&n10);
    assert_eq!(graph.len(), 3);
    assert!(graph.get_by(&n10).is_none());
    assert_eq!(graph.get_by(&n20).unwrap().incoming().clone(), vec![n40, n30]);
    assert_eq!(graph.get_by(&n30).unwrap().incoming().len(), 0);
    assert!(graph.get_by(&n30).unwrap().outgoing().contains(&n20));
    assert_eq!(graph.get_by(&n40).unwrap().incoming().len(), 0);
}

#[test]
fn upsert_same_key_returns_same_handle() {
    let mut graph = DaggerMapGraph::new();
    let a = graph.node(TestNode(7));
    let b = graph.node(TestNode(7));
    assert_eq!(graph.len(), 1);
    assert_eq!(a, b);
    let log = graph.dump_log(&a).unwrap();
    assert_eq!(log, "[+]   7\n");
}

#[test]
fn link_adds_exactly_one_entry_each_side() {
    let mut graph = DaggerMapGraph::new();
    let a = graph.node(TestNode(1));
    let b = graph.node(TestNode(2));
    graph.unidirectional(&a, &b);
    graph.unidirectional(&a, &b);
    let before_out = count(graph.get_by(&a).unwrap().outgoing(), &b);
    let before_in = count(graph.get_by(&b).unwrap().incoming(), &a);
    graph.unidirectional(&a, &b);
    assert_eq!(count(graph.get_by(&a).unwrap().outgoing(), &b), before_out + 1);
    assert_eq!(count(graph.get_by(&b).unwrap().incoming(), &a), before_in + 1);
    assert_eq!(before_out, 2);
}

#[test]
fn self_loop_is_in_both_lists() {
    let mut graph = DaggerMapGraph::new();
    let a = graph.node(TestNode(5));
    graph.unidirectional(&a, &a);
    let e = graph.get_by(&a).unwrap();
    assert_eq!(e.incoming().clone(), vec![a]);
    assert_eq!(e.outgoing().clone(), vec![a]);
    assert_eq!(graph.dump_log(&a).unwrap(), "5 -> *\n*  -> 5\n[+]   5\n");
}

#[test]
fn unlink_removes_one_parallel_edge_at_a_time() {
    let mut graph = DaggerMapGraph::new();
    let a = graph.node(TestNode(1));
    let b = graph.node(TestNode(2));
    let c = graph.node(TestNode(3));
    graph.unidirectional(&a, &b);
    graph.unidirectional(&a, &c);
    graph.unidirectional(&a, &b);
    graph.unidirectional(&c, &b);
    graph.unlink(&a, &b);
    assert_eq!(graph.get_by(&a).unwrap().outgoing().clone(), vec![c, b]);
    assert_eq!(graph.get_by(&b).unwrap().incoming().clone(), vec![a, c]);
    graph.unlink(&a, &b);
    assert_eq!(graph.get_by(&a).unwrap().outgoing().clone(), vec![c]);
    assert_eq!(graph.get_by(&b).unwrap().incoming().clone(), vec![c]);
    graph.unlink(&a, &b);
    assert_eq!(graph.get_by(&a).unwrap().outgoing().clone(), vec![c]);
    assert_eq!(graph.get_by(&b).unwrap().incoming().clone(), vec![c]);
    assert_eq!(graph.get_by(&c).unwrap().incoming().clone(), vec![a]);
}

#[test]
fn stale_handles_make_operations_no_ops() {
    let mut graph = DaggerMapGraph::new();
    let a = graph.node(TestNode(1));
    let b = graph.node(TestNode(2));
    graph.evict(&a);
    graph.unidirectional(&a, &b);
    graph.bidirectional(&b, &a);
    graph.unlink(&b, &a);
    graph.evict(&a);
    assert_eq!(graph.len(), 1);
    let e = graph.get_by(&b).unwrap();
    assert_eq!(e.incoming().len(), 0);
    assert_eq!(e.outgoing().len(), 0);
    assert!(graph.dump_log(&a).is_none());
}

#[test]
fn reinserted_key_is_a_new_identity() {
    let mut graph = DaggerMapGraph::new();
    let old = graph.node(TestNode(9));
    graph.evict(&old);
    let new = graph.node(TestNode(9));
    assert_ne!(old, new);
    assert_eq!(old.key, new.key);
    assert!(graph.get_by(&old).is_none());
    assert!(graph.get_by(&new).is_some());
    let (found, _) = graph.find(TestNode(9)).unwrap();
    assert_eq!(found, new);
}

#[test]
fn find_by_payload_and_by_key() {
    let mut graph = DaggerMapGraph::new();
    let a = graph.node(TestNode(11));
    let b = graph.node(TestNode(12));
    graph.unidirectional(&a, &b);
    let (h, e) = graph.find(TestNode(12)).unwrap();
    assert_eq!(h, b);
    assert_eq!(e.incoming().clone(), vec![a]);
    assert!(graph.find(TestNode(13)).is_none());
    let (h2, _) = graph.find_key(11).unwrap();
    assert_eq!(h2, a);
    assert!(graph.find_key(99).is_none());
}

#[test]
fn eviction_cleans_every_neighbour_list() {
    let mut graph = DaggerMapGraph::new();
    let a = graph.node(TestNode(1));
    let b = graph.node(TestNode(2));
    let c = graph.node(TestNode(3));
    let d = graph.node(TestNode(4));
    graph.unidirectional(&b, &a);
    graph.unidirectional(&a, &c);
    graph.unidirectional(&b, &c);
    graph.unidirectional(&d, &c);
    graph.unidirectional(&d, &b);
    graph.evict(&b);
    assert_eq!(graph.len(), 3);
    assert_eq!(graph.get_by(&c).unwrap().incoming().clone(), vec![a, d]);
    assert_eq!(graph.get_by(&d).unwrap().outgoing().clone(), vec![c]);
    assert_eq!(graph.get_by(&a).unwrap().incoming().len(), 0);
    assert_eq!(graph.get_by(&a).unwrap().outgoing().clone(), vec![c]);
    assert!(graph.dump_log(&d).unwrap().starts_with("[-]   2\n"));
}

#[test]
fn eviction_logs_removal_on_neighbours() {
    let mut graph = DaggerMapGraph::new();
    let a = graph.node(TestNode(1));
    let b = graph.node(TestNode(2));
    graph.unidirectional(&a, &b);
    graph.evict(&a);
    assert_eq!(
        graph.dump_log(&b).unwrap(),
        "[-]   1\n1 -> *\n[+]   2\n"
    );
}

#[test]
fn bidirectional_logs_peer_labels_on_both_sides() {
    let mut graph = DaggerMapGraph::new();
    let a = graph.node(TestNode(1));
    let b = graph.node(TestNode(2));
    graph.bidirectional(&a, &b);
    assert_eq!(graph.get_by(&a).unwrap().incoming().clone(), vec![b]);
    assert_eq!(graph.get_by(&a).unwrap().outgoing().clone(), vec![b]);
    assert_eq!(graph.get_by(&b).unwrap().incoming().clone(), vec![a]);
    assert_eq!(graph.get_by(&b).unwrap().outgoing().clone(), vec![a]);
    assert_eq!(graph.dump_log(&a).unwrap(), "2 -> *\n*  -> 2\n[+]   1\n");
    assert_eq!(graph.dump_log(&b).unwrap(), "*  -> 1\n1 -> *\n[+]   2\n");
}

#[test]
fn log_dump_is_most_recent_first() {
    let mut graph = DaggerMapGraph::new();
    let a = graph.node(TestNode(1));
    let b = graph.node(TestNode(2));
    let c = graph.node(TestNode(3));
    graph.unidirectional(&a, &b);
    graph.unidirectional(&a, &c);
    assert_eq!(
        graph.dump_log(&a).unwrap(),
        "*  -> 3\n*  -> 2\n[+]   1\n"
    );
}
