use dagre_graph::{DagreEvent, Edges, Handle};

#[test]
fn edges_start_empty_and_grow_in_order() {
    let mut e = Edges::new();
    assert!(e.incoming().is_empty());
    assert!(e.outgoing().is_empty());
    assert!(e.logs().entries().is_empty());
    let h1 = Handle { key: 1, serial: 0 };
    let h2 = Handle { key: 2, serial: 1 };
    e.add_to_incoming(&h1);
    e.add_to_incoming(&h2);
    e.add_to_outgoing(&h2);
    assert_eq!(e.incoming().clone(), vec![h1, h2]);
    assert_eq!(e.outgoing().clone(), vec![h2]);
}

#[test]
fn edges_mutable_access() {
    let mut e = Edges::new();
    let h = Handle { key: 3, serial: 4 };
    e.mut_incoming().push(h);
    e.mut_outgoing().push(h);
    e.mut_outgoing().push(h);
    e.mut_logs().record(DagreEvent::Add("3".to_string()));
    assert_eq!(e.incoming().len(), 1);
    assert_eq!(e.outgoing().len(), 2);
    assert_eq!(e.logs().dump(), "[+]   3\n");
}

#[test]
fn defaults_are_empty() {
    let e = Edges::default();
    assert!(e.incoming().is_empty());
    assert!(e.outgoing().is_empty());
    assert_eq!(e.logs().capacity(), 20);
    let log = dagre_graph::DagreRingLog::default();
    assert_eq!(log.capacity(), 20);
    assert!(log.entries().is_empty());
}
