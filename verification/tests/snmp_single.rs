use agent_protocols::snmp::config::Quirks;
use agent_protocols::snmp::error::WalkError;
use agent_protocols::snmp::bulk::{deliver_response, BulkRequest};
use agent_protocols::snmp::get::{GetVar, Gets};
use agent_protocols::snmp::oid::{Oid, SnmpValue};
use agent_protocols::snmp::oidmap::OidMap;
use agent_protocols::snmp::single::{Reply, Step};
use agent_protocols::snmp::walk::{record_walks, WalkLog, WalkTable, WalkVar, Walks};

fn oid(v: &[u64]) -> Oid {
    Oid(v.to_vec())
}

#[test]
fn get_replies() {
    let q = Quirks::default();
    let mut data = OidMap::new();
    let mut g = GetVar::new(oid(&[1, 3, 6, 1, 2, 1, 1, 3]));
    let s = g.take_next_reply(Reply::Var(oid(&[1, 3, 6, 1, 2, 1, 1, 3, 0]), Ok(SnmpValue::Integer(7))), &mut data, &q);
    assert!(s == Step::Next);
    assert!(g.done);
    assert!(matches!(data.get(&oid(&[1, 3, 6, 1, 2, 1, 1, 3])), Some(Ok(_))));
    let mut g2 = GetVar::new(oid(&[1, 3, 6, 1, 9]));
    assert!(g2.take_next_reply(Reply::Empty, &mut data, &q) == Step::Next);
    assert!(matches!(data.get(&oid(&[1, 3, 6, 1, 9])), Some(Err(WalkError::NoSuchObject))));
    let mut g3 = GetVar::new(oid(&[1, 3, 6, 1, 8]));
    assert!(g3.take_next_reply(Reply::ErrorResponse, &mut data, &q) == Step::Abort);
    assert!(data.get(&oid(&[1, 3, 6, 1, 8])).is_none());
    let lenient = Quirks { invalid_packets_at_end: true, ..Quirks::default() };
    assert!(g3.take_next_reply(Reply::ErrorResponse, &mut data, &lenient) == Step::Next);
    assert!(g3.take_next_reply(Reply::Failed, &mut data, &lenient) == Step::Abort);
}

#[test]
fn walk_replies() {
    let q = Quirks::default();
    let mut data = OidMap::new();
    let col = oid(&[1, 3, 6, 1, 2, 1, 2, 2, 1, 2]);
    let mut w = WalkVar::new(col.copy());
    let s = w.take_next_reply(Reply::Var(oid(&[1, 3, 6, 1, 2, 1, 2, 2, 1, 2, 1]), Ok(SnmpValue::Integer(1))), &mut data, &q);
    assert!(s == Step::Next);
    assert!(!w.done);
    assert_eq!(w.retrieved, 1);
    // Past the column the walk is done.
    let s = w.take_next_reply(Reply::Var(oid(&[1, 3, 6, 1, 2, 1, 2, 2, 1, 3, 1]), Ok(SnmpValue::Integer(1))), &mut data, &q);
    assert!(s == Step::Next);
    assert!(w.done);
    assert!(!w.needs_existence_check());
    let mut e = WalkVar::new(oid(&[1, 3, 6, 1, 4]));
    assert!(e.take_next_reply(Reply::Empty, &mut data, &q) == Step::Done);
    assert!(e.needs_existence_check());
    assert!(e.take_get_reply(Reply::Empty, &mut data, &q) == Step::Next);
    assert!(matches!(data.get(&oid(&[1, 3, 6, 1, 4])), Some(Err(WalkError::NoSuchObject))));
    assert!(e.take_next_reply(Reply::ErrorResponse, &mut data, &q) == Step::Abort);
}

#[test]
fn finished_walks_update_statistics() {
    let col_a = oid(&[1, 3, 6, 1, 2, 1, 2, 2, 1, 2]);
    let col_b = oid(&[1, 3, 6, 1, 2, 1, 2, 2, 1, 3]);
    let mut a = WalkVar::new(col_a.copy());
    a.done = true;
    a.retrieved = 3;
    a.index = vec![oid(&[1]), oid(&[2]), oid(&[3])];
    let b = WalkVar::new(col_b.copy());
    let mut table = WalkTable::new();
    table.push(a, Some(4));
    table.push(b, None);
    let mut stats: OidMap<WalkLog> = OidMap::new();
    stats.set(col_a.copy(), WalkLog { lengths: vec![5], index: vec![oid(&[9])] });
    let mut pending = Walks::new();
    let finished = pending.reinject(Walks(vec![table]), &mut stats);
    assert_eq!(finished.len(), 1);
    assert_eq!(pending.0.len(), 1);
    assert_eq!(pending.0[0].vars.len(), 1);
    assert_eq!(pending.0[0].vars[0].oid.0, col_b.0);
    let log = stats.get(&col_a).unwrap();
    assert_eq!(log.lengths, vec![5, 3]);
    assert_eq!(log.index.len(), 3);
    assert!(stats.get(&col_b).is_none());
    // A column seen for the first time gets an entry of its own.
    let mut c = WalkVar::new(col_b.copy());
    c.done = true;
    c.retrieved = 7;
    record_walks(&mut stats, &vec![c]);
    assert_eq!(stats.get(&col_b).unwrap().lengths, vec![7]);
}

#[test]
fn bulk_replies_go_round_robin() {
    let q = Quirks::default();
    let mut data = OidMap::new();
    let get = oid(&[1, 3, 6, 1, 2, 1, 1, 3]);
    let col_a = oid(&[1, 3, 6, 1, 2, 1, 2, 2, 1, 2]);
    let col_b = oid(&[1, 3, 6, 1, 2, 1, 2, 2, 1, 3]);
    let mut table = WalkTable::new();
    table.push(WalkVar::new(col_a.copy()), None);
    table.push(WalkVar::new(col_b.copy()), None);
    let mut req = BulkRequest { gets: Gets(vec![GetVar::new(get.copy())]), walks: Walks(vec![table]), max_repetitions: 2 };
    let vars = vec![
        (oid(&[1, 3, 6, 1, 2, 1, 1, 3, 0]), Ok(SnmpValue::Integer(5))),
        (oid(&[1, 3, 6, 1, 2, 1, 2, 2, 1, 2, 1]), Ok(SnmpValue::Integer(10))),
        (oid(&[1, 3, 6, 1, 2, 1, 2, 2, 1, 3, 1]), Ok(SnmpValue::Integer(20))),
        (oid(&[1, 3, 6, 1, 2, 1, 2, 2, 1, 2, 2]), Ok(SnmpValue::Integer(11))),
        (oid(&[1, 3, 6, 1, 2, 1, 2, 2, 1, 4, 1]), Ok(SnmpValue::Integer(99))),
    ];
    assert_eq!(deliver_response(&mut req, vars, &mut data, &q), 5);
    assert!(req.gets.0[0].done);
    assert!(matches!(data.get(&get), Some(Ok(_))));
    let a = &req.walks.0[0].vars[0];
    let b = &req.walks.0[0].vars[1];
    // The first column took its two rows and goes on; the second took one
    // row, then a value past its column, which ends it.
    assert_eq!(a.retrieved, 2);
    assert!(!a.done);
    assert_eq!(a.last.0, vec![1, 3, 6, 1, 2, 1, 2, 2, 1, 2, 2]);
    assert_eq!(b.retrieved, 1);
    assert!(b.done);
    match data.get(&col_a) {
        Some(Ok(rows)) => assert_eq!(rows.value.0.len(), 2),
        _ => panic!("expected the rows of the first column"),
    }
    match data.get(&col_b) {
        Some(Ok(rows)) => assert_eq!(rows.value.0.len(), 1),
        _ => panic!("expected the row of the second column"),
    }
}
