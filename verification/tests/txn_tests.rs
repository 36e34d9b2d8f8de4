use mtbctl::txn::{expect_met, Expect, Txn, TxnAction, TxnEvent, TxnOp};
use mtbctl::util::parse_hex;
use mtbctl::util::EfsRead;

const P0: &str = "/nv/item_files/modem/mmode/a";
const P1: &str = "/nv/item_files/modem/mmode/b";

fn ops() -> Vec<TxnOp> {
    vec![
        TxnOp { slot: 0, path: P0.to_string(), write: Some(vec![1, 2]), expect: Expect::Bytes(vec![1, 2]) },
        TxnOp { slot: 1, path: P1.to_string(), write: None, expect: Expect::Absent },
    ]
}

#[test]
fn transaction_reads_backs_up_then_applies() {
    let (mut t, a) = Txn::start(ops(), true, false);
    assert_eq!(a, TxnAction::ReadBefore(0));
    assert_eq!(t.step(TxnEvent::Read(EfsRead::Present(vec![9]))), TxnAction::ReadBefore(1));
    assert_eq!(t.step(TxnEvent::Read(EfsRead::Absent)), TxnAction::Backup);
    assert_eq!(t.snapshots, vec![Some(vec![9]), None]);
    assert_eq!(t.step(TxnEvent::BackedUp(true)), TxnAction::Apply(0));
    assert_eq!(t.step(TxnEvent::Applied(0, EfsRead::Present(vec![1, 2]))), TxnAction::Apply(1));
    assert_eq!(t.step(TxnEvent::Applied(0, EfsRead::Absent)), TxnAction::Done);
    assert_eq!(t.applied, 2);
}

#[test]
fn transaction_read_failure_writes_nothing() {
    let (mut t, _) = Txn::start(ops(), true, false);
    assert_eq!(t.step(TxnEvent::Read(EfsRead::Present(vec![9]))), TxnAction::ReadBefore(1));
    assert_eq!(
        t.step(TxnEvent::Read(EfsRead::Error("qmi".to_string()))),
        TxnAction::AbortRead(1, "qmi".to_string())
    );
    assert_eq!(t.applied, 0);
}

#[test]
fn transaction_backup_failure_writes_nothing() {
    let (mut t, _) = Txn::start(ops(), true, false);
    t.step(TxnEvent::Read(EfsRead::Absent));
    t.step(TxnEvent::Read(EfsRead::Absent));
    assert_eq!(t.step(TxnEvent::BackedUp(false)), TxnAction::AbortBackup);
    assert!(!t.backed_up);
}

#[test]
fn transaction_rolls_back_through_the_failed_change() {
    let (mut t, _) = Txn::start(ops(), false, false);
    t.step(TxnEvent::Read(EfsRead::Absent));
    assert_eq!(t.step(TxnEvent::Read(EfsRead::Present(vec![3]))), TxnAction::Apply(0));
    assert_eq!(t.step(TxnEvent::Applied(0, EfsRead::Present(vec![1, 2]))), TxnAction::Apply(1));
    // the delete exited 0 but the item is still there
    assert_eq!(t.step(TxnEvent::Applied(0, EfsRead::Present(vec![3]))), TxnAction::RollBack(2));
    let (mut u, _) = Txn::start(ops(), false, false);
    u.step(TxnEvent::Read(EfsRead::Absent));
    u.step(TxnEvent::Read(EfsRead::Absent));
    // a write that exited non-zero does not count, whatever reads back
    assert_eq!(u.step(TxnEvent::Applied(1, EfsRead::Present(vec![1, 2]))), TxnAction::RollBack(1));
}

#[test]
fn transaction_compares_bytes_read_back() {
    // a restore of an entry stored as "0A" expects the byte 0x0a
    let raw = parse_hex("0A").unwrap();
    let op = TxnOp { slot: 0, path: P0.to_string(), write: Some(raw.clone()), expect: Expect::Bytes(raw) };
    let (mut t, _) = Txn::start(vec![op], false, false);
    assert_eq!(t.step(TxnEvent::Read(EfsRead::Absent)), TxnAction::Apply(0));
    assert_eq!(t.step(TxnEvent::Applied(0, EfsRead::Present(vec![0x0a]))), TxnAction::Done);
    assert!(expect_met(&Expect::Bytes(vec![0x0a]), &EfsRead::Present(vec![0x0a])));
    assert!(!expect_met(&Expect::Bytes(vec![0x0a]), &EfsRead::Absent));
    assert!(expect_met(&Expect::Absent, &EfsRead::Absent));
}

#[test]
fn transaction_batch_writes_all_then_reads_all() {
    let (mut t, a) = Txn::start(ops(), true, true);
    assert_eq!(a, TxnAction::ReadBefore(0));
    assert_eq!(t.step(TxnEvent::Read(EfsRead::Present(vec![9]))), TxnAction::ReadBefore(1));
    assert_eq!(t.step(TxnEvent::Read(EfsRead::Present(vec![4]))), TxnAction::Backup);
    assert_eq!(t.step(TxnEvent::BackedUp(true)), TxnAction::Write(0));
    // a failed write does not stop the others
    assert_eq!(t.step(TxnEvent::Wrote(1)), TxnAction::Write(1));
    assert_eq!(t.step(TxnEvent::Wrote(0)), TxnAction::ReadBack(0));
    assert_eq!(t.step(TxnEvent::ReadBackDone(EfsRead::Present(vec![1, 2]))), TxnAction::ReadBack(1));
    assert_eq!(t.step(TxnEvent::ReadBackDone(EfsRead::Absent)), TxnAction::RollBack(2));
}

#[test]
fn transaction_batch_success_and_mismatch() {
    let (mut t, _) = Txn::start(ops(), false, true);
    t.step(TxnEvent::Read(EfsRead::Absent));
    assert_eq!(t.step(TxnEvent::Read(EfsRead::Absent)), TxnAction::Write(0));
    assert_eq!(t.step(TxnEvent::Wrote(0)), TxnAction::Write(1));
    assert_eq!(t.step(TxnEvent::Wrote(0)), TxnAction::ReadBack(0));
    assert_eq!(t.step(TxnEvent::ReadBackDone(EfsRead::Present(vec![1, 2]))), TxnAction::ReadBack(1));
    assert_eq!(t.step(TxnEvent::ReadBackDone(EfsRead::Absent)), TxnAction::Done);
    let (mut u, _) = Txn::start(ops(), false, true);
    u.step(TxnEvent::Read(EfsRead::Absent));
    u.step(TxnEvent::Read(EfsRead::Absent));
    u.step(TxnEvent::Wrote(0));
    u.step(TxnEvent::Wrote(0));
    // the first mask reads back wrong: every mask is still read back
    assert_eq!(u.step(TxnEvent::ReadBackDone(EfsRead::Present(vec![1]))), TxnAction::ReadBack(1));
    assert_eq!(u.step(TxnEvent::ReadBackDone(EfsRead::Absent)), TxnAction::RollBack(2));
}

#[test]
fn transaction_read_leads_to_next_step() {
    // the last read goes straight to the first change when no backup is asked
    let (mut t, _) = Txn::start(ops(), false, false);
    assert_eq!(t.step(TxnEvent::Read(EfsRead::Absent)), TxnAction::ReadBefore(1));
    assert_eq!(t.step(TxnEvent::Read(EfsRead::Absent)), TxnAction::Apply(0));
}

#[test]
fn empty_transaction() {
    let (_, a) = Txn::start(Vec::new(), false, false);
    assert_eq!(a, TxnAction::Done);
    let (mut t, a) = Txn::start(Vec::new(), true, false);
    assert_eq!(a, TxnAction::Backup);
    assert_eq!(t.step(TxnEvent::BackedUp(true)), TxnAction::Done);
}
