//! A change of several NV items as one transaction: every item is read
//! before anything is written, the state read is backed up, then the changes
//! are made and read back. In step-by-step mode each change is read back
//! before the next, and the first that does not land stops the run; in batch
//! mode every change is written, then every item is read back. Either way a
//! failure rolls back every item the run wrote to.
//!
//! The steps that need the modem or the disk are carried out by the caller:
//! `Txn::step` takes what came of the last action and says what to do next.
use vstd::prelude::*;
use crate::nv::{read_back_matches, read_shows};
use crate::util::{EfsRead, EfsReadModel};

verus! {

/// What an item must read back as once its change is made.
pub enum Expect {
    /// Present, with these bytes.
    Bytes(Vec<u8>),
    /// Absent.
    Absent,
}

/// One change: write `write` to the item (or delete it when `None`), then
/// check the read-back against `expect`.
pub struct TxnOp {
    pub slot: i32,
    pub path: String,
    pub write: Option<Vec<u8>>,
    pub expect: Expect,
}

#[derive(Debug, Clone, Copy, PartialEq, Eq)]
pub enum TxnPhase {
    Reading,
    BackingUp,
    /// Step by step: change and read back one item at a time.
    Applying,
    /// Batch: write every item.
    Writing,
    /// Batch: read every item back.
    Checking,
    Finished,
}

/// What the caller does next.
#[derive(Debug, Clone, PartialEq, Eq)]
pub enum TxnAction {
    /// Read item `i` (its state before the change).
    ReadBefore(usize),
    /// Back up the states read (one entry per item, in order).
    Backup,
    /// Write or delete item `i`, then read it back.
    Apply(usize),
    /// Write or delete item `i` (batch mode).
    Write(usize),
    /// Read item `i` back (batch mode).
    ReadBack(usize),
    /// Item `i` could not be read: stop, nothing was written.
    AbortRead(usize, String),
    /// The backup could not be made: stop, nothing was written.
    AbortBackup,
    /// A change did not land: put items `0..n` back from the states read
    /// before, then stop.
    RollBack(usize),
    /// Every change was made and read back as expected.
    Done,
}

/// What came of the last action.
pub enum TxnEvent {
    Read(EfsRead),
    BackedUp(bool),
    Applied(i32, EfsRead),
    Wrote(i32),
    ReadBackDone(EfsRead),
}

/// A transaction in progress.
pub struct Txn {
    pub ops: Vec<TxnOp>,
    /// Whether the states read are backed up before the first change.
    pub backup: bool,
    /// Batch mode: write everything, then read everything back.
    pub batch: bool,
    pub phase: TxnPhase,
    /// The state of each item read so far: its bytes, or `None` when absent.
    pub snapshots: Vec<Option<Vec<u8>>>,
    /// Whether the backup was made.
    pub backed_up: bool,
    /// Step by step: how many changes landed. Batch: how many items were
    /// written.
    pub applied: usize,
    /// Batch: how many items were read back.
    pub checked: usize,
    /// Batch: whether a write exited non-zero or a read-back did not match.
    pub failed: bool,
}

pub enum ExpectModel {
    Bytes(Seq<u8>),
    Absent,
}

pub open spec fn expect_view(e: Expect) -> ExpectModel {
    match e {
        Expect::Bytes(b) => ExpectModel::Bytes(b@),
        Expect::Absent => ExpectModel::Absent,
    }
}

/// The item reads back as expected: these bytes, or absent.
pub open spec fn reads_as(expect: ExpectModel, after: EfsReadModel) -> bool {
    match expect {
        ExpectModel::Bytes(b) => read_shows(Some(b), after),
        ExpectModel::Absent => read_shows(None, after),
    }
}

/// A change landed: `mtb` exited 0 and the item reads back as expected.
pub open spec fn landed(expect: ExpectModel, exit: int, after: EfsReadModel) -> bool {
    exit == 0 && reads_as(expect, after)
}

pub open spec fn snapshot_of(r: EfsReadModel) -> Option<Seq<u8>> {
    match r {
        EfsReadModel::Present(b) => Some(b),
        _ => None,
    }
}

pub open spec fn snapshots_view(s: Seq<Option<Vec<u8>>>) -> Seq<Option<Seq<u8>>> {
    Seq::new(
        s.len(),
        |i: int|
            match s[i] {
                Some(b) => Some(b@),
                None => None,
            },
    )
}

/// Whether the item, read back as `after`, is as `expect` says.
pub fn expect_met(expect: &Expect, after: &EfsRead) -> (r: bool)
    ensures
        r == reads_as(expect_view(*expect), after@),
{
    match expect {
        Expect::Bytes(b) => read_back_matches(Some(b.as_slice()), after),
        Expect::Absent => read_back_matches(None, after),
    }
}

impl Txn {
    /// The states a transaction can be in.
    pub open spec fn wf(&self) -> bool {
        let n = self.ops@.len();
        &&& self.snapshots@.len() <= n
        &&& self.applied <= n
        &&& self.checked <= n
        &&& match self.phase {
            TxnPhase::Reading => self.snapshots@.len() < n && self.applied == 0 && self.checked == 0
                && !self.backed_up && !self.failed,
            TxnPhase::BackingUp => self.snapshots@.len() == n && self.backup && !self.backed_up
                && self.applied == 0 && self.checked == 0 && !self.failed,
            TxnPhase::Applying => !self.batch && self.snapshots@.len() == n && self.applied < n && (
            self.backup ==> self.backed_up),
            TxnPhase::Writing => self.batch && self.snapshots@.len() == n && self.applied < n
                && self.checked == 0 && (self.backup ==> self.backed_up),
            TxnPhase::Checking => self.batch && self.snapshots@.len() == n && self.applied == n
                && self.checked < n && (self.backup ==> self.backed_up),
            TxnPhase::Finished => true,
        }
    }

    /// The action that a state in each phase calls for.
    pub open spec fn pending(&self, a: TxnAction) -> bool {
        match self.phase {
            TxnPhase::Reading => a == TxnAction::ReadBefore(self.snapshots@.len() as usize),
            TxnPhase::BackingUp => a == TxnAction::Backup,
            TxnPhase::Applying => a == TxnAction::Apply(self.applied),
            TxnPhase::Writing => a == TxnAction::Write(self.applied),
            TxnPhase::Checking => a == TxnAction::ReadBack(self.checked),
            TxnPhase::Finished => a is AbortRead || a is AbortBackup || a is RollBack || a is Done,
        }
    }

    /// The event answers the phase's action.
    pub open spec fn fits(&self, ev: TxnEvent) -> bool {
        match self.phase {
            TxnPhase::Reading => ev is Read,
            TxnPhase::BackingUp => ev is BackedUp,
            TxnPhase::Applying => ev is Applied,
            TxnPhase::Writing => ev is Wrote,
            TxnPhase::Checking => ev is ReadBackDone,
            TxnPhase::Finished => false,
        }
    }

    /// The first change's action once every item is read (and backed up):
    /// `Apply(0)` or `Write(0)`, or `Done` when there is no change.
    pub open spec fn first_change(&self) -> TxnAction {
        if self.ops@.len() == 0 {
            TxnAction::Done
        } else if self.batch {
            TxnAction::Write(0)
        } else {
            TxnAction::Apply(0)
        }
    }

    /// Every change is made and read back as expected.
    pub open spec fn complete(&self) -> bool {
        &&& self.snapshots@.len() == self.ops@.len()
        &&& if self.batch {
            self.applied == self.ops@.len() && self.checked == self.ops@.len() && !self.failed
        } else {
            self.applied == self.ops@.len()
        }
    }

    /// Starts the changes (after the reads, and the backup when asked for).
    fn begin_changes(&mut self) -> (a: TxnAction)
        requires
            old(self).snapshots@.len() == old(self).ops@.len(),
            old(self).applied == 0,
            old(self).checked == 0,
            !old(self).failed,
            old(self).backup ==> old(self).backed_up,
        ensures
            final(self).ops == old(self).ops,
            final(self).snapshots == old(self).snapshots,
            final(self).backup == old(self).backup,
            final(self).batch == old(self).batch,
            final(self).backed_up == old(self).backed_up,
            final(self).applied == 0,
            final(self).checked == 0,
            !final(self).failed,
            final(self).wf(),
            final(self).pending(a),
            a == old(self).first_change(),
    {
        if self.ops.len() == 0 {
            self.phase = TxnPhase::Finished;
            TxnAction::Done
        } else if self.batch {
            self.phase = TxnPhase::Writing;
            TxnAction::Write(0)
        } else {
            self.phase = TxnPhase::Applying;
            TxnAction::Apply(0)
        }
    }

    /// Once every item is read: back up, or go straight to the changes.
    fn after_reads(&mut self) -> (a: TxnAction)
        requires
            old(self).snapshots@.len() == old(self).ops@.len(),
            old(self).applied == 0,
            old(self).checked == 0,
            !old(self).backed_up,
            !old(self).failed,
        ensures
            final(self).ops == old(self).ops,
            final(self).snapshots == old(self).snapshots,
            final(self).backup == old(self).backup,
            final(self).batch == old(self).batch,
            final(self).backed_up == old(self).backed_up,
            final(self).applied == 0,
            final(self).checked == 0,
            !final(self).failed,
            final(self).wf(),
            final(self).pending(a),
            old(self).backup ==> a == TxnAction::Backup,
            !old(self).backup ==> a == old(self).first_change(),
    {
        if self.backup {
            self.phase = TxnPhase::BackingUp;
            TxnAction::Backup
        } else {
            self.begin_changes()
        }
    }

    /// A transaction over `ops`, and its first action.
    pub fn start(ops: Vec<TxnOp>, backup: bool, batch: bool) -> (r: (Txn, TxnAction))
        ensures
            r.0.wf(),
            r.0.pending(r.1),
            r.0.ops@ == ops@,
            r.0.backup == backup,
            r.0.batch == batch,
            r.0.snapshots@.len() == 0,
            r.0.applied == 0,
            !r.0.backed_up,
            ops@.len() > 0 ==> r.1 == TxnAction::ReadBefore(0),
            ops@.len() == 0 && backup ==> r.1 == TxnAction::Backup,
            ops@.len() == 0 && !backup ==> r.1 == TxnAction::Done,
    {
        let mut t = Txn {
            ops,
            backup,
            batch,
            phase: TxnPhase::Reading,
            snapshots: Vec::new(),
            backed_up: false,
            applied: 0,
            checked: 0,
            failed: false,
        };
        if t.ops.len() > 0 {
            (t, TxnAction::ReadBefore(0))
        } else {
            let a = t.after_reads();
            (t, a)
        }
    }

    /// Takes what came of the last action and gives the next one.
    pub fn step(&mut self, ev: TxnEvent) -> (a: TxnAction)
        requires
            old(self).wf(),
            old(self).fits(ev),
        ensures
            final(self).wf(),
            final(self).pending(a),
            final(self).ops == old(self).ops,
            final(self).backup == old(self).backup,
            final(self).batch == old(self).batch,
            // nothing is changed before every item was read and, when asked,
            // backed up
            (a is Apply || a is Write) ==> final(self).snapshots@.len() == final(self).ops@.len() && (
            final(self).backup ==> final(self).backed_up),
            a matches TxnAction::Apply(i) ==> i == final(self).applied,
            a matches TxnAction::Write(i) ==> i == final(self).applied,
            // a stop before the changes leaves everything as it was
            (a is AbortRead || a is AbortBackup) ==> final(self).applied == 0,
            // a rollback covers every item written to
            a matches TxnAction::RollBack(k) ==> 1 <= k <= final(self).snapshots@.len(),
            a matches TxnAction::RollBack(k) ==> (final(self).batch ==> k == final(self).ops@.len()),
            a matches TxnAction::RollBack(k) ==> (!final(self).batch ==> final(self).applied == k - 1),
            // done means every change landed
            a is Done ==> final(self).complete(),
            // a read adds the item's state, and is followed by the next read,
            // the backup, or the first change; a failed read stops everything
            old(self).phase == TxnPhase::Reading ==> match ev {
                TxnEvent::Read(r) => match r@ {
                    EfsReadModel::Error(e) => final(self).phase == TxnPhase::Finished
                        && final(self).snapshots == old(self).snapshots && (a matches TxnAction::AbortRead(
                        i,
                        m,
                    ) && i == old(self).snapshots@.len() && m@ == e),
                    _ => {
                        &&& snapshots_view(final(self).snapshots@) == snapshots_view(
                            old(self).snapshots@,
                        ).push(snapshot_of(r@))
                        &&& final(self).applied == 0
                        &&& !final(self).backed_up
                        &&& if final(self).snapshots@.len() < final(self).ops@.len() {
                            a == TxnAction::ReadBefore(final(self).snapshots@.len() as usize)
                        } else if final(self).backup {
                            a == TxnAction::Backup
                        } else {
                            a == final(self).first_change()
                        }
                    },
                },
                _ => false,
            },
            // a failed backup stops everything; a backup made leads to the
            // first change
            old(self).phase == TxnPhase::BackingUp ==> match ev {
                TxnEvent::BackedUp(ok) => final(self).snapshots == old(self).snapshots && if ok {
                    final(self).backed_up && final(self).applied == 0 && a == final(self).first_change()
                } else {
                    a == TxnAction::AbortBackup && final(self).phase == TxnPhase::Finished
                },
                _ => false,
            },
            // step by step: a change that landed counts; one that did not is
            // rolled back with every change before it
            old(self).phase == TxnPhase::Applying ==> match ev {
                TxnEvent::Applied(exit, after) => final(self).snapshots == old(self).snapshots && if landed(
                    expect_view(old(self).ops@[old(self).applied as int].expect),
                    exit as int,
                    after@,
                ) {
                    final(self).applied == old(self).applied + 1 && (if final(self).applied
                        == final(self).ops@.len() {
                        a == TxnAction::Done && final(self).phase == TxnPhase::Finished
                    } else {
                        a == TxnAction::Apply(final(self).applied)
                    })
                } else {
                    a == TxnAction::RollBack((old(self).applied + 1) as usize) && final(self).phase
                        == TxnPhase::Finished
                },
                _ => false,
            },
            // batch: every item is written, a non-zero exit noted; then every
            // item is read back, a mismatch noted; any failure rolls back all
            old(self).phase == TxnPhase::Writing ==> match ev {
                TxnEvent::Wrote(exit) => {
                    &&& final(self).snapshots == old(self).snapshots
                    &&& final(self).applied == old(self).applied + 1
                    &&& final(self).failed == (old(self).failed || exit != 0)
                    &&& final(self).checked == 0
                    &&& a == (if final(self).applied == final(self).ops@.len() {
                        TxnAction::ReadBack(0)
                    } else {
                        TxnAction::Write(final(self).applied)
                    })
                },
                _ => false,
            },
            old(self).phase == TxnPhase::Checking ==> match ev {
                TxnEvent::ReadBackDone(after) => {
                    &&& final(self).snapshots == old(self).snapshots
                    &&& final(self).checked == old(self).checked + 1
                    &&& final(self).failed == (old(self).failed || !reads_as(
                        expect_view(old(self).ops@[old(self).checked as int].expect),
                        after@,
                    ))
                    &&& a == (if final(self).checked < final(self).ops@.len() {
                        TxnAction::ReadBack(final(self).checked)
                    } else if final(self).failed {
                        TxnAction::RollBack(final(self).ops@.len() as usize)
                    } else {
                        TxnAction::Done
                    })
                },
                _ => false,
            },
    {
        match ev {
            TxnEvent::Read(r) => {
                match r {
                    EfsRead::Error(e) => {
                        self.phase = TxnPhase::Finished;
                        TxnAction::AbortRead(self.snapshots.len(), e)
                    },
                    EfsRead::Present(b) => {
                        let ghost before = snapshots_view(self.snapshots@);
                        let ghost bv = b@;
                        self.snapshots.push(Some(b));
                        assert(snapshots_view(self.snapshots@) =~= before.push(Some(bv)));
                        self.next_read()
                    },
                    EfsRead::Absent => {
                        let ghost before = snapshots_view(self.snapshots@);
                        self.snapshots.push(None);
                        assert(snapshots_view(self.snapshots@) =~= before.push(None));
                        self.next_read()
                    },
                }
            },
            TxnEvent::BackedUp(ok) => {
                if ok {
                    self.backed_up = true;
                    self.begin_changes()
                } else {
                    self.phase = TxnPhase::Finished;
                    TxnAction::AbortBackup
                }
            },
            TxnEvent::Applied(exit, after) => {
                let i = self.applied;
                let n = self.ops.len();
                assert(i < n);
                let ok = exit == 0 && expect_met(&self.ops[i].expect, &after);
                if ok {
                    self.applied = i + 1;
                    if self.applied == n {
                        self.phase = TxnPhase::Finished;
                        TxnAction::Done
                    } else {
                        TxnAction::Apply(self.applied)
                    }
                } else {
                    self.phase = TxnPhase::Finished;
                    TxnAction::RollBack(i + 1)
                }
            },
            TxnEvent::Wrote(exit) => {
                let n = self.ops.len();
                assert(self.applied < n);
                self.applied = self.applied + 1;
                self.failed = self.failed || exit != 0;
                if self.applied == n {
                    self.phase = TxnPhase::Checking;
                    TxnAction::ReadBack(0)
                } else {
                    TxnAction::Write(self.applied)
                }
            },
            TxnEvent::ReadBackDone(after) => {
                let i = self.checked;
                let n = self.ops.len();
                assert(i < n);
                let good = expect_met(&self.ops[i].expect, &after);
                self.checked = i + 1;
                self.failed = self.failed || !good;
                if self.checked < n {
                    TxnAction::ReadBack(self.checked)
                } else if self.failed {
                    self.phase = TxnPhase::Finished;
                    TxnAction::RollBack(n)
                } else {
                    self.phase = TxnPhase::Finished;
                    TxnAction::Done
                }
            },
        }
    }

    /// After a read: the next read, or what follows the reads.
    fn next_read(&mut self) -> (a: TxnAction)
        requires
            old(self).phase == TxnPhase::Reading,
            0 < old(self).snapshots@.len() <= old(self).ops@.len(),
            old(self).applied == 0,
            old(self).checked == 0,
            !old(self).backed_up,
            !old(self).failed,
        ensures
            final(self).wf(),
            final(self).pending(a),
            final(self).ops == old(self).ops,
            final(self).snapshots == old(self).snapshots,
            final(self).backup == old(self).backup,
            final(self).batch == old(self).batch,
            final(self).applied == 0,
            !final(self).backed_up,
            if final(self).snapshots@.len() < final(self).ops@.len() {
                a == TxnAction::ReadBefore(final(self).snapshots@.len() as usize)
            } else if final(self).backup {
                a == TxnAction::Backup
            } else {
                a == final(self).first_change()
            },
    {
        if self.snapshots.len() < self.ops.len() {
            TxnAction::ReadBefore(self.snapshots.len())
        } else {
            self.after_reads()
        }
    }
}

} // verus!
