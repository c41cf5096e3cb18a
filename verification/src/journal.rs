//! The transaction journal: the record of every transaction's package list,
//! per-package stage and extraction records, and the single source of truth
//! for resume and rollback.
//!
//! The journal value is the state the engine reasons about; the process
//! around the engine flushes it to stable storage after every mutation, so a
//! crash after an acknowledged update never loses that stage transition.
//! Every mutation goes through `update`, `set_state`, `create` or `retire`
//! and replaces whole records, never partial ones. The journal also owns the
//! advisory install lock that serializes engines racing on one target root.

use vstd::prelude::*;

use crate::errors::ErrorKind;
use crate::extract::ExtractionRecord;
use crate::pkg::{PackageRef, Stage, TxState};

verus! {

/// One transaction: an ordered package list, fixed at creation, with a stage
/// and an optional extraction record per package.
#[derive(Debug)]
pub struct Transaction {
    /// Stable across resumes.
    pub id: u64,
    pub pkgs: Vec<PackageRef>,
    pub stages: Vec<Stage>,
    pub records: Vec<Option<ExtractionRecord>>,
    pub state: TxState,
    pub created_at: u64,
    /// Whether the caller forces past a missing verification spec.
    pub force: bool,
}

impl Transaction {
    /// The stage and record lists track the package list one to one.
    pub open spec fn wf(self) -> bool {
        &&& self.stages@.len() == self.pkgs@.len()
        &&& self.records@.len() == self.pkgs@.len()
    }

    /// How many packages have not reached a terminal stage.
    pub open spec fn spec_pending_count(stages: Seq<Stage>) -> nat
        decreases stages.len(),
    {
        if stages.len() == 0 {
            0
        } else {
            Self::spec_pending_count(stages.drop_last()) + if stages.last().is_terminal() {
                0nat
            } else {
                1nat
            }
        }
    }

    /// Counts the packages that still need work.
    pub fn pending_count(&self) -> (r: u64)
        ensures
            r == Self::spec_pending_count(self.stages@),
    {
        let mut count: u64 = 0;
        let mut i: usize = 0;
        while i < self.stages.len()
            invariant
                i <= self.stages@.len(),
                count == Self::spec_pending_count(self.stages@.take(i as int)),
                count <= i,
            decreases self.stages@.len() - i,
        {
            proof {
                assert(self.stages@.take(i + 1).drop_last() =~= self.stages@.take(i as int));
            }
            if !self.stages[i].check_terminal() {
                count = count + 1;
            }
            i = i + 1;
        }
        proof {
            assert(self.stages@.take(self.stages@.len() as int) =~= self.stages@);
        }
        count
    }
}

/// A freshly created transaction: every package `NotStarted`, no records,
/// state `Pending`.
pub open spec fn tx_fresh(
    tx: Transaction,
    pkgs: Seq<PackageRef>,
    force: bool,
    now: u64,
    id: u64,
) -> bool {
    &&& tx.id == id
    &&& tx.pkgs@ == pkgs
    &&& tx.state == TxState::Pending
    &&& tx.created_at == now
    &&& tx.force == force
    &&& tx.stages@.len() == pkgs.len()
    &&& forall|i: int| 0 <= i < pkgs.len() ==> tx.stages@[i] == Stage::NotStarted
    &&& tx.records@.len() == pkgs.len()
    &&& forall|i: int| 0 <= i < pkgs.len() ==> tx.records@[i] is None
}

/// The durable journal: transactions keyed by their stable id, and the
/// advisory per-root install lock.
pub struct Journal {
    pub txs: Vec<Transaction>,
    pub next_id: u64,
    /// The id of the transaction whose engine currently owns the target root.
    pub lock: Option<u64>,
}

impl Journal {
    /// Ids are unique, below the allocation counter, and every transaction is
    /// well formed.
    pub open spec fn wf(self) -> bool {
        &&& forall|i: int| 0 <= i < self.txs@.len() ==> (#[trigger] self.txs@[i]).wf()
        &&& forall|i: int| 0 <= i < self.txs@.len() ==> (#[trigger] self.txs@[i]).id < self.next_id
        &&& forall|i: int, j: int|
            0 <= i < j < self.txs@.len() ==> self.txs@[i].id != self.txs@[j].id
    }

    /// Some transaction is `InProgress` or `Paused`: a second transaction may
    /// not be created while one is.
    pub open spec fn has_active(self) -> bool {
        exists|i: int| 0 <= i < self.txs@.len() && (#[trigger] self.txs@[i]).state.is_resumable()
    }

    /// A transaction with this id exists.
    pub open spec fn has_tx(self, id: u64) -> bool {
        exists|i: int| 0 <= i < self.txs@.len() && (#[trigger] self.txs@[i]).id == id
    }

    /// An empty journal.
    pub fn new() -> (r: Journal)
        ensures
            r.wf(),
            r.txs@.len() == 0,
            r.next_id == 0,
            r.lock is None,
            !r.has_active(),
    {
        Journal { txs: Vec::new(), next_id: 0, lock: None }
    }

    /// The transaction with this id exists and is in one of the given states.
    pub open spec fn tx_in_state(self, id: u64, a: TxState, b: TxState) -> bool {
        exists|i: int|
            0 <= i < self.txs@.len() && (#[trigger] self.txs@[i]).id == id && (self.txs@[i].state
                == a || self.txs@[i].state == b)
    }

    /// The position of the transaction with this id.
    pub fn find(&self, id: u64) -> (r: Option<usize>)
        ensures
            match r {
                Some(i) => i < self.txs@.len() && self.txs@[i as int].id == id,
                None => !self.has_tx(id),
            },
    {
        let mut i: usize = 0;
        while i < self.txs.len()
            invariant
                i <= self.txs@.len(),
                forall|j: int| 0 <= j < i ==> (#[trigger] self.txs@[j]).id != id,
            decreases self.txs@.len() - i,
        {
            if self.txs[i].id == id {
                return Some(i);
            }
            i = i + 1;
        }
        None
    }

    /// Creates a transaction over `pkgs`. Fails with `Conflict` exactly when
    /// another transaction is `InProgress` or `Paused`; on success the new
    /// transaction is appended, `Pending`, with a fresh stable id.
    pub fn create(&mut self, pkgs: Vec<PackageRef>, force: bool, now: u64) -> (r: Result<
        u64,
        ErrorKind,
    >)
        requires
            old(self).wf(),
            old(self).next_id < u64::MAX,
        ensures
            final(self).wf(),
            final(self).lock == old(self).lock,
            match r {
                Ok(id) => {
                    &&& !old(self).has_active()
                    &&& id == old(self).next_id
                    &&& final(self).txs@.len() == old(self).txs@.len() + 1
                    &&& final(self).txs@.drop_last() == old(self).txs@
                    &&& tx_fresh(final(self).txs@.last(), pkgs@, force, now, id)
                },
                Err(e) => {
                    &&& e == ErrorKind::Conflict
                    &&& old(self).has_active()
                    &&& *final(self) == *old(self)
                },
            },
    {
        let mut i: usize = 0;
        while i < self.txs.len()
            invariant
                i <= self.txs@.len(),
                *self == *old(self),
                old(self).wf(),
                forall|j: int| 0 <= j < i ==> !(#[trigger] self.txs@[j]).state.is_resumable(),
            decreases self.txs@.len() - i,
        {
            if self.txs[i].state.check_resumable() {
                return Err(ErrorKind::Conflict);
            }
            i = i + 1;
        }
        let n = pkgs.len();
        let mut stages: Vec<Stage> = Vec::new();
        let mut records: Vec<Option<ExtractionRecord>> = Vec::new();
        let mut k: usize = 0;
        while k < n
            invariant
                k <= n,
                stages@.len() == k,
                records@.len() == k,
                forall|j: int| 0 <= j < k ==> stages@[j] == Stage::NotStarted,
                forall|j: int| 0 <= j < k ==> records@[j] is None,
            decreases n - k,
        {
            stages.push(Stage::NotStarted);
            records.push(None);
            k = k + 1;
        }
        let id = self.next_id;
        let tx = Transaction {
            id,
            pkgs,
            stages,
            records,
            state: TxState::Pending,
            created_at: now,
            force,
        };
        self.txs.push(tx);
        self.next_id = id + 1;
        proof {
            assert(self.txs@.drop_last() =~= old(self).txs@);
        }
        Ok(id)
    }

    /// Loads the transaction with this id; `NotFound` when it is unknown.
    pub fn load(&self, id: u64) -> (r: Result<&Transaction, ErrorKind>)
        ensures
            match r {
                Ok(tx) => exists|i: int|
                    0 <= i < self.txs@.len() && (#[trigger] self.txs@[i]).id == id
                        && self.txs@[i] == *tx,
                Err(e) => e == ErrorKind::NotFound && !self.has_tx(id),
            },
    {
        match self.find(id) {
            Some(i) => {
                let tx = &self.txs[i];
                proof {
                    assert(0 <= i < self.txs@.len() && self.txs@[i as int].id == id
                        && self.txs@[i as int] == *tx);
                }
                Ok(tx)
            },
            None => Err(ErrorKind::NotFound),
        }
    }

    /// Records one package's stage transition, and its extraction record when
    /// one is supplied — atomically: the whole record is replaced, and the
    /// caller flushes it before acting on the acknowledgement. `NotFound` when
    /// the id is unknown or the package index is out of range.
    pub fn update(
        &mut self,
        id: u64,
        package_index: usize,
        new_stage: Stage,
        record: Option<ExtractionRecord>,
    ) -> (r: Result<(), ErrorKind>)
        requires
            old(self).wf(),
        ensures
            final(self).wf(),
            final(self).lock == old(self).lock,
            final(self).next_id == old(self).next_id,
            match r {
                Ok(()) => exists|i: int|
                    {
                        &&& 0 <= i < old(self).txs@.len()
                        &&& (#[trigger] old(self).txs@[i]).id == id
                        &&& package_index < old(self).txs@[i].pkgs@.len()
                        &&& final(self).txs@.len() == old(self).txs@.len()
                        &&& (forall|j: int|
                            0 <= j < old(self).txs@.len() && j != i ==> final(self).txs@[j] == old(
                                self,
                            ).txs@[j])
                        &&& tx_updated(
                            old(self).txs@[i],
                            final(self).txs@[i],
                            package_index as int,
                            new_stage,
                            record,
                        )
                    },
                Err(e) => {
                    &&& e == ErrorKind::NotFound
                    &&& *final(self) == *old(self)
                    &&& forall|i: int|
                        0 <= i < old(self).txs@.len() && (#[trigger] old(self).txs@[i]).id == id
                            ==> package_index >= old(self).txs@[i].pkgs@.len()
                },
            },
    {
        let pos = match self.find(id) {
            Some(p) => p,
            None => {
                return Err(ErrorKind::NotFound);
            },
        };
        if package_index >= self.txs[pos].pkgs.len() {
            proof {
                assert forall|i: int|
                    0 <= i < self.txs@.len() && (#[trigger] self.txs@[i]).id == id implies
                    package_index >= self.txs@[i].pkgs@.len() by {
                    if i != pos as int {
                        assert(self.txs@[i].id != self.txs@[pos as int].id);
                    }
                }
            }
            return Err(ErrorKind::NotFound);
        }
        let ghost rec_ghost = record;
        let tx = &mut self.txs[pos];
        tx.stages[package_index] = new_stage;
        match record {
            Some(rec) => {
                tx.records[package_index] = Some(rec);
            },
            None => {},
        }
        proof {
            assert(tx_updated(
                old(self).txs@[pos as int],
                self.txs@[pos as int],
                package_index as int,
                new_stage,
                rec_ghost,
            ));
        }
        Ok(())
    }

    /// Records the transaction's overall state. `NotFound` when the id is
    /// unknown.
    pub fn set_state(&mut self, id: u64, state: TxState) -> (r: Result<(), ErrorKind>)
        requires
            old(self).wf(),
        ensures
            final(self).wf(),
            final(self).lock == old(self).lock,
            final(self).next_id == old(self).next_id,
            match r {
                Ok(()) => exists|i: int|
                    {
                        &&& 0 <= i < old(self).txs@.len()
                        &&& (#[trigger] old(self).txs@[i]).id == id
                        &&& final(self).txs@ == old(self).txs@.update(
                            i,
                            tx_with_state(old(self).txs@[i], state),
                        )
                    },
                Err(e) => {
                    &&& e == ErrorKind::NotFound
                    &&& !old(self).has_tx(id)
                    &&& *final(self) == *old(self)
                },
            },
    {
        let pos = match self.find(id) {
            Some(p) => p,
            None => {
                return Err(ErrorKind::NotFound);
            },
        };
        let tx = &mut self.txs[pos];
        tx.state = state;
        proof {
            assert(self.txs@ =~= old(self).txs@.update(
                pos as int,
                tx_with_state(old(self).txs@[pos as int], state),
            ));
        }
        Ok(())
    }

    /// The transactions a `resume` may pick up — `Paused`, or `InProgress`
    /// from an unclean shutdown — each with its pending package count.
    pub fn list_resumable(&self) -> (r: Vec<(u64, u64)>)
        ensures
            r@ == resumable_list(self.txs@),
    {
        let mut out: Vec<(u64, u64)> = Vec::new();
        let mut i: usize = 0;
        proof {
            assert(resumable_list(self.txs@.take(0)) =~= Seq::<(u64, u64)>::empty());
        }
        while i < self.txs.len()
            invariant
                i <= self.txs@.len(),
                out@ == resumable_list(self.txs@.take(i as int)),
            decreases self.txs@.len() - i,
        {
            proof {
                assert(self.txs@.take(i + 1).drop_last() =~= self.txs@.take(i as int));
            }
            if self.txs[i].state.check_resumable() {
                let id = self.txs[i].id;
                let pending = self.txs[i].pending_count();
                out.push((id, pending));
            }
            i = i + 1;
        }
        proof {
            assert(self.txs@.take(self.txs@.len() as int) =~= self.txs@);
        }
        out
    }

    /// Removes a `Committed` or `RolledBack` transaction's record — exactly
    /// then, and only then. A transaction in any other state is still live and
    /// is refused with `Conflict`; an unknown id is `NotFound`.
    pub fn retire(&mut self, id: u64) -> (r: Result<(), ErrorKind>)
        requires
            old(self).wf(),
        ensures
            final(self).wf(),
            final(self).lock == old(self).lock,
            final(self).next_id == old(self).next_id,
            r is Ok <==> old(self).tx_in_state(id, TxState::Committed, TxState::RolledBack),
            match r {
                Ok(()) => exists|i: int|
                    {
                        &&& 0 <= i < old(self).txs@.len()
                        &&& (#[trigger] old(self).txs@[i]).id == id
                        &&& (old(self).txs@[i].state == TxState::Committed || old(
                            self,
                        ).txs@[i].state == TxState::RolledBack)
                        &&& final(self).txs@ == old(self).txs@.remove(i)
                    },
                Err(e) => {
                    &&& *final(self) == *old(self)
                    &&& (e == ErrorKind::NotFound <==> !old(self).has_tx(id))
                    &&& (e == ErrorKind::Conflict <==> old(self).has_tx(id) && !old(
                        self,
                    ).tx_in_state(id, TxState::Committed, TxState::RolledBack))
                },
            },
    {
        let pos = match self.find(id) {
            Some(p) => p,
            None => {
                proof {
                    assert(!self.tx_in_state(id, TxState::Committed, TxState::RolledBack));
                }
                return Err(ErrorKind::NotFound);
            },
        };
        let retirable = match self.txs[pos].state {
            TxState::Committed => true,
            TxState::RolledBack => true,
            _ => false,
        };
        proof {
            assert forall|t: int|
                0 <= t < self.txs@.len() && (#[trigger] self.txs@[t]).id == id implies t
                == pos as int by {
                if t != pos as int {
                    assert(self.txs@[t].id != self.txs@[pos as int].id);
                }
            }
        }
        if !retirable {
            return Err(ErrorKind::Conflict);
        }
        self.txs.remove(pos);
        Ok(())
    }

    /// Takes the advisory install lock for the engine driving transaction
    /// `owner`. Fails fast with `Conflict` — never blocks — exactly when
    /// another engine holds it.
    pub fn acquire_lock(&mut self, owner: u64) -> (r: Result<(), ErrorKind>)
        requires
            old(self).wf(),
        ensures
            final(self).wf(),
            final(self).txs == old(self).txs,
            final(self).next_id == old(self).next_id,
            match r {
                Ok(()) => old(self).lock is None && final(self).lock == Some(owner),
                Err(e) => e == ErrorKind::Conflict && old(self).lock is Some && *final(self) == *old(
                    self,
                ),
            },
    {
        match self.lock {
            Some(_) => Err(ErrorKind::Conflict),
            None => {
                self.lock = Some(owner);
                Ok(())
            },
        }
    }

    /// Releases the advisory install lock if `owner` holds it; anyone else's
    /// lock is left in place.
    pub fn release_lock(&mut self, owner: u64)
        requires
            old(self).wf(),
        ensures
            final(self).wf(),
            final(self).txs == old(self).txs,
            final(self).next_id == old(self).next_id,
            final(self).lock == if old(self).lock == Some(owner) {
                None
            } else {
                old(self).lock
            },
    {
        match self.lock {
            Some(holder) => {
                if holder == owner {
                    self.lock = None;
                }
            },
            None => {},
        }
    }
}

/// The new transaction is the old one with package `i`'s stage replaced, and
/// its record replaced when a new one is supplied.
pub open spec fn tx_updated(
    told: Transaction,
    tnew: Transaction,
    i: int,
    stage: Stage,
    record: Option<ExtractionRecord>,
) -> bool {
    &&& tnew.id == told.id
    &&& tnew.pkgs == told.pkgs
    &&& tnew.state == told.state
    &&& tnew.created_at == told.created_at
    &&& tnew.force == told.force
    &&& tnew.stages@ == told.stages@.update(i, stage)
    &&& tnew.records@ == if record is Some {
        told.records@.update(i, record)
    } else {
        told.records@
    }
}

/// `tx` with its overall state replaced.
pub open spec fn tx_with_state(tx: Transaction, state: TxState) -> Transaction {
    Transaction { state, ..tx }
}

/// The resumable transactions, in journal order, as (id, pending packages).
pub open spec fn resumable_list(txs: Seq<Transaction>) -> Seq<(u64, u64)>
    decreases txs.len(),
{
    if txs.len() == 0 {
        Seq::empty()
    } else {
        let rest = resumable_list(txs.drop_last());
        if txs.last().state.is_resumable() {
            rest.push(
                (txs.last().id, Transaction::spec_pending_count(txs.last().stages@) as u64),
            )
        } else {
            rest
        }
    }
}

} // verus!
