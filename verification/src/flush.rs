//! The flush command: drives the prewrite engine over a batch of mutations
//! with generation-based idempotency and partial-failure aggregation.
//!
//! [`flush_spec`] states the whole command as a fold of the per-key decision
//! over the mutation list; [`Flush::process_write`] is proved to return
//! exactly that.

use vstd::prelude::*;
use crate::errors::{Error, ErrorModel};
use crate::prewrite::{
    commit_check_passes, find_committed, prewrite_outcome, MvccTxn, PrewriteOutcome, PropsModel,
    TransactionProperties,
};
use crate::store::{lemma_skip_step, Modify, ModifyModel, MvccStore, SnapshotReader, StoreModel};
use crate::types::{AssertionLevel, Mutation, MutationModel, TimeStamp, WriteType};

verus! {

/// The flush command: one batch of mutations of a pipelined transaction,
/// tagged with the per-key retry generation.
#[derive(Debug)]
pub struct Flush {
    pub start_ts: TimeStamp,
    pub primary: Vec<u8>,
    pub mutations: Vec<Mutation>,
    pub generation: u64,
    pub lock_ttl: u64,
    pub assertion_level: AssertionLevel,
}

/// Ghost model of a [`Flush`] command.
pub ghost struct FlushModel {
    pub start_ts: u64,
    pub primary: Seq<u8>,
    pub mutations: Seq<MutationModel>,
    pub generation: u64,
    pub lock_ttl: u64,
    pub assertion_level: AssertionLevel,
}

impl DeepView for Flush {
    type V = FlushModel;

    open spec fn deep_view(&self) -> FlushModel {
        FlushModel {
            start_ts: self.start_ts.0,
            primary: self.primary@,
            mutations: self.mutations.deep_view(),
            generation: self.generation,
            lock_ttl: self.lock_ttl,
            assertion_level: self.assertion_level,
        }
    }
}

/// What a finished flush hands back: the staged write batch for the external
/// pipeline, and one result per processed mutation (stale retries contribute
/// nothing).
pub struct WriteResult {
    pub modifies: Vec<Modify>,
    pub results: Vec<Result<(), Error>>,
}

/// Ghost model of a [`WriteResult`]; also the accumulator of the fold.
pub ghost struct FlushAcc {
    pub results: Seq<Result<(), ErrorModel>>,
    pub modifies: Seq<ModifyModel>,
    /// The first assertion failure, remembered and reported only at the end.
    pub deferred: Option<ErrorModel>,
}

pub open spec fn results_view(rs: Seq<Result<(), Error>>) -> Seq<Result<(), ErrorModel>> {
    rs.map_values(
        |r: Result<(), Error>|
            match r {
                Ok(_) => Result::<(), ErrorModel>::Ok(()),
                Err(e) => Result::<(), ErrorModel>::Err(e.deep_view()),
            },
    )
}

pub open spec fn opt_err_view(o: Option<Error>) -> Option<ErrorModel> {
    match o {
        Some(e) => Some(e.deep_view()),
        None => None,
    }
}

/// The transaction context a flush request works under: optimistic, with the
/// commit floor set one past the start timestamp so that readers cannot push
/// it.
pub open spec fn flush_props(cmd: FlushModel) -> PropsModel {
    PropsModel {
        start_ts: cmd.start_ts,
        primary: cmd.primary,
        lock_ttl: cmd.lock_ttl,
        min_commit_ts: (cmd.start_ts + 1) as u64,
        assertion_level: cmd.assertion_level,
    }
}

/// One step of the flush loop per remaining mutation, in input order:
///  - a successful prewrite records a success and keeps its staged lock;
///  - a write conflict strictly after our start runs the committed-record
///    check for the whole remaining batch and stops: the transaction was
///    already completed under a prior attempt (staged work is dropped), or
///    the conflict aborts the command;
///  - a foreign lock runs the committed-record check for this mutation
///    alone: already-durable effects count as success, otherwise the lock is
///    reported for this mutation and processing continues;
///  - an existence conflict is recorded for this mutation and processing
///    continues;
///  - the first assertion failure is deferred to the end;
///  - a stale generation contributes nothing;
///  - anything else aborts the whole command.
pub open spec fn flush_rec(
    s: StoreModel,
    p: PropsModel,
    muts: Seq<MutationModel>,
    generation: u64,
    acc: FlushAcc,
) -> Result<FlushAcc, ErrorModel>
    decreases muts.len(),
{
    if muts.len() == 0 {
        match acc.deferred {
            Some(e) => Err(e),
            None => Ok(acc),
        }
    } else {
        let mu = muts[0];
        let rest = muts.skip(1);
        match prewrite_outcome(s, p, mu, generation) {
            PrewriteOutcome::Installed { lock } => flush_rec(
                s,
                p,
                rest,
                generation,
                FlushAcc {
                    results: acc.results.push(Ok(())),
                    modifies: acc.modifies.push(
                        ModifyModel::PutLock { key: mu.key(), lock },
                    ),
                    deferred: acc.deferred,
                },
            ),
            PrewriteOutcome::NoOp => flush_rec(
                s,
                p,
                rest,
                generation,
                FlushAcc {
                    results: acc.results.push(Ok(())),
                    modifies: acc.modifies,
                    deferred: acc.deferred,
                },
            ),
            PrewriteOutcome::Fail { err } => match err {
                ErrorModel::WriteConflict { conflict_commit_ts, .. } => {
                    if conflict_commit_ts > p.start_ts && commit_check_passes(
                        s,
                        mu.key(),
                        p.start_ts,
                    ) {
                        Ok(
                            FlushAcc {
                                results: seq![Result::<(), ErrorModel>::Ok(())],
                                modifies: Seq::empty(),
                                deferred: None,
                            },
                        )
                    } else {
                        Err(err)
                    }
                },
                ErrorModel::KeyIsLocked { .. } => {
                    let outcome = if commit_check_passes(s, mu.key(), p.start_ts) {
                        Result::<(), ErrorModel>::Ok(())
                    } else {
                        Result::<(), ErrorModel>::Err(err)
                    };
                    flush_rec(
                        s,
                        p,
                        rest,
                        generation,
                        FlushAcc {
                            results: acc.results.push(outcome),
                            modifies: acc.modifies,
                            deferred: acc.deferred,
                        },
                    )
                },
                ErrorModel::AlreadyExist { .. } => flush_rec(
                    s,
                    p,
                    rest,
                    generation,
                    FlushAcc {
                        results: acc.results.push(Err(err)),
                        modifies: acc.modifies,
                        deferred: acc.deferred,
                    },
                ),
                ErrorModel::AssertionFailed { .. } => flush_rec(
                    s,
                    p,
                    rest,
                    generation,
                    FlushAcc {
                        results: acc.results,
                        modifies: acc.modifies,
                        deferred: if acc.deferred is Some {
                            acc.deferred
                        } else {
                            Some(err)
                        },
                    },
                ),
                ErrorModel::GenerationOutOfOrder { .. } => flush_rec(s, p, rest, generation, acc),
                _ => Err(err),
            },
        }
    }
}

/// The whole command: a zero generation is rejected before any per-key
/// processing; otherwise the mutations are folded in input order.
pub open spec fn flush_spec(s: StoreModel, cmd: FlushModel) -> Result<FlushAcc, ErrorModel> {
    if cmd.generation == 0 {
        Err(ErrorModel::Other("generation should be greater than 0 for Flush requests"@))
    } else {
        flush_rec(
            s,
            flush_props(cmd),
            cmd.mutations,
            cmd.generation,
            FlushAcc { results: Seq::empty(), modifies: Seq::empty(), deferred: None },
        )
    }
}

impl Flush {
    pub fn new(
        start_ts: TimeStamp,
        primary: Vec<u8>,
        mutations: Vec<Mutation>,
        generation: u64,
        lock_ttl: u64,
        assertion_level: AssertionLevel,
    ) -> (r: Flush)
        ensures
            r.deep_view() == (FlushModel {
                start_ts: start_ts.0,
                primary: primary@,
                mutations: mutations.deep_view(),
                generation,
                lock_ttl,
                assertion_level,
            }),
    {
        Flush { start_ts, primary, mutations, generation, lock_ttl, assertion_level }
    }

    /// The payload volume of this command: key and value bytes of every
    /// mutation that writes, key bytes alone of deletes and lock-only
    /// mutations, saturating at the machine word.
    pub fn write_bytes(&self) -> (r: usize)
        ensures
            r == if spec_write_bytes(self.mutations.deep_view()) <= usize::MAX {
                spec_write_bytes(self.mutations.deep_view())
            } else {
                usize::MAX as int
            },
    {
        let ghost muts = self.mutations.deep_view();
        let mut bytes: usize = 0;
        let mut i: usize = 0;
        proof {
            assert(muts.take(0) =~= Seq::<MutationModel>::empty());
        }
        while i < self.mutations.len()
            invariant
                i <= self.mutations@.len(),
                muts == self.mutations.deep_view(),
                muts.len() == self.mutations@.len(),
                bytes == if spec_write_bytes(muts.take(i as int)) <= usize::MAX {
                    spec_write_bytes(muts.take(i as int))
                } else {
                    usize::MAX as int
                },
            decreases self.mutations@.len() - i,
        {
            proof {
                assert(muts.take(i + 1).drop_last() =~= muts.take(i as int));
                assert(muts.take(i + 1).last() == muts[i as int]);
            }
            let add: usize = match &self.mutations[i] {
                Mutation::Put((key, value), _) | Mutation::Insert((key, value), _) => {
                    if key.len() > usize::MAX - value.len() {
                        usize::MAX
                    } else {
                        key.len() + value.len()
                    }
                },
                Mutation::Delete(key, _) | Mutation::Lock(key, _) => key.len(),
                Mutation::CheckNotExists(..) => 0,
            };
            bytes = if bytes > usize::MAX - add {
                usize::MAX
            } else {
                bytes + add
            };
            i = i + 1;
        }
        proof {
            assert(muts.take(i as int) =~= muts);
        }
        bytes
    }

    /// Runs the command against a point-in-time snapshot of the store.
    /// Nothing is applied here: the staged batch inside the result is handed
    /// to the external write pipeline (or to [`MvccStore::apply`] in tests).
    ///
    /// The result is exactly [`flush_spec`]; in particular the command
    /// returns a wrapped `Other` error if and only if its generation is
    /// zero.
    pub fn process_write(self, snapshot: &MvccStore) -> (r: Result<WriteResult, Error>)
        requires
            self.start_ts.0 < u64::MAX,
        ensures
            match r {
                Ok(wr) => {
                    &&& flush_spec(snapshot@, self.deep_view()) matches Ok(acc)
                    &&& acc.results == results_view(wr.results@)
                    &&& acc.modifies == wr.modifies.deep_view()
                },
                Err(e) => flush_spec(snapshot@, self.deep_view()) == Result::<
                    FlushAcc,
                    ErrorModel,
                >::Err(e.deep_view()),
            },
            (r matches Err(e) && e.deep_view() is Other) <==> self.generation == 0,
    {
        if self.generation == 0 {
            return Err(Error::Other("generation should be greater than 0 for Flush requests".to_owned()));
        }
        let props = TransactionProperties {
            start_ts: self.start_ts,
            primary: crate::types::clone_bytes(&self.primary),
            lock_ttl: self.lock_ttl,
            min_commit_ts: self.start_ts.next(),
            assertion_level: self.assertion_level,
        };
        let generation = self.generation;
        let start_ts = self.start_ts;
        let reader = SnapshotReader::new(snapshot, start_ts);
        let mut txn = MvccTxn::new(start_ts);
        let mut results: Vec<Result<(), Error>> = Vec::new();
        let mut deferred: Option<Error> = None;
        let ghost muts = self.mutations.deep_view();
        let mut i: usize = 0;
        proof {
            assert(muts.skip(0) =~= muts);
            assert(results_view(results@) =~= Seq::<Result<(), ErrorModel>>::empty());
            assert(props.deep_view() == flush_props(self.deep_view()));
        }
        while i < self.mutations.len()
            invariant
                i <= self.mutations@.len(),
                muts == self.mutations.deep_view(),
                muts.len() == self.mutations@.len(),
                generation == self.generation,
                generation != 0,
                start_ts == self.start_ts,
                start_ts.0 < u64::MAX,
                props.deep_view() == flush_props(self.deep_view()),
                props.start_ts == start_ts,
                reader.store == snapshot,
                reader.model() == snapshot@,
                flush_spec(snapshot@, self.deep_view()) == flush_rec(
                    snapshot@,
                    props.deep_view(),
                    muts.skip(i as int),
                    generation,
                    FlushAcc {
                        results: results_view(results@),
                        modifies: txn.modifies.deep_view(),
                        deferred: opt_err_view(deferred),
                    },
                ),
                match deferred {
                    Some(d) => d.deep_view() is AssertionFailed,
                    None => true,
                },
            decreases self.mutations@.len() - i,
        {
            proof {
                lemma_skip_step(muts, i as int);
            }
            let ghost acc_before = FlushAcc {
                results: results_view(results@),
                modifies: txn.modifies.deep_view(),
                deferred: opt_err_view(deferred),
            };
            let m = &self.mutations[i];
            let res = crate::prewrite::prewrite_with_generation(
                &mut txn,
                &reader,
                &props,
                m,
                generation,
            );
            match res {
                Ok(_min_commit_ts) => {
                    results.push(Ok(()));
                    proof {
                        assert(results_view(results@) =~= acc_before.results.push(
                            Result::<(), ErrorModel>::Ok(()),
                        ));
                    }
                },
                Err(e) => {
                    match e {
                        Error::WriteConflict {
                            start_ts: conflict_err_start_ts,
                            conflict_start_ts,
                            conflict_commit_ts,
                            key,
                            primary: conflict_primary,
                        } => {
                            let err = Error::WriteConflict {
                                start_ts: conflict_err_start_ts,
                                conflict_start_ts,
                                conflict_commit_ts,
                                key,
                                primary: conflict_primary,
                            };
                            if conflict_commit_ts.0 > start_ts.0 {
                                let committed = match find_committed(&reader, m.key(), start_ts) {
                                    Some(v) => !matches!(v.write.write_type, WriteType::Rollback),
                                    None => false,
                                };
                                if committed {
                                    // the transaction as a whole already
                                    // completed under a prior attempt
                                    txn.clear();
                                    let mut only: Vec<Result<(), Error>> = Vec::new();
                                    only.push(Ok(()));
                                    proof {
                                        assert(results_view(only@) =~= seq![
                                            Result::<(), ErrorModel>::Ok(()),
                                        ]);
                                        assert(txn.modifies.deep_view() =~= Seq::<
                                            ModifyModel,
                                        >::empty());
                                    }
                                    return Ok(
                                        WriteResult { modifies: txn.into_modifies(), results: only },
                                    );
                                }
                                return Err(err);
                            }
                            return Err(err);
                        },
                        Error::KeyIsLocked { key, lock } => {
                            let committed = match find_committed(&reader, m.key(), start_ts) {
                                Some(v) => !matches!(v.write.write_type, WriteType::Rollback),
                                None => false,
                            };
                            if committed {
                                results.push(Ok(()));
                                proof {
                                    assert(results_view(results@) =~= acc_before.results.push(
                                        Result::<(), ErrorModel>::Ok(()),
                                    ));
                                }
                            } else {
                                let err = Error::KeyIsLocked { key, lock };
                                let ghost em = err.deep_view();
                                results.push(Err(err));
                                proof {
                                    assert(results_view(results@) =~= acc_before.results.push(
                                        Result::<(), ErrorModel>::Err(em),
                                    ));
                                }
                            }
                        },
                        Error::AlreadyExist { key, existing_start_ts } => {
                            let err = Error::AlreadyExist { key, existing_start_ts };
                            let ghost em = err.deep_view();
                            results.push(Err(err));
                            proof {
                                assert(results_view(results@) =~= acc_before.results.push(
                                    Result::<(), ErrorModel>::Err(em),
                                ));
                            }
                        },
                        Error::AssertionFailed {
                            start_ts: assertion_start_ts,
                            key,
                            assertion,
                            existing_start_ts,
                            existing_commit_ts,
                        } => {
                            if deferred.is_none() {
                                deferred = Some(
                                    Error::AssertionFailed {
                                        start_ts: assertion_start_ts,
                                        key,
                                        assertion,
                                        existing_start_ts,
                                        existing_commit_ts,
                                    },
                                );
                            }
                        },
                        Error::GenerationOutOfOrder { .. } => {
                            // an expected stale retry: absorbed, nothing
                            // recorded for this mutation
                        },
                        other => {
                            return Err(other);
                        },
                    }
                },
            }
            i = i + 1;
        }
        proof {
            assert(muts.skip(i as int).len() == 0);
        }
        if let Some(e) = deferred {
            return Err(e);
        }
        Ok(WriteResult { modifies: txn.into_modifies(), results })
    }
}

/// The byte volume a mutation list carries: keys and values of writes, keys
/// of deletes and lock-only mutations.
pub open spec fn spec_write_bytes(muts: Seq<MutationModel>) -> int
    decreases muts.len(),
{
    if muts.len() == 0 {
        0
    } else {
        spec_write_bytes(muts.drop_last()) + match muts.last() {
            MutationModel::Put { key, value, .. } => key.len() + value.len(),
            MutationModel::Insert { key, value, .. } => key.len() + value.len(),
            MutationModel::Delete { key, .. } => key.len(),
            MutationModel::Lock { key, .. } => key.len(),
            MutationModel::CheckNotExists { .. } => 0,
        }
    }
}

/// The error of a failing prewrite outcome (meaningful only in the `Fail`
/// case).
pub open spec fn prewrite_failure(
    s: StoreModel,
    p: PropsModel,
    m: MutationModel,
    generation: u64,
) -> ErrorModel {
    match prewrite_outcome(s, p, m, generation) {
        PrewriteOutcome::Fail { err } => err,
        _ => ErrorModel::Other(Seq::empty()),
    }
}

} // verus!
