//! Transaction-level guarantees of the flush path, proved once and for all
//! stores and commands from the specifications of [`crate::flush`] and
//! [`crate::prewrite`].

use vstd::prelude::*;
use crate::errors::ErrorModel;
use crate::flush::{flush_props, flush_rec, flush_spec, FlushAcc, FlushModel};
use crate::prewrite::{new_lock_model, prewrite_outcome, PrewriteOutcome};
use crate::store::{apply_modifies, StoreModel};
use crate::types::LockModel;

verus! {

/// Idempotence: issuing the same single-mutation flush twice with the same
/// generation yields a state equivalent to issuing it once. Whenever the
/// first run returns a command result, running the identical command on the
/// resulting state returns a command result as well and changes nothing: no
/// duplicate locks, and a repeated run stages no further work.
pub proof fn lemma_flush_idempotent(s: StoreModel, cmd: FlushModel)
    requires
        cmd.generation > 0,
        cmd.mutations.len() == 1,
    ensures
        match flush_spec(s, cmd) {
            Ok(acc) => match flush_spec(apply_modifies(s, acc.modifies), cmd) {
                Ok(acc2) => apply_modifies(apply_modifies(s, acc.modifies), acc2.modifies)
                    == apply_modifies(s, acc.modifies),
                Err(_) => false,
            },
            Err(_) => true,
        },
{
    reveal_with_fuel(flush_rec, 3);
    reveal_with_fuel(apply_modifies, 3);
    let p = flush_props(cmd);
    let mu = cmd.mutations[0];
    let k = mu.key();
    let init = FlushAcc { results: Seq::empty(), modifies: Seq::empty(), deferred: None };
    assert(cmd.mutations.skip(1).len() == 0);
    match prewrite_outcome(s, p, mu, cmd.generation) {
        PrewriteOutcome::Installed { lock } => {
            let mods = init.modifies.push(
                crate::store::ModifyModel::PutLock { key: k, lock },
            );
            let s1 = apply_modifies(s, mods);
            assert(s1.locks == s.locks.insert(k, lock));
            assert(s1.locks.contains_key(k));
            assert(s1.lock_of(k) == Some(lock));
            assert(lock == new_lock_model(p, mu, cmd.generation));
            assert(lock.ts == p.start_ts);
            assert(lock.generation == cmd.generation);
            assert(prewrite_outcome(s1, p, mu, cmd.generation) == (PrewriteOutcome::Fail {
                err: ErrorModel::GenerationOutOfOrder {
                    generation: cmd.generation,
                    key: k,
                    lock,
                },
            }));
        },
        PrewriteOutcome::NoOp => {},
        PrewriteOutcome::Fail { .. } => {},
    }
}

/// Generation monotonicity, first half: when this transaction already holds
/// the key's lock at a generation at least as new, the whole flush is a
/// no-op — it succeeds, records nothing for the mutation, stages nothing,
/// and therefore leaves every state it is applied to unchanged.
pub proof fn lemma_generation_stale(s: StoreModel, cmd: FlushModel, l: LockModel)
    requires
        cmd.generation > 0,
        cmd.mutations.len() == 1,
        s.lock_of(cmd.mutations[0].key()) == Some(l),
        l.ts == cmd.start_ts,
        l.generation >= cmd.generation,
    ensures
        match flush_spec(s, cmd) {
            Ok(acc) => {
                &&& acc.results.len() == 0
                &&& acc.modifies.len() == 0
                &&& apply_modifies(s, acc.modifies) == s
            },
            Err(_) => false,
        },
{
    reveal_with_fuel(flush_rec, 3);
    reveal_with_fuel(apply_modifies, 2);
    let p = flush_props(cmd);
    let mu = cmd.mutations[0];
    assert(cmd.mutations.skip(1).len() == 0);
    assert(prewrite_outcome(s, p, mu, cmd.generation) == (PrewriteOutcome::Fail {
        err: ErrorModel::GenerationOutOfOrder {
            generation: cmd.generation,
            key: mu.key(),
            lock: l,
        },
    }));
}

/// Generation monotonicity, second half: when this transaction already holds
/// the key's lock, a flush that stages any work must carry a strictly newer
/// generation than the lock's.
pub proof fn lemma_effect_needs_newer_generation(s: StoreModel, cmd: FlushModel, l: LockModel)
    requires
        cmd.generation > 0,
        cmd.mutations.len() == 1,
        s.lock_of(cmd.mutations[0].key()) == Some(l),
        l.ts == cmd.start_ts,
        flush_spec(s, cmd) matches Ok(acc) && acc.modifies.len() > 0,
    ensures
        cmd.generation > l.generation,
{
    reveal_with_fuel(flush_rec, 3);
    if l.generation >= cmd.generation {
        lemma_generation_stale(s, cmd, l);
    }
}

} // verus!
