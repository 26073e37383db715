//! The pool of model instances that requests are dealt out to.

use vstd::prelude::*;

use crate::transcribe::TranscribeError;
use crate::transcribe::TranscriptionResult;

verus! {

/// Model that is loaded where no other is asked for.
pub const DEFAULT_MODEL_ID: &'static str = "openai/whisper-base";

/// Revision of the default model. The main revision has no weights in the format
/// that is loaded here.
pub const DEFAULT_REVISION: &'static str = "refs/pr/22";

/// How many model instances a server loads where nothing else is asked for.
pub const DEFAULT_POOL_SIZE: usize = 2;

/// How many model instances are loaded where `pool_size` are asked for: at least one.
pub open spec fn instances(pool_size: nat) -> nat {
    if pool_size == 0 {
        1
    } else {
        pool_size
    }
}

/// The first failure among the outcomes of loading instances.
pub open spec fn first_failure<W>(outcomes: Seq<Result<W, String>>) -> Option<String>
    decreases outcomes.len(),
{
    if outcomes.len() == 0 {
        None
    } else {
        match outcomes[0] {
            Ok(_) => first_failure(outcomes.drop_first()),
            Err(e) => Some(e),
        }
    }
}

/// The instances that were loaded.
pub open spec fn loaded<W>(outcomes: Seq<Result<W, String>>) -> Seq<W> {
    outcomes.map_values(|o: Result<W, String>| o->Ok_0)
}

/// Whether `load_one` may have given `outcomes`, one after the other, and was asked no
/// longer than needed: until `n` instances were loaded, or until the first failure.
pub open spec fn loads<W, L: Fn(&str, &str) -> Result<W, String>>(
    load_one: L,
    model_id: &str,
    revision: &str,
    n: nat,
    outcomes: Seq<Result<W, String>>,
) -> bool {
    &&& 0 < outcomes.len() <= n
    &&& forall|i: int|
        0 <= i < outcomes.len() ==> call_ensures(
            load_one,
            (model_id, revision),
            #[trigger] outcomes[i],
        )
    &&& forall|i: int| 0 <= i < outcomes.len() - 1 ==> (#[trigger] outcomes[i]) is Ok
    &&& outcomes.last() is Ok ==> outcomes.len() == n
}

/// Independent model instances, at least one. Requests are dealt out to them in
/// turn, so as many requests as there are instances can be decoded at once.
pub struct WhisperTranscriber<W> {
    workers: Vec<W>,
    next: usize,
}

impl<W> WhisperTranscriber<W> {
    /// The instances, in the order in which they were loaded.
    pub closed spec fn workers(self) -> Seq<W> {
        self.workers@
    }

    /// Whose turn it is.
    pub closed spec fn turn(self) -> nat {
        self.next as nat
    }

    /// What holds of every pool.
    pub open spec fn valid(self) -> bool {
        self.turn() < self.workers().len()
    }

    /// The instance that request number `n` goes to, where the first request has number
    /// zero.
    pub open spec fn serving(self, n: nat) -> W {
        self.workers()[n as int % self.workers().len() as int]
    }

    /// Whether `res` is what `outcomes` lead to: the first failure, or a pool of exactly
    /// the instances that were loaded, in which it is the first one's turn.
    pub open spec fn pooled(outcomes: Seq<Result<W, String>>, res: Result<Self, String>) -> bool {
        match first_failure(outcomes) {
            Some(e) => res == Err::<Self, String>(e),
            None => res matches Ok(pool) && pool.valid() && pool.workers() == loaded(outcomes)
                && pool.turn() == 0,
        }
    }

    /// Makes a pool of the outcomes of loading its instances.
    pub fn from_outcomes(outcomes: Vec<Result<W, String>>) -> (res: Result<Self, String>)
        requires
            outcomes@.len() > 0,
        ensures
            Self::pooled(outcomes@, res),
    {
        let ghost all = outcomes@;
        let mut left = outcomes;
        let mut workers: Vec<W> = Vec::new();
        assert(loaded(all.take(0)) =~= Seq::empty());
        assert(all.skip(0) =~= all);
        while left.len() > 0
            invariant
                all == outcomes@,
                workers@.len() + left@.len() == all.len(),
                left@ == all.skip(workers@.len() as int),
                workers@ == loaded(all.take(workers@.len() as int)),
                first_failure(all) == first_failure(left@),
            decreases left@.len(),
        {
            let ghost before = left@;
            let ghost n = workers@.len() as int;
            let outcome = left.remove(0);
            assert(left@ =~= before.drop_first());
            assert(left@ =~= all.skip(n + 1));
            match outcome {
                Ok(worker) => {
                    workers.push(worker);
                    assert(workers@ =~= loaded(all.take(n + 1)));
                },
                Err(e) => {
                    return Err(e);
                },
            }
        }
        assert(all.take(all.len() as int) =~= all);
        Ok(WhisperTranscriber { workers, next: 0 })
    }

    /// Loads a single instance.
    pub fn load<L: Fn(&str, &str) -> Result<W, String>>(
        model_id: &str,
        revision: &str,
        load_one: L,
    ) -> (res: Result<Self, String>)
        requires
            call_requires(load_one, (model_id, revision)),
        ensures
            exists|outcomes: Seq<Result<W, String>>|
                #[trigger] loads(load_one, model_id, revision, instances(1), outcomes)
                    && Self::pooled(outcomes, res),
            res matches Ok(pool) ==> pool.valid() && pool.workers().len() == 1,
    {
        Self::load_pool(model_id, revision, 1, load_one)
    }

    /// Loads `pool_size` instances, or one where that is zero, one after the other with
    /// `load_one`. Its first failure ends the work and is the result.
    pub fn load_pool<L: Fn(&str, &str) -> Result<W, String>>(
        model_id: &str,
        revision: &str,
        pool_size: usize,
        load_one: L,
    ) -> (res: Result<Self, String>)
        requires
            call_requires(load_one, (model_id, revision)),
        ensures
            exists|outcomes: Seq<Result<W, String>>|
                #[trigger] loads(
                    load_one,
                    model_id,
                    revision,
                    instances(pool_size as nat),
                    outcomes,
                ) && Self::pooled(outcomes, res),
            res matches Ok(pool) ==> pool.valid() && pool.workers().len() == instances(
                pool_size as nat,
            ),
            res matches Ok(pool) ==> pool.workers().len() == if pool_size == 0 {
                1
            } else {
                pool_size
            },
    {
        let n: usize = if pool_size == 0 {
            1
        } else {
            pool_size
        };
        let mut outcomes: Vec<Result<W, String>> = Vec::new();
        let mut failed: bool = false;
        while outcomes.len() < n && !failed
            invariant
                call_requires(load_one, (model_id, revision)),
                1 <= n,
                outcomes@.len() <= n,
                forall|i: int|
                    0 <= i < outcomes@.len() ==> call_ensures(
                        load_one,
                        (model_id, revision),
                        #[trigger] outcomes@[i],
                    ),
                forall|i: int| 0 <= i < outcomes@.len() - 1 ==> (#[trigger] outcomes@[i]) is Ok,
                failed ==> outcomes@.len() > 0,
                outcomes@.len() > 0 ==> failed == (outcomes@.last() is Err),
            decreases n - outcomes@.len(),
        {
            let outcome = load_one(model_id, revision);
            failed = outcome.is_err();
            outcomes.push(outcome);
        }
        let ghost all = outcomes@;
        assert(loads(load_one, model_id, revision, instances(pool_size as nat), all));
        proof {
            lemma_first_failure(all);
        }
        Self::from_outcomes(outcomes)
    }

    /// The instance that request number `ticket` goes to.
    pub fn worker(&self, ticket: usize) -> (worker: &W)
        requires
            self.valid(),
        ensures
            *worker == self.serving(ticket as nat),
    {
        let i: usize = ticket % self.workers.len();
        &self.workers[i]
    }

    /// Takes the next turn: whose it is, and then it is the turn of the one after.
    pub fn take_turn(&mut self) -> (ticket: usize)
        requires
            old(self).valid(),
        ensures
            final(self).valid(),
            ticket == old(self).turn(),
            final(self).workers() == old(self).workers(),
            final(self).turn() == turn_after(old(self).turn(), old(self).workers().len()),
    {
        let ticket: usize = self.next;
        self.next =
        if self.workers.len() - ticket > 1 {
            ticket + 1
        } else {
            0
        };
        ticket
    }
}

/// Whose turn it is after that of instance `i`.
pub open spec fn turn_after(i: nat, workers: nat) -> nat {
    if i + 1 < workers {
        i + 1
    } else {
        0
    }
}

/// Whose turn it is in a new pool once `n` turns were taken.
pub open spec fn turn_of(n: nat, workers: nat) -> nat
    decreases n,
{
    if n == 0 {
        0
    } else {
        turn_after(turn_of((n - 1) as nat, workers), workers)
    }
}

proof fn lemma_first_failure<W>(outcomes: Seq<Result<W, String>>)
    requires
        outcomes.len() > 0,
        forall|i: int| 0 <= i < outcomes.len() - 1 ==> (#[trigger] outcomes[i]) is Ok,
    ensures
        first_failure(outcomes) == match outcomes.last() {
            Ok(_) => None,
            Err(e) => Some(e),
        },
    decreases outcomes.len(),
{
    let later = outcomes.drop_first();
    if later.len() > 0 {
        assert(outcomes[0] is Ok);
        assert forall|i: int| 0 <= i < later.len() - 1 implies (#[trigger] later[i]) is Ok by {
            assert(later[i] == outcomes[i + 1]);
        }
        lemma_first_failure(later);
        assert(later.last() == outcomes.last());
    } else {
        assert(first_failure(later) is None);
    }
}

proof fn lemma_no_failure<W>(outcomes: Seq<Result<W, String>>, i: int)
    requires
        first_failure(outcomes) is None,
        0 <= i < outcomes.len(),
    ensures
        outcomes[i] is Ok,
    decreases i,
{
    if i > 0 {
        lemma_no_failure(outcomes.drop_first(), i - 1);
    }
}

proof fn lemma_turn_of(n: nat, workers: nat)
    requires
        workers > 0,
    ensures
        turn_of(n, workers) == n as int % workers as int,
    decreases n,
{
    if n > 0 {
        let m = (n - 1) as nat;
        let w = workers as int;
        lemma_turn_of(m, workers);
        vstd::arithmetic::div_mod::lemma_fundamental_div_mod(m as int, w);
        let q = m as int / w;
        vstd::arithmetic::mul::lemma_mul_is_commutative(w, q);
        vstd::arithmetic::mul::lemma_mul_is_distributive_add_other_way(w, q, 1);
        if m as int % w + 1 < w {
            vstd::arithmetic::div_mod::lemma_fundamental_div_mod_converse(
                n as int,
                w,
                q,
                m as int % w + 1,
            );
        } else {
            vstd::arithmetic::div_mod::lemma_fundamental_div_mod_converse(n as int, w, q + 1, 0);
        }
    } else {
        vstd::arithmetic::div_mod::lemma_small_mod(0, workers);
    }
}

/// Loading ends in the first failure or in a pool of exactly as many instances as were
/// asked for, one where that is zero: those that were loaded, in order. The first request
/// goes to the first of them.
pub proof fn law_loading_is_all_or_nothing<W, L: Fn(&str, &str) -> Result<W, String>>(
    load_one: L,
    model_id: &str,
    revision: &str,
    pool_size: nat,
    outcomes: Seq<Result<W, String>>,
    res: Result<WhisperTranscriber<W>, String>,
)
    requires
        loads(load_one, model_id, revision, instances(pool_size), outcomes),
        WhisperTranscriber::pooled(outcomes, res),
    ensures
        match res {
            Ok(pool) => {
                &&& forall|i: int| 0 <= i < outcomes.len() ==> (#[trigger] outcomes[i]) is Ok
                &&& pool.workers().len() == instances(pool_size)
                &&& forall|i: int|
                    0 <= i < outcomes.len() ==> Ok::<W, String>(#[trigger] pool.workers()[i])
                        == outcomes[i]
                &&& pool.serving(0) == pool.workers()[0]
            },
            Err(e) => outcomes.last() == Err::<W, String>(e) && call_ensures(
                load_one,
                (model_id, revision),
                Err::<W, String>(e),
            ) && forall|i: int| 0 <= i < outcomes.len() - 1 ==> (#[trigger] outcomes[i]) is Ok,
        },
        instances(0) == instances(1),
{
    lemma_first_failure(outcomes);
    if outcomes.last() is Ok {
        assert forall|i: int| 0 <= i < outcomes.len() implies (#[trigger] outcomes[i]) is Ok by {
            if i == outcomes.len() - 1 {
                assert(outcomes[i] == outcomes.last());
            }
        }
        vstd::arithmetic::div_mod::lemma_small_mod(0, outcomes.len());
    } else {
        assert(outcomes[outcomes.len() - 1] == outcomes.last());
    }
}

/// Request number `n` to a pool that was loaded for `pool_size` instances goes to
/// instance `n` modulo `pool_size`, modulo one where that is zero, so a request beyond
/// the number of instances waits behind an earlier one and is not refused. The decoded
/// text is its result, final and without a confidence; a failure, or a panic, becomes an
/// error of the backend.
pub proof fn law_requests_are_decoded_in_turn<W, C>(
    outcomes: Seq<Result<W, String>>,
    pool_size: nat,
    pool: WhisperTranscriber<W>,
    n: nat,
    decoded: Result<Result<String, String>, String>,
)
    requires
        outcomes.len() == instances(pool_size),
        WhisperTranscriber::pooled(outcomes, Ok(pool)),
    ensures
        turn_of(n, pool.workers().len()) == n as int % instances(pool_size) as int,
        pool.serving(n) == pool.workers()[n as int % instances(pool_size) as int],
        pool.serving(n) == pool.serving(turn_of(n, pool.workers().len())),
        Ok::<W, String>(pool.serving(n)) == outcomes[n as int % instances(pool_size) as int],
        pool.serving(n + instances(pool_size)) == pool.serving(n),
        match decoded {
            Ok(Ok(text)) => transcribed::<C>(decoded) == Ok::<
                TranscriptionResult<C>,
                TranscribeError,
            >(TranscriptionResult { text, is_final: true, confidence: None }),
            Ok(Err(e)) | Err(e) => transcribed::<C>(decoded) == Err::<
                TranscriptionResult<C>,
                TranscribeError,
            >(TranscribeError::Backend(e)),
        },
{
    let w = instances(pool_size);
    lemma_turn_of(n, w);
    law_further_requests_queue_behind_earlier_ones(n, w);
    vstd::arithmetic::div_mod::lemma_mod_bound(n as int, w as int);
    vstd::arithmetic::div_mod::lemma_small_mod(turn_of(n, w), w);
    lemma_no_failure(outcomes, n as int % w as int);
}

/// Requests are dealt out in turn: any run of as many consecutive requests as there
/// are instances reaches every instance.
pub proof fn law_consecutive_requests_reach_every_worker(first: nat, workers: nat, i: nat)
    requires
        i < workers,
    ensures
        exists|ticket: nat|
            first <= ticket < first + workers && #[trigger] (ticket as int % workers as int) == i,
{
    let w = workers as int;
    let q = first as int / w;
    let r = first as int % w;
    vstd::arithmetic::div_mod::lemma_fundamental_div_mod(first as int, w);
    vstd::arithmetic::mul::lemma_mul_is_commutative(w, q);
    let rounds = if i >= r {
        q
    } else {
        q + 1
    };
    let ticket = rounds * w + i;
    vstd::arithmetic::mul::lemma_mul_is_distributive_add_other_way(w, q, 1);
    vstd::arithmetic::div_mod::lemma_fundamental_div_mod_converse(ticket, w, rounds, i as int);
    assert((ticket as nat) as int % workers as int == i);
}

/// A request beyond the number of instances waits behind an earlier one: it goes to the
/// instance that the request dealt out one round before it went to.
pub proof fn law_further_requests_queue_behind_earlier_ones(ticket: nat, workers: nat)
    requires
        workers > 0,
    ensures
        (ticket + workers) as int % workers as int == ticket as int % workers as int,
{
    vstd::arithmetic::div_mod::lemma_mod_add_multiples_vanish(ticket as int, workers as int);
}

/// What a transcription makes of the work of a model instance: the outer error is that of
/// work that panicked.
pub open spec fn transcribed<C>(decoded: Result<Result<String, String>, String>) -> Result<
    TranscriptionResult<C>,
    TranscribeError,
> {
    match decoded {
        Ok(Ok(text)) => Ok(TranscriptionResult { text, is_final: true, confidence: None }),
        Ok(Err(e)) => Err(TranscribeError::Backend(e)),
        Err(e) => Err(TranscribeError::Backend(e)),
    }
}

/// Makes a transcription of the text that a model instance decoded, or of the reason why
/// it could not: its own error, or that of work that panicked. A decoded text is final,
/// and nothing is said of how sure the model was.
pub fn transcription<C>(decoded: Result<Result<String, String>, String>) -> (res: Result<
    TranscriptionResult<C>,
    TranscribeError,
>)
    ensures
        res == transcribed::<C>(decoded),
{
    match decoded {
        Ok(Ok(text)) => Ok(TranscriptionResult { text, is_final: true, confidence: None }),
        Ok(Err(e)) => Err(TranscribeError::Backend(e)),
        Err(e) => Err(TranscribeError::Backend(e)),
    }
}

/// A pool that was loaded has exactly as many instances as were asked for, and one where
/// none were; it was asked for each of them, and for no more.
pub proof fn law_pools_have_the_size_asked_for<W, L: Fn(&str, &str) -> Result<W, String>>(
    load_one: L,
    model_id: &str,
    revision: &str,
    pool_size: nat,
    outcomes: Seq<Result<W, String>>,
    pool: WhisperTranscriber<W>,
)
    requires
        loads(load_one, model_id, revision, instances(pool_size), outcomes),
        WhisperTranscriber::pooled(outcomes, Ok(pool)),
    ensures
        pool_size >= 1 ==> pool.workers().len() == pool_size && outcomes.len() == pool_size,
        pool_size == 0 ==> pool.workers().len() == 1 && outcomes.len() == 1,
        forall|i: int|
            0 <= i < pool.workers().len() ==> call_ensures(
                load_one,
                (model_id, revision),
                Ok::<W, String>(#[trigger] pool.workers()[i]),
            ),
{
    law_loading_is_all_or_nothing(load_one, model_id, revision, pool_size, outcomes, Ok(pool));
    assert forall|i: int| 0 <= i < pool.workers().len() implies call_ensures(
        load_one,
        (model_id, revision),
        Ok::<W, String>(#[trigger] pool.workers()[i]),
    ) by {
        assert(outcomes[i] == Ok::<W, String>(pool.workers()[i]));
    }
}

/// Loading fails with the failure that came first, and with none where there was none.
pub proof fn law_the_first_failure_counts<W>(outcomes: Seq<Result<W, String>>, i: int)
    requires
        0 <= i < outcomes.len(),
        forall|k: int| 0 <= k < i ==> (#[trigger] outcomes[k]) is Ok,
    ensures
        outcomes[i] matches Err(e) ==> first_failure(outcomes) == Some(e),
        i == outcomes.len() - 1 && outcomes[i] is Ok ==> first_failure(outcomes) is None,
    decreases outcomes.len(),
{
    if i > 0 {
        let later = outcomes.drop_first();
        assert(outcomes[0] is Ok);
        assert forall|k: int| 0 <= k < i - 1 implies (#[trigger] later[k]) is Ok by {
            assert(later[k] == outcomes[k + 1]);
        }
        law_the_first_failure_counts(later, i - 1);
    } else if outcomes.len() == 1 {
        assert(first_failure(outcomes.drop_first()) is None);
    }
}

/// Taking turns goes through all instances in order and then begins again.
pub proof fn law_turns_go_round(i: nat, workers: nat)
    requires
        i < workers,
    ensures
        turn_after(i, workers) < workers,
        i < workers - 1 ==> turn_after(i, workers) == i + 1,
        i == workers - 1 ==> turn_after(i, workers) == 0,
{
}

} // verus!
