//! What becomes of every output of a round: none is lost, each goes to the worker that it is
//! for, and its bytes are counted once.

use crate::distributed::{
    colors_of, deliveries, delivered, kept, place_of, proof_of, single_input, Book, BookView, DistributedError, Fault,
    PartitionOutput, ProverGraphIO, Round, RoundError, RoundLog, Worker, COORDINATOR,
};
use vstd::prelude::*;

verus! {

/// Booking one output: one without a destination becomes the final output; one with a
/// destination is sent there, behind all that was booked before, and its bytes are added to
/// those for the coordinator or for the workers. Nothing else of the book changes.
pub proof fn law_booked_output_is_sent<O>(book: BookView<O>, color: usize, out: PartitionOutput<O>)
    ensures
        match book.with_output(color, out) {
            Ok(next) => match out.to {
                None => {
                    &&& next.sends == book.sends
                    &&& next.final_output == Some(out.output)
                    &&& next.to_coordinator == book.to_coordinator
                    &&& next.to_workers == book.to_workers
                },
                Some(to) => {
                    &&& next.sends == book.sends.push((to, out.output))
                    &&& next.final_output == book.final_output
                    &&& to == 0 ==> next.to_coordinator == book.to_coordinator + out.size && next.to_workers
                        == book.to_workers
                    &&& to != 0 ==> next.to_workers == book.to_workers + out.size && next.to_coordinator
                        == book.to_coordinator && color == 0
                },
            },
            Err(Fault::PastCoordinator(from, to)) => from == color && color != 0 && to != 0 && out.to == Some(to),
            Err(Fault::TooManyBytes) => {
                ||| out.to == Some(0usize) && book.to_coordinator + out.size > usize::MAX
                ||| out.to is Some && out.to != Some(0usize) && color == 0 && book.to_workers + out.size > usize::MAX
            },
        },
{
}

/// Booking several outputs is booking them one after the other.
pub proof fn law_outputs_are_booked_in_order<O>(
    book: BookView<O>,
    color: usize,
    outs: Seq<PartitionOutput<O>>,
    out: PartitionOutput<O>,
)
    ensures
        book.with_outputs(color, Seq::<PartitionOutput<O>>::empty()) == Ok::<BookView<O>, Fault>(book),
        book.with_outputs(color, outs.push(out)) == match book.with_outputs(color, outs) {
            Ok(next) => next.with_output(color, out),
            Err(fault) => Err(fault),
        },
    decreases outs.len(),
{
    if outs.len() == 0 {
        assert(outs.push(out).skip(1) =~= Seq::<PartitionOutput<O>>::empty());
        if let Ok(next) = book.with_output(color, out) {
            assert(next.with_outputs(color, Seq::<PartitionOutput<O>>::empty()) == Ok::<BookView<O>, Fault>(next));
        }
    } else {
        assert(outs.push(out)[0] == outs[0]);
        assert(outs.push(out).skip(1) =~= outs.skip(1).push(out));
        if let Ok(next) = book.with_output(color, outs[0]) {
            law_outputs_are_booked_in_order(next, color, outs.skip(1), out);
        }
    }
}

/// No output of a turn is lost: those with a destination are sent, in order, behind all that
/// was booked before; the last one without is the final output; and the bytes for the
/// coordinator and for the workers are the sums of the sizes.
pub proof fn law_no_output_of_a_turn_is_lost<O>(book: BookView<O>, color: usize, outs: Seq<PartitionOutput<O>>)
    requires
        book.with_outputs(color, outs) is Ok,
    ensures
        book.with_outputs(color, outs)->Ok_0.sends == book.sends + outs.filter_map(
            |out: PartitionOutput<O>|
                match out.to {
                    Some(to) => Some((to, out.output)),
                    None => None,
                },
        ),
        book.with_outputs(color, outs)->Ok_0.final_output == outs.fold_left(
            book.final_output,
            |last: Option<O>, out: PartitionOutput<O>|
                if out.to is None {
                    Some(out.output)
                } else {
                    last
                },
        ),
        book.with_outputs(color, outs)->Ok_0.to_coordinator == outs.fold_left(
            book.to_coordinator as int,
            |bytes: int, out: PartitionOutput<O>|
                if out.to == Some(0usize) {
                    bytes + out.size
                } else {
                    bytes
                },
        ),
        book.with_outputs(color, outs)->Ok_0.to_workers == outs.fold_left(
            book.to_workers as int,
            |bytes: int, out: PartitionOutput<O>|
                if out.to is Some && out.to != Some(0usize) {
                    bytes + out.size
                } else {
                    bytes
                },
        ),
    decreases outs.len(),
{
    if outs.len() > 0 {
        let init: Seq<PartitionOutput<O>> = outs.drop_last();
        let last: PartitionOutput<O> = outs.last();
        assert(init.push(last) =~= outs);
        law_outputs_are_booked_in_order(book, color, init, last);
        law_no_output_of_a_turn_is_lost(book, color, init);
        law_booked_output_is_sent(book.with_outputs(color, init)->Ok_0, color, last);
        let pair = |out: PartitionOutput<O>|
            match out.to {
                Some(to) => Some((to, out.output)),
                None => None,
            };
        let sofar: BookView<O> = book.with_outputs(color, init)->Ok_0;
        if last.to is Some {
            assert(outs.filter_map(pair) == init.filter_map(pair) + seq![(last.to->0, last.output)]);
            assert(book.sends + outs.filter_map(pair) =~= (book.sends + init.filter_map(pair)).push(
                (last.to->0, last.output),
            ));
        } else {
            assert(outs.filter_map(pair) == init.filter_map(pair));
        }
    } else {
        let pair = |out: PartitionOutput<O>|
            match out.to {
                Some(to) => Some((to, out.output)),
                None => None,
            };
        assert(book.sends + outs.filter_map(pair) =~= book.sends);
    }
}

/// A turn whose outputs cannot be booked has one that goes past the coordinator, or more
/// bytes than can be counted.
pub proof fn law_refused_turns_have_a_culprit<O>(book: BookView<O>, color: usize, outs: Seq<PartitionOutput<O>>)
    requires
        book.with_outputs(color, outs) is Err,
    ensures
        book.with_outputs(color, outs)->Err_0 matches Fault::PastCoordinator(from, to) ==> {
            &&& from == color
            &&& color != 0
            &&& to != 0
            &&& exists|at: int| 0 <= at < outs.len() && (#[trigger] outs[at]).to == Some(to)
        },
        color != 0 && (exists|at: int|
            0 <= at < outs.len() && (#[trigger] outs[at]).to is Some && outs[at].to != Some(0usize)) || (exists|at: int|
            0 <= at < outs.len() && (#[trigger] outs[at]).to is Some && outs[at].size > 0),
    decreases outs.len(),
{
    if outs.len() > 0 {
        let init: Seq<PartitionOutput<O>> = outs.drop_last();
        let last: PartitionOutput<O> = outs.last();
        assert(init.push(last) =~= outs);
        law_outputs_are_booked_in_order(book, color, init, last);
        if book.with_outputs(color, init) is Err {
            law_refused_turns_have_a_culprit(book, color, init);
            assert forall|at: int| 0 <= at < init.len() implies init[at] == outs[at] by {}
            if let Fault::PastCoordinator(from, to) = book.with_outputs(color, init)->Err_0 {
                let at: int = choose|at: int| 0 <= at < init.len() && (#[trigger] init[at]).to == Some(to);
                assert(outs[at].to == Some(to));
            }
            if color != 0 && exists|at: int|
                0 <= at < init.len() && (#[trigger] init[at]).to is Some && init[at].to != Some(0usize) {
                let at: int = choose|at: int|
                    0 <= at < init.len() && (#[trigger] init[at]).to is Some && init[at].to != Some(0usize);
                assert(outs[at].to is Some && outs[at].to != Some(0usize));
            } else {
                let at: int = choose|at: int|
                    0 <= at < init.len() && (#[trigger] init[at]).to is Some && init[at].size > 0;
                assert(outs[at].to is Some && outs[at].size > 0);
            }
        } else {
            law_booked_output_is_sent(book.with_outputs(color, init)->Ok_0, color, last);
            assert(outs[outs.len() - 1] == last);
        }
    }
}

/// The place of a colour is the first that has it, and there is none exactly where no worker
/// has it.
pub proof fn law_place_is_the_first_of_its_color(colors: Seq<usize>, color: usize)
    ensures
        match place_of(colors, color) {
            Some(place) => {
                &&& 0 <= place < colors.len()
                &&& colors[place] == color
                &&& forall|i: int| 0 <= i < place ==> #[trigger] colors[i] != color
            },
            None => forall|i: int| 0 <= i < colors.len() ==> #[trigger] colors[i] != color,
        },
    decreases colors.len(),
{
    if colors.len() > 0 && colors[0] != color {
        let rest: Seq<usize> = colors.skip(1);
        law_place_is_the_first_of_its_color(rest, color);
        assert forall|i: int| 1 <= i < colors.len() implies rest[i - 1] == #[trigger] colors[i] by {}
    }
}

/// The workers that are left are those that are not done, in order, each with its colour and
/// its scheduler.
pub proof fn law_workers_that_are_not_done_stay<S>(colors: Seq<usize>, schedulers: Seq<S>, done: Seq<bool>)
    ensures
        kept(colors, schedulers, done) == Seq::new(done.len(), |i: int| i).filter(|i: int| !done[i]).map_values(
            |i: int| Worker { color: colors[i], scheduler: schedulers[i] },
        ),
{
    lemma_kept_up_to(colors, schedulers, done, done.len() as int);
    assert(done.take(done.len() as int) =~= done);
}

proof fn lemma_kept_up_to<S>(colors: Seq<usize>, schedulers: Seq<S>, done: Seq<bool>, len: int)
    requires
        0 <= len <= done.len(),
    ensures
        kept(colors, schedulers, done.take(len)) == Seq::new(len as nat, |i: int| i).filter(
            |i: int| !done[i],
        ).map_values(|i: int| Worker { color: colors[i], scheduler: schedulers[i] }),
    decreases len,
{
    reveal(Seq::filter);
    let worker = |i: int| Worker { color: colors[i], scheduler: schedulers[i] };
    let open = |i: int| !done[i];
    let all: Seq<int> = Seq::new(len as nat, |i: int| i);
    if len == 0 {
        assert(all.filter(open).map_values(worker) =~= Seq::<Worker<S>>::empty());
    } else {
        let fewer: Seq<int> = Seq::new((len - 1) as nat, |i: int| i);
        lemma_kept_up_to(colors, schedulers, done, len - 1);
        assert(all.drop_last() =~= fewer);
        assert(done.take(len).drop_last() =~= done.take(len - 1));
        assert(all.last() == len - 1);
        if !done[len - 1] {
            assert(all.filter(open) == fewer.filter(open).push(len - 1));
            assert(all.filter(open).map_values(worker) =~= fewer.filter(open).map_values(worker).push(
                worker(len - 1),
            ));
        } else {
            assert(all.filter(open) == fewer.filter(open));
        }
    }
}

/// What all turns of a round together book.
proof fn lemma_books_of_a_round<
    S,
    O,
    E,
    T: Fn(S) -> (S, Result<Vec<PartitionOutput<O>>, E>),
    D: Fn(&S) -> bool,
>(log: RoundLog<S, O, E>, workers: Seq<Worker<S>>, try_run: T, is_done: D, len: int)
    requires
        log.turns(workers, try_run, is_done),
        0 <= len <= log.outputs.len(),
    ensures
        log.books[len].sends == log.outputs.take(len).fold_left(
            Seq::<(usize, O)>::empty(),
            |sent: Seq<(usize, O)>, outs: Vec<PartitionOutput<O>>|
                sent + outs@.filter_map(
                    |out: PartitionOutput<O>|
                        match out.to {
                            Some(to) => Some((to, out.output)),
                            None => None,
                        },
                ),
        ),
        log.books[len].final_output == log.outputs.take(len).fold_left(
            None::<O>,
            |last: Option<O>, outs: Vec<PartitionOutput<O>>|
                outs@.fold_left(
                    last,
                    |last: Option<O>, out: PartitionOutput<O>|
                        if out.to is None {
                            Some(out.output)
                        } else {
                            last
                        },
                ),
        ),
        log.books[len].to_coordinator == log.outputs.take(len).fold_left(
            0int,
            |bytes: int, outs: Vec<PartitionOutput<O>>|
                outs@.fold_left(
                    bytes,
                    |bytes: int, out: PartitionOutput<O>|
                        if out.to == Some(0usize) {
                            bytes + out.size
                        } else {
                            bytes
                        },
                ),
        ),
        log.books[len].to_workers == log.outputs.take(len).fold_left(
            0int,
            |bytes: int, outs: Vec<PartitionOutput<O>>|
                outs@.fold_left(
                    bytes,
                    |bytes: int, out: PartitionOutput<O>|
                        if out.to is Some && out.to != Some(0usize) {
                            bytes + out.size
                        } else {
                            bytes
                        },
                ),
        ),
    decreases len,
{
    if len > 0 {
        let k: int = len - 1;
        lemma_books_of_a_round(log, workers, try_run, is_done, k);
        assert(log.outputs.take(len).drop_last() =~= log.outputs.take(k));
        assert(log.outputs.take(len).last() == log.outputs[k]);
        assert(log.books[k].with_outputs(workers[k].color, log.outputs[k]@) == Ok::<BookView<O>, Fault>(
            log.books[k + 1],
        ));
        law_no_output_of_a_turn_is_lost(log.books[k], workers[k].color, log.outputs[k]@);
    }
}

/// Each output that a round hands on goes to the first worker of its colour, which takes it,
/// while all other workers stay as they are.
pub proof fn law_output_reaches_its_worker<
    S,
    O,
    E,
    T: Fn(S) -> (S, Result<Vec<PartitionOutput<O>>, E>),
    D: Fn(&S) -> bool,
    H: Fn(S, O) -> (S, Result<(), E>),
>(
    log: RoundLog<S, O, E>,
    workers: Seq<Worker<S>>,
    try_run: T,
    is_done: D,
    hand_over: H,
    round: Round<S, O>,
    k: int,
)
    requires
        log.explains(workers, try_run, is_done, hand_over, Ok(round)),
        0 <= k < log.books.last().sends.len(),
    ensures
        exists|place: int, outcome: Result<(), E>|
            {
                &&& 0 <= place < workers.len()
                &&& workers[place].color == log.books.last().sends[k].0
                &&& forall|i: int| 0 <= i < place ==> (#[trigger] workers[i]).color != log.books.last().sends[k].0
                &&& outcome is Ok
                &&& #[trigger] hand_over.ensures(
                    (log.fleets[k][place], log.books.last().sends[k].1),
                    (log.fleets[k + 1][place], outcome),
                )
                &&& log.fleets[k + 1] == log.fleets[k].update(place, log.fleets[k + 1][place])
            },
{
    let sends: Seq<(usize, O)> = log.books.last().sends;
    let colors: Seq<usize> = colors_of(workers);
    assert(delivered(log.fleets, colors, sends, hand_over, k + 1));
    law_place_is_the_first_of_its_color(colors, sends[k].0);
    let place: int = place_of(colors, sends[k].0)->0;
    assert forall|i: int| 0 <= i < place implies (#[trigger] workers[i]).color != sends[k].0 by {
        assert(colors[i] != sends[k].0);
    }
    let outcome: Result<(), E> = choose|outcome: Result<(), E>|
        outcome is Ok && #[trigger] hand_over.ensures(
            (log.fleets[k][place], sends[k].1),
            (log.fleets[k + 1][place], outcome),
        );
    assert(hand_over.ensures((log.fleets[k][place], sends[k].1), (log.fleets[k + 1][place], outcome)));
}

/// A round that succeeds lets every worker take one turn, in order, and loses nothing. The
/// outputs handed on are, over all turns in order, exactly those with a destination; the
/// final output is the last one without; the bytes are the sums of the sizes. The workers
/// that stay are those that put nothing out or are not done.
pub proof fn law_round_hands_on_every_output<
    S,
    O,
    E,
    T: Fn(S) -> (S, Result<Vec<PartitionOutput<O>>, E>),
    D: Fn(&S) -> bool,
    H: Fn(S, O) -> (S, Result<(), E>),
>(
    log: RoundLog<S, O, E>,
    workers: Seq<Worker<S>>,
    try_run: T,
    is_done: D,
    hand_over: H,
    round: Round<S, O>,
)
    requires
        log.explains(workers, try_run, is_done, hand_over, Ok(round)),
    ensures
        log.afters.len() == workers.len(),
        log.outputs.len() == workers.len(),
        log.done.len() == workers.len(),
        forall|k: int|
            0 <= k < workers.len() ==> try_run.ensures(
                (workers[k].scheduler,),
                (log.afters[k], Ok(#[trigger] log.outputs[k])),
            ),
        forall|k: int|
            0 <= k < workers.len() && (#[trigger] log.outputs[k])@.len() > 0 ==> is_done.ensures(
                (&log.afters[k],),
                log.done[k],
            ),
        forall|k: int| 0 <= k < workers.len() && (#[trigger] log.outputs[k])@.len() == 0 ==> !log.done[k],
        log.books.last().sends == log.outputs.fold_left(
            Seq::<(usize, O)>::empty(),
            |sent: Seq<(usize, O)>, outs: Vec<PartitionOutput<O>>|
                sent + outs@.filter_map(
                    |out: PartitionOutput<O>|
                        match out.to {
                            Some(to) => Some((to, out.output)),
                            None => None,
                        },
                ),
        ),
        log.fleets.len() == log.books.last().sends.len() + 1,
        log.fleets[0] == log.afters,
        round.final_output == log.outputs.fold_left(
            None::<O>,
            |last: Option<O>, outs: Vec<PartitionOutput<O>>|
                outs@.fold_left(
                    last,
                    |last: Option<O>, out: PartitionOutput<O>|
                        if out.to is None {
                            Some(out.output)
                        } else {
                            last
                        },
                ),
        ),
        round.to_coordinator == log.outputs.fold_left(
            0int,
            |bytes: int, outs: Vec<PartitionOutput<O>>|
                outs@.fold_left(
                    bytes,
                    |bytes: int, out: PartitionOutput<O>|
                        if out.to == Some(0usize) {
                            bytes + out.size
                        } else {
                            bytes
                        },
                ),
        ),
        round.to_workers == log.outputs.fold_left(
            0int,
            |bytes: int, outs: Vec<PartitionOutput<O>>|
                outs@.fold_left(
                    bytes,
                    |bytes: int, out: PartitionOutput<O>|
                        if out.to is Some && out.to != Some(0usize) {
                            bytes + out.size
                        } else {
                            bytes
                        },
                ),
        ),
        round.workers@ == Seq::new(workers.len(), |i: int| i).filter(|i: int| !log.done[i]).map_values(
            |i: int| Worker { color: workers[i].color, scheduler: log.fleets.last()[i] },
        ),
{
    let n: int = workers.len() as int;
    lemma_books_of_a_round(log, workers, try_run, is_done, n);
    assert(log.outputs.take(n) =~= log.outputs);
    let colors: Seq<usize> = colors_of(workers);
    law_workers_that_are_not_done_stay(colors, log.fleets.last(), log.done);
    let open = |i: int| !log.done[i];
    let places: Seq<int> = Seq::new(workers.len(), |i: int| i).filter(open);
    lemma_filtered_places(Seq::new(workers.len(), |i: int| i), n, open);
    assert(places.map_values(|i: int| Worker { color: colors[i], scheduler: log.fleets.last()[i] })
        =~= places.map_values(|i: int| Worker { color: workers[i].color, scheduler: log.fleets.last()[i] }));
}

proof fn lemma_filtered_places(all: Seq<int>, bound: int, open: spec_fn(int) -> bool)
    requires
        forall|i: int| 0 <= i < all.len() ==> 0 <= #[trigger] all[i] < bound,
    ensures
        forall|k: int| 0 <= k < all.filter(open).len() ==> 0 <= #[trigger] all.filter(open)[k] < bound,
    decreases all.len(),
{
    reveal(Seq::filter);
    if all.len() > 0 {
        let fewer: Seq<int> = all.drop_last();
        lemma_filtered_places(fewer, bound, open);
        assert(0 <= all[all.len() - 1] < bound);
        assert forall|k: int| 0 <= k < all.filter(open).len() implies 0 <= #[trigger] all.filter(open)[k] < bound by {
            if k < fewer.filter(open).len() {
                assert(0 <= fewer.filter(open)[k] < bound);
                assert(all.filter(open)[k] == fewer.filter(open)[k]);
            }
        }
    }
}

/// Why a round fails. A partition that fails, or whose outputs cannot be booked, ends the
/// round at its turn; after all turns, so does the first output that is for nobody or is
/// refused.
pub proof fn law_failed_rounds_have_a_reason<
    S,
    O,
    E,
    T: Fn(S) -> (S, Result<Vec<PartitionOutput<O>>, E>),
    D: Fn(&S) -> bool,
    H: Fn(S, O) -> (S, Result<(), E>),
>(
    log: RoundLog<S, O, E>,
    workers: Seq<Worker<S>>,
    try_run: T,
    is_done: D,
    hand_over: H,
    error: RoundError<E>,
)
    requires
        log.explains(workers, try_run, is_done, hand_over, Err(error)),
    ensures
        ({
            let n: int = log.afters.len() as int;
            match error {
                RoundError::Run(reason) => {
                    &&& n < workers.len()
                    &&& try_run.ensures((workers[n].scheduler,), (log.left, Err(reason)))
                },
                RoundError::PastCoordinator { from, to } => {
                    &&& n < workers.len()
                    &&& from == workers[n].color
                    &&& from != 0
                    &&& to != 0
                    &&& log.failed matches Ok(outs) && exists|at: int|
                        0 <= at < outs@.len() && (#[trigger] outs@[at]).to == Some(to)
                },
                RoundError::TooManyBytes => n < workers.len() && log.failed is Ok,
                RoundError::UnknownWorker { color } => {
                    &&& n == workers.len()
                    &&& forall|i: int| 0 <= i < workers.len() ==> (#[trigger] workers[i]).color != color
                    &&& log.fleets.len() - 1 < log.books.last().sends.len()
                    &&& log.books.last().sends[log.fleets.len() - 1].0 == color
                },
                RoundError::Refused(reason) => {
                    &&& n == workers.len()
                    &&& log.fleets.len() - 1 < log.books.last().sends.len()
                    &&& exists|place: int|
                        0 <= place < workers.len() && workers[place].color == log.books.last().sends[log.fleets.len()
                            - 1].0 && #[trigger] hand_over.ensures(
                            (log.fleets.last()[place], log.books.last().sends[log.fleets.len() - 1].1),
                            (log.left, Err(reason)),
                        )
                },
            }
        }),
        forall|k: int|
            0 <= k < log.afters.len() ==> try_run.ensures(
                (workers[k].scheduler,),
                (log.afters[k], Ok(#[trigger] log.outputs[k])),
            ),
{
    let n: int = log.afters.len() as int;
    let colors: Seq<usize> = colors_of(workers);
    if n < workers.len() {
        if let Ok(outs) = log.failed {
            law_refused_turns_have_a_culprit(log.books[n], workers[n].color, outs@);
        }
    } else {
        let handed: int = log.fleets.len() - 1;
        let color: usize = log.books.last().sends[handed].0;
        law_place_is_the_first_of_its_color(colors, color);
        assert forall|i: int| 0 <= i < workers.len() implies colors[i] == (#[trigger] workers[i]).color by {}
        assert(deliveries(log.afters, log.fleets, colors, log.books.last().sends, hand_over));
    }
}

/// The final outputs amount to a proof exactly where there is one and it is the proof.
pub proof fn law_one_final_proof_ends_it<P, X>(outputs: Seq<ProverGraphIO<P, X>>, proof: P)
    ensures
        proof_of(outputs) == Ok::<P, DistributedError>(proof) <==> outputs == seq![
            ProverGraphIO::<P, X>::FinalProof(proof),
        ],
        outputs.len() != 1 ==> proof_of(outputs) == Err::<P, DistributedError>(
            DistributedError::OutputCount { found: outputs.len() as usize },
        ),
        outputs.len() == 1 && outputs[0] is Intermediate ==> proof_of(outputs) == Err::<P, DistributedError>(
            DistributedError::NoFinalProof,
        ),
        COORDINATOR == 0,
{
    if proof_of(outputs) == Ok::<P, DistributedError>(proof) {
        assert(outputs =~= seq![ProverGraphIO::<P, X>::FinalProof(proof)]);
    }
}

/// A round starts with nothing booked.
pub proof fn law_rounds_start_blank<O>()
    ensures
        BookView::<O>::blank().sends.len() == 0,
        BookView::<O>::blank().final_output is None,
        BookView::<O>::blank().to_coordinator == 0,
        BookView::<O>::blank().to_workers == 0,
{
}

/// What a book says are its fields, and the colours of workers are their own.
pub proof fn law_books_are_their_fields<O, S>(book: Book<O>, workers: Seq<Worker<S>>, i: int)
    ensures
        book@.sends == book.sends@,
        book@.final_output == book.final_output,
        book@.to_coordinator == book.to_coordinator,
        book@.to_workers == book.to_workers,
        colors_of(workers).len() == workers.len(),
        0 <= i < workers.len() ==> colors_of(workers)[i] == workers[i].color,
{
}

/// The one input of a graph is what is worked on; any other number of them is the answer.
pub proof fn law_one_input_is_taken<I>(inputs: Vec<I>, result: Result<I, DistributedError>)
    requires
        call_ensures(single_input::<I>, (inputs,), result),
        inputs@.len() <= usize::MAX,
    ensures
        result is Ok <==> inputs@.len() == 1,
        result matches Ok(input) ==> input == inputs@[0],
        result matches Err(error) ==> (error matches DistributedError::InputCount { found } && found
            == inputs@.len()),
{
}

} // verus!
