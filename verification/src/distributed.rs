//! Proving over several workers: one round of running whatever partitions are ready and
//! handing their outputs on, and the end of it.
//!
//! The worker with colour zero is the coordinator. Outputs go to it or come from it.

use vstd::prelude::*;

verus! {

/// The colour of the coordinator.
pub const COORDINATOR: usize = 0;

/// What a partition puts out.
#[derive(Debug)]
pub struct PartitionOutput<O> {
    /// The worker that it goes to; the final output goes to none.
    pub to: Option<usize>,
    /// How many bytes it takes on the way.
    pub size: usize,
    pub output: O,
}

/// A worker with what schedules its partitions.
#[derive(Debug)]
pub struct Worker<S> {
    pub color: usize,
    pub scheduler: S,
}

/// Why a round failed. `E` is the error of the schedulers.
#[derive(Debug)]
pub enum RoundError<E> {
    /// A partition failed.
    Run(E),
    /// An output went from one worker to another, past the coordinator.
    PastCoordinator { from: usize, to: usize },
    /// The bytes on the way are more than can be counted.
    TooManyBytes,
    /// There is no worker of that colour.
    UnknownWorker { color: usize },
    /// A worker refused what it was handed.
    Refused(E),
}

/// What of a round's outputs is kept: those to be handed on, the last of the final ones,
/// and the bytes that went to the coordinator and to the other workers.
#[derive(Debug)]
pub struct Book<O> {
    pub sends: Vec<(usize, O)>,
    pub final_output: Option<O>,
    pub to_coordinator: usize,
    pub to_workers: usize,
}

/// What a book says.
#[verifier::ext_equal]
pub struct BookView<O> {
    pub sends: Seq<(usize, O)>,
    pub final_output: Option<O>,
    pub to_coordinator: usize,
    pub to_workers: usize,
}

impl<O> View for Book<O> {
    type V = BookView<O>;

    open spec fn view(&self) -> BookView<O> {
        BookView {
            sends: self.sends@,
            final_output: self.final_output,
            to_coordinator: self.to_coordinator,
            to_workers: self.to_workers,
        }
    }
}

/// How an output cannot be booked.
pub enum Fault {
    PastCoordinator(usize, usize),
    TooManyBytes,
}

/// The error of a round for an output that cannot be booked.
pub open spec fn fault_error<E>(fault: Fault) -> RoundError<E> {
    match fault {
        Fault::PastCoordinator(from, to) => RoundError::PastCoordinator { from, to },
        Fault::TooManyBytes => RoundError::TooManyBytes,
    }
}

impl<O> BookView<O> {
    /// The book with nothing in it.
    pub open spec fn blank() -> BookView<O> {
        BookView { sends: Seq::empty(), final_output: None, to_coordinator: 0, to_workers: 0 }
    }

    /// The book with one more output, of the worker with the given colour.
    pub open spec fn with_output(self, color: usize, out: PartitionOutput<O>) -> Result<BookView<O>, Fault> {
        match out.to {
            None => Ok(BookView { final_output: Some(out.output), ..self }),
            Some(to) => if to == COORDINATOR {
                if self.to_coordinator + out.size > usize::MAX {
                    Err(Fault::TooManyBytes)
                } else {
                    Ok(
                        BookView {
                            sends: self.sends.push((to, out.output)),
                            to_coordinator: (self.to_coordinator + out.size) as usize,
                            ..self
                        },
                    )
                }
            } else if color == COORDINATOR {
                if self.to_workers + out.size > usize::MAX {
                    Err(Fault::TooManyBytes)
                } else {
                    Ok(
                        BookView {
                            sends: self.sends.push((to, out.output)),
                            to_workers: (self.to_workers + out.size) as usize,
                            ..self
                        },
                    )
                }
            } else {
                Err(Fault::PastCoordinator(color, to))
            },
        }
    }

    /// The book with several more outputs of one worker.
    pub open spec fn with_outputs(self, color: usize, outs: Seq<PartitionOutput<O>>) -> Result<BookView<O>, Fault>
        decreases outs.len(),
    {
        if outs.len() == 0 {
            Ok(self)
        } else {
            match self.with_output(color, outs[0]) {
                Err(fault) => Err(fault),
                Ok(book) => book.with_outputs(color, outs.skip(1)),
            }
        }
    }
}

/// The final output that a book holds is the last one booked.
pub proof fn law_last_final_output_wins<O>(book: BookView<O>, color: usize, out: PartitionOutput<O>)
    requires
        out.to is None,
    ensures
        book.with_output(color, out) == Ok::<BookView<O>, Fault>(
            (BookView { final_output: Some(out.output), ..book }),
        ),
{
}

/// Everything that is handed on goes to the coordinator or comes from it: all that a
/// worker other than the coordinator sends is sent to the coordinator.
pub proof fn law_workers_send_to_coordinator<O>(
    book: BookView<O>,
    color: usize,
    outs: Seq<PartitionOutput<O>>,
    at: int,
)
    requires
        color != COORDINATOR,
        book.with_outputs(color, outs) is Ok,
        0 <= at < outs.len(),
        outs[at].to is Some,
    ensures
        outs[at].to == Some(COORDINATOR),
    decreases outs.len(),
{
    if at > 0 {
        let next: BookView<O> = book.with_output(color, outs[0])->Ok_0;
        law_workers_send_to_coordinator(next, color, outs.skip(1), at - 1);
    }
}

impl<O> Book<O> {
    /// The book with nothing in it.
    pub fn new() -> (book: Self)
        ensures
            book@ == BookView::<O>::blank(),
    {
        Book { sends: Vec::new(), final_output: None, to_coordinator: 0, to_workers: 0 }
    }

    /// Books an output of the worker with the given colour.
    pub fn book_output<E>(self, color: usize, out: PartitionOutput<O>) -> (result: Result<Self, RoundError<E>>)
        ensures
            match (result, self@.with_output(color, out)) {
                (Ok(book), Ok(expected)) => book@ == expected,
                (Err(error), Err(fault)) => error == fault_error::<E>(fault),
                _ => false,
            },
            out.to is None ==> result is Ok,
            result matches Ok(book) ==> match out.to {
                Some(to) => {
                    &&& book.sends@ == self.sends@.push((to, out.output))
                    &&& book.final_output == self.final_output
                    &&& book.to_coordinator + book.to_workers == self.to_coordinator + self.to_workers + out.size
                },
                None => {
                    &&& book.sends@ == self.sends@
                    &&& book.final_output == Some(out.output)
                    &&& book.to_coordinator == self.to_coordinator
                    &&& book.to_workers == self.to_workers
                },
            },
    {
        let mut book: Book<O> = self;
        match out.to {
            None => {
                book.final_output = Some(out.output);
            },
            Some(to) => {
                if to == COORDINATOR {
                    match book.to_coordinator.checked_add(out.size) {
                        Some(bytes) => {
                            book.to_coordinator = bytes;
                        },
                        None => {
                            return Err(RoundError::TooManyBytes);
                        },
                    }
                } else if color == COORDINATOR {
                    match book.to_workers.checked_add(out.size) {
                        Some(bytes) => {
                            book.to_workers = bytes;
                        },
                        None => {
                            return Err(RoundError::TooManyBytes);
                        },
                    }
                } else {
                    return Err(RoundError::PastCoordinator { from: color, to });
                }
                book.sends.push((to, out.output));
            },
        }
        Ok(book)
    }

    fn book_outputs<E>(self, color: usize, outs: Vec<PartitionOutput<O>>) -> (result: Result<Self, RoundError<E>>)
        ensures
            match (result, self@.with_outputs(color, outs@)) {
                (Ok(book), Ok(expected)) => book@ == expected,
                (Err(error), Err(fault)) => error == fault_error::<E>(fault),
                _ => false,
            },
    {
        let ghost all: Seq<PartitionOutput<O>> = outs@;
        let ghost start: BookView<O> = self@;
        let mut book: Book<O> = self;
        let mut rest: Vec<PartitionOutput<O>> = outs;
        while rest.len() > 0
            invariant
                start.with_outputs(color, all) == book@.with_outputs(color, rest@),
                start == self@,
                all == outs@,
            decreases rest@.len(),
        {
            let ghost left: Seq<PartitionOutput<O>> = rest@;
            let out: PartitionOutput<O> = rest.remove(0);
            assert(rest@ =~= left.skip(1));
            book = match book.book_output(color, out) {
                Ok(book) => book,
                Err(error) => {
                    return Err(error);
                },
            };
        }
        Ok(book)
    }
}

/// The place of the worker with the given colour.
pub open spec fn place_of(colors: Seq<usize>, color: usize) -> Option<int>
    decreases colors.len(),
{
    if colors.len() == 0 {
        None
    } else if colors[0] == color {
        Some(0)
    } else {
        match place_of(colors.skip(1), color) {
            None => None,
            Some(place) => Some(place + 1),
        }
    }
}

/// The colours of workers.
pub open spec fn colors_of<S>(workers: Seq<Worker<S>>) -> Seq<usize> {
    workers.map_values(|worker: Worker<S>| worker.color)
}

/// The workers that are not done.
pub open spec fn kept<S>(colors: Seq<usize>, schedulers: Seq<S>, done: Seq<bool>) -> Seq<Worker<S>>
    decreases done.len(),
{
    if done.len() == 0 {
        Seq::empty()
    } else {
        let last: int = done.len() - 1;
        let before: Seq<Worker<S>> = kept(colors, schedulers, done.drop_last());
        if done[last] {
            before
        } else {
            before.push(Worker { color: colors[last], scheduler: schedulers[last] })
        }
    }
}

/// What a round came to.
#[derive(Debug)]
pub struct Round<S, O> {
    /// The workers that are not done.
    pub workers: Vec<Worker<S>>,
    /// The final output, if one came.
    pub final_output: Option<O>,
    /// The bytes that went to the coordinator.
    pub to_coordinator: usize,
    /// The bytes that went to the other workers.
    pub to_workers: usize,
}

/// How a round went: what every worker's turn left and put out, and how the fleet of
/// schedulers changed as outputs were handed on. Of the last three fields, only those
/// that the round got to mean anything.
pub struct RoundLog<S, O, E> {
    pub afters: Seq<S>,
    pub outputs: Seq<Vec<PartitionOutput<O>>>,
    pub done: Seq<bool>,
    pub books: Seq<BookView<O>>,
    pub fleets: Seq<Seq<S>>,
    /// What the turn that failed left.
    pub left: S,
    /// What the turn that failed returned.
    pub failed: Result<Vec<PartitionOutput<O>>, E>,
    /// The error of the worker that refused an output.
    pub refusal: E,
}

impl<S, O, E> RoundLog<S, O, E> {
    /// The turns that went well: each ran its scheduler and had its outputs booked.
    pub open spec fn turns<T: Fn(S) -> (S, Result<Vec<PartitionOutput<O>>, E>), D: Fn(&S) -> bool>(
        self,
        workers: Seq<Worker<S>>,
        try_run: T,
        is_done: D,
    ) -> bool {
        let n: int = self.afters.len() as int;
        &&& n <= workers.len()
        &&& self.outputs.len() == n
        &&& self.done.len() == n
        &&& self.books.len() == n + 1
        &&& self.books[0] == BookView::<O>::blank()
        &&& forall|k: int|
            0 <= k < n ==> try_run.ensures(
                (workers[k].scheduler,),
                (self.afters[k], Ok(#[trigger] self.outputs[k])),
            )
        &&& forall|k: int|
            0 <= k < n ==> self.books[k].with_outputs(workers[k].color, (#[trigger] self.outputs[k])@) == Ok::<
                BookView<O>,
                Fault,
            >(self.books[k + 1])
        &&& forall|k: int|
            0 <= k < n ==> if (#[trigger] self.outputs[k])@.len() > 0 {
                is_done.ensures((&self.afters[k],), self.done[k])
            } else {
                !self.done[k]
            }
    }

    /// The log accounts for a result.
    pub open spec fn explains<
        T: Fn(S) -> (S, Result<Vec<PartitionOutput<O>>, E>),
        D: Fn(&S) -> bool,
        H: Fn(S, O) -> (S, Result<(), E>),
    >(
        self,
        workers: Seq<Worker<S>>,
        try_run: T,
        is_done: D,
        hand_over: H,
        result: Result<Round<S, O>, RoundError<E>>,
    ) -> bool {
        let n: int = self.afters.len() as int;
        let colors: Seq<usize> = colors_of(workers);
        &&& self.turns(workers, try_run, is_done)
        &&& if n < workers.len() {
            &&& try_run.ensures((workers[n].scheduler,), (self.left, self.failed))
            &&& match self.failed {
                Err(error) => result == Err::<Round<S, O>, RoundError<E>>(RoundError::Run(error)),
                Ok(outs) => {
                    &&& self.books[n].with_outputs(workers[n].color, outs@) is Err
                    &&& result == Err::<Round<S, O>, RoundError<E>>(
                        fault_error(self.books[n].with_outputs(workers[n].color, outs@)->Err_0),
                    )
                },
            }
        } else {
            let book: BookView<O> = self.books.last();
            let handed: int = self.fleets.len() - 1;
            &&& deliveries(self.afters, self.fleets, colors, book.sends, hand_over)
            &&& if handed < book.sends.len() {
                match place_of(colors, book.sends[handed].0) {
                    None => result == Err::<Round<S, O>, RoundError<E>>(
                        RoundError::UnknownWorker { color: book.sends[handed].0 },
                    ),
                    Some(place) => {
                        &&& hand_over.ensures(
                            (self.fleets.last()[place], book.sends[handed].1),
                            (self.left, Err(self.refusal)),
                        )
                        &&& result == Err::<Round<S, O>, RoundError<E>>(RoundError::Refused(self.refusal))
                    },
                }
            } else {
                result matches Ok(round) && {
                    &&& round.workers@ == kept(colors, self.fleets.last(), self.done)
                    &&& round.final_output == book.final_output
                    &&& round.to_coordinator == book.to_coordinator
                    &&& round.to_workers == book.to_workers
                }
            }
        }
    }
}

/// The outputs that were handed on, each to the worker that it was for.
pub open spec fn deliveries<S, O, E, H: Fn(S, O) -> (S, Result<(), E>)>(
    start: Seq<S>,
    fleets: Seq<Seq<S>>,
    colors: Seq<usize>,
    sends: Seq<(usize, O)>,
    hand_over: H,
) -> bool {
    &&& 1 <= fleets.len() <= sends.len() + 1
    &&& fleets[0] == start
    &&& forall|k: int| 1 <= k < fleets.len() ==> #[trigger] delivered(fleets, colors, sends, hand_over, k)
}

/// The output with number `k`, counted from one, was handed on.
pub open spec fn delivered<S, O, E, H: Fn(S, O) -> (S, Result<(), E>)>(
    fleets: Seq<Seq<S>>,
    colors: Seq<usize>,
    sends: Seq<(usize, O)>,
    hand_over: H,
    k: int,
) -> bool {
    &&& place_of(colors, sends[k - 1].0) is Some
    &&& handed_over(fleets[k - 1], fleets[k], place_of(colors, sends[k - 1].0)->0, sends[k - 1].1, hand_over)
}

/// One scheduler of the fleet took an output, and the others stayed as they were.
pub open spec fn handed_over<S, O, E, H: Fn(S, O) -> (S, Result<(), E>)>(
    before: Seq<S>,
    after: Seq<S>,
    place: int,
    output: O,
    hand_over: H,
) -> bool {
    &&& 0 <= place < before.len()
    &&& after.len() == before.len()
    &&& after == before.update(place, after[place])
    &&& exists|outcome: Result<(), E>| outcome is Ok && #[trigger] hand_over.ensures(
        (before[place], output),
        (after[place], outcome),
    )
}

proof fn lemma_place_is_beyond(colors: Seq<usize>, color: usize, len: int)
    requires
        0 <= len <= colors.len(),
        forall|i: int| 0 <= i < len ==> #[trigger] colors[i] != color,
    ensures
        place_of(colors, color) == match place_of(colors.skip(len), color) {
            None => None,
            Some(place) => Some(place + len),
        },
    decreases len,
{
    if len > 0 {
        lemma_place_is_beyond(colors.skip(1), color, len - 1);
        assert(colors.skip(1).skip(len - 1) =~= colors.skip(len));
    } else {
        assert(colors.skip(0) =~= colors);
    }
}

fn find_place(colors: &Vec<usize>, color: usize) -> (place: Option<usize>)
    ensures
        match (place, place_of(colors@, color)) {
            (Some(place), Some(expected)) => place == expected && place < colors@.len(),
            (None, None) => true,
            _ => false,
        },
{
    let mut i: usize = 0;
    while i < colors.len()
        invariant
            i <= colors@.len(),
            forall|j: int| 0 <= j < i ==> #[trigger] colors@[j] != color,
        decreases colors@.len() - i,
    {
        if colors[i] == color {
            proof {
                lemma_place_is_beyond(colors@, color, i as int);
            }
            return Some(i);
        }
        i = i + 1;
    }
    proof {
        lemma_place_is_beyond(colors@, color, colors@.len() as int);
    }
    None
}

/// What all turns together left.
struct Turns<S, O> {
    colors: Vec<usize>,
    fleet: Vec<S>,
    done: Vec<bool>,
    book: Book<O>,
}

/// Lets every worker take a turn.
fn take_turns<S, O, E, T: Fn(S) -> (S, Result<Vec<PartitionOutput<O>>, E>), D: Fn(&S) -> bool>(
    workers: Vec<Worker<S>>,
    try_run: &T,
    is_done: &D,
) -> (result: (Result<Turns<S, O>, RoundError<E>>, Ghost<RoundLog<S, O, E>>))
    requires
        forall|s: S| try_run.requires((s,)),
        forall|s: &S| is_done.requires((s,)),
    ensures
        result.1@.turns(workers@, *try_run, *is_done),
        match result.0 {
            Ok(turns) => {
                &&& result.1@.afters == turns.fleet@
                &&& result.1@.done == turns.done@
                &&& result.1@.books.last() == turns.book@
                &&& turns.fleet@.len() == workers@.len()
                &&& turns.colors@ == colors_of(workers@)
            },
            Err(error) => {
                let log: RoundLog<S, O, E> = result.1@;
                let n: int = log.afters.len() as int;
                &&& n < workers@.len()
                &&& try_run.ensures((workers@[n].scheduler,), (log.left, log.failed))
                &&& match log.failed {
                    Err(reason) => error == RoundError::<E>::Run(reason),
                    Ok(outs) => {
                        &&& log.books[n].with_outputs(workers@[n].color, outs@) is Err
                        &&& error == fault_error::<E>(log.books[n].with_outputs(workers@[n].color, outs@)->Err_0)
                    },
                }
            },
        },
{
    let ghost all: Seq<Worker<S>> = workers@;
    let mut rest: Vec<Worker<S>> = workers;
    let mut colors: Vec<usize> = Vec::new();
    let mut fleet: Vec<S> = Vec::new();
    let mut done: Vec<bool> = Vec::new();
    let mut book: Book<O> = Book::new();
    let ghost mut log: RoundLog<S, O, E> = RoundLog {
        afters: Seq::empty(),
        outputs: Seq::empty(),
        done: Seq::empty(),
        books: seq![BookView::<O>::blank()],
        fleets: Seq::empty(),
        left: arbitrary(),
        failed: arbitrary(),
        refusal: arbitrary(),
    };
    assert(rest@ =~= all.skip(0));
    assert(colors@ =~= colors_of(all).take(0));
    while rest.len() > 0
        invariant
            all == workers@,
            forall|s: S| try_run.requires((s,)),
            forall|s: &S| is_done.requires((s,)),
            log.turns(all, *try_run, *is_done),
            log.afters == fleet@,
            log.done == done@,
            log.books.last() == book@,
            rest@ == all.skip(fleet@.len() as int),
            colors@ == colors_of(all).take(fleet@.len() as int),
        decreases rest@.len(),
    {
        let ghost n: int = fleet@.len() as int;
        let worker: Worker<S> = rest.remove(0);
        assert(worker == all[n]);
        assert(rest@ =~= all.skip(n + 1));
        let color: usize = worker.color;
        let (after, outcome): (S, Result<Vec<PartitionOutput<O>>, E>) = try_run(worker.scheduler);
        let ghost failed_log: RoundLog<S, O, E> = RoundLog { left: after, failed: outcome, ..log };
        let outputs: Vec<PartitionOutput<O>> = match outcome {
            Ok(outputs) => outputs,
            Err(error) => {
                return (Err(RoundError::Run(error)), Ghost(failed_log));
            },
        };
        let ghost outs: Vec<PartitionOutput<O>> = outputs;
        let some: bool = outputs.len() > 0;
        let ghost booked: BookView<O> = book@;
        book = match book.book_outputs(color, outputs) {
            Ok(book) => book,
            Err(error) => {
                return (Err(error), Ghost(failed_log));
            },
        };
        let finished: bool = if some {
            is_done(&after)
        } else {
            false
        };
        let ghost earlier: RoundLog<S, O, E> = log;
        proof {
            log = RoundLog {
                afters: earlier.afters.push(after),
                outputs: earlier.outputs.push(outs),
                done: earlier.done.push(finished),
                books: earlier.books.push(book@),
                ..earlier
            };
            assert forall|k: int| 0 <= k < n + 1 implies {
                &&& try_run.ensures((all[k].scheduler,), (log.afters[k], Ok(#[trigger] log.outputs[k])))
                &&& log.books[k].with_outputs(all[k].color, log.outputs[k]@) == Ok::<BookView<O>, Fault>(
                    log.books[k + 1],
                )
                &&& if log.outputs[k]@.len() > 0 {
                    is_done.ensures((&log.afters[k],), log.done[k])
                } else {
                    !log.done[k]
                }
            } by {
                if k < n {
                    assert(log.outputs[k] == earlier.outputs[k]);
                    assert(log.books[k] == earlier.books[k] && log.books[k + 1] == earlier.books[k + 1]);
                } else {
                    assert(log.books[k] == booked && log.books[k + 1] == book@);
                }
            }
        }
        colors.push(color);
        assert(colors@ =~= colors_of(all).take(n + 1));
        fleet.push(after);
        done.push(finished);
    }
    assert(colors@ =~= colors_of(all));
    (Ok(Turns { colors, fleet, done, book }), Ghost(log))
}

fn keep<S>(colors: Vec<usize>, fleet: Vec<S>, done: Vec<bool>) -> (workers: Vec<Worker<S>>)
    requires
        colors@.len() == fleet@.len(),
        done@.len() == fleet@.len(),
    ensures
        workers@ == kept(colors@, fleet@, done@),
{
    let ghost all: Seq<S> = fleet@;
    let count: usize = fleet.len();
    let mut rest: Vec<S> = fleet;
    let mut workers: Vec<Worker<S>> = Vec::new();
    let mut i: usize = 0;
    assert(rest@ =~= all.skip(0));
    assert(done@.take(0) =~= Seq::<bool>::empty());
    while i < count
        invariant
            i <= count == all.len(),
            colors@.len() == count,
            done@.len() == count,
            rest@ == all.skip(i as int),
            workers@ == kept(colors@, all, done@.take(i as int)),
        decreases count - i,
    {
        let scheduler: S = rest.remove(0);
        assert(scheduler == all[i as int]);
        assert(rest@ =~= all.skip(i + 1));
        assert(done@.take(i + 1).drop_last() =~= done@.take(i as int));
        if !done[i] {
            workers.push(Worker { color: colors[i], scheduler });
        }
        i = i + 1;
    }
    assert(done@.take(i as int) =~= done@);
    workers
}

/// How handing outputs on went: the fleet after each, and where one was refused, what
/// was left of the scheduler and its error.
struct Handing<S, E> {
    fleets: Seq<Seq<S>>,
    left: S,
    refusal: E,
}

/// Hands outputs on, in order.
fn hand_on<S, O, E, H: Fn(S, O) -> (S, Result<(), E>)>(
    colors: &Vec<usize>,
    schedulers: Vec<S>,
    sends: Vec<(usize, O)>,
    hand_over: &H,
) -> (result: (Result<Vec<S>, RoundError<E>>, Ghost<Handing<S, E>>))
    requires
        colors@.len() == schedulers@.len(),
        forall|s: S, output: O| hand_over.requires((s, output)),
    ensures
        deliveries(schedulers@, result.1@.fleets, colors@, sends@, *hand_over),
        match result.0 {
            Ok(new) => {
                &&& result.1@.fleets.len() == sends@.len() + 1
                &&& new@ == result.1@.fleets.last()
                &&& new@.len() == schedulers@.len()
            },
            Err(error) => {
                let handed: int = result.1@.fleets.len() - 1;
                &&& handed < sends@.len()
                &&& match place_of(colors@, sends@[handed].0) {
                    None => error == (RoundError::<E>::UnknownWorker { color: sends@[handed].0 }),
                    Some(place) => {
                        &&& hand_over.ensures(
                            (result.1@.fleets.last()[place], sends@[handed].1),
                            (result.1@.left, Err(result.1@.refusal)),
                        )
                        &&& error == RoundError::<E>::Refused(result.1@.refusal)
                    },
                }
            },
        },
{
    let ghost all: Seq<(usize, O)> = sends@;
    let ghost start: Seq<S> = schedulers@;
    let mut fleet: Vec<S> = schedulers;
    let mut pending: Vec<(usize, O)> = sends;
    let ghost mut fleets: Seq<Seq<S>> = seq![start];
    assert(pending@ =~= all.skip(0));
    while pending.len() > 0
        invariant
            all == sends@,
            start == schedulers@,
            colors@.len() == fleet@.len(),
            fleet@.len() == start.len(),
            forall|s: S, output: O| hand_over.requires((s, output)),
            deliveries(start, fleets, colors@, all, *hand_over),
            fleets.last() == fleet@,
            pending@ == all.skip(fleets.len() - 1),
        decreases pending@.len(),
    {
        let ghost handed: int = fleets.len() - 1;
        let (color, output): (usize, O) = pending.remove(0);
        assert((color, output) == all[handed]);
        assert(pending@ =~= all.skip(handed + 1));
        let place: usize = match find_place(colors, color) {
            Some(place) => place,
            None => {
                let ghost handing: Handing<S, E> = Handing { fleets, left: arbitrary(), refusal: arbitrary() };
                return (Err(RoundError::UnknownWorker { color }), Ghost(handing));
            },
        };
        let ghost before: Seq<S> = fleet@;
        let scheduler: S = fleet.remove(place);
        let (after, outcome): (S, Result<(), E>) = hand_over(scheduler, output);
        assert(hand_over.ensures((before[place as int], output), (after, outcome)));
        match outcome {
            Ok(_) => {},
            Err(error) => {
                let ghost handing: Handing<S, E> = Handing { fleets, left: after, refusal: error };
                return (Err(RoundError::Refused(error)), Ghost(handing));
            },
        }
        fleet.insert(place, after);
        assert(fleet@ =~= before.update(place as int, after));
        let ghost earlier: Seq<Seq<S>> = fleets;
        proof {
            fleets = earlier.push(fleet@);
            assert(handed_over(before, fleet@, place as int, output, *hand_over));
            assert forall|k: int| 1 <= k < fleets.len() implies #[trigger] delivered(
                fleets,
                colors@,
                all,
                *hand_over,
                k,
            ) by {
                if k <= handed {
                    assert(delivered(earlier, colors@, all, *hand_over, k));
                }
            }
        }
    }
    (Ok(fleet), Ghost(Handing { fleets, left: arbitrary(), refusal: arbitrary() }))
}

/// Runs whatever partitions are ready, hands their outputs on, and lets the workers go
/// that are done. A worker is seen to be done in a round in which it put something out.
pub fn run_next_partition<
    S,
    O,
    E,
    T: Fn(S) -> (S, Result<Vec<PartitionOutput<O>>, E>),
    D: Fn(&S) -> bool,
    H: Fn(S, O) -> (S, Result<(), E>),
>(workers: Vec<Worker<S>>, try_run: T, is_done: D, hand_over: H) -> (result: Result<Round<S, O>, RoundError<E>>)
    requires
        forall|s: S| try_run.requires((s,)),
        forall|s: &S| is_done.requires((s,)),
        forall|s: S, output: O| hand_over.requires((s, output)),
    ensures
        exists|log: RoundLog<S, O, E>| #[trigger] log.explains(workers@, try_run, is_done, hand_over, result),
        colors_of(workers@).no_duplicates() ==> (result matches Ok(round) ==> colors_of(
            round.workers@,
        ).no_duplicates()),
{
    let ghost all: Seq<Worker<S>> = workers@;
    let (outcome, Ghost(turned)): (Result<Turns<S, O>, RoundError<E>>, Ghost<RoundLog<S, O, E>>) = take_turns(
        workers,
        &try_run,
        &is_done,
    );
    let turns: Turns<S, O> = match outcome {
        Ok(turns) => turns,
        Err(error) => {
            assert(turned.explains(all, try_run, is_done, hand_over, Err(error)));
            return Err(error);
        },
    };
    let (outcome, Ghost(handing)): (Result<Vec<S>, RoundError<E>>, Ghost<Handing<S, E>>) = hand_on(
        &turns.colors,
        turns.fleet,
        turns.book.sends,
        &hand_over,
    );
    let ghost log: RoundLog<S, O, E> = RoundLog {
        fleets: handing.fleets,
        left: handing.left,
        refusal: handing.refusal,
        ..turned
    };
    assert(log.turns(all, try_run, is_done));
    let fleet: Vec<S> = match outcome {
        Ok(fleet) => fleet,
        Err(error) => {
            assert(log.explains(all, try_run, is_done, hand_over, Err(error)));
            return Err(error);
        },
    };
    let workers: Vec<Worker<S>> = keep(turns.colors, fleet, turns.done);
    let round: Round<S, O> = Round {
        workers,
        final_output: turns.book.final_output,
        to_coordinator: turns.book.to_coordinator,
        to_workers: turns.book.to_workers,
    };
    assert(log.explains(all, try_run, is_done, hand_over, Ok(round)));
    proof {
        if colors_of(all).no_duplicates() {
            law_round_keeps_colors_distinct(log, all, try_run, is_done, hand_over, round);
        }
    }
    Ok(round)
}

proof fn lemma_kept_colors<S>(colors: Seq<usize>, schedulers: Seq<S>, done: Seq<bool>)
    requires
        colors.no_duplicates(),
        done.len() <= colors.len(),
    ensures
        colors_of(kept(colors, schedulers, done)).no_duplicates(),
        forall|i: int|
            0 <= i < kept(colors, schedulers, done).len() ==> colors.take(done.len() as int).contains(
                (#[trigger] kept(colors, schedulers, done)[i]).color,
            ),
    decreases done.len(),
{
    if done.len() > 0 {
        let last: int = done.len() - 1;
        let before: Seq<Worker<S>> = kept(colors, schedulers, done.drop_last());
        let after: Seq<Worker<S>> = kept(colors, schedulers, done);
        lemma_kept_colors(colors, schedulers, done.drop_last());
        assert forall|i: int| 0 <= i < after.len() implies colors.take(last + 1).contains(
            (#[trigger] after[i]).color,
        ) by {
            if i < before.len() {
                let at: int = choose|at: int| 0 <= at < last && colors.take(last)[at] == before[i].color;
                assert(colors.take(last).contains(before[i].color));
                assert(colors.take(last + 1)[at] == after[i].color);
            } else {
                assert(colors.take(last + 1)[last] == after[i].color);
            }
        }
        assert forall|i: int, j: int| 0 <= i < after.len() && 0 <= j < after.len() && i != j implies colors_of(
            after,
        )[i] != colors_of(after)[j] by {
            if i < before.len() && j < before.len() {
                assert(colors_of(before)[i] != colors_of(before)[j]);
            } else {
                let other: int = if i < before.len() {
                    i
                } else {
                    j
                };
                assert(colors.take(last).contains(before[other].color));
                let at: int = choose|at: int| 0 <= at < last && colors.take(last)[at] == before[other].color;
                assert(colors[at] != colors[last]);
            }
        }
    }
}

/// Where no two workers share a colour, no two of those that a round leaves do, and each of
/// these was there before.
pub proof fn law_round_keeps_colors_distinct<
    S,
    O,
    E,
    T: Fn(S) -> (S, Result<Vec<PartitionOutput<O>>, E>),
    D: Fn(&S) -> bool,
    H: Fn(S, O) -> (S, Result<(), E>),
>(
    log: RoundLog<S, O, E>,
    workers: Seq<Worker<S>>,
    try_run: T,
    is_done: D,
    hand_over: H,
    round: Round<S, O>,
)
    requires
        colors_of(workers).no_duplicates(),
        log.explains(workers, try_run, is_done, hand_over, Ok(round)),
    ensures
        colors_of(round.workers@).no_duplicates(),
        forall|i: int|
            0 <= i < round.workers@.len() ==> colors_of(workers).contains((#[trigger] round.workers@[i]).color),
{
    let colors: Seq<usize> = colors_of(workers);
    lemma_kept_colors(colors, log.fleets.last(), log.done);
    assert(colors.take(log.done.len() as int) =~= colors);
}

/// Why proving over several workers failed beside the rounds.
#[derive(Debug, Clone, Copy, PartialEq, Eq, Structural)]
pub enum DistributedError {
    /// There must be one input, which the coordinator splits.
    InputCount { found: usize },
    /// There must be one final output.
    OutputCount { found: usize },
    /// The final output must be the proof.
    NoFinalProof,
}

/// What the nodes of the graph of provers put out: the proof in the end, and before it
/// what they work on.
#[derive(Debug)]
pub enum ProverGraphIO<P, X> {
    FinalProof(P),
    Intermediate(X),
}

/// The one input of the graph.
pub fn single_input<I>(inputs: Vec<I>) -> (result: Result<I, DistributedError>)
    ensures
        match result {
            Ok(input) => inputs@ == seq![input],
            Err(error) => inputs@.len() != 1 && error == (DistributedError::InputCount {
                found: inputs@.len() as usize,
            }),
        },
{
    let mut inputs: Vec<I> = inputs;
    if inputs.len() != 1 {
        return Err(DistributedError::InputCount { found: inputs.len() });
    }
    Ok(inputs.remove(0))
}

/// The proof that final outputs amount to, if they do.
pub open spec fn proof_of<P, X>(outputs: Seq<ProverGraphIO<P, X>>) -> Result<P, DistributedError> {
    if outputs.len() != 1 {
        Err(DistributedError::OutputCount { found: outputs.len() as usize })
    } else {
        match outputs[0] {
            ProverGraphIO::FinalProof(proof) => Ok(proof),
            ProverGraphIO::Intermediate(_) => Err(DistributedError::NoFinalProof),
        }
    }
}

/// The proof that final outputs amount to.
pub fn final_proof<P, X>(outputs: Vec<ProverGraphIO<P, X>>) -> (result: Result<P, DistributedError>)
    ensures
        result == proof_of(outputs@),
{
    let mut outputs: Vec<ProverGraphIO<P, X>> = outputs;
    if outputs.len() != 1 {
        return Err(DistributedError::OutputCount { found: outputs.len() });
    }
    match outputs.remove(0) {
        ProverGraphIO::FinalProof(proof) => Ok(proof),
        ProverGraphIO::Intermediate(_) => Err(DistributedError::NoFinalProof),
    }
}

/// What is due next: another round with the workers that are left, or the end.
#[derive(Debug)]
pub enum Next<S, P> {
    Round(Vec<Worker<S>>),
    End(Result<P, DistributedError>),
}

/// Decides, between rounds, whether another one is due: as long as a worker is left. In
/// the end the final outputs that came up must be the proof.
pub fn run_distributed<S, P, X>(
    workers: Vec<Worker<S>>,
    final_outputs: &mut Vec<ProverGraphIO<P, X>>,
    final_output: Option<ProverGraphIO<P, X>>,
) -> (next: Next<S, P>)
    ensures
        ({
            let outputs: Seq<ProverGraphIO<P, X>> = match final_output {
                None => old(final_outputs)@,
                Some(output) => old(final_outputs)@.push(output),
            };
            if workers@.len() > 0 {
                next == Next::<S, P>::Round(workers) && final(final_outputs)@ == outputs
            } else {
                next == Next::<S, P>::End(proof_of(outputs)) && final(final_outputs)@ == Seq::<
                    ProverGraphIO<P, X>,
                >::empty()
            }
        }),
{
    if let Some(output) = final_output {
        final_outputs.push(output);
    }
    if workers.len() > 0 {
        return Next::Round(workers);
    }
    let mut outputs: Vec<ProverGraphIO<P, X>> = Vec::new();
    std::mem::swap(final_outputs, &mut outputs);
    Next::End(final_proof(outputs))
}

} // verus!
