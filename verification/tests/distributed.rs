use zkml::distributed::{
    final_proof, run_distributed, run_next_partition, single_input, Book, DistributedError, Next,
    PartitionOutput, ProverGraphIO, Round, RoundError, Worker,
};

/// A scheduler that puts out its prepared outputs, one list a round, and keeps what it is
/// handed.
#[derive(Debug)]
struct Toy {
    rounds: Vec<Vec<PartitionOutput<u32>>>,
    taken: Vec<u32>,
}

fn toy(rounds: Vec<Vec<PartitionOutput<u32>>>) -> Toy {
    Toy {
        rounds,
        taken: vec![],
    }
}

fn out(to: Option<usize>, size: usize, output: u32) -> PartitionOutput<u32> {
    PartitionOutput { to, size, output }
}

fn round(workers: Vec<Worker<Toy>>) -> Result<Round<Toy, u32>, RoundError<String>> {
    run_next_partition(
        workers,
        |mut toy: Toy| {
            if toy.taken.contains(&666) {
                return (toy, Err("broken".to_string()));
            }
            let outs = if toy.rounds.is_empty() {
                vec![]
            } else {
                toy.rounds.remove(0)
            };
            (toy, Ok(outs))
        },
        |toy: &Toy| toy.rounds.is_empty(),
        |mut toy: Toy, output: u32| {
            if output == 13 {
                return (toy, Err("refused".to_string()));
            }
            toy.taken.push(output);
            (toy, Ok(()))
        },
    )
}

fn worker(color: usize, scheduler: Toy) -> Worker<Toy> {
    Worker { color, scheduler }
}

#[test]
fn outputs_are_handed_on_and_done_workers_leave() {
    let workers = vec![
        worker(0, toy(vec![vec![out(Some(1), 10, 1), out(Some(2), 20, 2)], vec![out(None, 0, 9)]])),
        worker(1, toy(vec![vec![], vec![out(Some(0), 5, 3)]])),
        worker(2, toy(vec![vec![out(Some(0), 7, 4)]])),
    ];
    let first = round(workers).unwrap();
    assert_eq!(first.to_workers, 30);
    assert_eq!(first.to_coordinator, 7);
    assert_eq!(first.final_output, None);
    let colors: Vec<usize> = first.workers.iter().map(|w| w.color).collect();
    assert_eq!(colors, vec![0, 1]);
    assert_eq!(first.workers[0].scheduler.taken, vec![4]);
    assert_eq!(first.workers[1].scheduler.taken, vec![1]);

    // No two of those that are left share a colour, as no two did before.
    assert_ne!(first.workers[0].color, first.workers[1].color);

    let second = round(first.workers).unwrap();
    assert_eq!(second.final_output, Some(9));
    assert_eq!(second.to_coordinator, 5);
    assert!(second.workers.is_empty());
}

#[test]
fn a_done_worker_leaves_only_with_an_output() {
    let idle = round(vec![worker(0, toy(vec![]))]).unwrap();
    assert_eq!(idle.workers.len(), 1);
}

#[test]
fn rounds_fail_for_a_reason() {
    let error = |workers: Vec<Worker<Toy>>| round(workers).unwrap_err();
    assert!(matches!(
        error(vec![worker(1, toy(vec![vec![out(Some(2), 1, 1)]]))]),
        RoundError::PastCoordinator { from: 1, to: 2 }
    ));
    assert!(matches!(
        error(vec![worker(0, toy(vec![vec![out(Some(5), 1, 1)]]))]),
        RoundError::UnknownWorker { color: 5 }
    ));
    assert!(matches!(
        error(vec![worker(0, toy(vec![vec![out(Some(0), 1, 13)]]))]),
        RoundError::Refused(reason) if reason == "refused"
    ));
    assert!(matches!(
        error(vec![worker(
            0,
            toy(vec![vec![out(Some(0), usize::MAX, 1), out(Some(0), 1, 2)]])
        )]),
        RoundError::TooManyBytes
    ));
    let mut broken = toy(vec![]);
    broken.taken.push(666);
    assert!(matches!(
        error(vec![worker(0, broken)]),
        RoundError::Run(reason) if reason == "broken"
    ));
}

#[test]
fn the_last_final_output_wins() {
    let book: Book<u32> = Book::new();
    let book = book.book_output::<()>(3, out(None, 0, 1)).unwrap();
    let book = book.book_output::<()>(3, out(Some(0), 4, 7)).unwrap();
    let book = book.book_output::<()>(3, out(None, 0, 2)).unwrap();
    assert_eq!(book.final_output, Some(2));
    assert_eq!(book.sends, vec![(0, 7)]);
    assert_eq!((book.to_coordinator, book.to_workers), (4, 0));
}

#[test]
fn one_proof_ends_the_rounds() {
    type Out = ProverGraphIO<u32, ()>;
    assert_eq!(single_input(vec![7]), Ok(7));
    assert_eq!(
        single_input::<u32>(vec![]),
        Err(DistributedError::InputCount { found: 0 })
    );
    assert_eq!(final_proof(vec![Out::FinalProof(3)]), Ok(3));
    assert_eq!(
        final_proof(vec![Out::Intermediate(())]),
        Err(DistributedError::NoFinalProof)
    );
    assert_eq!(
        final_proof::<u32, ()>(vec![]),
        Err(DistributedError::OutputCount { found: 0 })
    );

    let mut outputs: Vec<Out> = vec![];
    let next: Next<Toy, u32> =
        run_distributed(vec![worker(0, toy(vec![]))], &mut outputs, None);
    assert!(matches!(next, Next::Round(workers) if workers.len() == 1));
    let next: Next<Toy, u32> = run_distributed(vec![], &mut outputs, Some(Out::FinalProof(8)));
    assert!(matches!(next, Next::End(Ok(8))));
    assert!(outputs.is_empty());
}
