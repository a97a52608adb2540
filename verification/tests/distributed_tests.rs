use tsp_ga::coordinator::{Coordinator, GaParams, Phase};
use tsp_ga::protocol::Message;
use tsp_ga::rng::RATE_SCALE;
use tsp_ga::tsp::{random_population, TspSolution};
use tsp_ga::worker::{Worker, WorkerAction};

fn matrix5() -> Vec<Vec<u32>> {
    vec![
        vec![0, 2, 9, 10, 7],
        vec![2, 0, 6, 4, 3],
        vec![9, 6, 0, 8, 5],
        vec![10, 4, 8, 0, 1],
        vec![7, 3, 5, 1, 0],
    ]
}

fn worker_from_broadcast(msg: Message) -> Worker {
    match msg {
        Message::ProblemData(w) => Worker::new(w),
        _ => panic!("the first broadcast must carry the matrix"),
    }
}

#[test]
fn terminate_causes_exit_without_reply() {
    let worker = Worker::new(matrix5());
    let action = worker.handle_message(&Message::Terminate);
    assert!(matches!(action, WorkerAction::Exit));
}

#[test]
fn unexpected_envelopes_are_ignored() {
    let worker = Worker::new(matrix5());
    assert!(matches!(
        worker.handle_message(&Message::ProblemData(matrix5())),
        WorkerAction::Ignore
    ));
    assert!(matches!(
        worker.handle_message(&Message::EvaluatedPopulation(Vec::new())),
        WorkerAction::Ignore
    ));
}

#[test]
fn worker_replies_with_one_entry_per_tour() {
    let worker = Worker::new(matrix5());
    let tours = vec![
        TspSolution { path: vec![0, 1, 2, 3, 4] },
        TspSolution { path: vec![0, 0, 2, 3, 4] },
    ];
    match worker.handle_message(&Message::Population(tours)) {
        WorkerAction::Reply(reply) => {
            assert_eq!(reply.len(), 2);
            assert_eq!(reply[0].0, 17);
            assert_eq!(reply[0].1.path, vec![0, 1, 2, 3, 4]);
            assert_eq!(reply[1].0, u64::MAX);
            assert_eq!(reply[1].1.path, vec![0, 0, 2, 3, 4]);
        }
        _ => panic!("a sub-population must be answered"),
    }
}

#[test]
fn two_workers_get_equal_chunks_and_merge_back_whole() {
    let params = GaParams { iterations: 1, elite: 1, mutation_rate: 100, crossover_rate: 900 };
    let mut coord = Coordinator::new(matrix5(), random_population(5, 10), params, 2);
    let worker = worker_from_broadcast(coord.broadcast_payload());

    let msgs = coord.scatter();
    assert_eq!(msgs.len(), 2);
    let mut replies = Vec::new();
    for msg in &msgs {
        match msg {
            Message::Population(chunk) => assert_eq!(chunk.len(), 5),
            _ => panic!("scatter must send sub-populations"),
        }
        match worker.handle_message(msg) {
            WorkerAction::Reply(reply) => replies.push(reply),
            _ => panic!("a sub-population must be answered"),
        }
    }
    assert!(coord.replies_are_complete(&replies));
    let ranked = coord.gather(replies);
    assert_eq!(ranked.len(), 10);
    assert_eq!(coord.population_len(), 10);
}

#[test]
fn ranking_does_not_depend_on_which_worker_contributed() {
    let sol = |p: Vec<usize>| TspSolution { path: p };
    let first = vec![
        (9u64, sol(vec![0, 1, 2, 3, 4])),
        (2u64, sol(vec![1, 0, 2, 3, 4])),
    ];
    let second = vec![
        (7u64, sol(vec![2, 1, 0, 3, 4])),
        (4u64, sol(vec![3, 1, 2, 0, 4])),
    ];

    let mut fitness_orders = Vec::new();
    for replies in [
        vec![first.clone(), second.clone()],
        vec![second, first],
    ] {
        let params = GaParams { iterations: 1, elite: 0, mutation_rate: 0, crossover_rate: 0 };
        let mut coord = Coordinator::new(matrix5(), random_population(5, 4), params, 2);
        let _ = coord.broadcast_payload();
        let _ = coord.scatter();
        assert!(coord.replies_are_complete(&replies));
        let ranked = coord.gather(replies);
        let fitnesses: Vec<u64> = ranked.iter().map(|p| p.0).collect();
        assert_eq!(fitnesses, vec![2, 4, 7, 9]);
        fitness_orders.push(fitnesses);
    }
    assert_eq!(fitness_orders[0], fitness_orders[1]);
}

#[test]
fn small_run_keeps_size_and_best_fitness_never_worsens() {
    let params =
        GaParams { iterations: 3, elite: 1, mutation_rate: 0, crossover_rate: RATE_SCALE };
    let mut coord = Coordinator::new(matrix5(), random_population(5, 4), params, 2);
    let worker = worker_from_broadcast(coord.broadcast_payload());

    let mut best: Option<u64> = None;
    let mut gathers = 0usize;
    loop {
        match coord.phase() {
            Phase::Scatter => {
                let msgs = coord.scatter();
                let mut replies = Vec::new();
                for msg in &msgs {
                    match worker.handle_message(msg) {
                        WorkerAction::Reply(reply) => replies.push(reply),
                        _ => panic!("a sub-population must be answered"),
                    }
                }
                assert!(coord.replies_are_complete(&replies));
                let ranked = coord.gather(replies);
                gathers += 1;
                assert_eq!(coord.population_len(), 4);
                let current_best = ranked[0].0;
                if let Some(previous) = best {
                    assert!(current_best <= previous);
                }
                best = Some(current_best);
            }
            Phase::Terminate => break,
            _ => panic!("the run alternates scatter and gather until it terminates"),
        }
    }
    // three breeding generations plus the final evaluation pass
    assert_eq!(gathers, 4);

    let msgs = coord.terminate_messages();
    assert_eq!(msgs.len(), 2);
    for msg in &msgs {
        assert!(matches!(msg, Message::Terminate));
        assert!(matches!(worker.handle_message(msg), WorkerAction::Exit));
    }
    assert!(matches!(coord.phase(), Phase::Done));
}
