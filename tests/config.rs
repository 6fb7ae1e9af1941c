use forkpool::config::{worker_count, Config, ConfigError, Mode};
use forkpool::report::{in_worker_order, order_results, WorkerResult};

#[test]
fn worker_count_must_be_positive() {
    assert_eq!(worker_count(0), Err(ConfigError::InvalidWorkerCount));
    assert_eq!(worker_count(-3), Err(ConfigError::InvalidWorkerCount));
    assert_eq!(worker_count(1), Ok(1));
    assert_eq!(worker_count(8), Ok(8));
}

#[test]
fn modes_parse_from_their_names() {
    assert_eq!(Mode::parse("stripe"), Ok(Mode::Stripe));
    assert_eq!(Mode::parse("chunk"), Ok(Mode::Chunk));
    assert_eq!(Mode::parse("Stripe"), Err(ConfigError::InvalidMode));
    assert_eq!(Mode::parse(""), Err(ConfigError::InvalidMode));
    assert_eq!(Mode::Stripe.name(), "stripe");
    assert_eq!(Mode::Chunk.name(), "chunk");
}

#[test]
fn invalid_mode_message_lists_valid_modes() {
    let message = ConfigError::InvalidMode.message();
    assert!(message.contains("stripe"));
    assert!(message.contains("chunk"));
    assert_eq!(ConfigError::InvalidWorkerCount.message(), "threads must be > 0");
}

fn result(index: usize, code: Option<i32>) -> WorkerResult {
    WorkerResult {
        index,
        code,
        stdout: format!("out{index}"),
    }
}

#[test]
fn results_are_reported_in_worker_order() {
    let completed = vec![
        result(2, Some(0)),
        result(0, None),
        result(3, Some(1)),
        result(1, Some(0)),
    ];
    let ordered = order_results(completed);
    let indices: Vec<usize> = ordered.iter().map(|r| r.index).collect();
    assert_eq!(indices, vec![0, 1, 2, 3]);
    assert_eq!(ordered[0].code, None);
    assert_eq!(ordered[3].code, Some(1));
    assert_eq!(ordered[2].stdout, "out2");
}

#[test]
fn results_in_every_completion_order_come_out_sorted() {
    let n = 6usize;
    // A fixed pseudo-random walk through many completion orders.
    let mut seed: u64 = 0x2545_f491;
    for _ in 0..50 {
        let mut order: Vec<usize> = (0..n).collect();
        for i in (1..n).rev() {
            seed = seed.wrapping_mul(6364136223846793005).wrapping_add(1442695040888963407);
            let j = (seed >> 33) as usize % (i + 1);
            order.swap(i, j);
        }
        let completed: Vec<WorkerResult> = order.iter().map(|&i| result(i, Some(i as i32))).collect();
        let ordered = order_results(completed);
        for (i, r) in ordered.iter().enumerate() {
            assert_eq!(r.index, i);
            assert_eq!(r.code, Some(i as i32));
            assert_eq!(r.stdout, format!("out{i}"));
        }
    }
}

#[test]
fn no_results_order_to_nothing() {
    assert!(order_results(Vec::new()).is_empty());
}

#[test]
fn config_checks_worker_count_before_mode() {
    assert_eq!(Config::new(0, "bogus", false), Err(ConfigError::InvalidWorkerCount));
    assert_eq!(Config::new(-1, "stripe", false), Err(ConfigError::InvalidWorkerCount));
    assert_eq!(Config::new(2, "bogus", false), Err(ConfigError::InvalidMode));
    assert_eq!(
        Config::new(2, "chunk", true),
        Ok(Config {
            workers: 2,
            mode: Mode::Chunk,
            silent: true
        })
    );
}

#[test]
fn in_worker_order_checks_every_index() {
    assert!(in_worker_order(&vec![result(0, None), result(1, Some(2))]));
    assert!(!in_worker_order(&vec![result(1, None), result(0, Some(2))]));
    assert!(in_worker_order(&Vec::new()));
}
