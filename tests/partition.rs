use forkpool::config::Mode;
use forkpool::dispatch::partition;
use forkpool::partition::{chunk, stripe};

fn lines(text: &str) -> Vec<String> {
    text.lines().map(str::to_string).collect()
}

fn strings(items: &[&str]) -> Vec<String> {
    items.iter().map(|s| s.to_string()).collect()
}

#[test]
fn stripe_stripes_for_one_bucket() {
    let input = lines("foo\nbar\nbaz");
    assert_eq!(
        stripe(1, &input),
        vec![vec!["foo".to_string(), "bar".to_string(), "baz".to_string()],]
    )
}

#[test]
fn stripe_stripes_for_two_buckets() {
    let input = lines("foo\nbar\nbaz");
    assert_eq!(
        stripe(2, &input),
        vec![
            vec!["foo".to_string(), "baz".to_string()],
            vec!["bar".to_string()]
        ]
    )
}

#[test]
fn stripe_stripes_for_three_buckets() {
    let input = lines("foo\nbar\nbaz");
    assert_eq!(
        stripe(3, &input),
        vec![
            vec!["foo".to_string()],
            vec!["bar".to_string()],
            vec!["baz".to_string()],
        ]
    )
}

#[test]
fn stripe_does_not_create_empty_buckets() {
    let input = lines("foo\nbar");
    assert_eq!(
        stripe(3, &input),
        vec![vec!["foo".to_string()], vec!["bar".to_string()]]
    )
}

#[test]
fn chunks_chunks_for_one_bucket() {
    let input = lines("foo\nbar\nbaz");
    assert_eq!(
        chunk(1, &input),
        vec![vec!["foo".to_string(), "bar".to_string(), "baz".to_string()],]
    )
}

#[test]
fn chunks_chunks_foor_two_buckets() {
    let input = lines("foo\nbar\nbaz");
    assert_eq!(
        chunk(2, &input),
        vec![
            vec!["foo".to_string(), "bar".to_string()],
            vec!["baz".to_string()]
        ]
    )
}

#[test]
fn chunks_does_not_create_empty_buckets() {
    let input = lines("foo\nbar");
    assert_eq!(
        chunk(3, &input),
        vec![vec!["foo".to_string()], vec!["bar".to_string()]]
    )
}

#[test]
fn empty_input_gives_no_buckets() {
    let input: Vec<String> = Vec::new();
    assert!(stripe(4, &input).is_empty());
    assert!(chunk(4, &input).is_empty());
}

#[test]
fn six_lines_over_two_and_three_workers() {
    let input = strings(&["1", "2", "3", "4", "5", "6"]);
    assert_eq!(
        stripe(2, &input),
        vec![strings(&["1", "3", "5"]), strings(&["2", "4", "6"])]
    );
    assert_eq!(
        stripe(3, &input),
        vec![strings(&["1", "4"]), strings(&["2", "5"]), strings(&["3", "6"])]
    );
    assert_eq!(
        chunk(2, &input),
        vec![strings(&["1", "2", "3"]), strings(&["4", "5", "6"])]
    );
    assert_eq!(
        chunk(3, &input),
        vec![strings(&["1", "2"]), strings(&["3", "4"]), strings(&["5", "6"])]
    );
}

#[test]
fn chunk_may_use_fewer_workers_than_asked() {
    // Runs of two lines: four lines fill only two of the three workers.
    let input = strings(&["a", "b", "c", "d"]);
    assert_eq!(
        chunk(3, &input),
        vec![strings(&["a", "b"]), strings(&["c", "d"])]
    );
}

#[test]
fn partitions_cover_input_exactly_once() {
    let input: Vec<String> = (0..23).map(|i| format!("line{i}")).collect();
    for k in 1..30usize {
        let striped = stripe(k, &input);
        assert!(striped.len() <= k);
        assert!(striped.iter().all(|b| !b.is_empty()));
        for (i, line) in input.iter().enumerate() {
            assert_eq!(&striped[i % k][i / k], line);
        }
        assert_eq!(striped.iter().map(Vec::len).sum::<usize>(), input.len());

        let chunked = chunk(k, &input);
        assert!(chunked.len() <= k);
        assert!(chunked.iter().all(|b| !b.is_empty()));
        assert_eq!(chunked.concat(), input);
    }
}

#[test]
fn short_input_never_makes_empty_buckets() {
    let input = strings(&["foo", "bar"]);
    for mode in [Mode::Stripe, Mode::Chunk] {
        let buckets = partition(mode, 3, &input);
        assert_eq!(buckets.len(), 2);
        assert!(buckets.iter().all(|b| !b.is_empty()));
    }
}

#[test]
fn partitioning_twice_gives_the_same_buckets() {
    let input = strings(&["a", "b", "c", "d", "e"]);
    for mode in [Mode::Stripe, Mode::Chunk] {
        assert_eq!(partition(mode, 2, &input), partition(mode, 2, &input));
    }
}

#[test]
fn partition_follows_the_mode() {
    let input = strings(&["foo", "bar", "baz"]);
    assert_eq!(partition(Mode::Stripe, 2, &input), stripe(2, &input));
    assert_eq!(partition(Mode::Chunk, 2, &input), chunk(2, &input));
}
