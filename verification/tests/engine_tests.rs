use chunker::Chunker;
use chunker::Config;
use chunker::examples::CountReduce;
use chunker::examples::KeyCount;
use chunker::examples::SquareInPlace;
use chunker::examples::SumReduce;
use chunker::examples::SumSquares;
use chunker::run;
use chunker::run_mut;

#[test]
fn it_should_sum_squares() {
    let items: Vec<i64> = vec![1, 2, 3, 4, 5];
    assert_eq!(
        1 + 4 + 9 + 16 + 25,
        run(&items, Config::default(), &SumSquares, &SumReduce)
    );
}

#[test]
fn it_should_square() {
    let mut items: Vec<i64> = vec![1, 2, 3, 4, 5];

    run_mut(&mut items, Config::default(), &SquareInPlace, &CountReduce);

    assert_eq!(items, vec![1, 4, 9, 16, 25]);
}

fn config(thread_count: usize, chunk_size: usize) -> Config {
    let mut c = Config::default();
    c.thread_count = thread_count;
    c.chunk_size = chunk_size;
    c
}

#[test]
fn sum_squares_every_config() {
    let items: Vec<i64> = vec![1, 2, 3, 4, 5];
    for tc in 1..=6 {
        for cs in 1..=7 {
            assert_eq!(55, run(&items, config(tc, cs), &SumSquares, &SumReduce));
        }
    }
}

#[test]
fn square_in_place_every_config() {
    for tc in 1..=6 {
        for cs in 1..=7 {
            let mut items: Vec<i64> = vec![1, 2, 3, 4, 5];
            run_mut(&mut items, config(tc, cs), &SquareInPlace, &CountReduce);
            assert_eq!(items, vec![1, 4, 9, 16, 25]);
        }
    }
}

#[test]
fn empty_input_yields_one_untouched_accumulator_per_worker() {
    let items: Vec<i64> = vec![];
    assert_eq!(0, run(&items, config(4, 3), &SumSquares, &SumReduce));

    let mut empty: Vec<i64> = vec![];
    let workers = run_mut(&mut empty, config(4, 3), &SquareInPlace, &CountReduce);
    assert_eq!(workers, 4);
    assert_eq!(empty, Vec::<i64>::new());
}

#[test]
fn single_element_with_many_workers() {
    let items: Vec<i64> = vec![7];
    assert_eq!(49, run(&items, config(8, 100), &SumSquares, &SumReduce));

    let mut one: Vec<i64> = vec![7];
    let workers = run_mut(&mut one, config(8, 100), &SquareInPlace, &CountReduce);
    assert_eq!(workers, 8);
    assert_eq!(one, vec![49]);
}

#[test]
fn engine_reuse_is_idempotent() {
    let items: Vec<i64> = (1..=100).collect();
    let engine = Chunker::new(config(4, 7));
    let expected = engine.run(&items, &SumSquares, &SumReduce);
    for _ in 0..10_000 {
        assert_eq!(expected, engine.run(&items, &SumSquares, &SumReduce));
    }
}

#[test]
fn default_engine_runs() {
    let items: Vec<i64> = vec![3, 4];
    let engine = Chunker::default();
    assert_eq!(25, engine.run(&items, &SumSquares, &SumReduce));
    // A default-built engine behaves like one built from the default
    // configuration.
    let built = Chunker::new(Config::default());
    assert_eq!(
        engine.run(&items, &SumSquares, &SumReduce),
        built.run(&items, &SumSquares, &SumReduce)
    );
}

fn code(word: &str) -> u64 {
    let mut c: u64 = 0;
    for b in word.bytes() {
        c = c * 256 + b as u64;
    }
    c
}

#[test]
fn word_count_aggregation() {
    let text = "a b a";
    let words: Vec<u64> = text.split_whitespace().map(code).collect();

    let mut counts = std::collections::HashMap::new();
    for word in ["a", "b"] {
        let n = run(
            &words,
            config(3, 1),
            &KeyCount { key: code(word) },
            &SumReduce,
        );
        counts.insert(word.to_string(), n);
    }

    let mut expected = std::collections::HashMap::new();
    expected.insert("a".to_string(), 2i64);
    expected.insert("b".to_string(), 1i64);
    assert_eq!(counts, expected);
}

#[test]
fn fold_slice_covers_exactly_its_range() {
    let items: Vec<i64> = vec![1, 2, 3, 4, 5];
    let r = chunker::ops::fold_slice(&items, 1, 4, 0, &SumSquares);
    assert_eq!(r, 4 + 9 + 16);
}

#[test]
fn reported_runs_match_plain_runs() {
    let items: Vec<i64> = vec![1, 2, 3, 4, 5];
    let engine = Chunker::new(config(2, 2));
    let mut progress = chunker::NoProgress::new();
    assert_eq!(
        55,
        engine.run_reported(&items, &SumSquares, &SumReduce, &mut progress)
    );

    let mut to_square: Vec<i64> = vec![1, 2, 3, 4, 5];
    let mut progress = chunker::NoProgress::new();
    let workers = engine.run_mut_reported(&mut to_square, &SquareInPlace, &CountReduce, &mut progress);
    assert_eq!(workers, 2);
    assert_eq!(to_square, vec![1, 4, 9, 16, 25]);
}

#[test]
fn default_config_values() {
    let c = Config::default();
    assert!(c.thread_count >= 1);
    assert_eq!(c.chunk_size, 100);
    assert_eq!(c.bar_step, 10);
    assert!(c.progress_bar);
}

#[test]
fn effective_chunk_size_is_capped() {
    // Eight elements over four workers: the configured size of 100 is capped
    // at 8 / 4 + 1 = 3 so no worker can claim the whole input.
    let c = config(4, 100);
    assert_eq!(c.effective_chunk_size(8), 3);
    // A small configured size stays as it is.
    let c = config(4, 2);
    assert_eq!(c.effective_chunk_size(8), 2);
    // An empty input still dispatches chunks of a positive size.
    let c = config(4, 100);
    assert_eq!(c.effective_chunk_size(0), 1);
}

#[test]
fn cursor_yields_each_range_once() {
    let mut cursor = chunker::ChunkCursor::new(5, 2);
    assert_eq!(cursor.next(), Some((0, 2)));
    assert_eq!(cursor.next(), Some((2, 4)));
    assert_eq!(cursor.next(), Some((4, 5)));
    assert_eq!(cursor.next(), None);
    // Exhaustion is permanent.
    assert_eq!(cursor.next(), None);
}
