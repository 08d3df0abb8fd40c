use mpmc_queue::crawl::{Crawl, Follow, Visit};
use mpmc_queue::search::{
    ChunkedConcurrentSearch, ConcurrentSearch, SearchStrategy, SequentialSearch,
};
use mpmc_queue::stats::{push_entry, Stats};
use mpmc_queue::tasks::{even_share, task_share};

fn file(lines: &[Option<&str>]) -> Vec<Option<String>> {
    lines.iter().map(|l| l.map(|s| s.to_string())).collect()
}

#[test]
fn sequential_search_reports_line_numbers_from_one() {
    let lines = file(&[Some("hola"), None, Some("mundo hola"), Some("adios")]);
    assert_eq!(SequentialSearch.search(&lines, "hola"), vec![1, 3]);
    assert_eq!(SequentialSearch.search(&lines, "x"), Vec::<usize>::new());
    assert_eq!(SequentialSearch.search(&lines, ""), vec![1, 3, 4]);
    assert_eq!(SequentialSearch.search(&Vec::new(), "hola"), Vec::<usize>::new());
}

#[test]
fn concurrent_search_reports_as_sequential_search_does() {
    let lines = file(&[Some("an exception"), Some("none"), None, Some("exception")]);
    assert_eq!(
        ConcurrentSearch.search(&lines, "exception"),
        SequentialSearch.search(&lines, "exception")
    );
    assert_eq!(ConcurrentSearch.search(&lines, "exception"), vec![1, 4]);
}

#[test]
fn chunked_search_numbers_by_chunk() {
    let lines = file(&[Some("a"), Some("a"), Some("a"), Some("a"), Some("a")]);
    let s = ChunkedConcurrentSearch { chunk_size: 2 };
    assert_eq!(s.search(&lines, "a"), vec![1, 2, 3, 4, 3]);
    let s = ChunkedConcurrentSearch { chunk_size: 5 };
    assert_eq!(s.search(&lines, "a"), vec![1, 2, 3, 4, 5]);
    let s = ChunkedConcurrentSearch { chunk_size: 1024 };
    assert_eq!(s.search(&lines, "a"), vec![1, 2, 3, 4, 5]);
    let s = ChunkedConcurrentSearch { chunk_size: 3 };
    assert_eq!(s.search(&file(&[Some("b"), Some("a"), Some("b"), Some("a")]), "a"), vec![2, 2]);
}

#[test]
fn the_chunks_of_a_file_report_what_the_whole_file_reports() {
    let lines = file(&[Some("a"), Some("b"), Some("a"), Some("a"), Some("ba")]);
    let s = ChunkedConcurrentSearch { chunk_size: 2 };
    let mut by_chunk = Vec::new();
    for (index, chunk) in lines.chunks(2).enumerate() {
        by_chunk.extend(ChunkedConcurrentSearch::search_chunk(&chunk.to_vec(), index, "a"));
    }
    assert_eq!(by_chunk, s.search(&lines, "a"));
    assert_eq!(by_chunk, vec![1, 3, 4, 3]);
}

#[test]
fn stats_begin_empty() {
    let s = Stats::new();
    assert_eq!(s.total_exceptions, 0);
    assert_eq!(s.file_count, 0);
    assert_eq!(s.as_string(), "Total exceptions: 0\nFiles processed: 0\nPer file: {}");
}

#[test]
fn stats_add_up_by_file() {
    let mut s = Stats::new();
    s.add_file("a.txt", 3);
    s.add_file("b", 0);
    s.add_file("a.txt", 2);
    assert_eq!(s.total_exceptions, 5);
    assert_eq!(s.file_count, 3);
    assert_eq!(s.per_file.get("a.txt"), Some(&5));
    assert_eq!(s.per_file.get("b"), Some(&0));
    assert_eq!(
        s.as_string(),
        "Total exceptions: 5\nFiles processed: 3\nPer file: {\"a.txt\": 5, \"b\": 0}"
    );
}

#[test]
fn stats_show_names_as_the_standard_library_quotes_them() {
    let mut s = Stats::new();
    s.add_file("q\"x\n", 18446744073709551615);
    assert_eq!(
        s.as_string(),
        "Total exceptions: 18446744073709551615\nFiles processed: 1\nPer file: {\"q\\\"x\\n\": 18446744073709551615}"
    );
    let mut out = vec!['{'];
    push_entry(&mut out, true, "\"k\"", 10);
    push_entry(&mut out, false, "\"l\"", 0);
    assert_eq!(out.iter().collect::<String>(), "{\"k\": 10, \"l\": 0");
}

#[test]
fn the_last_task_takes_what_is_left() {
    assert_eq!(task_share(0, 3, 10), (0, 3));
    assert_eq!(task_share(1, 3, 10), (3, 3));
    assert_eq!(task_share(2, 3, 10), (6, 4));
    assert_eq!(task_share(0, 1, 7), (0, 7));
    assert_eq!(task_share(3, 4, 2), (0, 2));
    assert_eq!(task_share(0, 4, 2), (0, 0));
}

#[test]
fn even_shares_drop_what_is_left() {
    assert_eq!(even_share(0, 3, 10), (0, 3));
    assert_eq!(even_share(2, 3, 10), (6, 3));
    assert_eq!(even_share(1, 2, 2), (1, 1));
}

#[test]
fn shares_cover_the_terms_side_by_side() {
    for tasks in 1..8 {
        for terms in 0..40 {
            let mut next = 0;
            for i in 0..tasks {
                let (start, count) = task_share(i, tasks, terms);
                assert_eq!(start, next);
                next = start + count;
            }
            assert_eq!(next, terms);
        }
    }
}

#[test]
fn a_crawl_visits_every_page_once() {
    let mut c = Crawl::new("t".to_string());
    assert_eq!(c.arrive("s"), Visit::Fetch);
    assert_eq!(c.arrive("s"), Visit::Skip);
    assert_eq!(c.arrive("a"), Visit::Fetch);
    assert!(!c.is_found());
    assert_eq!(c.links_followed(), 0);
}

#[test]
fn a_crawl_finds_the_target_and_the_way_to_it() {
    let mut c = Crawl::new("t".to_string());
    assert_eq!(c.arrive("s"), Visit::Fetch);
    assert_eq!(c.follow("s", "a"), Follow::Enqueue);
    assert_eq!(c.follow("s", "b"), Follow::Enqueue);
    assert_eq!(c.follow("s", "a"), Follow::Drop);
    assert_eq!(c.arrive("a"), Visit::Fetch);
    assert_eq!(c.follow("a", "s"), Follow::Enqueue);
    assert_eq!(c.follow("a", "b"), Follow::Drop);
    assert_eq!(c.arrive("b"), Visit::Fetch);
    assert_eq!(c.follow("b", "c"), Follow::Enqueue);
    assert_eq!(c.arrive("s"), Visit::Skip);
    assert_eq!(c.arrive("c"), Visit::Fetch);
    assert_eq!(c.follow("c", "t"), Follow::Found);
    assert!(c.is_found());
    assert_eq!(c.links_followed(), 7);
    assert_eq!(c.arrive("x"), Visit::Stop);
    assert_eq!(c.path("s"), vec!["s", "b", "c", "t"]);
}

#[test]
fn the_way_ends_where_nothing_is_known() {
    let c = Crawl::new("t".to_string());
    assert_eq!(c.path("s"), vec!["t"]);
    let mut c = Crawl::new("t".to_string());
    c.follow("x", "t");
    assert_eq!(c.path("s"), vec!["x", "t"]);
    assert_eq!(c.path("t"), vec!["t"]);
    let mut c = Crawl::new("t".to_string());
    c.follow("t", "u");
    c.follow("u", "t");
    assert_eq!(c.path("s"), vec!["t", "u", "t"]);
}
