use link_search::coordinator::{Coordinator, Step};
use link_search::protocol::MasterMsg;
use link_search::rotation::Rotation;
use link_search::worker::Dispatch;

fn found(links: &[&str]) -> MasterMsg {
    MasterMsg::Found(links.iter().map(|s| s.to_string()).collect())
}

fn plain(dispatches: &[Dispatch]) -> Vec<(usize, String)> {
    dispatches.iter().map(|d| (d.worker, d.msg.url().clone())).collect()
}

fn expect(items: &[(usize, &str)]) -> Vec<(usize, String)> {
    items.iter().map(|(w, u)| (*w, u.to_string())).collect()
}

fn begin(pool: usize, start: &str, target: &str) -> (Coordinator, Dispatch) {
    Coordinator::start(Rotation::new(pool), start.to_string(), target.to_string())
}

fn handle(coordinator: &mut Coordinator, links: &[&str]) -> Step {
    coordinator.handle(found(links))
}

#[test]
fn start_seeds_the_back_worker_and_marks_the_start_visited() {
    let (coordinator, seed) = begin(10, "A", "T");
    assert_eq!(seed.worker, 9);
    assert_eq!(seed.msg.url(), "A");
    assert!(coordinator.has_visited("A"));
    assert!(!coordinator.has_visited("T"));
    assert!(!coordinator.has_found());
    assert_eq!(coordinator.target(), "T");
    assert_eq!(coordinator.rotation().ids(), (0..10).collect::<Vec<usize>>());
}

#[test]
fn search_from_a_over_b_and_c_to_t() {
    let (mut coordinator, seed) = begin(10, "A", "T");
    assert_eq!(plain(&[seed]), expect(&[(9, "A")]));

    let step = handle(&mut coordinator, &["B", "C"]);
    assert_eq!(plain(&step.dispatches), expect(&[(0, "B"), (1, "C")]));
    assert_eq!(step.found, None);

    let step = handle(&mut coordinator, &["D"]);
    assert_eq!(plain(&step.dispatches), expect(&[(2, "D")]));
    assert_eq!(step.found, None);

    let step = handle(&mut coordinator, &["T"]);
    assert!(step.dispatches.is_empty());
    assert_eq!(step.found, Some("T".to_string()));
    assert!(coordinator.has_found());
}

#[test]
fn search_ends_with_the_target_whatever_is_still_under_way() {
    let (mut coordinator, _) = begin(10, "A", "T");
    handle(&mut coordinator, &["B", "C"]);

    let step = handle(&mut coordinator, &["T"]);
    assert!(step.dispatches.is_empty());
    assert_eq!(step.found, Some("T".to_string()));

    let step = handle(&mut coordinator, &["D"]);
    assert!(step.dispatches.is_empty());
    assert_eq!(step.found, None);
    assert!(!coordinator.has_visited("D"));
}

#[test]
fn each_url_is_dispatched_at_most_once() {
    let (mut coordinator, seed) = begin(3, "A", "T");
    let mut all = plain(&[seed]);
    for links in [
        vec!["B", "B", "A", "C"],
        vec!["C", "B", "A"],
        vec![],
        vec!["D", "A", "D", "E", "B"],
        vec!["E", "F"],
    ] {
        all.extend(plain(&handle(&mut coordinator, &links).dispatches));
    }
    let urls: Vec<&str> = all.iter().map(|(_, url)| url.as_str()).collect();
    assert_eq!(urls, vec!["A", "B", "C", "D", "E", "F"]);
    for url in urls {
        assert!(coordinator.has_visited(url));
    }
    assert!(!coordinator.has_visited("T"));
}

#[test]
fn visited_never_shrinks() {
    let (mut coordinator, _) = begin(2, "A", "T");
    let mut seen = vec!["A".to_string()];
    for links in [vec!["B"], vec![], vec!["A", "B"], vec!["C", "T", "D"], vec!["E"]] {
        for d in handle(&mut coordinator, &links).dispatches {
            seen.push(d.msg.url().clone());
        }
        for url in &seen {
            assert!(coordinator.has_visited(url));
        }
    }
}

#[test]
fn dispatches_go_round_the_pool() {
    let (mut coordinator, seed) = begin(3, "start", "T");
    assert_eq!(seed.worker, 2);
    let step = handle(&mut coordinator, &["1", "2", "3", "4"]);
    assert_eq!(plain(&step.dispatches), expect(&[(0, "1"), (1, "2"), (2, "3"), (0, "4")]));
    assert_eq!(coordinator.rotation().ids(), vec![1, 2, 0]);
    let step = handle(&mut coordinator, &["4", "5", "start", "6"]);
    assert_eq!(plain(&step.dispatches), expect(&[(1, "5"), (2, "6")]));
    assert_eq!(coordinator.rotation().ids(), vec![0, 1, 2]);
}

#[test]
fn the_rotation_always_holds_each_handle_once() {
    let (mut coordinator, _) = begin(4, "start", "T");
    let mut count = vec![0usize; 4];
    for round in 0..9 {
        let links: Vec<String> = (0..round).map(|k| format!("{}-{}", round, k)).collect();
        let step = coordinator.handle(MasterMsg::Found(links));
        for d in &step.dispatches {
            count[d.worker] += 1;
        }
        let mut ids = coordinator.rotation().ids();
        ids.sort();
        assert_eq!(ids, vec![0, 1, 2, 3]);
        assert_eq!(coordinator.rotation().len(), 4);
    }
    assert_eq!(count, vec![9, 9, 9, 9]);
}

#[test]
fn the_seed_does_not_turn_the_rotation() {
    let (mut coordinator, seed) = begin(3, "A", "T");
    assert_eq!(seed.worker, 2);
    assert_eq!(coordinator.rotation().ids(), vec![0, 1, 2]);
    let step = handle(&mut coordinator, &["B"]);
    assert_eq!(plain(&step.dispatches), expect(&[(0, "B")]));
}

#[test]
fn handling_stops_at_the_target() {
    let (mut coordinator, _) = begin(3, "A", "T");
    let step = handle(&mut coordinator, &["B", "A", "C", "T", "D", "T", "E"]);
    assert_eq!(plain(&step.dispatches), expect(&[(0, "B"), (1, "C")]));
    assert_eq!(step.found, Some("T".to_string()));
    assert!(coordinator.has_found());
    assert!(coordinator.has_visited("C"));
    assert!(!coordinator.has_visited("D"));
    assert!(!coordinator.has_visited("E"));
    assert!(!coordinator.has_visited("T"));
    assert_eq!(coordinator.rotation().ids(), vec![2, 0, 1]);
}

#[test]
fn success_is_reported_once_and_nothing_is_dispatched_after_it() {
    let (mut coordinator, _) = begin(3, "A", "T");
    assert_eq!(handle(&mut coordinator, &["B"]).found, None);
    assert_eq!(handle(&mut coordinator, &["T", "C"]).found, Some("T".to_string()));
    for links in [vec!["T"], vec!["C", "D"], vec![], vec!["E", "T"]] {
        let step = handle(&mut coordinator, &links);
        assert!(step.dispatches.is_empty());
        assert_eq!(step.found, None);
    }
    assert!(coordinator.has_found());
    assert!(!coordinator.has_visited("C"));
    assert_eq!(coordinator.rotation().ids(), vec![1, 2, 0]);
}

#[test]
fn the_target_is_found_even_where_it_was_the_start() {
    let (mut coordinator, seed) = begin(2, "T", "T");
    assert_eq!(seed.msg.url(), "T");
    let step = handle(&mut coordinator, &["B", "T"]);
    assert_eq!(plain(&step.dispatches), expect(&[(0, "B")]));
    assert_eq!(step.found, Some("T".to_string()));
}

#[test]
fn an_empty_message_changes_nothing() {
    let (mut coordinator, _) = begin(3, "A", "T");
    handle(&mut coordinator, &["B"]);
    let before = coordinator.rotation().ids();
    let step = handle(&mut coordinator, &[]);
    assert!(step.dispatches.is_empty());
    assert_eq!(step.found, None);
    assert_eq!(coordinator.rotation().ids(), before);
    assert!(coordinator.has_visited("A"));
    assert!(coordinator.has_visited("B"));
    assert!(!coordinator.has_found());
}

#[test]
fn messages_after_a_failed_fetch_are_handled_as_before() {
    let run = |with_failure: bool| {
        let (mut coordinator, _) = begin(3, "A", "T");
        let mut all = plain(&handle(&mut coordinator, &["B", "C"]).dispatches);
        if with_failure {
            let failed = link_search::pipeline::report(Err(link_search::pipeline::PipelineError::Fetch(
                link_search::pipeline::FetchError {
                    url: "B".to_string(),
                    cause: "timed out".to_string(),
                },
            )));
            let step = coordinator.handle(failed);
            assert!(step.dispatches.is_empty());
            assert_eq!(step.found, None);
        }
        let step = handle(&mut coordinator, &["D", "T"]);
        all.extend(plain(&step.dispatches));
        (all, step.found, coordinator.rotation().ids())
    };
    assert_eq!(run(true), run(false));
    assert_eq!(run(true).0, expect(&[(0, "B"), (1, "C"), (2, "D")]));
    assert_eq!(run(true).1, Some("T".to_string()));
}

#[test]
fn a_message_of_visited_links_dispatches_nothing() {
    let (mut coordinator, _) = begin(2, "A", "T");
    handle(&mut coordinator, &["B", "C"]);
    let step = handle(&mut coordinator, &["A", "B", "C", "A"]);
    assert!(step.dispatches.is_empty());
    assert_eq!(step.found, None);
    assert_eq!(coordinator.rotation().ids(), vec![0, 1]);
}
