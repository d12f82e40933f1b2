use search_api::color::Color;
use search_api::fetch::{FetchState, FetchStep, MAX_FETCH_TRIES};
use search_api::reservoir::{CandidateItem, Reservoir};
use search_api::session::{ErrorCode, SearchSession};
use search_api::worker::distance_from_reply;

fn item(id: &str, url: &str, num_comments: u64) -> CandidateItem {
    CandidateItem { id: String::from(id), url: String::from(url), num_comments }
}

fn red() -> Color {
    Color::new(54_290, 80_810, 69_890).unwrap()
}

#[test]
fn empty_query_is_fatal_before_any_request() {
    match SearchSession::new("!!!", red()) {
        Err(e) => assert_eq!(e, ErrorCode::InvalidQuery),
        Ok(_) => panic!("a blank query must not open a session"),
    }
}

#[test]
fn reservoir_extraction_ignores_insertion_order() {
    let entries = [
        (50u32, item("a", "a.jpg", 1)),
        (10u32, item("b", "b.jpg", 2)),
        (90u32, item("c", "c.jpg", 3)),
        (30u32, item("d", "d.jpg", 4)),
    ];
    let mut forward = Reservoir::new(300);
    for (d, it) in entries.iter() {
        forward.insert(*d, it.clone());
    }
    let mut backward = Reservoir::new(300);
    for (d, it) in entries.iter().rev() {
        backward.insert(*d, it.clone());
    }
    let first = forward.extract_top(3);
    let second = backward.extract_top(3);
    assert_eq!(first.len(), 3);
    let dists: Vec<u32> = first.iter().map(|p| p.0).collect();
    assert_eq!(dists, vec![10, 30, 50]);
    for (x, y) in first.iter().zip(second.iter()) {
        assert_eq!(x.0, y.0);
        assert_eq!(x.1.id, y.1.id);
        assert_eq!(x.1.url, y.1.url);
        assert_eq!(x.1.num_comments, y.1.num_comments);
    }
}

#[test]
fn extraction_is_shorter_when_fewer_candidates_exist() {
    let mut r = Reservoir::new(300);
    r.insert(42, item("only", "only.png", 0));
    let top = r.extract_top(3);
    assert_eq!(top.len(), 1);
    assert_eq!(top[0].0, 42);
}

#[test]
fn eleven_redirects_never_resolve() {
    let mut state = FetchState::start(String::from("https://imgur.com/start.png"));
    let mut requests = 0u32;
    let outcome = loop {
        requests += 1;
        let next = format!("https://imgur.com/hop{}.png", requests);
        match state.step(301, Some(next)) {
            FetchStep::Follow(s) => state = s,
            other => break other,
        }
        if requests > 11 {
            panic!("the chain must end within the try budget");
        }
    };
    assert!(matches!(outcome, FetchStep::NoResult));
    assert_eq!(requests, MAX_FETCH_TRIES as u32);
    // the failed candidate is deprioritized with the maximal sentinel
    let (distance, write_back) = distance_from_reply(None);
    assert_eq!(distance, u32::MAX);
    assert!(write_back.is_none());
}

#[test]
fn success_and_odd_statuses_end_the_fetch() {
    let state = FetchState::start(String::from("u"));
    assert!(matches!(state.step(200, None), FetchStep::Deliver));
    let state = FetchState::start(String::from("u"));
    assert!(matches!(state.step(404, None), FetchStep::NoResult));
    let state = FetchState::start(String::from("u"));
    assert!(matches!(state.step(301, None), FetchStep::NoResult));
}

#[test]
fn two_pages_rank_three_candidates_by_distance() {
    let target = red();
    let mut session = SearchSession::new("sunset", target).unwrap();
    assert_eq!(session.initial_progress(), "{\"v\":0}");

    // first page: two classifiable images and one discarded link
    let url = session.next_page_url();
    assert!(url.contains("q=sunset"));
    session.note_cursor(String::from("t3_page2"));
    let distances = [50u32, 10u32];
    let page_one = [
        item("one", "https://imgur.com/one.jpg", 11),
        item("skip", "https://example.com/not-an-image", 0),
        item("two", "https://imgur.com/two.png", 22),
    ];
    let mut fed = 0usize;
    for entry in page_one.iter() {
        if session.reservoir_full() {
            break;
        }
        if let Some((event, classified)) = session.classify_entry(entry) {
            assert!(event.starts_with("{\"v\":0.0"));
            assert!(event.ends_with(&format!(",\"msg\":\"{}\"}}", classified)));
            session.add_candidate(entry, classified, distances[fed]);
            fed += 1;
        }
    }
    assert_eq!(fed, 2);

    // second page: one more image, then the feed is done
    let url = session.next_page_url();
    assert!(url.ends_with("&after=t3_page2"));
    let entry = item("three", "https://imgur.com/three.gif", 33);
    let (_, classified) = session.classify_entry(&entry).unwrap();
    session.add_candidate(&entry, classified, 90);

    let (items, done_event, result_event) = session.finish();
    assert_eq!(done_event, "{\"v\":1}");
    let ids: Vec<&str> = items.iter().map(|it| it.id.as_str()).collect();
    assert_eq!(ids, vec!["two", "one", "three"]);
    let expected = "{\"images\":[\
        {\"id\":\"two\",\"url\":\"https://imgur.com/two.png\",\"num_comments\":22},\
        {\"id\":\"one\",\"url\":\"https://imgur.com/one.jpg\",\"num_comments\":11},\
        {\"id\":\"three\",\"url\":\"https://imgur.com/three.gif\",\"num_comments\":33}]}";
    assert_eq!(result_event, expected);
}

#[test]
fn pagination_stops_once_the_reservoir_is_full() {
    let mut session = SearchSession::new("q", red()).unwrap();
    let mut admitted = 0u32;
    while !session.reservoir_full() {
        let entry = item("x", "https://imgur.com/x.png", 1);
        let (_, classified) = session.classify_entry(&entry).unwrap();
        session.add_candidate(&entry, classified, admitted);
        admitted += 1;
    }
    assert_eq!(admitted, 300);
    let (items, _, _) = session.finish();
    assert_eq!(items.len(), 3);
}
