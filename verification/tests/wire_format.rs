use search_api::color::Color;
use search_api::json::{progress_event, result_json};
use search_api::loggable::Loggable;
use search_api::numfmt::{format_fraction, format_i32, parse_i32};
use search_api::ord::OrdFirst;
use search_api::reservoir::CandidateItem;
use search_api::worker::{dominant_cluster, evaluate_candidate};

fn c(l: i32, a: i32, b: i32) -> Color {
    Color::new(l, a, b).unwrap()
}

#[test]
fn decimal_text_round_trips() {
    assert_eq!(format_i32(0), "0");
    assert_eq!(format_i32(-123), "-123");
    assert_eq!(format_i32(i32::MAX), "2147483647");
    assert_eq!(format_i32(i32::MIN), "-2147483648");
    for v in [0, 7, -7, 1000, i32::MAX, i32::MIN] {
        assert_eq!(parse_i32(&format_i32(v)), Some(v));
    }
    assert_eq!(parse_i32("007"), Some(7));
    assert_eq!(parse_i32(""), None);
    assert_eq!(parse_i32("-"), None);
    assert_eq!(parse_i32("12a"), None);
    assert_eq!(parse_i32("2147483648"), None);
    assert_eq!(parse_i32("-2147483649"), None);
}

#[test]
fn fractions_print_like_the_progress_stream_expects() {
    assert_eq!(format_fraction(0, 300), "0");
    assert_eq!(format_fraction(300, 300), "1");
    assert_eq!(format_fraction(1, 300), "0.003333");
    assert_eq!(format_fraction(150, 300), "0.500000");
    assert_eq!(format_fraction(450, 300), "1.500000");
}

#[test]
fn progress_events_match_the_wire_shape() {
    assert_eq!(progress_event(0, 1, None), "{\"v\":0}");
    assert_eq!(progress_event(1, 1, None), "{\"v\":1}");
    assert_eq!(
        progress_event(71, 300, Some("https://imgur.com/a.png")),
        "{\"v\":0.236666,\"msg\":\"https://imgur.com/a.png\"}"
    );
}

#[test]
fn terminal_payload_is_well_formed_json() {
    let items = vec![
        CandidateItem {
            id: String::from("with\"quote"),
            url: String::from("https://imgur.com/a.png"),
            num_comments: 7,
        },
        CandidateItem {
            id: String::from("line\nbreak"),
            url: String::from("https://imgur.com/b.gif"),
            num_comments: 0,
        },
    ];
    let text = result_json(&items);
    assert_eq!(
        text,
        "{\"images\":[{\"id\":\"with\\\"quote\",\"url\":\"https://imgur.com/a.png\",\"num_comments\":7},{\"id\":\"line\\nbreak\",\"url\":\"https://imgur.com/b.gif\",\"num_comments\":0}]}"
    );
    let value: serde_json::Value = serde_json::from_str(&text).unwrap();
    let images = value.get("images").unwrap().as_array().unwrap();
    assert_eq!(images.len(), 2);
    assert_eq!(images[0].get("id").unwrap().as_str(), Some("with\"quote"));
    assert_eq!(images[1].get("id").unwrap().as_str(), Some("line\nbreak"));
    assert_eq!(images[0].get("num_comments").unwrap().as_u64(), Some(7));
}

#[test]
fn empty_result_list_serializes_to_an_empty_array() {
    let items: Vec<CandidateItem> = Vec::new();
    assert_eq!(result_json(&items), "{\"images\":[]}");
}

#[test]
fn the_dominant_cluster_is_the_best_covered_one() {
    let centroids = vec![c(1, 1, 1), c(2, 2, 2), c(3, 3, 3)];
    let assignments: Vec<u8> = vec![1, 2, 1, 0, 1];
    assert_eq!(dominant_cluster(&centroids, &assignments), Some(c(2, 2, 2)));
    // a tie goes to the earliest cluster
    let tied: Vec<u8> = vec![2, 0, 0, 2];
    assert_eq!(dominant_cluster(&centroids, &tied), Some(c(1, 1, 1)));
    // nothing to cluster
    assert_eq!(dominant_cluster(&centroids, &Vec::new()), None);
    assert_eq!(dominant_cluster(&Vec::new(), &assignments), None);
}

#[test]
fn evaluation_reports_distance_to_the_dominant_color() {
    let target = c(0, 0, 0);
    let centroids = vec![c(3_000, 4_000, 0), c(9, 9, 9)];
    let assignments: Vec<u8> = vec![0, 0, 1];
    let reply = evaluate_candidate(&target, Some((centroids, assignments)));
    let (dominant, distance) = reply.unwrap();
    assert_eq!(dominant, c(3_000, 4_000, 0));
    assert_eq!(distance, 5_000);
    assert_eq!(evaluate_candidate(&target, None), None);
}

#[test]
fn results_pass_through_the_logging_hook_unchanged() {
    let good: Result<u32, &str> = Ok(7);
    assert_eq!(good.log_if_error(), Ok(7));
    let bad: Result<u32, &str> = Err("boom");
    assert_eq!(bad.log_if_error(), Err("boom"));
}

#[test]
fn pairs_order_by_their_first_component_alone() {
    assert!(OrdFirst(1u32, "zebra") == OrdFirst(1u32, "ant"));
    assert!(OrdFirst(1u32, "z") < OrdFirst(2u32, "a"));
    assert!(OrdFirst(3u32, ()) > OrdFirst(2u32, ()));
}
