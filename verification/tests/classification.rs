use search_api::classify::is_image;
use search_api::session::{get_reddit_search_url, sanitize_query};

#[test]
fn plain_image_extensions_classify_unchanged() {
    assert_eq!(is_image("foo.jpg").as_deref(), Some("foo.jpg"));
    assert_eq!(is_image("foo.png").as_deref(), Some("foo.png"));
    assert_eq!(is_image("foo.gif").as_deref(), Some("foo.gif"));
}

#[test]
fn allowlisted_host_animated_extension_is_normalized() {
    assert_eq!(
        is_image("https://imgur.com/foo.gifv").as_deref(),
        Some("https://imgur.com/foo.gif")
    );
}

#[test]
fn allowlisted_host_without_extension_gets_one_appended() {
    assert_eq!(
        is_image("https://imgur.com/foo").as_deref(),
        Some("https://imgur.com/foo.png")
    );
}

#[test]
fn allowlisted_host_with_extension_is_kept() {
    assert_eq!(
        is_image("https://media.tumblr.com/pic.jpg").as_deref(),
        Some("https://media.tumblr.com/pic.jpg")
    );
    // no doubled extension
    assert!(!is_image("https://fbcdn.net/x.png").unwrap().ends_with(".png.png"));
}

#[test]
fn unknown_host_without_extension_is_no_image() {
    assert_eq!(is_image("https://example.com/foo"), None);
    assert_eq!(is_image("https://example.com/foo.jpeg"), None);
    assert_eq!(is_image("https://example.com/foo.gifv"), None);
}

#[test]
fn sanitization_keeps_only_ascii_alphanumerics() {
    assert_eq!(sanitize_query("sunset"), "sunset");
    assert_eq!(sanitize_query("sun set!"), "sunset");
    assert_eq!(sanitize_query("h\u{e9}llo w\u{f6}rld 42"), "hllowrld42");
    assert_eq!(sanitize_query("\u{2603} \u{2764}"), "");
}

#[test]
fn empty_sanitized_query_makes_no_request() {
    assert!(get_reddit_search_url("?!?", 1000, None).is_none());
    assert!(get_reddit_search_url("", 1000, None).is_none());
}

#[test]
fn search_url_carries_query_limit_and_cursor() {
    let site = "%20site:(500px.com%20OR%20abload.de%20OR%20deviantart.com%20OR%20deviantart.net%20OR%20fav.me%20OR%20fbcdn.net%20OR%20flickr.com%20OR%20forgifs.com%20OR%20giphy.com%20OR%20gfycat.com%20OR%20gifsoup.com%20OR%20gyazo.com%20OR%20imageshack.us%20OR%20imgclean.com%20OR%20imgur.com%20OR%20instagr.am%20OR%20instagram.com%20OR%20mediacru.sh%20OR%20media.tumblr.com%20OR%20min.us%20OR%20minus.com%20OR%20myimghost.com%20OR%20photobucket.com%20OR%20picsarus.com%20OR%20puu.sh%20OR%20staticflickr.com%20OR%20tinypic.com%20OR%20twitpic.com)";
    let expected = format!(
        "https://www.reddit.com/r/php/search.json?q=sunset{}&limit=1000&sort=comments&restrict_sr=0",
        site
    );
    assert_eq!(
        get_reddit_search_url("sun set!", 1000, None).as_deref(),
        Some(expected.as_str())
    );
    let cursor = String::from("t3_abc");
    let expected_more = format!("{}&after=t3_abc", expected);
    assert_eq!(
        get_reddit_search_url("sunset", 1000, Some(&cursor)).as_deref(),
        Some(expected_more.as_str())
    );
}
