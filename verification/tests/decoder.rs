use ytm::schema::{is_v1, v1_markers, Order};
use ytm::text::{contains_sub, str_eq};
use ytm::utils::{
    extract_youtube_channel_id, extract_youtube_video_id, is_buffer_contains_keywords,
};
use ytm::v1::{normalize_channel, normalize_title, Schema};

#[test]
fn video_id_from_watch_url() {
    let id = extract_youtube_video_id("https://www.youtube.com/watch?v=dQw4w9WgXcQ".to_string());
    assert_eq!(id, "dQw4w9WgXcQ");
}

#[test]
fn video_id_from_short_link_and_music_host() {
    assert_eq!(
        extract_youtube_video_id("https://youtu.be/abcdefghijk".to_string()),
        "abcdefghijk"
    );
    assert_eq!(
        extract_youtube_video_id("https://music.youtube.com/watch?v=AB_-8zyxwvu".to_string()),
        "AB_-8zyxwvu"
    );
    assert_eq!(
        extract_youtube_video_id("http://youtube.com/channel/ABCDEFGHIJK".to_string()),
        "ABCDEFGHIJK"
    );
}

#[test]
fn video_id_takes_first_eleven_identifier_characters() {
    // More identifier characters follow; the capture is exactly eleven.
    let id = extract_youtube_video_id(
        "https://www.youtube.com/watch?v=dQw4w9WgXcQlonger".to_string(),
    );
    assert_eq!(id, "dQw4w9WgXcQ");
}

#[test]
fn video_id_falls_back_to_raw_string() {
    assert_eq!(
        extract_youtube_video_id("no url here".to_string()),
        "no url here"
    );
    // Too few identifier characters after the prefix.
    assert_eq!(
        extract_youtube_video_id("https://youtu.be/short".to_string()),
        "https://youtu.be/short"
    );
    assert_eq!(extract_youtube_video_id(String::new()), "");
}

#[test]
fn channel_id_from_each_path_kind() {
    assert_eq!(
        extract_youtube_channel_id("https://www.youtube.com/channel/UC12345".to_string()),
        "UC12345"
    );
    assert_eq!(
        extract_youtube_channel_id("https://youtube.com/c/SomeName".to_string()),
        "SomeName"
    );
    assert_eq!(
        extract_youtube_channel_id("http://www.youtube.com/user/old_user-1".to_string()),
        "old_user-1"
    );
}

#[test]
fn channel_id_capture_stops_at_path_separator() {
    assert_eq!(
        extract_youtube_channel_id("https://www.youtube.com/channel/UC-abc/videos".to_string()),
        "UC-abc"
    );
}

#[test]
fn channel_id_falls_back_to_raw_string() {
    assert_eq!(
        extract_youtube_channel_id("plain text".to_string()),
        "plain text"
    );
    // music. hosts are not a recognized channel shape.
    assert_eq!(
        extract_youtube_channel_id("https://music.youtube.com/channel/UC12345".to_string()),
        "https://music.youtube.com/channel/UC12345"
    );
}

#[test]
fn title_prefix_is_stripped_once() {
    assert_eq!(normalize_title("Watched A video".to_string()), "A video");
    assert_eq!(normalize_title("Plain title".to_string()), "Plain title");
    assert_eq!(normalize_title("Watched ".to_string()), "");
    assert_eq!(
        normalize_title("Watched Watched twice".to_string()),
        "Watched twice"
    );
}

#[test]
fn channel_defaults_to_placeholder_when_absent() {
    let c = normalize_channel(Vec::new());
    assert_eq!(c.id, "-");
    assert_eq!(c.name, "-");
}

#[test]
fn channel_takes_first_entry_only() {
    let c = normalize_channel(vec![
        (
            "https://www.youtube.com/channel/UCfirst".to_string(),
            "First".to_string(),
        ),
        (
            "https://www.youtube.com/channel/UCsecond".to_string(),
            "Second".to_string(),
        ),
    ]);
    assert_eq!(c.id, "UCfirst");
    assert_eq!(c.name, "First");
}

#[test]
fn schema_from_parts_normalizes_every_field() {
    let r = Schema::from_parts(
        "https://www.youtube.com/watch?v=dQw4w9WgXcQ".to_string(),
        "Watched A video".to_string(),
        12345,
        vec![(
            "https://www.youtube.com/channel/UCx_y-1".to_string(),
            "Chan".to_string(),
        )],
    );
    assert_eq!(r.id, "dQw4w9WgXcQ");
    assert_eq!(r.title, "A video");
    assert_eq!(r.time, 12345);
    assert_eq!(r.channel.id, "UCx_y-1");
    assert_eq!(r.channel.name, "Chan");
}

#[test]
fn sniffer_requires_every_keyword() {
    let lines = vec![
        "line with alpha".to_string(),
        "line with beta and gamma".to_string(),
    ];
    let all = vec!["alpha".to_string(), "beta".to_string(), "gamma".to_string()];
    assert!(is_buffer_contains_keywords(&lines, &all));
    let missing = vec!["alpha".to_string(), "delta".to_string()];
    assert!(!is_buffer_contains_keywords(&lines, &missing));
    let none: Vec<String> = Vec::new();
    assert!(is_buffer_contains_keywords(&lines, &none));
}

#[test]
fn recognizes_v1_markers() {
    let mut lines = Vec::new();
    for key in v1_markers() {
        lines.push(format!("  {}: something,", key));
    }
    assert!(is_v1(&lines));
    // Without the "products" marker the shape is not recognized.
    let truncated: Vec<String> = lines[..7].to_vec();
    assert!(!is_v1(&truncated));
    assert!(!is_v1(&Vec::new()));
}

#[test]
fn substring_search_matches_anywhere() {
    assert!(contains_sub("hello world", "lo wo"));
    assert!(contains_sub("hello", ""));
    assert!(!contains_sub("hello", "world"));
    assert!(!contains_sub("", "a"));
    assert!(contains_sub("abc", "abc"));
}

#[test]
fn string_equality_is_exact() {
    assert!(str_eq("abc", "abc"));
    assert!(!str_eq("abc", "abd"));
    assert!(!str_eq("abc", "ab"));
    assert!(str_eq("", ""));
}

#[test]
fn order_keys_round_trip() {
    let pairs = Order::collect_key_label_pair();
    assert_eq!(pairs.len(), 4);
    assert_eq!(pairs[0], ("latest".to_string(), "Latest".to_string()));
    assert_eq!(pairs[1], ("oldest".to_string(), "Oldest".to_string()));
    assert_eq!(
        pairs[2],
        ("most_watched".to_string(), "Most Watched".to_string())
    );
    assert_eq!(
        pairs[3],
        ("least_watched".to_string(), "Least Watched".to_string())
    );
    for (key, _) in pairs {
        let order = Order::from_key(&key).unwrap();
        assert_eq!(order.to_key(), key);
    }
    assert!(Order::from_key("sideways").is_none());
}
