use ronaldos_core::paths::{extension, is_within, join, relative_to};
use ronaldos_core::text::{chars_of, has_prefix, range_is, same_text};

#[test]
fn extension_is_what_follows_the_last_dot_of_the_file_name() {
    assert_eq!(extension("test1.dash"), Some("dash".to_string()));
    assert_eq!(extension("/data/videos/a.b.stream"), Some("stream".to_string()));
    assert_eq!(extension("/data/videos/noext"), None);
    assert_eq!(extension("/data.d/noext"), None);
    assert_eq!(extension(".stream"), None);
    assert_eq!(extension("/data/.hidden"), None);
    assert_eq!(extension("name."), Some(String::new()));
    assert_eq!(extension(""), None);
    assert_eq!(extension("/data/übung.m3u8"), Some("m3u8".to_string()));
}

#[test]
fn within_compares_whole_components() {
    assert!(is_within("/data/a.stream", "/data"));
    assert!(is_within("/data", "/data"));
    assert!(is_within("/data/a.stream", "/data/"));
    assert!(is_within("anything", ""));
    assert!(!is_within("/data2/a.stream", "/data"));
    assert!(!is_within("/dat", "/data"));
    assert!(!is_within("/other/a.stream", "/data"));
}

#[test]
fn relative_to_strips_the_root_and_one_separator() {
    assert_eq!(relative_to("/data/a.stream", "/data"), Some("a.stream".to_string()));
    assert_eq!(relative_to("/data/a.stream", "/data/"), Some("a.stream".to_string()));
    assert_eq!(relative_to("/data", "/data"), Some(String::new()));
    assert_eq!(relative_to("/data2/a.stream", "/data"), None);
}

#[test]
fn join_puts_one_separator_between_base_and_name() {
    assert_eq!(join("/data", "a.stream"), "/data/a.stream");
    assert_eq!(join("/data/", "a.stream"), "/data/a.stream");
    assert_eq!(join("", "a.stream"), "a.stream");
    assert_eq!(join("/data", "/abs/a.stream"), "/abs/a.stream");
    assert_eq!(join("/data", ""), "/data/");
}

#[test]
fn text_helpers_compare_by_characters() {
    assert!(same_text("stream", "stream"));
    assert!(!same_text("stream", "streams"));
    assert!(!same_text("stream", "strean"));
    assert!(same_text("", ""));
    assert_eq!(chars_of("aé/"), vec!['a', 'é', '/']);
    assert!(has_prefix("/.well-known/acme", "/.well-known"));
    assert!(!has_prefix("/.well", "/.well-known"));
    assert!(has_prefix("abc", ""));
    let text = chars_of("key=value");
    assert!(range_is(&text, 0, 3, &chars_of("key")));
    assert!(range_is(&text, 4, 9, &chars_of("value")));
    assert!(!range_is(&text, 4, 10, &chars_of("value")));
    assert!(!range_is(&text, 5, 4, &chars_of("")));
}

#[test]
fn paths_are_taken_as_they_are_written() {
    assert_eq!(extension("a.stream/"), None);
    assert_eq!(extension(".."), None);
    assert_eq!(extension("/data/.."), None);
    assert_eq!(extension("..."), Some(String::new()));
    assert_eq!(extension("/data/a..stream"), Some("stream".to_string()));
    assert!(!is_within("/data", "/data/"));
    assert!(is_within("/data/", "/data"));
    assert!(is_within("/data//x", "/data"));
    assert_eq!(relative_to("/data//x", "/data"), Some("/x".to_string()));
    assert_eq!(relative_to("/data/x/", "/data"), Some("x/".to_string()));
    assert_eq!(relative_to("/data/./x", "/data"), Some("./x".to_string()));
}
