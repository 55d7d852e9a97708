use isola::text::{concat2, concat3, eq_ignore_case, join_path, replace_char, text_eq};

#[test]
fn text_helpers() {
    assert!(text_eq("gr\u{fc}n", "gr\u{fc}n"));
    assert!(!text_eq("a", "ab"));
    assert_eq!(concat2("a", "b"), "ab");
    assert_eq!(concat3("a", "", "c"), "ac");
    assert!(eq_ignore_case("Content-Type", "content-TYPE"));
    assert!(!eq_ignore_case("\u{c4}", "\u{e4}"));
    assert_eq!(replace_char("a-b-c", '-', '_'), "a_b_c");
    assert_eq!(join_path("/a", "b"), "/a/b");
    assert_eq!(join_path("/a/", "b"), "/a/b");
    assert_eq!(join_path("", "b"), "b");
}
