use twitch_notify::text::{join_strings, replace_char, split_str};

fn strings(v: &[&str]) -> Vec<String> {
    v.iter().map(|s| s.to_string()).collect()
}

#[test]
fn split_matches_std_split() {
    for (s, sep) in [
        ("a\r\nb\r\nc", "\r\n"),
        ("", "\r\n"),
        ("\r\n", "\r\n"),
        ("abc", ","),
        ("a,,b,", ","),
        ("aaa", "aa"),
        ("x.y.z", "."),
    ] {
        let expected: Vec<String> = s.split(sep).map(|p| p.to_string()).collect();
        assert_eq!(split_str(s, sep), expected);
    }
}

#[test]
fn join_then_split_gives_the_pieces() {
    let parts = strings(&["alice", "bob", "carol"]);
    let joined = join_strings(&parts, "\r\n");
    assert_eq!(joined, "alice\r\nbob\r\ncarol");
    assert_eq!(split_str(&joined, "\r\n"), parts);
}

#[test]
fn split_then_join_gives_the_text() {
    let text = "one\r\n\r\ntwo\r\n";
    let parts = split_str(text, "\r\n");
    assert_eq!(join_strings(&parts, "\r\n"), text);
}

#[test]
fn join_of_nothing_is_empty() {
    assert_eq!(join_strings(&Vec::new(), ","), "");
}

#[test]
fn replace_char_matches_std_replace() {
    assert_eq!(replace_char("a_b__c", '_', " "), "a_b__c".replace("_", " "));
    assert_eq!(replace_char("\"cursor\"", '"', ""), "cursor");
    assert_eq!(replace_char("2021-01-02T03:04:05Z", 'T', " "), "2021-01-02 03:04:05Z");
}
