use twitch_notify::report::{creds_missing, creds_report, progress_text, follow_events, header, is_favourite, spoken_name, stream_events, stream_line, Watch};
use twitch_notify::twitch::Stream;

fn s(v: &[&str]) -> Vec<String> {
    v.iter().map(|x| x.to_string()).collect()
}

fn stream(id: &str, login: &str) -> Stream {
    Stream {
        id: id.to_string(),
        user_id: String::new(),
        user_login: login.to_string(),
        user_name: "Name".to_string(),
        game_id: String::new(),
        game_name: "Game".to_string(),
        type_: String::new(),
        title: "Title".to_string(),
        viewer_count: 42,
        started_at: String::new(),
        language: String::new(),
        thumbnail_url: String::new(),
        tag_ids: vec![],
        is_mature: false,
    }
}

#[test]
fn header_line() {
    assert_eq!(header("bejker321", 401738141), "\x1b[94mbejker321 \x1b[0m(\x1b[96m401738141\x1b[0m)\n");
}

#[test]
fn follows_and_unfollows() {
    let e = follow_events(&s(&["a", "new_one"]), &s(&["a", "gone"]), false);
    assert_eq!(e.text, "\x1b[95mnew follow new_one\n\x1b[95mnew unfollow gone\n");
    assert_eq!(e.speech, s(&["new follow new one", "new unfollow gone"]));
    let first = follow_events(&s(&["a"]), &s(&[]), true);
    assert_eq!(first.text, "");
    assert!(first.speech.is_empty());
    let same = follow_events(&s(&["a", "b"]), &s(&["b", "a"]), false);
    assert_eq!(same.text, "");
}

#[test]
fn streams_started_and_ended() {
    let now = vec![stream("1", "on_air"), stream("2", "still")];
    let before = vec![stream("2", "still"), stream("3", "ended")];
    let e = stream_events(&now, &before, false);
    assert_eq!(e.text, "\x1b[95mnew stream on_air\x1b[0m\n\x1b[95mstream end ended\x1b[0m\n");
    assert_eq!(e.speech, s(&["new stream on air", "stream end ended"]));
    assert_eq!(stream_events(&now, &now, false).text, "");
}

#[test]
fn stream_lines() {
    let st = stream("1", "fav_user");
    let (plain, none) = stream_line(&st, false, false, "01:00:00");
    assert_eq!(plain, "\x1b[93m42\x1b[0m Name \x1b[92mGame \x1b[96m\"Title\"\x1b[0m \x1b[92m01:00:00\x1b[0m\n");
    assert!(none.is_none());
    let (fav, phrase) = stream_line(&st, true, false, "x");
    assert!(fav.contains("\x1b[0m \x1b[91mName"));
    assert_eq!(phrase, Some("fav user fav user is live".to_string()));
    let (watched, quiet) = stream_line(&st, true, true, "x");
    assert!(watched.contains("\x1b[91mwatching: Name"));
    assert!(quiet.is_none());
}

#[test]
fn favourites_and_spoken_names() {
    assert!(is_favourite(&s(&["x", "y"]), &"y".to_string()));
    assert!(!is_favourite(&s(&["x"]), &"Y".to_string()));
    assert_eq!(spoken_name("a_b_c"), "a b c");
}

#[test]
fn credentials_report_lines() {
    assert!(creds_missing("", "x"));
    assert!(creds_missing("x", ""));
    assert!(!creds_missing("x", "y"));
    assert_eq!(
        creds_report("", "", true),
        s(&[
            "\x1b[93mFailed\x1b[0m",
            "\x1b[93mWarning: client-id is not set, this will likely couse an error later on!\x1b[0m",
            "\x1b[93mWarning: oauth is not set, this will likely couse an error later on!\x1b[0m",
        ])
    );
    assert_eq!(creds_report("id", "tok", true), s(&["Success\nTry using the -r-c argument."]));
    assert!(creds_report("id", "tok", false).is_empty());
}

#[test]
fn progress_lines() {
    assert_eq!(progress_text(0, 10), "\r| 0/10 updated!");
    assert_eq!(progress_text(1, 10), format!("\r{}\r/ 1/10", " ".repeat(15)));
    assert_eq!(progress_text(2, 10), "\r- 2/10");
    assert_eq!(progress_text(3, 10), "\r\\ 3/10");
    assert_eq!(progress_text(4, 10), "\r| 4/10");
}

#[test]
fn refreshes_carry_what_was_seen() {
    let mut w = Watch::new();
    assert!(w.first_iter);
    let none = w.refresh("me", 7, s(&["a"]), vec![], &s(&[]), &vec![], &vec![]);
    assert!(none.is_none());
    assert!(w.first_iter);
    assert!(w.names_old.is_empty());

    let first = w
        .refresh("me", 7, s(&["a", "fav_one"]), vec![stream("1", "fav_one")], &s(&["fav_one"]), &vec![false], &s(&["01:00:00"]))
        .unwrap();
    let line = stream_line(&stream("1", "fav_one"), true, false, "01:00:00").0;
    assert_eq!(first.text, format!("{}{}", header("me", 7), line));
    assert_eq!(first.speech, s(&["fav user fav one is live"]));
    assert!(!w.first_iter);
    assert_eq!(w.names_old, s(&["a", "fav_one"]));
    assert_eq!(w.streams_old.len(), 1);

    let second = w
        .refresh("me", 7, s(&["b", "fav_one"]), vec![stream("2", "other")], &s(&["fav_one"]), &vec![false], &s(&["00:00:05"]))
        .unwrap();
    let line2 = stream_line(&stream("2", "other"), false, false, "00:00:05").0;
    assert_eq!(
        second.text,
        format!(
            "{}\x1b[95mnew follow b\n\x1b[95mnew unfollow a\n\x1b[95mnew stream other\x1b[0m\n\x1b[95mstream end fav_one\x1b[0m\n{}",
            header("me", 7),
            line2
        )
    );
    assert_eq!(second.speech, s(&["new follow b", "new unfollow a", "new stream other", "stream end fav one"]));
}

#[test]
fn unchanged_refresh_is_quiet() {
    let mut w = Watch::new();
    w.refresh("me", 1, s(&["x", "y"]), vec![stream("1", "x"), stream("2", "y")], &s(&[]), &vec![false, false], &s(&["1", "2"])).unwrap();
    let again = w.refresh("me", 1, s(&["x", "y"]), vec![stream("1", "x"), stream("2", "y")], &s(&["y"]), &vec![false, true], &s(&["1", "2"])).unwrap();
    let l1 = stream_line(&stream("1", "x"), false, false, "1").0;
    let l2 = stream_line(&stream("2", "y"), true, true, "2").0;
    assert_eq!(again.text, format!("{}{}{}", header("me", 1), l1, l2));
    assert!(again.speech.is_empty());
}
