use twitch_notify::twitch::{
    batch_ids, batch_query, bearer, chatters_url, id_to_watch, follows_page_from_response, follows_url,
    order_by_viewers, stream_from_response, streams_from_response, streams_url, tag_ids_from_dump,
    user_id_from_response, user_url, viewers_from_response, Follows, IdRequests, Stream,
};

fn stream(id: &str, login: &str, viewers: u128) -> Stream {
    Stream {
        id: id.to_string(),
        user_id: String::new(),
        user_login: login.to_string(),
        user_name: login.to_string(),
        game_id: String::new(),
        game_name: String::new(),
        type_: String::new(),
        title: String::new(),
        viewer_count: viewers,
        started_at: String::new(),
        language: String::new(),
        thumbnail_url: String::new(),
        tag_ids: vec![],
        is_mature: false,
    }
}

#[test]
fn request_urls() {
    assert_eq!(user_url("bejker321"), "https://api.twitch.tv/helix/users?login=bejker321");
    assert_eq!(bearer("tok"), "Bearer tok");
    assert_eq!(
        follows_url("401738141", ""),
        "https://api.twitch.tv/helix/users/follows?from_id=401738141&first=100&after="
    );
    assert_eq!(streams_url("user_id=1"), "https://api.twitch.tv/helix/streams?first=100&user_id=1");
    assert_eq!(chatters_url("abc"), "https://tmi.twitch.tv/group/user/abc/chatters");
}

#[test]
fn user_id_of_an_answer() {
    let answer = r#"{"data":[{"id":"401738141","login":"bejker321"}]}"#;
    assert_eq!(user_id_from_response(answer), Some(Ok(401738141u32)));
    assert_eq!(user_id_from_response(r#"{"data":[]}"#), Some(Err(0)));
    assert_eq!(user_id_from_response(r#"{"data":[{"id":"x"}]}"#), Some(Err(0)));
    assert_eq!(user_id_from_response(r#"{"data":[{"id":4294967296}]}"#), Some(Err(0)));
    assert_eq!(user_id_from_response("not json"), None);
}

#[test]
fn id_requests_stop_after_five_failures() {
    let mut r = IdRequests::new();
    let mut sent = 0;
    while r.may_send() {
        sent += 1;
        r.failed();
    }
    assert_eq!(sent, 5);
}

#[test]
fn follows_pages() {
    let answer = r#"{"data":[{"to_id":"1","to_login":"a"},{"to_id":"2","to_login":"b_c"}],"pagination":{"cursor":"abc"}}"#;
    let page = follows_page_from_response(answer).unwrap();
    assert_eq!(page.ids, vec!["1".to_string(), "2".to_string()]);
    assert_eq!(page.names, vec!["a".to_string(), "b_c".to_string()]);
    assert_eq!(page.cursor, "abc");
    assert!(!page.last);
    let end = follows_page_from_response(r#"{"data":[],"pagination":{}}"#).unwrap();
    assert_eq!(end.cursor, "null");
    assert!(end.last);
    let mut all = Follows::new();
    assert!(all.add_page(page));
    assert!(!all.add_page(end));
    assert_eq!(all.ids.len(), 2);
    assert!(follows_page_from_response("{").is_none());
}

#[test]
fn tag_ids_of_dumps() {
    assert_eq!(tag_ids_from_dump(r#"["x","y"]"#), Some(vec!["x".to_string(), "y".to_string()]));
    assert_eq!(tag_ids_from_dump("null"), Some(vec!["ul".to_string()]));
    assert_eq!(tag_ids_from_dump("[]"), Some(vec!["".to_string()]));
    assert_eq!(tag_ids_from_dump("x"), None);
    assert_eq!(tag_ids_from_dump("éab"), None);
}

#[test]
fn streams_of_an_answer() {
    let answer = r#"{"data":[
        {"id":"1","user_id":"10","user_login":"low","user_name":"Low","game_id":"g","game_name":"Game",
         "type":"live","title":"t1","viewer_count":5,"started_at":"2021-01-01T00:00:00Z","language":"en",
         "thumbnail_url":"u","tag_ids":null,"is_mature":false},
        {"id":"2","user_id":"20","user_login":"high","user_name":"High","game_id":"g","game_name":"Game",
         "type":"live","title":"t2","viewer_count":"50","started_at":"2021-01-01T00:00:00Z","language":"en",
         "thumbnail_url":"u","tag_ids":["a"],"is_mature":true}]}"#;
    let streams = streams_from_response(answer).unwrap();
    assert_eq!(streams.len(), 2);
    assert_eq!(streams[0].viewer_count, 5);
    assert_eq!(streams[0].tag_ids, vec!["ul".to_string()]);
    assert_eq!(streams[1].type_, "live");
    assert_eq!(streams[1].tag_ids, vec!["a".to_string()]);
    assert!(streams[1].is_mature);
    let ordered = order_by_viewers(streams);
    assert_eq!(ordered[0].user_login, "high");
    assert_eq!(ordered[1].user_login, "low");
    let bad = r#"{"data":[{"viewer_count":"many","tag_ids":[],"is_mature":true}]}"#;
    assert!(streams_from_response(bad).is_none());
    let not_bool = r#"{"data":[{"viewer_count":1,"tag_ids":[],"is_mature":"no"}]}"#;
    assert!(streams_from_response(not_bool).is_none());
    assert_eq!(streams_from_response(r#"{"error":"x"}"#).map(|v| v.len()), Some(0));
}

#[test]
fn missing_fields_read_as_null() {
    let s = stream_from_response(r#"{"viewer_count":0,"tag_ids":"[]","is_mature":false}"#).unwrap();
    assert_eq!(s.id, "null");
    assert_eq!(s.title, "null");
}

#[test]
fn ordering_is_by_falling_viewers_with_ties_reversed() {
    let v = vec![stream("a", "a", 3), stream("b", "b", 7), stream("c", "c", 3), stream("d", "d", 1)];
    let ordered = order_by_viewers(v);
    let logins: Vec<&str> = ordered.iter().map(|s| s.user_login.as_str()).collect();
    assert_eq!(logins, vec!["b", "c", "a", "d"]);
    let mut expected = vec![stream("a", "a", 3), stream("b", "b", 7), stream("c", "c", 3), stream("d", "d", 1)];
    expected.sort_by_key(|s| s.viewer_count);
    expected.reverse();
    let expected_logins: Vec<&str> = expected.iter().map(|s| s.user_login.as_str()).collect();
    assert_eq!(logins, expected_logins);
}

#[test]
fn stream_equality_by_id_login_and_name() {
    let a = stream("1", "x", 5);
    let mut b = stream("1", "x", 99);
    b.title = "other".to_string();
    assert!(a == b);
    assert!(a != stream("2", "x", 5));
}

#[test]
fn batches_hold_every_id_in_runs_of_a_hundred() {
    let ids: Vec<String> = (0..205).map(|i| i.to_string()).collect();
    let b = batch_ids(&ids);
    assert_eq!(b.len(), 3);
    assert_eq!(b[0].len(), 100);
    assert_eq!(b[0][99], "99");
    assert_eq!(b[1][0], "100");
    assert_eq!(b[1].len(), 100);
    assert_eq!(b[2], vec!["200".to_string(), "201".to_string(), "202".to_string(), "203".to_string(), "204".to_string()]);
    assert_eq!(b.concat(), ids);
    let two: Vec<String> = (0..102).map(|i| i.to_string()).collect();
    let b2 = batch_ids(&two);
    assert_eq!(b2.len(), 2);
    assert_eq!(b2[1], vec!["100".to_string(), "101".to_string()]);
    assert_eq!(batch_query(&b2[1]), "user_id=100&user_id=101");
    let hundred_and_one: Vec<String> = (0..101).map(|i| i.to_string()).collect();
    let b3 = batch_ids(&hundred_and_one);
    assert_eq!(b3.len(), 2);
    assert_eq!(b3[1], vec!["100".to_string()]);
    let hundred: Vec<String> = (0..100).map(|i| i.to_string()).collect();
    assert_eq!(batch_ids(&hundred).len(), 1);
}

#[test]
fn batch_queries() {
    assert_eq!(batch_query(&vec!["1".to_string()]), "user_id=1");
    assert_eq!(batch_query(&vec!["1".to_string(), "22".to_string()]), "user_id=1&user_id=22");
}

#[test]
fn viewers_of_chatters_answer() {
    assert_eq!(
        viewers_from_response(r#"{"chatters":{"viewers":["a","b"]}}"#),
        Some(vec!["a".to_string(), "b".to_string()])
    );
    assert_eq!(viewers_from_response("{}"), Some(vec![]));
    assert_eq!(viewers_from_response("]"), None);
}

#[test]
fn id_to_watch_stops_on_failure_or_zero() {
    assert_eq!(id_to_watch(Ok(7)), Some(7));
    assert_eq!(id_to_watch(Ok(0)), None);
    assert_eq!(id_to_watch(Err(0)), None);
}
