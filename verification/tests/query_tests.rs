use koe_asr::query::{parse_query, upsert_query_params};

#[test]
fn a_parameter_is_added() {
    assert_eq!(upsert_query_params("ws://h/p", &[("a", Some("b"))]), "ws://h/p?a=b");
    assert_eq!(upsert_query_params("ws://h/p?x=1", &[("a", Some("b"))]), "ws://h/p?x=1&a=b");
}

#[test]
fn a_parameter_is_replaced_in_place() {
    assert_eq!(
        upsert_query_params("ws://h/p?a=1&x=2&a=3", &[("a", Some("9"))]),
        "ws://h/p?a=9&x=2&a=3"
    );
}

#[test]
fn a_parameter_is_removed() {
    assert_eq!(upsert_query_params("ws://h/p?a=1&x=2&a=3", &[("a", None)]), "ws://h/p?x=2&a=3");
    assert_eq!(upsert_query_params("ws://h/p?a=1", &[("a", None)]), "ws://h/p");
    assert_eq!(upsert_query_params("ws://h/p?x=1", &[("a", None)]), "ws://h/p?x=1");
}

#[test]
fn a_query_is_tidied() {
    assert_eq!(upsert_query_params("p?&&a&b=1=2&", &[]), "p?a=&b=1=2");
    assert_eq!(upsert_query_params("p?", &[]), "p");
    assert_eq!(upsert_query_params("p?a=1?b", &[]), "p?a=1?b");
    assert_eq!(upsert_query_params("p?=v", &[]), "p?=v");
    assert_eq!(upsert_query_params("", &[]), "");
    assert_eq!(upsert_query_params("caf\u{e9}?\u{4e2d}=\u{6587}", &[]), "caf\u{e9}?\u{4e2d}=\u{6587}");
}

#[test]
fn updates_apply_in_order() {
    assert_eq!(
        upsert_query_params("p", &[("a", Some("1")), ("b", Some("2")), ("a", Some("3"))]),
        "p?a=3&b=2"
    );
    assert_eq!(upsert_query_params("p", &[("a", Some("1")), ("a", None)]), "p");
}

#[test]
fn settings_settle() {
    let updates = [("deployment", Some("m")), ("intent", Some("transcription"))];
    let once = upsert_query_params("wss://h/p?intent=x&y", &updates);
    assert_eq!(once, "wss://h/p?intent=transcription&y=&deployment=m");
    assert_eq!(upsert_query_params(&once, &updates), once);
}

#[test]
fn a_query_is_read_into_pairs() {
    let pairs = parse_query("a=1&&b&c=d=e");
    let expected: Vec<(String, String)> = [("a", "1"), ("b", ""), ("c", "d=e")]
        .iter()
        .map(|(k, v)| (k.to_string(), v.to_string()))
        .collect();
    assert_eq!(pairs, expected);
    assert_eq!(parse_query(""), Vec::<(String, String)>::new());
}

#[test]
fn removing_one_key_leaves_the_others() {
    assert_eq!(
        upsert_query_params("p?a=1&b=2&a=3", &[("a", None), ("c", Some("4")), ("b", Some("5"))]),
        "p?b=5&a=3&c=4"
    );
}

#[test]
fn updates_may_be_made_in_turn() {
    let a = [("a", Some("1")), ("b", None)];
    let b = [("c", Some("2")), ("a", None)];
    let both = [a[0], a[1], b[0], b[1]];
    for url in ["p", "p?b=0&a=9&&z", "p?a=1&b=2&b=3&c=4&a=5"] {
        let turn = upsert_query_params(&upsert_query_params(url, &a), &b);
        assert_eq!(turn, upsert_query_params(url, &both));
    }
    assert_eq!(upsert_query_params("p?b=0&a=9&&z", &both), "p?z=&c=2");
}

#[test]
fn keys_keep_their_places_and_new_ones_follow() {
    assert_eq!(
        upsert_query_params(
            "p?x=1&a=2&y=3&a=4",
            &[("n", Some("5")), ("a", Some("6")), ("m", Some("7")), ("n", Some("8"))]
        ),
        "p?x=1&a=6&y=3&a=4&n=8&m=7"
    );
}
