use stimer::link::message_url;
use stimer::active_set::ListEntry;
use stimer::listing::render_list;

#[test]
fn message_url_long_and_short() {
    assert_eq!(
        message_url("6bb86c45-65d5-458f-83c0-57116d81eca1", false),
        "https://q.trap.jp/messages/6bb86c45-65d5-458f-83c0-57116d81eca1"
    );
    assert_eq!(message_url("abc", true), "//q.trap.jp/messages/abc");
    assert_eq!(message_url("", true), "//q.trap.jp/messages/");
}

#[test]
fn render_empty_listing() {
    assert_eq!(
        render_list(&vec![], &vec![], true),
        "現在設定されているタイマーはありません :melting_face:"
    );
}

#[test]
fn render_own_listing() {
    let entries = vec![
        ListEntry { message_uuid: "a1".to_string(), user_id: "U1".to_string(), time: 10 },
        ListEntry { message_uuid: "b2".to_string(), user_id: "U1".to_string(), time: 20 },
    ];
    let times = vec!["T10".to_string(), "T20".to_string()];
    assert_eq!(
        render_list(&entries, &times, false),
        "|終了予定|url|\n|---|---|\n|T10|//q.trap.jp/messages/a1|\n|T20|//q.trap.jp/messages/b2|"
    );
}

#[test]
fn render_everyones_listing() {
    let entries = vec![ListEntry { message_uuid: "a1".to_string(), user_id: "U9".to_string(), time: 10 }];
    let times = vec!["2024-01-01 00:00:10".to_string()];
    assert_eq!(
        render_list(&entries, &times, true),
        "|設定者|終了予定|url|\n|---|---|---|\n| :@U9: |2024-01-01 00:00:10|//q.trap.jp/messages/a1|"
    );
}
