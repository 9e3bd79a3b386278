use yagsdb::events::{
    demoji, format_result_line, message_action, suggestion_message, thread_update_action,
    ForumSource, MessageAction, ThreadInfo, ThreadUpdateAction,
};
use yagsdb::search::ResultKind;

fn forum(g: &str, c: &str, reply: bool) -> ForumSource {
    ForumSource { guild_id: g.to_string(), channel_id: c.to_string(), reply }
}

fn thread(guild: u64, id: u64, parent: Option<u64>) -> Option<ThreadInfo> {
    Some(ThreadInfo { guild_id: guild, channel_id: id, is_public_thread: true, parent_id: parent, name: "Crash".to_string() })
}

#[test]
fn first_message_of_a_new_thread_gets_suggestions() {
    let forums = vec![forum("x", "20", true), forum("1", "20", false), forum("1", "20", true)];
    match message_action(false, &thread(1, 500, Some(20)), 500, "it fails", &forums) {
        MessageAction::Suggest { guild_id, query } => {
            assert_eq!(guild_id, 1);
            assert_eq!(query, "Crash\nit fails");
        }
        MessageAction::Ignore => panic!("expected a suggestion"),
    }
    // A later message in the thread, a bot, a non-thread channel, another forum.
    assert!(matches!(message_action(false, &thread(1, 500, Some(20)), 501, "", &forums), MessageAction::Ignore));
    assert!(matches!(message_action(true, &thread(1, 500, Some(20)), 500, "", &forums), MessageAction::Ignore));
    assert!(matches!(message_action(false, &None, 500, "", &forums), MessageAction::Ignore));
    assert!(matches!(message_action(false, &thread(1, 500, None), 500, "", &forums), MessageAction::Ignore));
    assert!(matches!(message_action(false, &thread(1, 500, Some(21)), 500, "", &forums), MessageAction::Ignore));
    // A forum that does not reply.
    let quiet = vec![forum("1", "20", false)];
    assert!(matches!(message_action(false, &thread(1, 500, Some(20)), 500, "", &quiet), MessageAction::Ignore));
    let mut private = thread(1, 500, Some(20)).unwrap();
    private.is_public_thread = false;
    assert!(matches!(message_action(false, &Some(private), 500, "", &forums), MessageAction::Ignore));
}

#[test]
fn thread_updates() {
    assert_eq!(thread_update_action(Some(true)), ThreadUpdateAction::Sync);
    assert_eq!(thread_update_action(Some(false)), ThreadUpdateAction::Remove);
    assert_eq!(thread_update_action(None), ThreadUpdateAction::Nothing);
}

#[test]
fn suggestion_lines() {
    assert_eq!(demoji("Crash 😀🚀 fix ✅").unwrap(), "Crash  fix ");
    assert_eq!(
        format_result_line(ResultKind::Doc, 87, " Setup 🎉 ", &Some("https://d/setup".to_string())).unwrap(),
        "**(87%)** `[Docs]` [**Setup**](https://d/setup)"
    );
    assert_eq!(
        format_result_line(ResultKind::DiscordThread, 100, "Help", &None).unwrap(),
        "**(100%)** `[Discord]` **Help**"
    );
    assert_eq!(
        format_result_line(ResultKind::GhIssue, 0, "#1: Bug", &None).unwrap(),
        "**(0%)** `[GitHub Issue]` **#1: Bug**"
    );
    let lines = vec!["a".to_string(), "b".to_string()];
    assert_eq!(suggestion_message("Maybe:", &lines), "Maybe:\na\nb");
    assert_eq!(suggestion_message("Maybe:", &vec![]), "Maybe:");
}

#[test]
fn demoji_keeps_letters_of_every_script() {
    assert_eq!(demoji("日本語 guide 🚀").unwrap(), "日本語 guide ");
    assert_eq!(demoji("한국어 Ｆｕｌｌ ❤️ ok").unwrap(), "한국어 Ｆｕｌｌ  ok");
    assert_eq!(demoji("Ⓜ ▶ ⭐ 🀄 🈁 done").unwrap(), "     done");
    assert_eq!(
        format_result_line(ResultKind::Doc, 50, "設定 🎉", &None).unwrap(),
        "**(50%)** `[Docs]` **設定**"
    );
}
