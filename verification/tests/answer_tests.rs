use telegram_bot::identity_key;
use telegram_bot::ChannelPost;
use telegram_bot::AnswerCallbackQuery;
use telegram_bot::CallbackQuery;
use telegram_bot::Message;
use telegram_bot::RawCallback;
use telegram_bot::Update;
use telegram_bot::UpdateKind;

#[test]
fn new_answer_is_bare() {
    let a = AnswerCallbackQuery::new("q9".to_string());
    assert_eq!(a.callback_query_id, "q9");
    assert_eq!(a.text, None);
    assert!(!a.show_alert);
    assert_eq!(a.url, None);
    assert_eq!(a.cache_time, None);
}

#[test]
fn builder_methods_set_their_field_only() {
    let mut a = AnswerCallbackQuery::new("q".to_string());
    a.text("hello".to_string());
    assert_eq!(a.text.as_deref(), Some("hello"));
    a.show_alert(true);
    assert!(a.show_alert);
    a.url("https://example.invalid".to_string());
    assert_eq!(a.url.as_deref(), Some("https://example.invalid"));
    a.cache_time(30);
    assert_eq!(a.cache_time, Some(30));
    assert_eq!(a.callback_query_id, "q");
    assert_eq!(a.text.as_deref(), Some("hello"));
}

#[test]
fn answer_request_name() {
    let a = AnswerCallbackQuery::new("q".to_string());
    assert_eq!(a.name(), "answerCallbackQuery");
}

#[test]
fn callback_from_raw_copies_every_field() {
    let raw = RawCallback {
        id: "q1".to_string(),
        chat_instance: "77".to_string(),
        data: Some("payload".to_string()),
    };
    let cb = CallbackQuery::from_raw(raw);
    assert_eq!(cb.id, "q1");
    assert_eq!(cb.chat_instance, "77");
    assert_eq!(cb.data.as_deref(), Some("payload"));
}

#[test]
fn identity_key_of_a_message() {
    let u = Update { id: 3, kind: UpdateKind::Message(Message { chat_id: 5, id: 1 }) };
    let k = identity_key(&u);
    assert_eq!(k.chat, 5);
    assert_eq!(k.msg, "1");
}

#[test]
fn identity_key_of_a_negative_message_id() {
    let u = Update { id: 3, kind: UpdateKind::EditedMessage(Message { chat_id: -4, id: -7 }) };
    let k = identity_key(&u);
    assert_eq!(k.chat, -4);
    assert_eq!(k.msg, "-7");
}

#[test]
fn identity_key_of_a_callback_query() {
    let u = Update {
        id: 3,
        kind: UpdateKind::CallbackQuery(CallbackQuery {
            id: "qq".to_string(),
            chat_instance: "19".to_string(),
            data: None,
        }),
    };
    let k = identity_key(&u);
    assert_eq!(k.chat, 19);
    assert_eq!(k.msg, "qq");
}

#[test]
fn identity_key_of_a_channel_post() {
    let u = Update { id: 3, kind: UpdateKind::ChannelPost(ChannelPost { chat_id: -100, id: 8 }) };
    let k = identity_key(&u);
    assert_eq!(k.chat, -100);
    assert_eq!(k.msg, "8");
    let e = Update {
        id: 4,
        kind: UpdateKind::EditedChannelPost(ChannelPost { chat_id: -100, id: 8 }),
    };
    let ke = identity_key(&e);
    assert_eq!(ke.chat, k.chat);
    assert_eq!(ke.msg, k.msg);
}
