use kook_onebot::bot::KookOnebot;
use kook_onebot::json::{Json, ShapeError};
use kook_onebot::kook_api::{GroupInfo, GroupMemberInfo};
use kook_onebot::kook_events::{
    card_file, classify_event, classify_frame, frame_text, friend_recall_event, group_message,
    group_message_event, group_recall_event, group_upload_event, image_cq, member_change, member_notices,
    onebot_message, onebot_text, ping_frame, private_message, private_message_event, recall_parts, FileInfo, KookEvent,
    KookFrame,
};
use kook_onebot::msgid::cq_msg_id;
use std::io::Write;

fn s(x: &str) -> Json {
    Json::Str(x.to_string())
}

fn obj(fields: Vec<(&str, Json)>) -> Json {
    Json::Object(fields.into_iter().map(|(k, v)| (k.to_string(), v)).collect())
}

fn render(j: &Json) -> String {
    match j {
        Json::Null => "null".to_string(),
        Json::Bool(b) => b.to_string(),
        Json::PosInt(n) => n.to_string(),
        Json::NegInt(i) => i.to_string(),
        Json::Float(f) => f.clone(),
        Json::Str(t) => format!("{:?}", t),
        Json::Array(v) => format!("[{}]", v.iter().map(render).collect::<Vec<_>>().join(",")),
        Json::Object(f) => format!(
            "{{{}}}",
            f.iter().map(|(k, v)| format!("{:?}:{}", k, render(v))).collect::<Vec<_>>().join(",")
        ),
    }
}

fn event(channel_type: &str, author: &str, tp: u64, extra: Json) -> Json {
    obj(vec![
        ("channel_type", s(channel_type)),
        ("author_id", s(author)),
        ("type", Json::PosInt(tp)),
        ("extra", extra),
    ])
}

fn system(channel_type: &str, kind: &str) -> Json {
    event(channel_type, "1", 255, obj(vec![("type", s(kind))]))
}

fn member(group_id: u64, user_id: u64) -> GroupMemberInfo {
    GroupMemberInfo {
        group_id,
        user_id,
        nickname: "amy".to_string(),
        card: "A".to_string(),
        sex: "unknown".to_string(),
        age: 0,
        area: String::new(),
        join_time: 1,
        last_sent_time: 2,
        level: String::new(),
        role: "member".to_string(),
        unfriendly: false,
        title: String::new(),
        title_expire_time: 0,
        card_changeable: false,
    }
}

#[test]
fn gateway_frames_inflate() {
    let mut e = flate2::write::ZlibEncoder::new(Vec::new(), flate2::Compression::default());
    e.write_all(b"{\"s\":1,\"d\":{\"code\":0}}").unwrap();
    let bin = e.finish().unwrap();
    assert_eq!(frame_text(&bin), Some("{\"s\":1,\"d\":{\"code\":0}}".to_string()));
    assert_eq!(frame_text(b"not zlib"), None);
}

#[test]
fn gateway_frame_kinds() {
    assert!(matches!(classify_frame(&obj(vec![("s", Json::PosInt(5))])), Ok(KookFrame::Reconnect)));
    assert!(matches!(classify_frame(&obj(vec![("s", Json::PosInt(1))])), Ok(KookFrame::Hello)));
    assert!(matches!(classify_frame(&obj(vec![("s", Json::PosInt(3))])), Ok(KookFrame::Pong)));
    assert!(matches!(classify_frame(&obj(vec![("s", Json::PosInt(9))])), Ok(KookFrame::Unknown)));
    let ev = obj(vec![("s", Json::PosInt(0)), ("d", obj(vec![("x", Json::PosInt(1))])), ("sn", Json::PosInt(42))]);
    match classify_frame(&ev) {
        Ok(KookFrame::Event(d, sn)) => {
            assert_eq!(sn, 42);
            assert_eq!(render(&d), r#"{"x":1}"#);
        }
        _ => panic!("expected an event"),
    }
    assert!(matches!(classify_frame(&obj(vec![("s", Json::PosInt(0))])), Err(ShapeError::Missing)));
    assert!(matches!(classify_frame(&obj(vec![("s", s("0"))])), Err(ShapeError::NotInt)));
    assert_eq!(render(&ping_frame(7)), r#"{"s":2,"sn":7}"#);
}

#[test]
fn event_kinds() {
    let self_id = 99;
    assert_eq!(classify_event(&event("GROUP", "5", 1, obj(vec![])), self_id), Ok(KookEvent::GroupMessage(5)));
    assert_eq!(classify_event(&event("GROUP", "99", 1, obj(vec![])), self_id), Ok(KookEvent::Ignore));
    assert_eq!(classify_event(&event("PERSON", "5", 1, obj(vec![])), self_id), Ok(KookEvent::PrivateMessage(5)));
    assert_eq!(classify_event(&system("GROUP", "exited_guild"), self_id), Ok(KookEvent::GroupDecrease));
    assert_eq!(classify_event(&system("GROUP", "joined_guild"), self_id), Ok(KookEvent::GroupIncrease));
    assert_eq!(classify_event(&system("GROUP", "deleted_message"), self_id), Ok(KookEvent::GroupRecall));
    assert_eq!(classify_event(&system("GROUP", "other"), self_id), Ok(KookEvent::Ignore));
    assert_eq!(classify_event(&system("PERSON", "deleted_private_message"), self_id), Ok(KookEvent::PrivateRecall));
    assert_eq!(classify_event(&system("PERSON", "self_exited_guild"), self_id), Ok(KookEvent::Ignore));
    assert_eq!(classify_event(&event("GROUP", "1", 1, obj(vec![])), self_id), Ok(KookEvent::Ignore));
    assert_eq!(classify_event(&event("BROADCAST", "5", 1, obj(vec![])), self_id), Ok(KookEvent::Ignore));
    assert_eq!(classify_event(&event("GROUP", "x", 1, obj(vec![])), self_id), Err(ShapeError::BadNumber));
    assert_eq!(classify_event(&obj(vec![]), self_id), Err(ShapeError::Missing));
}

#[test]
fn member_change_and_recall_parts() {
    let d = obj(vec![
        ("target_id", s("777")),
        ("extra", obj(vec![("body", obj(vec![("user_id", s("5")), ("msg_id", s("m1")), ("channel_id", s("8"))]))])),
    ]);
    assert_eq!(member_change(&d), Ok(("777".to_string(), 5)));
    assert_eq!(recall_parts(&d, "channel_id"), Ok(("m1".to_string(), 8)));
    assert_eq!(recall_parts(&d, "author_id"), Err(ShapeError::Missing));
}

#[test]
fn messages_are_read() {
    let g = obj(vec![
        ("target_id", s("10")),
        ("content", s("hi")),
        ("type", Json::PosInt(1)),
        ("msg_id", s("m")),
    ]);
    let m = group_message(&g).unwrap();
    assert_eq!((m.group_id, m.content.as_str(), m.msg_type, m.msg_id.as_str()), (10, "hi", 1, "m"));
    let p = obj(vec![
        ("content", s("yo")),
        ("extra", obj(vec![("author", obj(vec![("username", s("amy"))]))])),
        ("type", Json::PosInt(2)),
        ("msg_id", s("n")),
    ]);
    let m = private_message(&p).unwrap();
    assert_eq!((m.username.as_str(), m.content.as_str(), m.msg_type, m.msg_id.as_str()), ("amy", "yo", 2, "n"));
    assert!(group_message(&p).is_err());
}

#[test]
fn kook_text_to_onebot_text() {
    assert_eq!(onebot_text("hi (met)123(met) and (met)all(met)", 1), Some("hi [CQ:at,qq=123] and [CQ:at,qq=all]".to_string()));
    assert_eq!(onebot_text("(met)abc(met)", 1), Some("(met)abc(met)".to_string()));
    assert_eq!(
        onebot_text("https://img/a,b.png", 2),
        Some("[CQ:image,file=https://img/a&#44;b.png,url=https://img/a&#44;b.png]".to_string())
    );
    assert_eq!(image_cq("u"), "[CQ:image,file=u,url=u]");
}

#[test]
fn shared_files_from_cards() {
    let module = obj(vec![
        ("type", s("file")),
        ("src", s("https://img.kookapp.cn/f.zip")),
        ("title", s("f.zip")),
        ("size", Json::PosInt(123)),
    ]);
    let card = Json::Array(vec![obj(vec![("modules", Json::Array(vec![module]))])]);
    let f = card_file(&card).unwrap();
    assert_eq!((f.url.as_str(), f.name.as_str(), f.size, f.busid), ("https://img.kookapp.cn/f.zip", "f.zip", 123, 0));
    assert_eq!(render(&f.to_json()), r#"{"url":"https://img.kookapp.cn/f.zip","name":"f.zip","size":123,"busid":0}"#);
    let other = obj(vec![("type", s("file")), ("src", s("https://elsewhere/f")), ("title", s("f")), ("size", Json::PosInt(1))]);
    let card = Json::Array(vec![obj(vec![("modules", Json::Array(vec![other]))])]);
    assert!(card_file(&card).is_none());
    assert!(card_file(&Json::Array(vec![])).is_none());
    assert!(card_file(&s("x")).is_none());
}

#[test]
fn message_events() {
    let ev = group_message_event(100, 99, -5, 10, 5, "hi", &member(10, 5));
    assert_eq!(
        render(&ev),
        r#"{"time":100,"self_id":99,"post_type":"message","message_type":"group","sub_type":"normal","message_id":-5,"group_id":10,"user_id":5,"message":"hi","raw_message":"hi","font":0,"sender":{"group_id":10,"user_id":5,"nickname":"amy","card":"A","sex":"unknown","age":0,"area":"","join_time":1,"last_sent_time":2,"level":"","role":"member","unfriendly":false,"title":"","title_expire_time":0,"card_changeable":false}}"#
    );
    let ev = private_message_event(100, 99, 7, 5, "yo", "amy");
    assert_eq!(
        render(&ev),
        r#"{"time":100,"self_id":99,"post_type":"message","message_type":"private","sub_type":"friend","message_id":7,"user_id":5,"message":"yo","raw_message":"yo","font":0,"sender":{"user_id":5,"nickname":"amy","remark":"amy"}}"#
    );
}

#[test]
fn notice_events() {
    let f = FileInfo { url: "u".to_string(), name: "n".to_string(), size: 3, busid: 0 };
    assert_eq!(
        render(&group_upload_event(1, 2, 3, 4, &f)),
        r#"{"time":1,"self_id":2,"post_type":"notice","notice_type":"group_upload","group_id":3,"user_id":4,"file":{"url":"u","name":"n","size":3,"busid":0}}"#
    );
    let chans = vec![
        GroupInfo { group_id: 3, group_name: "a".to_string(), member_count: 0, max_member_count: 0 },
        GroupInfo { group_id: 4, group_name: "b".to_string(), member_count: 0, max_member_count: 0 },
    ];
    let left = member_notices(1, 2, &chans, 5, false);
    assert_eq!(left.len(), 2);
    assert_eq!(
        render(&left[1]),
        r#"{"time":1,"self_id":2,"post_type":"notice","notice_type":"group_decrease","sub_type":"leave","group_id":4,"operator_id":5,"user_id":5}"#
    );
    let joined = member_notices(1, 2, &chans, 5, true);
    assert_eq!(
        render(&joined[0]),
        r#"{"time":1,"self_id":2,"post_type":"notice","notice_type":"group_increase","sub_type":"approve","message_id":0,"group_id":3,"operator_id":5,"user_id":5}"#
    );
    assert_eq!(member_notices(1, 2, &vec![], 5, true).len(), 0);
    assert_eq!(
        render(&group_recall_event(1, 2, 3, 8, -4)),
        r#"{"time":1,"self_id":2,"post_type":"notice","notice_type":"group_recall","group_id":3,"user_id":8,"operator_id":1,"message_id":-4}"#
    );
    assert_eq!(
        render(&friend_recall_event(1, 2, 5, 6)),
        r#"{"time":1,"self_id":2,"post_type":"notice","notice_type":"friend_recall","user_id":5,"message_id":6}"#
    );
}

#[test]
fn meta_events() {
    let bot = KookOnebot { token: "t".to_string(), self_id: 42 };
    assert_eq!(
        bot.get_lifecycle_event(1700000000),
        r#"{"meta_event_type":"lifecycle","post_type":"meta_event","self_id":42,"sub_type":"connect","time":1700000000}"#
    );
    assert_eq!(
        render(&bot.get_heartbeat_event(5)),
        r#"{"time":"5","self_id":42,"post_type":"meta_event","meta_event_type":"heartbeat","interval":5000,"status":{"online":true,"good":true}}"#
    );
}

#[test]
fn quoted_messages_begin_with_a_reply() {
    let g = obj(vec![
        ("target_id", s("10")),
        ("content", s("ok (met)5(met)")),
        ("type", Json::PosInt(9)),
        ("msg_id", s("m")),
        ("extra", obj(vec![("quote", obj(vec![("id", s("q1")), ("content", s("old"))]))])),
    ]);
    let m = group_message(&g).unwrap();
    assert_eq!(m.quote, Some("q1".to_string()));
    let expected = format!("[CQ:reply,id={}]ok [CQ:at,qq=5]", cq_msg_id("q1"));
    assert_eq!(onebot_message(&m), Some(expected));
    let p = obj(vec![
        ("content", s("yo")),
        ("extra", obj(vec![("author", obj(vec![("username", s("amy"))])), ("quote", obj(vec![("id", s("q2"))]))])),
        ("type", Json::PosInt(1)),
        ("msg_id", s("n")),
    ]);
    let m = private_message(&p).unwrap();
    assert_eq!(onebot_message(&m), Some(format!("[CQ:reply,id={}]yo", cq_msg_id("q2"))));
    let plain = obj(vec![("target_id", s("10")), ("content", s("hi")), ("type", Json::PosInt(1)), ("msg_id", s("m"))]);
    let m = group_message(&plain).unwrap();
    assert_eq!(m.quote, None);
    assert_eq!(onebot_message(&m), Some("hi".to_string()));
}
