use kook_onebot::json::{Json, ShapeError};
use kook_onebot::kook_api::{FriendInfo, GroupInfo, GroupMemberInfo};
use kook_onebot::onebot_api::{
    member_list_json, message_quote, music_card_text, empty_ok_reply, failed_reply, friend_list_json, get_json_str, group_list_json, message_id_reply, ok_reply,
    plan_call, plan_pieces, plan_request, CallError, OnebotRequest,
};
use kook_onebot::cqcode::CqError;
use kook_onebot::registry::ClientRegistry;
use kook_onebot::msgid::{add_msg_id, quoted_msg_id, MsgIdStore};
use kook_onebot::sender_cache::SenderCache;

fn s(x: &str) -> Json {
    Json::Str(x.to_string())
}

fn obj(fields: Vec<(&str, Json)>) -> Json {
    Json::Object(fields.into_iter().map(|(k, v)| (k.to_string(), v)).collect())
}

fn render(j: &Json) -> String {
    match j {
        Json::Null => "null".to_string(),
        Json::Bool(b) => b.to_string(),
        Json::PosInt(n) => n.to_string(),
        Json::NegInt(i) => i.to_string(),
        Json::Float(f) => f.clone(),
        Json::Str(t) => format!("{:?}", t),
        Json::Array(v) => format!("[{}]", v.iter().map(render).collect::<Vec<_>>().join(",")),
        Json::Object(f) => format!(
            "{{{}}}",
            f.iter().map(|(k, v)| format!("{:?}:{}", k, render(v))).collect::<Vec<_>>().join(",")
        ),
    }
}

fn seg(tp: &str, data: Json) -> Json {
    obj(vec![("type", s(tp)), ("data", data)])
}

fn pieces(v: &[(i32, &str)]) -> Vec<(i32, String)> {
    v.iter().map(|(t, c)| (*t, c.to_string())).collect()
}

fn member(group_id: u64, user_id: u64, nick: &str) -> GroupMemberInfo {
    GroupMemberInfo {
        group_id,
        user_id,
        nickname: nick.to_string(),
        card: String::new(),
        sex: "unknown".to_string(),
        age: 0,
        area: String::new(),
        join_time: 0,
        last_sent_time: 0,
        level: String::new(),
        role: "member".to_string(),
        unfriendly: false,
        title: String::new(),
        title_expire_time: 0,
        card_changeable: false,
    }
}

#[test]
fn json_members_as_text() {
    let js = obj(vec![
        ("a", Json::PosInt(18446744073709551615)),
        ("b", Json::NegInt(-3)),
        ("c", s("x")),
        ("d", Json::Bool(true)),
        ("e", Json::Float("1.5".to_string())),
    ]);
    assert_eq!(get_json_str(&js, "a"), "18446744073709551615");
    assert_eq!(get_json_str(&js, "b"), "-3");
    assert_eq!(get_json_str(&js, "c"), "x");
    assert_eq!(get_json_str(&js, "d"), "");
    assert_eq!(get_json_str(&js, "e"), "");
    assert_eq!(get_json_str(&js, "z"), "");
    assert_eq!(get_json_str(&s("x"), "a"), "");
}

#[test]
fn replies() {
    assert_eq!(render(&ok_reply(Json::Null, "e")), r#"{"status":"ok","retcode":0,"data":null,"echo":"e"}"#);
    assert_eq!(render(&empty_ok_reply("")), r#"{"status":"ok","retcode":0,"data":{},"echo":""}"#);
    assert_eq!(render(&failed_reply("e")), r#"{"status":"failed","retcode":-1,"data":{},"echo":"e"}"#);
    assert_eq!(
        render(&message_id_reply(-12, "e")),
        r#"{"status":"ok","retcode":0,"data":{"message_id":-12},"echo":"e"}"#
    );
    let gs = vec![GroupInfo { group_id: 1, group_name: "g".to_string(), member_count: 0, max_member_count: 0 }];
    assert_eq!(render(&group_list_json(&gs)), r#"[{"group_id":1,"group_name":"g","member_count":0,"max_member_count":0}]"#);
    let fs = vec![FriendInfo { user_id: 2, nickname: "f".to_string(), remark: "f".to_string() }];
    assert_eq!(render(&friend_list_json(&fs)), r#"[{"user_id":2,"nickname":"f","remark":"f"}]"#);
}

#[test]
fn message_pieces_for_a_channel() {
    let segs = vec![
        seg("text", obj(vec![("text", s("a*"))])),
        seg("at", obj(vec![("qq", s("5"))])),
        seg("image", obj(vec![("file", s("http://x/p.png"))])),
        seg("text", obj(vec![("text", s("b"))])),
        seg("face", obj(vec![("id", s("1"))])),
    ];
    assert_eq!(
        plan_pieces(&segs, true).unwrap(),
        pieces(&[(1, "a\\*(met)5(met)"), (2, "http://x/p.png"), (1, "b\\[CQ:face,id=1\\]")])
    );
}

#[test]
fn message_pieces_in_private_drop_mentions() {
    let segs = vec![
        seg("at", obj(vec![("qq", s("5"))])),
        seg("text", obj(vec![("text", s("x"))])),
        seg("at", obj(vec![])),
    ];
    assert_eq!(plan_pieces(&segs, false).unwrap(), pieces(&[(1, "x")]));
    assert_eq!(plan_pieces(&vec![], false).unwrap(), pieces(&[]));
}

#[test]
fn message_piece_errors() {
    assert_eq!(plan_pieces(&vec![obj(vec![])], true), Err(CallError::Piece(ShapeError::Missing)));
    assert_eq!(plan_pieces(&vec![seg("text", obj(vec![]))], true), Err(CallError::Piece(ShapeError::Missing)));
    assert_eq!(
        plan_pieces(&vec![seg("image", obj(vec![("file", Json::PosInt(1))]))], true),
        Err(CallError::Piece(ShapeError::NotStr))
    );
    assert_eq!(plan_pieces(&vec![seg("at", obj(vec![]))], true), Err(CallError::Piece(ShapeError::Missing)));
    assert_eq!(
        plan_pieces(&vec![obj(vec![("type", Json::PosInt(3))])], true),
        Err(CallError::Cq(CqError::TypeNotStr))
    );
}

#[test]
fn send_calls() {
    let p = obj(vec![("group_id", Json::PosInt(10)), ("message", s("hi[CQ:at,qq=5]"))]);
    match plan_request("send_group_msg", &p, "") {
        Ok(OnebotRequest::SendGroupMsg(g, ps, q)) => {
            assert_eq!(g, "10");
            assert_eq!(q, None);
            assert_eq!(ps, pieces(&[(1, "hi(met)5(met)")]));
        }
        _ => panic!("expected a channel message"),
    }
    match plan_request("send_msg", &p, "") {
        Ok(OnebotRequest::SendGroupMsg(g, _, _)) => assert_eq!(g, "10"),
        _ => panic!("expected a channel message"),
    }
    let q = obj(vec![("user_id", s("7")), ("group_id", s("")), ("message", Json::Array(vec![seg("text", obj(vec![("text", s("yo"))]))]))]);
    match plan_request("send_msg", &q, "") {
        Ok(OnebotRequest::SendPrivateMsg(u, ps, _)) => {
            assert_eq!(u, "7");
            assert_eq!(ps, pieces(&[(1, "yo")]));
        }
        _ => panic!("expected a private message"),
    }
    assert!(matches!(plan_request("send_private_msg", &obj(vec![]), ""), Err(CallError::NoMessage)));
    assert!(matches!(
        plan_request("send_private_msg", &obj(vec![("message", Json::PosInt(1))]), ""),
        Err(CallError::MessageNotArray)
    ));
}

#[test]
fn other_calls() {
    let p = obj(vec![
        ("group_id", Json::PosInt(1)),
        ("user_id", s("2")),
        ("card", s("c")),
        ("group_name", s("n")),
        ("message_id", Json::NegInt(-9)),
    ]);
    assert!(matches!(plan_request("get_login_info", &p, ""), Ok(OnebotRequest::GetLoginInfo)));
    assert!(matches!(plan_request("get_group_list", &p, ""), Ok(OnebotRequest::GetGroupList)));
    assert!(matches!(plan_request("get_friend_list", &p, ""), Ok(OnebotRequest::GetFriendList)));
    assert!(matches!(plan_request("get_stranger_info", &p, ""), Ok(OnebotRequest::GetStrangerInfo(u)) if u == "2"));
    assert!(matches!(plan_request("get_group_info", &p, ""), Ok(OnebotRequest::GetGroupInfo(g)) if g == "1"));
    assert!(matches!(plan_request("get_group_member_info", &p, ""), Ok(OnebotRequest::GetGroupMemberInfo(g, u)) if g == "1" && u == "2"));
    assert!(matches!(plan_request("set_group_kick", &p, ""), Ok(OnebotRequest::SetGroupKick(g, u)) if g == "1" && u == "2"));
    assert!(matches!(plan_request("set_group_leave", &p, ""), Ok(OnebotRequest::SetGroupLeave(g)) if g == "1"));
    assert!(matches!(plan_request("set_group_name", &p, ""), Ok(OnebotRequest::SetGroupName(g, n)) if g == "1" && n == "n"));
    assert!(matches!(plan_request("set_group_card", &p, ""), Ok(OnebotRequest::SetGroupCard(g, u, c)) if g == "1" && u == "2" && c == "c"));
    assert!(matches!(plan_request("delete_msg", &p, ""), Ok(OnebotRequest::DeleteMsg(-9))));
    assert!(matches!(plan_request("delete_msg", &obj(vec![("message_id", s("abc"))]), ""), Err(CallError::BadMessageId)));
    assert!(matches!(plan_request("delete_msg", &obj(vec![]), ""), Err(CallError::BadMessageId)));
    assert!(matches!(plan_request("no_such_action", &p, ""), Ok(OnebotRequest::Unsupported)));
}

#[test]
fn canned_replies() {
    match plan_request("can_send_image", &obj(vec![]), "e") {
        Ok(OnebotRequest::Reply(j)) => assert_eq!(render(&j), r#"{"status":"ok","retcode":0,"data":{"yes":true},"echo":"e"}"#),
        _ => panic!("expected a reply"),
    }
    match plan_request("can_send_record", &obj(vec![]), "e") {
        Ok(OnebotRequest::Reply(j)) => assert_eq!(render(&j), r#"{"status":"ok","retcode":0,"data":{"yes":false},"echo":"e"}"#),
        _ => panic!("expected a reply"),
    }
    match plan_request("get_status", &obj(vec![]), "e") {
        Ok(OnebotRequest::Reply(j)) => {
            assert_eq!(render(&j), r#"{"status":"ok","retcode":0,"data":{"online":true,"good":true},"echo":"e"}"#)
        }
        _ => panic!("expected a reply"),
    }
    match plan_request("get_version_info", &obj(vec![]), "e") {
        Ok(OnebotRequest::Reply(j)) => assert_eq!(
            render(&j),
            r#"{"status":"ok","retcode":0,"data":{"app_name":"kook-onebot","app_version":"0.0.4","protocol_version":"v11"},"echo":"e"}"#
        ),
        _ => panic!("expected a reply"),
    }
}

#[test]
fn whole_calls() {
    let call = obj(vec![("action", s("get_group_info")), ("params", obj(vec![("group_id", s("3"))])), ("echo", Json::PosInt(12))]);
    match plan_call(&call) {
        Ok((OnebotRequest::GetGroupInfo(g), echo)) => {
            assert_eq!(g, "3");
            assert_eq!(echo, "12");
        }
        _ => panic!("expected a group lookup"),
    }
    match plan_call(&obj(vec![("action", s("get_group_info"))])) {
        Ok((OnebotRequest::GetGroupInfo(g), echo)) => {
            assert_eq!(g, "");
            assert_eq!(echo, "");
        }
        _ => panic!("expected a group lookup"),
    }
    assert!(matches!(plan_call(&obj(vec![])), Err(CallError::Action(ShapeError::Missing))));
    assert!(matches!(plan_call(&obj(vec![("action", Json::PosInt(1))])), Err(CallError::Action(ShapeError::NotStr))));
}

#[test]
fn sender_cache_finds_fresh_members() {
    let mut c = SenderCache::new();
    assert!(c.lookup(1, 2, 100).is_none());
    c.insert(1, 2, member(1, 2, "a"), 100);
    c.insert(1, 3, member(1, 3, "b"), 150);
    assert_eq!(c.lookup(1, 2, 150).unwrap().nickname, "a");
    assert_eq!(c.len(), 2);
    // 61 seconds later the first entry is stale and goes; the newest stays.
    assert!(c.lookup(1, 2, 161).is_none());
    assert_eq!(c.len(), 1);
    assert_eq!(c.lookup(1, 3, 1000).unwrap().nickname, "b");
    assert_eq!(c.len(), 1);
}

#[test]
fn sender_cache_returns_first_match() {
    let mut c = SenderCache::new();
    c.insert(1, 2, member(1, 2, "old"), 10);
    c.insert(1, 2, member(1, 2, "new"), 20);
    assert_eq!(c.find(1, 2).unwrap().nickname, "old");
    assert!(c.find(2, 2).is_none());
    c.evict(71);
    assert_eq!(c.find(1, 2).unwrap().nickname, "new");
}

#[test]
fn client_registry_ownership() {
    let mut r: ClientRegistry<u32> = ClientRegistry::new();
    r.register("ws://a".to_string(), "c1".to_string(), 1);
    r.register("uid-2".to_string(), "".to_string(), 2);
    assert_eq!(r.len(), 2);
    assert!(r.is_owner("ws://a", "c1"));
    r.register("ws://a".to_string(), "c2".to_string(), 3);
    assert_eq!(r.len(), 2);
    r.remove_if_owner("ws://a", "c1");
    assert!(r.is_owner("ws://a", "c2"));
    let mut got: Vec<u32> = r.senders().into_iter().copied().collect();
    got.sort();
    assert_eq!(got, vec![2, 3]);
    r.remove_if_owner("ws://a", "c2");
    assert!(!r.is_owner("ws://a", "c2"));
    r.unregister("uid-2");
    assert_eq!(r.len(), 0);
}

#[test]
fn text_after_text_joins_it() {
    let segs = vec![
        seg("image", obj(vec![("file", s("base64://aGk="))])),
        seg("text", obj(vec![("text", s("a"))])),
        seg("at", obj(vec![("qq", s("all"))])),
        seg("text", obj(vec![("text", s("b"))])),
        seg("image", obj(vec![("file", s("f"))])),
        seg("image", obj(vec![("file", s("g"))])),
    ];
    let p = plan_pieces(&segs, true).unwrap();
    assert_eq!(p, pieces(&[(2, "base64://aGk="), (1, "a(met)all(met)b"), (2, "f"), (2, "g")]));
    for w in p.windows(2) {
        assert!(!(w[0].0 == 1 && w[1].0 == 1));
    }
}

#[test]
fn reply_pieces_quote_and_send_no_text() {
    let segs = vec![
        seg("reply", obj(vec![("id", Json::NegInt(-9))])),
        seg("text", obj(vec![("text", s("hi"))])),
        seg("reply", obj(vec![("id", s("4"))])),
    ];
    assert_eq!(plan_pieces(&segs, true).unwrap(), pieces(&[(1, "hi")]));
    assert_eq!(message_quote(&segs), Some(-9));
    assert_eq!(message_quote(&vec![seg("text", obj(vec![("text", s("x"))]))]), None);
    assert_eq!(
        plan_pieces(&vec![seg("reply", obj(vec![("id", s("abc"))]))], false),
        Err(CallError::Piece(ShapeError::BadNumber))
    );
    let p = obj(vec![("user_id", s("7")), ("message", s("[CQ:reply,id=12]yo"))]);
    match plan_request("send_private_msg", &p, "") {
        Ok(OnebotRequest::SendPrivateMsg(u, ps, q)) => {
            assert_eq!(u, "7");
            assert_eq!(ps, pieces(&[(1, "yo")]));
            assert_eq!(q, Some(12));
        }
        _ => panic!("expected a private message"),
    }
}

#[test]
fn custom_music_becomes_a_card() {
    let music = seg(
        "music",
        obj(vec![
            ("type", s("custom")),
            ("url", s("https://u")),
            ("audio", s("https://a.mp3")),
            ("title", s("Song \"A\"")),
            ("image", s("https://c.png")),
        ]),
    );
    let p = plan_pieces(&vec![seg("text", obj(vec![("text", s("x"))])), music], true).unwrap();
    assert_eq!(p.len(), 2);
    assert_eq!(p[1].0, 10);
    assert_eq!(
        p[1].1,
        r#"[{"type":"card","theme":"secondary","size":"lg","modules":[{"type":"audio","title":"Song \"A\"","src":"https://a.mp3","cover":"https://c.png"}]}]"#
    );
    let v: serde_json::Value = serde_json::from_str(&p[1].1).unwrap();
    assert_eq!(v[0]["modules"][0]["title"], "Song \"A\"");
    assert_eq!(music_card_text("t\n", "a", ""), "[{\"type\":\"card\",\"theme\":\"secondary\",\"size\":\"lg\",\"modules\":[{\"type\":\"audio\",\"title\":\"t\\u000a\",\"src\":\"a\",\"cover\":\"\"}]}]");
    let qq = seg("music", obj(vec![("type", s("qq")), ("id", s("1"))]));
    assert_eq!(plan_pieces(&vec![qq], true).unwrap(), pieces(&[(1, "\\[CQ:music,type=qq,id=1\\]")]));
    let bad = seg("music", obj(vec![("type", s("custom")), ("audio", s("a"))]));
    assert_eq!(plan_pieces(&vec![bad], true), Err(CallError::Piece(ShapeError::Missing)));
}

#[test]
fn quoted_kook_message() {
    let mut st = MsgIdStore::new();
    let n = add_msg_id(&mut st, vec!["k1".to_string(), "k2".to_string()], 3);
    assert_eq!(quoted_msg_id(&st, Some(n)), Some("k1".to_string()));
    assert_eq!(quoted_msg_id(&st, None), None);
    assert_eq!(quoted_msg_id(&st, Some(n.wrapping_add(1))), None);
}

#[test]
fn group_member_list_call() {
    let p = obj(vec![("group_id", Json::PosInt(5))]);
    assert!(matches!(plan_request("get_group_member_list", &p, ""), Ok(OnebotRequest::GetGroupMemberList(g)) if g == "5"));
    let ms = vec![member(5, 1, "a")];
    assert_eq!(
        render(&member_list_json(&ms)),
        r#"[{"group_id":5,"user_id":1,"nickname":"a","card":"","sex":"unknown","age":0,"area":"","join_time":0,"last_sent_time":0,"level":"","role":"member","unfriendly":false,"title":"","title_expire_time":0,"card_changeable":false}]"#
    );
}
