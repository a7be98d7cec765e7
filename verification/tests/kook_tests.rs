use kook_onebot::json::{Json, ShapeError};
use kook_onebot::kook_api::{
    api_url, auth_header, build_member_info, channel_list_path, delete_body, friend_list_path, image_source,
    kick_body, later_pages, member_list_path, message_bodies, message_body, parse_member_page, nickname_body, parse_channel_list, parse_friend_page, parse_group_info,
    parse_guild_ids, parse_login_info, parse_page_total, parse_stranger_info, parse_upload_url, rename_body,
    reply_data, user_view_path, FriendInfo, ImageError, ImageSource,
};

fn s(x: &str) -> Json {
    Json::Str(x.to_string())
}

fn obj(fields: Vec<(&str, Json)>) -> Json {
    Json::Object(fields.into_iter().map(|(k, v)| (k.to_string(), v)).collect())
}

fn render(j: &Json) -> String {
    match j {
        Json::Null => "null".to_string(),
        Json::Bool(b) => b.to_string(),
        Json::PosInt(n) => n.to_string(),
        Json::NegInt(i) => i.to_string(),
        Json::Float(f) => f.clone(),
        Json::Str(t) => format!("{:?}", t),
        Json::Array(v) => format!("[{}]", v.iter().map(render).collect::<Vec<_>>().join(",")),
        Json::Object(f) => format!(
            "{{{}}}",
            f.iter().map(|(k, v)| format!("{:?}:{}", k, render(v))).collect::<Vec<_>>().join(",")
        ),
    }
}

fn channel(id: &str, name: &str, tp: u64, cat: bool) -> Json {
    obj(vec![("id", s(id)), ("name", s(name)), ("type", Json::PosInt(tp)), ("is_category", Json::Bool(cat))])
}

#[test]
fn urls_and_headers() {
    assert_eq!(api_url("/user/me"), "https://www.kookapp.cn/api/v3/user/me");
    assert_eq!(auth_header("abc"), "Bot abc");
    assert_eq!(channel_list_path("7"), "/channel/list?guild_id=7");
    assert_eq!(user_view_path("5", None), "/user/view?user_id=5");
    assert_eq!(user_view_path("5", Some("9")), "/user/view?user_id=5&guild_id=9");
    assert_eq!(friend_list_path(None), "/user-chat/list");
    assert_eq!(friend_list_path(Some(3)), "/user-chat/list?page=3");
}

#[test]
fn request_bodies() {
    assert_eq!(render(&kick_body("g", "u")), r#"{"guild_id":"g","target_id":"u"}"#);
    assert_eq!(render(&delete_body("m")), r#"{"msg_id":"m"}"#);
    assert_eq!(render(&rename_body("c", "n")), r#"{"channel_id":"c","name":"n"}"#);
    assert_eq!(render(&nickname_body("g", "u", "n")), r#"{"guild_id":"g","user_id":"u","nickname":"n"}"#);
    assert_eq!(render(&message_body(2, "t", "x", None)), r#"{"content":"x","target_id":"t","type":2}"#);
    assert_eq!(
        render(&message_body(1, "t", "x", Some("q"))),
        r#"{"content":"x","target_id":"t","type":1,"quote":"q"}"#
    );
    let bodies = message_bodies("t", &vec![(1, "a".to_string()), (10, "c".to_string())], Some("q"));
    assert_eq!(render(&bodies[0]), r#"{"content":"a","target_id":"t","type":1,"quote":"q"}"#);
    assert_eq!(render(&bodies[1]), r#"{"content":"c","target_id":"t","type":10}"#);
}

#[test]
fn reply_data_member() {
    let r = obj(vec![("code", Json::PosInt(0)), ("data", obj(vec![("id", s("1"))]))]);
    assert_eq!(render(&reply_data(&r).unwrap()), r#"{"id":"1"}"#);
    assert!(matches!(reply_data(&obj(vec![])), Err(ShapeError::Missing)));
}

#[test]
fn login_stranger_group() {
    let d = obj(vec![("id", s("123")), ("username", s("bot")), ("name", s("chan"))]);
    let l = parse_login_info(&d).unwrap();
    assert_eq!((l.user_id, l.nickname.as_str()), (123, "bot"));
    assert_eq!(render(&l.to_json()), r#"{"user_id":123,"nickname":"bot"}"#);
    let st = parse_stranger_info(&d).unwrap();
    assert_eq!(render(&st.to_json()), r#"{"user_id":123,"nickname":"bot","sex":"unknown","age":0}"#);
    let g = parse_group_info(&d).unwrap();
    assert_eq!(render(&g.to_json()), r#"{"group_id":123,"group_name":"chan","member_count":0,"max_member_count":0}"#);
    assert!(matches!(parse_login_info(&obj(vec![("id", s("x")), ("username", s("b"))])), Err(ShapeError::BadNumber)));
    assert!(matches!(parse_login_info(&obj(vec![("id", Json::PosInt(1))])), Err(ShapeError::NotStr)));
    assert!(matches!(parse_login_info(&obj(vec![("id", s("1"))])), Err(ShapeError::Missing)));
}

#[test]
fn channel_list_keeps_text_channels() {
    let d = obj(vec![(
        "items",
        Json::Array(vec![
            channel("1", "general", 1, false),
            channel("2", "voice", 2, false),
            channel("3", "cat", 1, true),
            channel("4", "news", 1, false),
        ]),
    )]);
    let gs = parse_channel_list(&d).unwrap();
    assert_eq!(gs.len(), 2);
    assert_eq!((gs[0].group_id, gs[0].group_name.as_str()), (1, "general"));
    assert_eq!((gs[1].group_id, gs[1].group_name.as_str()), (4, "news"));
    let bad = obj(vec![("items", Json::Array(vec![channel("x", "a", 1, false)]))]);
    assert!(matches!(parse_channel_list(&bad), Err(ShapeError::BadNumber)));
    let skipped = obj(vec![("items", Json::Array(vec![channel("x", "a", 2, false)]))]);
    assert_eq!(parse_channel_list(&skipped).unwrap().len(), 0);
}

#[test]
fn guild_ids_and_friends() {
    let d = obj(vec![("items", Json::Array(vec![obj(vec![("id", s("a"))]), obj(vec![("id", s("b"))])]))]);
    assert_eq!(parse_guild_ids(&d).unwrap(), vec!["a".to_string(), "b".to_string()]);
    let f = obj(vec![
        (
            "items",
            Json::Array(vec![obj(vec![("target_info", obj(vec![("id", s("9")), ("username", s("amy"))]))])]),
        ),
        ("meta", obj(vec![("page_total", Json::PosInt(3))])),
    ]);
    let fs: Vec<FriendInfo> = parse_friend_page(&f).unwrap();
    assert_eq!(fs.len(), 1);
    assert_eq!(render(&fs[0].to_json()), r#"{"user_id":9,"nickname":"amy","remark":"amy"}"#);
    assert_eq!(parse_page_total(&f).unwrap(), 3);
}

#[test]
fn group_member_roles() {
    let user = obj(vec![
        ("username", s("amy")),
        ("nickname", s("A")),
        ("joined_at", Json::PosInt(1_700_000_000_123)),
        ("active_time", Json::PosInt(1_700_000_100_999)),
        ("roles", Json::Array(vec![])),
    ]);
    let owner_guild = obj(vec![("user_id", s("5"))]);
    let other_guild = obj(vec![("user_id", s("6"))]);
    let m = build_member_info("10", "5", &user, &owner_guild).unwrap();
    assert_eq!(m.role, "owner");
    assert_eq!((m.group_id, m.user_id, m.join_time, m.last_sent_time), (10, 5, 1_700_000_000, 1_700_000_100));
    assert_eq!(
        render(&m.to_json()),
        r#"{"group_id":10,"user_id":5,"nickname":"amy","card":"A","sex":"unknown","age":0,"area":"","join_time":1700000000,"last_sent_time":1700000100,"level":"","role":"owner","unfriendly":false,"title":"","title_expire_time":0,"card_changeable":false}"#
    );
    let m = build_member_info("10", "5", &user, &other_guild).unwrap();
    assert_eq!(m.role, "member");
    let mut admin = user;
    if let Json::Object(f) = &mut admin {
        f[4].1 = Json::Array(vec![Json::PosInt(1)]);
    }
    assert_eq!(build_member_info("10", "5", &admin, &other_guild).unwrap().role, "admin");
    assert!(matches!(build_member_info("x", "5", &admin, &other_guild), Err(ShapeError::BadNumber)));
}

#[test]
fn upload_reply_url() {
    let r = obj(vec![("data", obj(vec![("url", s("https://img.kookapp.cn/a.png"))]))]);
    assert_eq!(parse_upload_url(&r).unwrap(), "https://img.kookapp.cn/a.png");
    assert!(matches!(parse_upload_url(&obj(vec![("data", obj(vec![]))])), Err(ShapeError::Missing)));
}

#[test]
fn image_sources() {
    assert!(matches!(image_source("https://x/y.png"), Ok(ImageSource::Download(u)) if u == "https://x/y.png"));
    assert!(matches!(image_source("base64://aGVsbG8="), Ok(ImageSource::Bytes(b)) if b == b"hello".to_vec()));
    assert!(matches!(image_source("base64://!!"), Err(ImageError::BadBase64)));
    assert!(matches!(image_source("file:///tmp/a.png"), Ok(ImageSource::File(p)) if p == "tmp/a.png"));
    assert!(matches!(image_source("file://"), Err(ImageError::NoPath)));
    assert!(matches!(image_source("file:/é/x"), Ok(ImageSource::File(p)) if p == "/x"));
    assert!(matches!(image_source("file://é/x"), Err(ImageError::NoPath)));
}

#[test]
fn member_list_page() {
    let item = |id: &str, roles: Vec<Json>| {
        obj(vec![
            ("id", s(id)),
            ("username", s("u")),
            ("nickname", s("n")),
            ("joined_at", Json::PosInt(2000)),
            ("active_time", Json::PosInt(3000)),
            ("roles", Json::Array(roles)),
        ])
    };
    let d = obj(vec![("items", Json::Array(vec![item("5", vec![]), item("6", vec![Json::PosInt(1)]), item("7", vec![])]))]);
    let guild = obj(vec![("user_id", s("5"))]);
    let ms = parse_member_page("10", &d, &guild).unwrap();
    let roles: Vec<&str> = ms.iter().map(|m| m.role.as_str()).collect();
    assert_eq!(roles, vec!["owner", "admin", "member"]);
    assert_eq!((ms[1].group_id, ms[1].user_id, ms[1].join_time, ms[1].last_sent_time), (10, 6, 2, 3));
    let bad = obj(vec![("items", Json::Array(vec![obj(vec![("id", s("x"))])]))]);
    assert!(parse_member_page("10", &bad, &guild).is_err());
    assert_eq!(member_list_path("9", None), "/guild/user-list?guild_id=9");
    assert_eq!(member_list_path("9", Some(2)), "/guild/user-list?guild_id=9&page=2");
}

#[test]
fn later_pages_of_a_listing() {
    assert_eq!(later_pages(1), Vec::<u64>::new());
    assert_eq!(later_pages(0), Vec::<u64>::new());
    assert_eq!(later_pages(-3), Vec::<u64>::new());
    assert_eq!(later_pages(2), vec![2]);
    assert_eq!(later_pages(4), vec![2, 3, 4]);
}
