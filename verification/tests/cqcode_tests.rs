use kook_onebot::cqcode::{
    arr_to_cq_str, cq_params_encode, cq_text_encode, make_kook_text, parse_cq_chars,
    segs_to_json, str_msg_to_arr, CqError, CqSegment,
};
use kook_onebot::json::Json;

fn s(x: &str) -> Json {
    Json::Str(x.to_string())
}

fn obj(fields: Vec<(&str, Json)>) -> Json {
    Json::Object(fields.into_iter().map(|(k, v)| (k.to_string(), v)).collect())
}

fn render(j: &Json) -> String {
    match j {
        Json::Null => "null".to_string(),
        Json::Bool(b) => b.to_string(),
        Json::PosInt(n) => n.to_string(),
        Json::NegInt(i) => i.to_string(),
        Json::Float(f) => f.clone(),
        Json::Str(t) => format!("{:?}", t),
        Json::Array(v) => format!("[{}]", v.iter().map(render).collect::<Vec<_>>().join(",")),
        Json::Object(f) => format!(
            "{{{}}}",
            f.iter().map(|(k, v)| format!("{:?}:{}", k, render(v))).collect::<Vec<_>>().join(",")
        ),
    }
}

fn seg(tp: &str, data: Json) -> Json {
    obj(vec![("type", s(tp)), ("data", data)])
}

#[test]
fn text_encode_escapes_brackets_and_ampersand() {
    assert_eq!(cq_text_encode("a&[b]"), "a&amp;&#91;b&#93;");
    assert_eq!(cq_text_encode("a,b"), "a,b");
    assert_eq!(cq_text_encode(""), "");
}

#[test]
fn params_encode_also_escapes_comma() {
    assert_eq!(cq_params_encode("a,b&[]"), "a&#44;b&amp;&#91;&#93;");
    assert_eq!(cq_params_encode("plain"), "plain");
}

#[test]
fn kook_text_escapes_markdown() {
    assert_eq!(make_kook_text("a*b(c)"), "a\\*b\\(c\\)");
    assert_eq!(make_kook_text("\\~[]->`"), "\\\\\\~\\[\\]\\-\\>\\`");
    assert_eq!(make_kook_text("你好"), "你好");
}

#[test]
fn array_to_cq_string() {
    let msg = Json::Array(vec![
        seg("text", obj(vec![("text", s("hi["))])),
        seg("at", obj(vec![("qq", s("1"))])),
        seg("image", obj(vec![("file", s("a,b")), ("url", s("x"))])),
    ]);
    assert_eq!(arr_to_cq_str(&msg).unwrap(), "hi&#91;[CQ:at,qq=1][CQ:image,file=a&#44;b,url=x]");
}

#[test]
fn array_to_cq_string_edge_cases() {
    assert_eq!(arr_to_cq_str(&s("already [CQ:face,id=1]")).unwrap(), "already [CQ:face,id=1]");
    assert_eq!(arr_to_cq_str(&Json::Array(vec![])).unwrap(), "");
    assert_eq!(arr_to_cq_str(&Json::Array(vec![seg("face", Json::PosInt(1))])).unwrap(), "[CQ:face]");
    assert_eq!(arr_to_cq_str(&Json::Array(vec![seg("face", obj(vec![]))])).unwrap(), "[CQ:face]");
}

#[test]
fn array_to_cq_string_errors() {
    assert_eq!(arr_to_cq_str(&Json::Null), Err(CqError::NotArray));
    assert_eq!(arr_to_cq_str(&Json::Array(vec![obj(vec![])])), Err(CqError::MissingType));
    assert_eq!(
        arr_to_cq_str(&Json::Array(vec![obj(vec![("type", Json::PosInt(1))])])),
        Err(CqError::TypeNotStr)
    );
    assert_eq!(arr_to_cq_str(&Json::Array(vec![obj(vec![("type", s("text"))])])), Err(CqError::MissingData));
    assert_eq!(arr_to_cq_str(&Json::Array(vec![seg("text", obj(vec![]))])), Err(CqError::MissingText));
    assert_eq!(
        arr_to_cq_str(&Json::Array(vec![seg("text", obj(vec![("text", Json::PosInt(3))]))])),
        Err(CqError::TextNotStr)
    );
    assert_eq!(
        arr_to_cq_str(&Json::Array(vec![seg("at", obj(vec![("qq", Json::PosInt(3))]))])),
        Err(CqError::ParamNotStr)
    );
}

#[test]
fn string_message_to_array() {
    let arr = str_msg_to_arr(&s("hi[CQ:at,qq=123]x")).unwrap();
    assert_eq!(
        render(&arr),
        r#"[{"type":"text","data":{"text":"hi"}},{"type":"at","data":{"qq":"123"}},{"type":"text","data":{"text":"x"}}]"#
    );
}

#[test]
fn string_message_entities_are_decoded() {
    let arr = str_msg_to_arr(&s("&#91;a&#93;&amp;&#44;")).unwrap();
    assert_eq!(render(&arr), r#"[{"type":"text","data":{"text":"[a]&&#44;"}}]"#);
    let arr = str_msg_to_arr(&s("[CQ:image,file=a&#44;b,url=c&amp;d]")).unwrap();
    assert_eq!(
        render(&arr),
        r#"[{"type":"image","data":{"file":"a,b","url":"c&d"}}]"#
    );
}

#[test]
fn string_message_edge_cases() {
    assert_eq!(render(&str_msg_to_arr(&s("")).unwrap()), "[]");
    assert_eq!(render(&str_msg_to_arr(&s("[CQ")).unwrap()), r#"[{"type":"text","data":{"text":"[CQ"}}]"#);
    assert_eq!(render(&str_msg_to_arr(&s("[x]")).unwrap()), r#"[{"type":"text","data":{"text":"[x]"}}]"#);
    assert!(matches!(str_msg_to_arr(&Json::PosInt(1)), Err(CqError::NotString)));
}

#[test]
fn string_message_repeated_key_keeps_last_value() {
    let arr = str_msg_to_arr(&s("[CQ:at,qq=1,qq=2]")).unwrap();
    assert_eq!(render(&arr), r#"[{"type":"at","data":{"qq":"2"}}]"#);
}

#[test]
fn parse_cq_chars_gives_segments() {
    let cs: Vec<char> = "a[CQ:face,id=1]".chars().collect();
    let segs = parse_cq_chars(&cs);
    assert_eq!(segs.len(), 2);
    match &segs[0] {
        CqSegment::Text(t) => assert_eq!(t, "a"),
        _ => panic!("expected text"),
    }
    match &segs[1] {
        CqSegment::Code(k, ps) => {
            assert_eq!(k, "face");
            assert_eq!(ps, &vec![("id".to_string(), "1".to_string())]);
        }
        _ => panic!("expected a code"),
    }
    assert_eq!(render(&segs_to_json(&segs)), r#"[{"type":"text","data":{"text":"a"}},{"type":"face","data":{"id":"1"}}]"#);
}

#[test]
fn cq_string_round_trip() {
    let msg = Json::Array(vec![
        seg("text", obj(vec![("text", s("a[b]&c,d"))])),
        seg("at", obj(vec![("qq", s("12,3"))])),
        seg("text", obj(vec![("text", s("end"))])),
    ]);
    let text = arr_to_cq_str(&msg).unwrap();
    assert_eq!(text, "a&#91;b&#93;&amp;c,d[CQ:at,qq=12&#44;3]end");
    let back = str_msg_to_arr(&s(&text)).unwrap();
    assert_eq!(render(&back), render(&msg));
}

#[test]
fn escaped_text_never_looks_like_markup() {
    let t = cq_text_encode("[CQ:at,qq=1] & ]]");
    assert!(!t.contains('[') && !t.contains(']'));
    let p = cq_params_encode("a,[b],c");
    assert!(!p.contains('[') && !p.contains(']') && !p.contains(','));
    assert_eq!(render(&str_msg_to_arr(&s(&t)).unwrap()), r#"[{"type":"text","data":{"text":"[CQ:at,qq=1] & ]]"}}]"#);
}

#[test]
fn kook_text_adds_one_backslash_per_special() {
    let t = "a*b-(c)";
    let e = make_kook_text(t);
    assert_eq!(e.chars().count(), t.chars().count() + 4);
    let mut back = String::new();
    let cs: Vec<char> = e.chars().collect();
    let mut i = 0;
    while i < cs.len() {
        if cs[i] == '\\' && i + 1 < cs.len() {
            back.push(cs[i + 1]);
            i += 2;
        } else {
            back.push(cs[i]);
            i += 1;
        }
    }
    assert_eq!(back, t);
}

#[test]
fn parsed_messages_are_well_shaped() {
    let arr = str_msg_to_arr(&s("a[CQ:face,id=1]b[CQ:at,qq=2][CQ:at,qq=3]c")).unwrap();
    assert_eq!(
        render(&arr),
        r#"[{"type":"text","data":{"text":"a"}},{"type":"face","data":{"id":"1"}},{"type":"text","data":{"text":"b"}},{"type":"at","data":{"qq":"2"}},{"type":"at","data":{"qq":"3"}},{"type":"text","data":{"text":"c"}}]"#
    );
}

#[test]
fn array_round_trip_keeps_type_and_data() {
    let msg = Json::Array(vec![
        obj(vec![("data", obj(vec![("id", s("5")), ("name", s("x=y"))])), ("type", s("face"))]),
        seg("text", obj(vec![("text", s("hi"))])),
    ]);
    let text = arr_to_cq_str(&msg).unwrap();
    assert_eq!(text, "[CQ:face,id=5,name=x=y]hi");
    let back = str_msg_to_arr(&s(&text)).unwrap();
    assert_eq!(
        render(&back),
        r#"[{"type":"face","data":{"id":"5","name":"x=y"}},{"type":"text","data":{"text":"hi"}}]"#
    );
}

#[test]
fn text_typed_code_is_kept_as_a_code() {
    let arr = str_msg_to_arr(&s("a[CQ:text,text=b]")).unwrap();
    assert_eq!(
        render(&arr),
        r#"[{"type":"text","data":{"text":"a"}},{"type":"text","data":{"text":"b"}}]"#
    );
}
