use kook_onebot::msgid::{add_msg_id, cq_msg_id, get_cq_msg_id, crc32, generate_crc32_table, get_msg_id, MsgIdStore};

#[test]
fn crc32_check_value() {
    assert_eq!(crc32(b"123456789"), 0xCBF4_3926);
    assert_eq!(crc32(b""), 0);
    assert_eq!(crc32(b"a"), 0xE8B7_BE43);
}

#[test]
fn crc32_table_entries() {
    let t = generate_crc32_table();
    assert_eq!(t[0], 0);
    assert_eq!(t[1], 0x7707_3096);
    assert_eq!(t[128], 0xEDB8_8320);
    assert_eq!(t[255], 0x2D02_EF8D);
}

#[test]
fn message_number_is_crc_of_first_id() {
    let mut st = MsgIdStore::new();
    let n = add_msg_id(&mut st, vec!["123456789".to_string(), "other".to_string()], 7);
    assert_eq!(n, 0xCBF4_3926u32 as i32);
    assert_eq!(n, cq_msg_id("123456789"));
    assert_eq!(st.len(), 1);
}

#[test]
fn read_back_what_was_added() {
    let mut st = MsgIdStore::new();
    let ids = vec!["abc".to_string(), "def".to_string()];
    let n = add_msg_id(&mut st, ids.clone(), 7);
    assert_eq!(get_msg_id(&st, n), ids);
    let m = add_msg_id(&mut st, vec!["xyz".to_string()], 7);
    assert_eq!(get_msg_id(&st, m), vec!["xyz".to_string()]);
    assert_eq!(get_msg_id(&st, n), ids);
    assert_eq!(st.len(), 2);
}

#[test]
fn unknown_number_gives_nothing() {
    let st = MsgIdStore::new();
    assert!(get_msg_id(&st, 5).is_empty());
}

#[test]
fn empty_id_list_gets_zero_and_is_not_kept() {
    let mut st = MsgIdStore::new();
    assert_eq!(add_msg_id(&mut st, vec![], 7), 0);
    assert_eq!(st.len(), 0);
}

#[test]
fn same_first_id_replaces_entry() {
    let mut st = MsgIdStore::new();
    let a = add_msg_id(&mut st, vec!["k".to_string(), "1".to_string()], 7);
    let b = add_msg_id(&mut st, vec!["k".to_string(), "2".to_string()], 7);
    assert_eq!(a, b);
    assert_eq!(st.len(), 1);
    assert_eq!(get_msg_id(&st, a), vec!["k".to_string(), "2".to_string()]);
}

#[test]
fn crc32_is_affine_over_xor() {
    let a = b"hello world";
    let b = b"kook onebot";
    let c = b"0123456789a";
    let x: Vec<u8> = (0..a.len()).map(|i| a[i] ^ b[i] ^ c[i]).collect();
    assert_eq!(crc32(&x), crc32(a) ^ crc32(b) ^ crc32(c));
}

#[test]
fn recall_finds_number_and_sender() {
    let mut st = MsgIdStore::new();
    let n = add_msg_id(&mut st, vec!["km1".to_string()], 42);
    assert_eq!(get_cq_msg_id(&st, "km1"), (n, 42));
    assert_eq!(get_cq_msg_id(&st, "unknown"), (cq_msg_id("unknown"), 0));
    let m = add_msg_id(&mut st, vec!["km2".to_string(), "km3".to_string()], 9);
    assert_eq!(get_cq_msg_id(&st, "km2"), (m, 9));
    assert_eq!(get_cq_msg_id(&st, "km1"), (n, 42));
}
