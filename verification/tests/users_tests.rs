use collab_core::users::{
    find_user_record, format_user_line, parse_user_line, username_exists,
};

#[test]
fn parse_splits_on_the_first_two_commas() {
    let rec = parse_user_line(&"alice,hash1,room1".to_string()).expect("well-formed line");
    assert_eq!(rec.username, "alice");
    assert_eq!(rec.password_hash, "hash1");
    assert_eq!(rec.room_hash, "room1");
}

#[test]
fn parse_keeps_commas_of_the_trailing_field() {
    let rec = parse_user_line(&"bob,h,room,with,commas".to_string()).unwrap();
    assert_eq!(rec.username, "bob");
    assert_eq!(rec.password_hash, "h");
    assert_eq!(rec.room_hash, "room,with,commas");
}

#[test]
fn parse_accepts_empty_fields() {
    let rec = parse_user_line(&",,".to_string()).unwrap();
    assert_eq!(rec.username, "");
    assert_eq!(rec.password_hash, "");
    assert_eq!(rec.room_hash, "");
}

#[test]
fn parse_handles_non_ascii_names() {
    let rec = parse_user_line(&"héloïse,h≠,r".to_string()).unwrap();
    assert_eq!(rec.username, "héloïse");
    assert_eq!(rec.password_hash, "h≠");
    assert_eq!(rec.room_hash, "r");
}

#[test]
fn parse_rejects_lines_with_fewer_than_two_commas() {
    assert!(parse_user_line(&"".to_string()).is_none());
    assert!(parse_user_line(&"alice".to_string()).is_none());
    assert!(parse_user_line(&"alice,hash1".to_string()).is_none());
}

#[test]
fn find_user_record_takes_the_first_match_and_skips_bad_lines() {
    let lines: Vec<String> = [
        "not a record".to_string(),
        "bob,bh,br".to_string(),
        "alice,first,r1".to_string(),
        "alice,second,r2".to_string(),
    ]
    .to_vec();
    let rec = find_user_record(&lines, &"alice".to_string()).expect("alice is present");
    assert_eq!(rec.password_hash, "first");
    assert_eq!(rec.room_hash, "r1");
    assert!(find_user_record(&lines, &"carol".to_string()).is_none());
    assert!(find_user_record(&lines, &"not a record".to_string()).is_none());
}

#[test]
fn username_exists_follows_the_parsed_lines() {
    let lines: Vec<String> = ["alice,h,r".to_string(), "broken".to_string()].to_vec();
    assert!(username_exists(&lines, &"alice".to_string()));
    assert!(!username_exists(&lines, &"broken".to_string()));
    assert!(!username_exists(&lines, &"bob".to_string()));
}

#[test]
fn format_then_parse_round_trips() {
    let line = format_user_line(
        &"alice".to_string(),
        &"$argon$fake".to_string(),
        &"room,one".to_string(),
    );
    assert_eq!(line, "alice,$argon$fake,room,one");
    let rec = parse_user_line(&line).unwrap();
    assert_eq!(rec.username, "alice");
    assert_eq!(rec.password_hash, "$argon$fake");
    assert_eq!(rec.room_hash, "room,one");
}
