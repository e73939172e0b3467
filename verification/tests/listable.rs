//! Tests of the variable-listing capability that contexts implement, and
//! of the typed capture decoding helpers.

use mattak::routing::de::{capture_named, decode_u16_field, parse_u16, parse_u64};
use mattak::routing::CaptureDeserializationError;
use mattak::routing::fill::VarsList;
use mattak::routing::Listable;

#[allow(dead_code)]
#[derive(Default)]
struct AListable {
    event_id: u16,
    user_id: String,
}

impl Listable for AListable {
    fn list_vars(&self) -> Vec<String> {
        vec!["event_id".to_string(), "user_id".to_string()]
    }
}

#[test]
fn smoke_listable() {
    let alist = AListable::default();
    assert_eq!(alist.list_vars(), vec!["event_id".to_string(), "user_id".to_string()]);
}

#[test]
fn vars_list_lists_names() {
    let vl = VarsList(vec![
        ("event_id".to_string(), "17".to_string()),
        ("user_id".to_string(), "mikey".to_string()),
    ]);
    assert_eq!(vl.list_vars(), vec!["event_id".to_string(), "user_id".to_string()]);
    assert_eq!(vl.lookup("user_id"), Some("mikey".to_string()));
    assert_eq!(vl.lookup("absent"), None);
}

#[test]
fn captures_decode_by_name() {
    let pairs = vec![
        ("event_id".to_string(), "17".to_string()),
        ("user_id".to_string(), "mikey".to_string()),
    ];
    assert_eq!(capture_named(&pairs, "event_id"), Some("17".to_string()));
    assert_eq!(capture_named(&pairs, "game_id"), None);
}

#[test]
fn decodes_u16_fields_with_named_errors() {
    let pairs = vec![
        ("event_id".to_string(), "17".to_string()),
        ("user_id".to_string(), "mikey".to_string()),
    ];
    assert_eq!(decode_u16_field(&pairs, "event_id"), Ok(17));
    assert_eq!(
        decode_u16_field(&pairs, "game_id"),
        Err(CaptureDeserializationError::MissingField("game_id".to_string()))
    );
    assert_eq!(
        decode_u16_field(&pairs, "user_id"),
        Err(CaptureDeserializationError::InvalidValue("user_id".to_string()))
    );
}

#[test]
fn decodes_u16_exactly() {
    assert_eq!(parse_u16("17"), Some(17));
    assert_eq!(parse_u16("0"), Some(0));
    assert_eq!(parse_u16("65535"), Some(65535));
    assert_eq!(parse_u16("65536"), None);
    assert_eq!(parse_u16(""), None);
    assert_eq!(parse_u16("1a"), None);
    assert_eq!(parse_u16("-1"), None);
}

#[test]
fn decodes_u64_exactly() {
    assert_eq!(parse_u64("18446744073709551615"), Some(18446744073709551615));
    assert_eq!(parse_u64("18446744073709551616"), None);
    assert_eq!(parse_u64("9000000000"), Some(9000000000));
}
