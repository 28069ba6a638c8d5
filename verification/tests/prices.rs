use protohackers::prices::{get_average, parse_bytes, Message, ParseError, PriceDb};

#[test]
fn test_parse_insert_frame() {
    // 'I', timestamp 12345, price 101.
    let bytes = [0x49, 0, 0, 0x30, 0x39, 0, 0, 0, 0x65];
    assert_eq!(parse_bytes(bytes), Ok(Message::Insert(12345, 101)));
}

#[test]
fn test_parse_query_frame() {
    let bytes = [0x51, 0, 0, 0x03, 0xE8, 0, 1, 0x86, 0xA0];
    assert_eq!(parse_bytes(bytes), Ok(Message::Query(1000, 100000)));
}

#[test]
fn test_parse_negative_numbers() {
    // Two's complement: -1 and -12345.
    let bytes = [0x49, 0xFF, 0xFF, 0xFF, 0xFF, 0xFF, 0xFF, 0xCF, 0xC7];
    assert_eq!(parse_bytes(bytes), Ok(Message::Insert(-1, -12345)));
}

#[test]
fn test_parse_extreme_values() {
    let bytes = [0x49, 0x80, 0, 0, 0, 0x7F, 0xFF, 0xFF, 0xFF];
    assert_eq!(parse_bytes(bytes), Ok(Message::Insert(i32::MIN, i32::MAX)));
}

#[test]
fn test_parse_rejects_unknown_operation() {
    let bytes = [0x58, 0, 0, 0, 1, 0, 0, 0, 2];
    assert_eq!(parse_bytes(bytes), Err(ParseError));
}

#[test]
fn test_average_of_window() {
    let samples = [(1, 100), (2, 101), (3, 9000)];
    assert_eq!(get_average(1, 2, &samples), 100); // 201 / 2 truncates
    assert_eq!(get_average(1, 3, &samples), 3067);
    assert_eq!(get_average(3, 3, &samples), 9000);
}

#[test]
fn test_average_truncates_toward_zero() {
    let samples = [(1, -5), (2, -6)];
    // -11 / 2 is -5 when truncated toward zero (not -6).
    assert_eq!(get_average(1, 2, &samples), -5);
}

#[test]
fn test_average_of_empty_window_is_zero() {
    let samples = [(10, 55)];
    assert_eq!(get_average(1, 5, &samples), 0);
    assert_eq!(get_average(5, 1, &samples), 0); // inverted window
    assert_eq!(get_average(1, 5, &[]), 0);
}

#[test]
fn test_price_db_round() {
    let mut db = PriceDb::new();
    assert_eq!(db.apply_message(Message::Insert(100, 10)), None);
    assert_eq!(db.apply_message(Message::Insert(200, 20)), None);
    assert_eq!(db.apply_message(Message::Insert(300, 33)), None);
    assert_eq!(db.apply_message(Message::Query(100, 200)), Some(15));
    assert_eq!(db.apply_message(Message::Query(0, 1000)), Some(21));
    assert_eq!(db.apply_message(Message::Query(400, 500)), Some(0));
}
