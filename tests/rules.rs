use chameleon::rules::{
    default_match_codes, filter, filter_size, parse_size, parse_status_codes, sizes_match, Action,
    Size, StatusCodes,
};
use std::str::FromStr;

#[test]
fn status_codes_all_word() {
    assert_eq!(parse_status_codes("all"), Ok(StatusCodes::All));
    assert_eq!(StatusCodes::from_str("all"), Ok(StatusCodes::All));
}

#[test]
fn status_codes_list() {
    assert_eq!(
        parse_status_codes("200,301,+404"),
        Ok(StatusCodes::Codes(vec![200, 301, 404]))
    );
    assert_eq!(parse_status_codes("65535"), Ok(StatusCodes::Codes(vec![65535])));
}

#[test]
fn status_codes_invalid_piece_is_named() {
    assert_eq!(parse_status_codes("200,abc,x"), Err("Invalid code: abc".to_string()));
    assert_eq!(parse_status_codes("65536"), Err("Invalid code: 65536".to_string()));
    assert_eq!(parse_status_codes("200,"), Err("Invalid code: ".to_string()));
    assert_eq!(parse_status_codes("ALL"), Err("Invalid code: ALL".to_string()));
    assert_eq!(parse_status_codes("-1"), Err("Invalid code: -1".to_string()));
}

#[test]
fn size_single_and_range() {
    assert_eq!(parse_size("512"), Ok(Size::Single(512)));
    assert_eq!(parse_size("100-200"), Ok(Size::Range(100, 200)));
    assert_eq!(Size::from_str("0-0"), Ok(Size::Range(0, 0)));
}

#[test]
fn size_errors() {
    assert_eq!(parse_size("1-2-3"), Err("Invalid filter size format".to_string()));
    assert_eq!(parse_size(""), Err("cannot parse integer from empty string".to_string()));
    assert_eq!(parse_size("12a"), Err("invalid digit found in string".to_string()));
    assert_eq!(parse_size("5-x"), Err("invalid digit found in string".to_string()));
    assert_eq!(parse_size("+"), Err("invalid digit found in string".to_string()));
    assert_eq!(
        parse_size("99999999999999999999"),
        Err("number too large to fit in target type".to_string())
    );
    assert_eq!(parse_size("-5"), Err("cannot parse integer from empty string".to_string()));
}

#[test]
fn size_errors_agree_with_std() {
    for s in ["", "12a", "+", "99999999999999999999", "1x99999999999999999999", "+7", "007"] {
        let ours = parse_size(s);
        let std = s.parse::<usize>().map(Size::Single).map_err(|e| e.to_string());
        assert_eq!(ours, std, "input {:?}", s);
    }
}

#[test]
fn size_range_inclusive() {
    let r = Size::Range(100, 200);
    assert!(r.matches(100));
    assert!(r.matches(200));
    assert!(r.matches(150));
    assert!(!r.matches(99));
    assert!(!r.matches(201));
    assert!(Size::Single(7).matches(7));
    assert!(!Size::Single(7).matches(8));
    assert!(sizes_match(&vec![Size::Single(1), Size::Range(10, 20)], 15));
    assert!(!sizes_match(&vec![], 15));
}

#[test]
fn all_sentinel_versus_empty_list() {
    assert!(StatusCodes::All.matches(999));
    assert!(StatusCodes::All.matches(0));
    assert!(!StatusCodes::Codes(vec![]).matches(999));
    assert!(!StatusCodes::Codes(vec![]).matches(0));
}

#[test]
fn filter_match_and_exclude() {
    let codes = StatusCodes::Codes(vec![200, 301]);
    assert_eq!(filter(&codes, 200, true), Action::Keep);
    assert_eq!(filter(&codes, 404, true), Action::Discard);
    assert_eq!(filter(&codes, 200, false), Action::Discard);
    assert_eq!(filter(&codes, 404, false), Action::Keep);
    assert_eq!(filter_size(&vec![Size::Range(1, 5)], 3, true), Action::Keep);
    assert_eq!(filter_size(&vec![Size::Range(1, 5)], 3, false), Action::Discard);
}

#[test]
fn default_codes() {
    assert_eq!(
        default_match_codes(),
        StatusCodes::Codes(vec![200, 204, 301, 302, 307, 401, 403, 405])
    );
}

#[test]
fn printed_rules_read_back() {
    let codes: Vec<u16> = vec![404, 0, 65535, 404, 7];
    let text = codes.iter().map(|c| c.to_string()).collect::<Vec<_>>().join(",");
    assert_eq!(StatusCodes::from_str(&text), Ok(StatusCodes::Codes(codes)));
    assert_eq!(StatusCodes::from_str("404"), Ok(StatusCodes::Codes(vec![404])));
    for (a, b) in [(0usize, 0usize), (100, 200), (usize::MAX, 3)] {
        assert_eq!(Size::from_str(&a.to_string()), Ok(Size::Single(a)));
        assert_eq!(Size::from_str(&format!("{}-{}", a, b)), Ok(Size::Range(a, b)));
    }
    assert_eq!(Size::from_str("1-2-3"), Err("Invalid filter size format".to_string()));
}
