use sybil::aggregate::{find_average, find_most_frequent_value};
use sybil::number::{u64_to_i64, ParsedNumber};
use sybil::router::Router;

#[test]
fn test_router() {
    let mut router = Router::<String> { routes: Vec::new() };

    router.insert("/test:params", "test:1".to_string()).unwrap();

    println!("{:?}", router);

    let route = router.at("/test?param=a").unwrap();
    println!("{:?}", route);
}

#[test]
fn router_match_carries_value_and_query() {
    let mut router = Router::<String>::new();
    router.insert("/test:params", "test:1".to_string()).unwrap();
    let route = router.at("/test?param=a").unwrap();
    assert_eq!(*route.value, "test:1");
    assert_eq!(route.params, "param=a");
    let plain = router.at("/test").unwrap();
    assert_eq!(plain.params, "/test");
    assert!(router.at("/other?x=1").is_none());
}

#[test]
fn router_refuses_malformed_key() {
    let mut router = Router::<u32>::new();
    assert!(router.insert("bad key!", 1).is_err());
    assert!(router.insert("/a:b:c:d", 1).is_err());
    assert!(router.at("bad key!").is_none());
}

#[test]
fn parsed_number_test() {
    let result = ParsedNumber::parse("12345.67", None);
    assert!(result.is_ok());

    let parsed_number = result.unwrap();
    assert_eq!(parsed_number.number, 1234567);
    assert_eq!(parsed_number.decimals, 2);

    let result = ParsedNumber::parse("12345", None);
    assert!(result.is_ok());

    let parsed_number = result.unwrap();
    assert_eq!(parsed_number.number, 12345);
    assert_eq!(parsed_number.decimals, 0);

    let result = ParsedNumber::parse("98765.4321", Some(4));
    assert!(result.is_ok());

    let parsed_number = result.unwrap();
    assert_eq!(parsed_number.number, 987654321);
    assert_eq!(parsed_number.decimals, 4);

    let result = ParsedNumber::parse("1.1234", Some(6));
    assert!(result.is_ok());

    let parsed_number = result.unwrap();
    assert_eq!(parsed_number.number, 1123400);
    assert_eq!(parsed_number.decimals, 6);

    let result = ParsedNumber::parse("0.1234", Some(6));
    assert!(result.is_ok());

    let parsed_number = result.unwrap();
    assert_eq!(parsed_number.number, 123400);
    assert_eq!(parsed_number.decimals, 6);

    let result = ParsedNumber::parse("1.1234", Some(2));
    assert!(result.is_ok());

    let parsed_number = result.unwrap();
    assert_eq!(parsed_number.number, 112);
    assert_eq!(parsed_number.decimals, 2);

    let result = ParsedNumber::parse("0.1234", Some(2));
    assert!(result.is_ok());

    let parsed_number = result.unwrap();
    assert_eq!(parsed_number.number, 12);
    assert_eq!(parsed_number.decimals, 2);

    let result = ParsedNumber::parse("0.0", Some(2));
    assert!(result.is_ok());

    let parsed_number = result.unwrap();
    assert_eq!(parsed_number.number, 0);
    assert_eq!(parsed_number.decimals, 2);

    let result = ParsedNumber::parse("1.12", Some(0));
    assert!(result.is_ok());

    let parsed_number = result.unwrap();
    assert_eq!(parsed_number.number, 1);
    assert_eq!(parsed_number.decimals, 0);

    let result = ParsedNumber::parse("invalid_input", None);
    assert!(result.is_err());
}

#[test]
fn parsed_number_edges() {
    assert_eq!(ParsedNumber::parse("+7", None).unwrap().number, 7);
    assert!(ParsedNumber::parse("", None).is_err());
    assert!(ParsedNumber::parse("-1", None).is_err());
    assert_eq!(ParsedNumber::parse("18446744073709551615", None).unwrap().number, u64::MAX);
    assert!(ParsedNumber::parse("18446744073709551616", None).is_err());
    assert!(ParsedNumber::parse("1844674407370955161.5", Some(2)).is_err());
    let p = ParsedNumber::parse(".5", None).unwrap();
    assert_eq!((p.number, p.decimals), (5, 1));
}

#[test]
fn test_find_mind_frequent_value() {
    let mut arr1 = vec![2, 5, 7, 4, 4, 9, 5, 3, 4];

    arr1.sort();

    let value = find_most_frequent_value(&arr1);
    println!("{:?}", value);
    assert_eq!(value, Some(&4));
}

#[test]
fn most_frequent_ties_and_empty() {
    let arr = vec![3, 1, 1, 3];
    assert_eq!(find_most_frequent_value(&arr), Some(&3));
    let empty: Vec<i32> = Vec::new();
    assert_eq!(find_most_frequent_value(&empty), None);
}

#[test]
fn average_rounds_down() {
    assert_eq!(find_average(&[1, 2, 3]), 2);
    assert_eq!(find_average(&[1, 2]), 1);
    assert_eq!(find_average(&[u64::MAX, u64::MAX]), u64::MAX);
}

#[test]
fn u64_to_i64_saturates() {
    assert_eq!(u64_to_i64(5), 5);
    assert_eq!(u64_to_i64(u64::MAX), i64::MAX);
}
