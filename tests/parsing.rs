use scalesocket::cli::{parse_cache, parse_ports};
use scalesocket::rooms::is_reserved_room;
use scalesocket::types::Cache;

#[test]
fn ports_parse() {
    assert_eq!(parse_ports("9001:9999"), Ok(9001..9999));
    assert_eq!(parse_ports("10000:10002"), Ok(10000..10002));
    assert_eq!(parse_ports("+1:0065535"), Ok(1..65535));
    assert!(parse_ports("9001").is_err());
    assert!(parse_ports("9001:").is_err());
    assert!(parse_ports("1:65536").is_err());
    assert!(parse_ports("a:2").is_err());
    assert!(parse_ports("-1:2").is_err());
    assert!(parse_ports("1:2:3").is_err());
}

#[test]
fn cache_sizes_are_restricted() {
    assert_eq!(parse_cache("all:8"), Ok(Cache::All(8)));
    assert_eq!(parse_cache("all:1"), Ok(Cache::All(1)));
    assert_eq!(parse_cache("tagged:64"), Ok(Cache::Tagged(64)));
    assert_eq!(parse_cache("64"), Ok(Cache::All(64)));
    assert!(parse_cache("all:9").is_err());
    assert!(parse_cache("all:0").is_err());
    assert!(parse_cache("7").is_err());
    assert!(parse_cache("some:8").is_err());
    assert!(parse_cache("all:").is_err());
    assert!(parse_cache("").is_err());
    assert!(parse_cache("all:99999999999999999999999").is_err());
}

#[test]
fn reserved_rooms_are_rejected() {
    for name in ["api", "metrics", "health", "static", "upload", "robots.txt", "favicon.ico"] {
        assert!(is_reserved_room(name), "{}", name);
    }
    assert!(!is_reserved_room("ok"));
    assert!(!is_reserved_room("room1"));
    assert!(!is_reserved_room("apis"));
    assert!(!is_reserved_room(""));
}

#[test]
fn parser_error_texts() {
    assert_eq!(
        parse_cache("all:7"),
        Err("Expected <TYPE>:<SIZE> or <SIZE> where SIZE is 1, 8 or 64")
    );
    assert_eq!(parse_ports("nope"), Err("Could not parse port range"));
}
