use lean_goalview::ids::{same_id, usable, Ids};
use lean_goalview::json::Json;

fn parse(s: &str) -> Json {
    Json::parse(s.as_bytes()).unwrap()
}

#[test]
fn integers_and_texts_are_ids() {
    for id in ["0", "-1", "18446744073709551615", "\"x\"", "\"\""] {
        assert!(usable(&parse(id)));
    }
    for other in ["null", "true", "1.5", "[]", "{}"] {
        assert!(!usable(&parse(other)));
    }
}

#[test]
fn a_number_is_not_its_digits() {
    assert!(same_id(&parse("7"), &Json::Unsigned(7)));
    assert!(same_id(&Json::Negative(-7), &parse("-7")));
    assert!(!same_id(&parse("7"), &parse("\"7\"")));
    assert!(!same_id(&parse("\"7\""), &parse("7")));
    assert!(!same_id(&parse("7"), &Json::Null));
}

#[test]
fn ids_come_and_go() {
    let mut ids = Ids::new();
    ids.insert(&parse("1"));
    ids.insert(&parse("\"a\""));
    ids.insert(&parse("1"));
    assert!(ids.contains(&Json::Unsigned(1)) && ids.contains(&Json::string("a")));
    assert!(!ids.contains(&Json::Null));
    assert!(ids.remove(&parse("1")));
    assert!(!ids.contains(&parse("1")));
    assert!(!ids.remove(&parse("1")));
    assert!(ids.contains(&parse("\"a\"")));
}
