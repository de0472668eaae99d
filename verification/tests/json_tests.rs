use lean_goalview::json::{Json, Object};

fn parse(s: &str) -> Json {
    Json::parse(s.as_bytes()).unwrap()
}

#[test]
fn reads_every_kind_of_value() {
    let j = parse(r#"{"n":null,"b":true,"u":18446744073709551615,"i":-5,"f":1.5,"t":"⊢","l":[1,"x"],"o":{"k":0}}"#);
    assert!(j.at("n").is_null());
    assert!(j.at("b").truth());
    assert_eq!(j.at("u").as_u64(), Some(u64::MAX));
    assert_eq!(j.at("u").as_i64(), None);
    assert_eq!(j.at("i").as_i64(), Some(-5));
    assert_eq!(j.at("i").as_u64(), None);
    assert_eq!(j.at("f").as_u64(), None);
    assert_eq!(j.at("t").as_str(), Some("⊢"));
    assert_eq!(j.at("l").count(), 2);
    assert_eq!(j.at("l").item(1).as_str(), Some("x"));
    assert!(j.at("l").item(2).is_null());
    assert!(j.at("o").is_object());
    assert_eq!(j.at("o").at("k").u64_or(7), 0);
    assert!(j.at("absent").at("deeper").is_null());
    assert!(j.at("t").item(0).is_null());
}

#[test]
fn refuses_what_is_no_json() {
    assert!(Json::parse(b"").is_none());
    assert!(Json::parse(b"{").is_none());
    assert!(Json::parse(b"{} x").is_none());
    assert!(Json::parse(&[0x22, 0xff, 0x22]).is_none());
}

#[test]
fn defaults_stand_in() {
    let j = parse("[1]");
    assert_eq!(j.at("k").str_or("d"), "d");
    assert_eq!(j.at("k").u64_or(3), 3);
    assert_eq!(j.at("k").i64_or(-3), -3);
    assert!(!j.at("k").truth());
    assert_eq!(parse("3").u64_or(0), 3);
    assert_eq!(parse("\"s\"").str_or("d"), "s");
    assert_eq!(parse("7").count(), 0);
}

#[test]
fn prints_compact_text_with_sorted_keys() {
    let mut o = Object::new();
    o.set("z", Json::Unsigned(1));
    o.set("a", Json::string("x\"\n"));
    o.set("z", Json::Bool(false));
    let j = Json::Object(o);
    assert_eq!(j.to_text(), r#"{"a":"x\"\n","z":false}"#);
    assert_eq!(Json::Negative(-1).to_text(), "-1");
    assert_eq!(Json::List(vec![Json::Null]).to_text(), "[null]");
}

#[test]
fn text_reads_back_as_the_value() {
    let s = r#"{"a":[1,-2,"x",null,{"b":true}],"c":{}}"#;
    let j = parse(s);
    assert_eq!(j.to_text(), s);
    let again = Json::parse(j.to_text().as_bytes()).unwrap();
    assert!(again.same(&j));
}

#[test]
fn a_later_key_replaces_an_earlier_one() {
    let j = parse(r#"{"k":1,"k":2}"#);
    assert_eq!(j.at("k").as_u64(), Some(2));
    let mut o = Object::new();
    o.set("k", Json::Unsigned(1));
    o.set("k", Json::Unsigned(2));
    assert_eq!(o.get("k").unwrap().as_u64(), Some(2));
    assert!(o.get("other").is_none());
}

#[test]
fn copies_and_compares() {
    let j = parse(r#"{"a":[1.25,{"b":"c"}]}"#);
    assert!(j.copy().same(&j));
    assert!(!j.same(&parse(r#"{"a":[1.25,{"b":"d"}]}"#)));
    assert!(!parse("1").same(&parse("\"1\"")));
    assert!(parse("1").same(&Json::Negative(1)));
    assert!(!parse("1").same(&parse("1.0")));
}

#[test]
fn changes_in_place() {
    let mut j = Json::Null;
    j.put("k", Json::Unsigned(1));
    j.put("l", Json::List(Vec::new()));
    assert_eq!(j.to_text(), r#"{"k":1,"l":[]}"#);
    let mut l = parse("[1]");
    l.push(Json::string("x"));
    assert_eq!(l.to_text(), r#"[1,"x"]"#);
    assert_eq!(l.items().to_text(), r#"[1,"x"]"#);
    assert_eq!(j.items().to_text(), "[]");
}

#[test]
fn a_replaced_member_is_the_one_that_shows() {
    let mut j = parse(r#"{"result":1,"id":2}"#);
    j.put("result", Json::string("new"));
    j.put("other", Json::Null);
    j.put("result", Json::string("newest"));
    assert_eq!(j.to_text(), r#"{"id":2,"other":null,"result":"newest"}"#);
    assert_eq!(j.copy().at("result").as_str(), Some("newest"));
}

#[test]
fn a_text_is_one_line_that_reads_with_its_line_feed() {
    let j = Json::string("a\nb\r\u{2028}c");
    let t = j.to_text();
    assert!(!t.contains('\n') && !t.contains('\r'));
    assert!(Json::parse(format!("{t}\n").as_bytes()).unwrap().same(&j));
}
