use fact_cache::animals::{url, validate_batch, validate_shard, Animal};
use fact_cache::errors::AppError;
use fact_cache::json::parse_json;
use fact_cache::Shard;

fn dog_body_of(facts: &[&str], success: bool) -> String {
    let mut items = String::new();
    for (i, f) in facts.iter().enumerate() {
        if i > 0 {
            items.push(',');
        }
        items.push_str(&format!("\"{}\"", f));
    }
    format!("{{\"facts\":[{}],\"success\":{}}}", items, success)
}

fn dog_body(n: usize, success: bool) -> String {
    let facts: Vec<String> = (0..n).map(|i| format!("dog fact {}", i)).collect();
    let refs: Vec<&str> = facts.iter().map(|s| s.as_str()).collect();
    dog_body_of(&refs, success)
}

fn cat_body(n: usize) -> String {
    let mut items = String::new();
    for i in 0..n {
        if i > 0 {
            items.push(',');
        }
        items.push_str(&format!(
            "{{\"_id\":\"abc{}\",\"text\":\"cat fact {}\",\"upvotes\":{}}}",
            i, i, i
        ));
    }
    format!("[{}]", items)
}

#[test]
fn validate_dog_ok() {
    let r = validate_batch(dog_body(3, true), &Animal::Dog, 3);
    let shard = r.unwrap();
    assert_eq!(shard.facts.len(), 3);
    assert_eq!(shard.facts[0], "dog fact 0");
    assert_eq!(shard.facts[1], "dog fact 1");
    assert_eq!(shard.facts[2], "dog fact 2");
}

#[test]
fn validate_cat_ok() {
    let r = validate_batch(cat_body(2), &Animal::Cat, 2);
    let shard = r.unwrap();
    assert_eq!(shard.facts.len(), 2);
    assert_eq!(shard.facts[0], "cat fact 0");
    assert_eq!(shard.facts[1], "cat fact 1");
}

#[test]
fn dog_provider_reported_failure() {
    let r = validate_batch(dog_body(3, false), &Animal::Dog, 3);
    assert_eq!(r.unwrap_err(), AppError::ProviderReportedFailure);
}

#[test]
fn dog_count_mismatch() {
    let r = validate_batch(dog_body(3, true), &Animal::Dog, 2);
    assert_eq!(r.unwrap_err(), AppError::CountMismatch { got: 3, want: 2 });
}

#[test]
fn cat_count_mismatch() {
    let r = validate_batch(cat_body(49), &Animal::Cat, 50);
    assert_eq!(r.unwrap_err(), AppError::CountMismatch { got: 49, want: 50 });
}

#[test]
fn dog_empty_fact_found() {
    let r = validate_batch(dog_body_of(&["a", "", "c"], true), &Animal::Dog, 3);
    assert_eq!(r.unwrap_err(), AppError::EmptyFactFound);
}

#[test]
fn cat_empty_fact_found() {
    let body = "[{\"text\":\"x\"},{\"text\":\"\"}]".to_string();
    let r = validate_batch(body, &Animal::Cat, 2);
    assert_eq!(r.unwrap_err(), AppError::EmptyFactFound);
}

#[test]
fn malformed_json_rejected() {
    let r = validate_batch("{\"facts\": [\"a\",".to_string(), &Animal::Dog, 1);
    assert_eq!(r.unwrap_err(), AppError::ParseError);
    let r = validate_batch("not json at all".to_string(), &Animal::Cat, 1);
    assert_eq!(r.unwrap_err(), AppError::ParseError);
}

#[test]
fn wrong_shape_rejected() {
    // An array where the dog schema wants an object, and vice versa.
    let r = validate_batch(cat_body(2), &Animal::Dog, 2);
    assert_eq!(r.unwrap_err(), AppError::ParseError);
    let r = validate_batch(dog_body(2, true), &Animal::Cat, 2);
    assert_eq!(r.unwrap_err(), AppError::ParseError);
    // A missing key.
    let r = validate_batch("{\"facts\":[\"a\"]}".to_string(), &Animal::Dog, 1);
    assert_eq!(r.unwrap_err(), AppError::ParseError);
    // A fact that is not a string.
    let r = validate_batch(
        "{\"facts\":[17],\"success\":true}".to_string(),
        &Animal::Dog,
        1,
    );
    assert_eq!(r.unwrap_err(), AppError::ParseError);
    // A success flag that is not a boolean.
    let r = validate_batch(
        "{\"facts\":[\"a\"],\"success\":\"yes\"}".to_string(),
        &Animal::Dog,
        1,
    );
    assert_eq!(r.unwrap_err(), AppError::ParseError);
}

#[test]
fn extra_fields_and_whitespace_tolerated() {
    let body = " { \"extra\" : [ 1 , -2.5e3 , null , { } ] , \"facts\" : [ \"a\" , \"b\" ] , \"success\" : true } ".to_string();
    let shard = validate_batch(body, &Animal::Dog, 2).unwrap();
    assert_eq!(shard.facts, vec!["a".to_string(), "b".to_string()]);
}

#[test]
fn string_escapes_decoded() {
    let body = "{\"facts\":[\"line\\nbreak \\\"quoted\\\" \\u0041\\u00e9\"],\"success\":true}"
        .to_string();
    let shard = validate_batch(body, &Animal::Dog, 1).unwrap();
    assert_eq!(shard.facts[0], "line\nbreak \"quoted\" A\u{e9}");
}

#[test]
fn surrogate_escape_rejected() {
    let body = "{\"facts\":[\"\\ud83d\\ude00\"],\"success\":true}".to_string();
    let r = validate_batch(body, &Animal::Dog, 1);
    assert_eq!(r.unwrap_err(), AppError::ParseError);
}

#[test]
fn duplicate_keys_take_first_binding() {
    let body = "{\"facts\":[\"a\"],\"success\":true,\"success\":false}".to_string();
    let shard = validate_batch(body, &Animal::Dog, 1).unwrap();
    assert_eq!(shard.facts, vec!["a".to_string()]);
}

#[test]
fn parse_json_accepts_documents() {
    assert!(parse_json("[1, 2.5e3, true, null, \"x\", {\"a\": [-0.5]}]").is_some());
    assert!(parse_json("  \"just a string\"  ").is_some());
    assert!(parse_json("-12").is_some());
    assert!(parse_json("{}").is_some());
    assert!(parse_json("[]").is_some());
}

#[test]
fn parse_json_rejects_garbage() {
    assert!(parse_json("").is_none());
    assert!(parse_json("01").is_none());
    assert!(parse_json("[1,]").is_none());
    assert!(parse_json("{\"a\":}").is_none());
    assert!(parse_json("\"unterminated").is_none());
    assert!(parse_json("true false").is_none());
    assert!(parse_json("[1").is_none());
}

#[test]
fn parse_json_depth_limited() {
    let mut deep = String::new();
    for _ in 0..100 {
        deep.push('[');
    }
    deep.push('1');
    for _ in 0..100 {
        deep.push(']');
    }
    assert!(parse_json(&deep).is_none());
    let mut shallow = String::new();
    for _ in 0..10 {
        shallow.push('[');
    }
    shallow.push('1');
    for _ in 0..10 {
        shallow.push(']');
    }
    assert!(parse_json(&shallow).is_some());
}

#[test]
fn validate_shard_rejects_empty_fact() {
    let shard = Shard::with_timestamp(vec!["a".to_string(), "".to_string()], 7);
    let r = validate_shard(shard, &Animal::Dog);
    assert_eq!(r.unwrap_err(), AppError::EmptyFactFound);
    let shard = Shard::with_timestamp(vec!["a".to_string(), "b".to_string()], 7);
    let ok = validate_shard(shard, &Animal::Cat).unwrap();
    assert_eq!(ok.facts.len(), 2);
    assert_eq!(ok.timestamp, 7);
}

#[test]
fn url_renders_shard_size() {
    assert_eq!(
        url(&Animal::Dog, 50),
        "https://dog-api.kinduff.com/api/facts?number=50"
    );
    assert_eq!(
        url(&Animal::Cat, 2),
        "https://cat-fact.herokuapp.com/facts/random?type=cat&amount=2"
    );
    assert_eq!(
        url(&Animal::Dog, 100),
        "https://dog-api.kinduff.com/api/facts?number=100"
    );
}

#[test]
fn animal_names() {
    assert_eq!(Animal::Dog.name(), "dog");
    assert_eq!(Animal::Cat.name(), "cat");
}
