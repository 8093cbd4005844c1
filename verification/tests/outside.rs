use obelisk::identity::{player_uuid, NAMESPACE_DNS};
use obelisk::net::status::status_document;
use obelisk::{PROTOCOL, VERSION};

fn sample_of(text: &str) -> String {
    let start = text.find("\"sample\":[").unwrap() + "\"sample\":[".len();
    let end = text.find("]},\"version\"").unwrap();
    text[start..end].to_string()
}

#[test]
fn namespace_is_the_dns_namespace() {
    assert_eq!(NAMESPACE_DNS, uuid::Uuid::NAMESPACE_DNS.as_u128());
}

#[test]
fn player_identifier_is_derived_from_the_name() {
    assert_eq!(player_uuid("example.org"), 0xaad03681_8b63_5304_89e0_8ca8f49461b5);
    assert_eq!(player_uuid("rust-lang.org"), 0xc66bbb60_d62e_5f17_a399_3a0bd237c503);
    assert_eq!(player_uuid("Notch"), player_uuid("Notch"));
    assert_ne!(player_uuid("Notch"), player_uuid("notch"));
    assert_ne!(player_uuid(""), 0);
    assert_eq!(
        player_uuid("Notch"),
        uuid::Uuid::new_v5(&uuid::Uuid::NAMESPACE_DNS, b"Notch").as_u128()
    );
}

#[test]
fn identifiers_are_written_lower_case_in_five_groups() {
    let sample = vec![
        ("a".to_string(), 0u128),
        ("b".to_string(), u128::MAX),
        ("c".to_string(), 0x0123_4567_89AB_CDEF_0123_4567_89AB_CDEF),
        ("d".to_string(), NAMESPACE_DNS),
    ];
    assert_eq!(
        sample_of(&status_document(1, 4, &sample)),
        "{\"id\":\"00000000-0000-0000-0000-000000000000\",\"name\":\"a\"},\
         {\"id\":\"ffffffff-ffff-ffff-ffff-ffffffffffff\",\"name\":\"b\"},\
         {\"id\":\"01234567-89ab-cdef-0123-456789abcdef\",\"name\":\"c\"},\
         {\"id\":\"6ba7b810-9dad-11d1-80b4-00c04fd430c8\",\"name\":\"d\"}"
    );
}

#[test]
fn names_are_quoted_and_escaped() {
    let of = |name: &str| sample_of(&status_document(1, 1, &vec![(name.to_string(), 0)]));
    let id = "{\"id\":\"00000000-0000-0000-0000-000000000000\",\"name\":";
    assert_eq!(of(""), format!("{}\"\"}}", id));
    assert_eq!(of("Notch"), format!("{}\"Notch\"}}", id));
    assert_eq!(of("a\"b\\c"), format!("{}\"a\\\"b\\\\c\"}}", id));
    assert_eq!(of("line\nbreak"), format!("{}\"line\\nbreak\"}}", id));
    let text = status_document(1, 1, &vec![("tab\there \u{e9}".to_string(), 0)]);
    let parsed: serde_json::Value = serde_json::from_str(&text).unwrap();
    assert_eq!(
        parsed["players"]["sample"][0]["name"],
        serde_json::Value::String("tab\there \u{e9}".to_string())
    );
}

#[test]
fn numbers_are_written_in_decimal() {
    let head = |max: u32, online: usize| {
        let text = status_document(max, online, &vec![]);
        let start = text.find("\"players\":").unwrap();
        let end = text.find(",\"sample\"").unwrap();
        text[start..end].to_string()
    };
    assert_eq!(head(0, 0), "\"players\":{\"max\":0,\"online\":0");
    assert_eq!(head(9, 10), "\"players\":{\"max\":9,\"online\":10");
    assert_eq!(head(10, 99), "\"players\":{\"max\":10,\"online\":99");
    assert_eq!(head(u32::MAX, 1000), "\"players\":{\"max\":4294967295,\"online\":1000");
    assert_eq!(
        head(404, usize::MAX),
        format!("\"players\":{{\"max\":404,\"online\":{}", usize::MAX)
    );
}

#[test]
fn status_document_is_what_serde_json_writes_for_the_same_value() {
    let sample = vec![
        ("Notch".to_string(), player_uuid("Notch")),
        ("quo\"te".to_string(), player_uuid("quo\"te")),
    ];
    let text = status_document(20, 2, &sample);

    let mut version = serde_json::Map::new();
    version.insert("name".to_string(), serde_json::Value::from(VERSION));
    version.insert("protocol".to_string(), serde_json::Value::from(PROTOCOL));
    let mut entries = Vec::new();
    for (name, id) in &sample {
        let id = uuid::Uuid::from_u128(*id).hyphenated().to_string();
        let mut entry = serde_json::Map::new();
        entry.insert("name".to_string(), serde_json::Value::from(name.as_str()));
        entry.insert("id".to_string(), serde_json::Value::from(id));
        entries.push(serde_json::Value::Object(entry));
    }
    let mut players = serde_json::Map::new();
    players.insert("max".to_string(), serde_json::Value::from(20u32));
    players.insert("online".to_string(), serde_json::Value::from(2usize));
    players.insert("sample".to_string(), serde_json::Value::Array(entries));
    let mut description = serde_json::Map::new();
    description.insert("text".to_string(), serde_json::Value::from("Hello world"));
    let mut document = serde_json::Map::new();
    document.insert("version".to_string(), serde_json::Value::Object(version));
    document.insert("players".to_string(), serde_json::Value::Object(players));
    document.insert("description".to_string(), serde_json::Value::Object(description));
    let document = serde_json::Value::Object(document);

    assert_eq!(text, document.to_string());
    let parsed: serde_json::Value = serde_json::from_str(&text).unwrap();
    assert_eq!(parsed, document);
}

#[test]
fn status_document_without_players() {
    let text = status_document(10, 0, &vec![]);
    assert_eq!(
        text,
        "{\"description\":{\"text\":\"Hello world\"},\"players\":{\"max\":10,\"online\":0,\"sample\":[]},\"version\":{\"name\":\"1.13.2\",\"protocol\":404}}"
    );
}
