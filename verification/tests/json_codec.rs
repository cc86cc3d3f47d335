//! The persisted file format: positional record arrays and the
//! `urlPreviews` object, written and read back.

use genkit::data::{GenkitData, PreviewEvent, UrlPreviewInfo};

fn record(title: &str, description: &str, image: Option<&str>) -> UrlPreviewInfo {
    UrlPreviewInfo {
        title: title.to_string(),
        description: description.to_string(),
        image: image.map(|s| s.to_string()),
    }
}

#[test]
fn record_round_trip() {
    let info = record("T", "D", None);
    let json = info.serialize();
    assert_eq!(json, "[\"T\",\"D\",\"\"]");
    let back = UrlPreviewInfo::deserialize(&json).unwrap();
    assert_eq!(back.title, "T");
    assert_eq!(back.description, "D");
    assert_eq!(back.image, None);
}

#[test]
fn record_with_image_round_trip() {
    let info = record("T", "D", Some("https://img.example/x.png"));
    let json = info.serialize();
    assert_eq!(json, "[\"T\",\"D\",\"https://img.example/x.png\"]");
    let back = UrlPreviewInfo::deserialize(&json).unwrap();
    assert_eq!(back.image.as_deref(), Some("https://img.example/x.png"));
}

#[test]
fn deserialize_accepts_missing_trailing_fields() {
    let two = UrlPreviewInfo::deserialize("[\"T\",\"D\"]").unwrap();
    assert_eq!(two.title, "T");
    assert_eq!(two.description, "D");
    assert_eq!(two.image, None);
    let one = UrlPreviewInfo::deserialize("[\"T\"]").unwrap();
    assert_eq!(one.title, "T");
    assert_eq!(one.description, "");
    assert_eq!(one.image, None);
    let none = UrlPreviewInfo::deserialize("[]").unwrap();
    assert_eq!(none.title, "");
    assert_eq!(none.description, "");
    assert_eq!(none.image, None);
}

#[test]
fn deserialize_tolerates_whitespace_and_rejects_junk() {
    let spaced = UrlPreviewInfo::deserialize("  [ \"T\" , \"D\" , \"\" ]  ").unwrap();
    assert_eq!(spaced.title, "T");
    assert_eq!(spaced.image, None);
    assert!(UrlPreviewInfo::deserialize("[\"T\",]").is_none());
    assert!(UrlPreviewInfo::deserialize("{\"T\"}").is_none());
    assert!(UrlPreviewInfo::deserialize("[\"T\"] trailing").is_none());
    assert!(UrlPreviewInfo::deserialize("[\"a\",\"b\",\"c\",\"d\"]").is_none());
}

#[test]
fn export_writes_the_documented_shape() {
    let mut data = GenkitData::new();
    let (_, _) = data.preview_url("https://b.example");
    data.resolve_preview("https://b.example", PreviewEvent::Finished(record("Tb", "Db", None)));
    let (_, _) = data.preview_url("https://a.example");
    data.resolve_preview(
        "https://a.example",
        PreviewEvent::Finished(record("Ta", "Da", Some("i.png"))),
    );
    let json = data.export().unwrap();
    data.mark_exported();
    assert_eq!(
        json,
        "{\"urlPreviews\":{\"https://a.example\":[\"Ta\",\"Da\",\"i.png\"],\"https://b.example\":[\"Tb\",\"Db\",\"\"]}}"
    );
}

#[test]
fn file_round_trip() {
    let mut data = GenkitData::new();
    for (url, t) in [("https://b.example", "Tb"), ("https://a.example", "Ta")] {
        let (_, _) = data.preview_url(url);
        data.resolve_preview(url, PreviewEvent::Finished(record(t, "d", None)));
    }
    let json = data.export().unwrap();
    let back = GenkitData::from_json(&json).unwrap();
    let a = back.get_preview("https://a.example").unwrap();
    assert_eq!(a.title, "Ta");
    let b = back.get_preview("https://b.example").unwrap();
    assert_eq!(b.title, "Tb");
    assert!(back.get_preview("https://c.example").is_none());
}

#[test]
fn escapes_round_trip() {
    let mut data = GenkitData::new();
    let tricky = "a \"quoted\" \\ back\nslash\tand tab";
    let (_, _) = data.preview_url("https://t.example");
    data.resolve_preview(
        "https://t.example",
        PreviewEvent::Finished(record(tricky, "d", None)),
    );
    let json = data.export().unwrap();
    let back = GenkitData::from_json(&json).unwrap();
    assert_eq!(back.get_preview("https://t.example").unwrap().title, tricky);
}

#[test]
fn from_json_accepts_the_empty_object_and_rejects_junk() {
    let empty = GenkitData::from_json("{\"urlPreviews\":{}}").unwrap();
    assert!(empty.get_preview("https://a.example").is_none());
    // An untouched loaded cache is not dirty: nothing to export.
    assert!(empty.export().is_none());
    assert!(GenkitData::from_json("").is_none());
    assert!(GenkitData::from_json("{}").is_none());
    assert!(GenkitData::from_json("{\"other\":{}}").is_none());
    assert!(GenkitData::from_json("{\"urlPreviews\":[]}").is_none());
}

#[test]
fn from_json_unescapes() {
    let json = "{\"urlPreviews\":{\"https://u.example\":[\"a\\nb\\u0041\",\"\",\"\"]}}";
    let data = GenkitData::from_json(json).unwrap();
    assert_eq!(data.get_preview("https://u.example").unwrap().title, "a\nbA");
}

#[test]
fn from_json_last_occurrence_wins() {
    let json =
        "{\"urlPreviews\":{\"https://u.example\":[\"first\",\"\",\"\"],\"https://u.example\":[\"second\",\"\",\"\"]}}";
    let data = GenkitData::from_json(json).unwrap();
    assert_eq!(data.get_preview("https://u.example").unwrap().title, "second");
}
