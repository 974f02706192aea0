use serde_json::{Number, Value};
use slate::db::{ClipboardEntry, SerializableImage};

/// An entry in its JSON shape: `{"Text": ..}` or
/// `{"Image": {"width": .., "height": .., "bytes": [..]}}`.
fn to_json(entry: &ClipboardEntry) -> Value {
    let mut tagged = serde_json::Map::new();
    match entry {
        ClipboardEntry::Text(text) => {
            tagged.insert("Text".to_string(), Value::String(text.clone()));
        }
        ClipboardEntry::Image(image) => {
            let mut fields = serde_json::Map::new();
            fields.insert("width".to_string(), Value::Number(Number::from(image.width() as u64)));
            fields.insert("height".to_string(), Value::Number(Number::from(image.height() as u64)));
            let bytes = image.bytes().iter().map(|byte| Value::Number(Number::from(*byte))).collect();
            fields.insert("bytes".to_string(), Value::Array(bytes));
            tagged.insert("Image".to_string(), Value::Object(fields));
        }
    }
    Value::Object(tagged)
}

fn from_json(value: &Value) -> Option<ClipboardEntry> {
    let tagged = value.as_object()?;
    if tagged.len() != 1 {
        return None;
    }
    if let Some(text) = tagged.get("Text") {
        return Some(ClipboardEntry::Text(text.as_str()?.to_string()));
    }
    let fields = tagged.get("Image")?.as_object()?;
    let width = usize::try_from(fields.get("width")?.as_u64()?).ok()?;
    let height = usize::try_from(fields.get("height")?.as_u64()?).ok()?;
    let mut bytes = Vec::new();
    for byte in fields.get("bytes")?.as_array()? {
        bytes.push(u8::try_from(byte.as_u64()?).ok()?);
    }
    SerializableImage::new(width, height, bytes).map(ClipboardEntry::Image)
}

fn round_trip(entry: &ClipboardEntry) -> Option<ClipboardEntry> {
    let encoded = serde_json::to_string(&to_json(entry)).ok()?;
    let decoded: Value = serde_json::from_str(&encoded).ok()?;
    from_json(&decoded)
}

#[test]
fn entry_survives_json() {
    let entries = vec![
        ClipboardEntry::Text("hello".to_string()),
        ClipboardEntry::Text("".to_string()),
        ClipboardEntry::Text("quote \" backslash \\ newline \n ünï©ødé \u{1F600}".to_string()),
        ClipboardEntry::Image(SerializableImage::new(1, 1, vec![0, 127, 128, 255]).unwrap()),
        ClipboardEntry::Image(SerializableImage::new(3, 2, (0..24).collect()).unwrap()),
    ];
    for entry in entries {
        assert_eq!(round_trip(&entry), Some(entry));
    }
}

#[test]
fn text_entry_has_the_tagged_shape() {
    let encoded = serde_json::to_string(&to_json(&ClipboardEntry::Text("x".to_string()))).unwrap();
    assert_eq!(encoded, "{\"Text\":\"x\"}");
}

#[test]
fn broken_image_is_not_decoded() {
    let decoded: Value =
        serde_json::from_str("{\"Image\":{\"width\":2,\"height\":2,\"bytes\":[1,2,3,4]}}").unwrap();
    assert_eq!(from_json(&decoded), None);
    let decoded: Value =
        serde_json::from_str("{\"Image\":{\"width\":0,\"height\":2,\"bytes\":[]}}").unwrap();
    assert_eq!(from_json(&decoded), None);
}
