use pictrim::migrate::{migrate_settings_value, JsonValue};

fn s(v: &str) -> JsonValue {
    JsonValue::Str(v.to_string())
}

fn n(v: &str) -> JsonValue {
    JsonValue::Number(v.to_string())
}

fn object(entries: Vec<(&str, JsonValue)>) -> JsonValue {
    JsonValue::Object(entries.into_iter().map(|(k, v)| (k.to_string(), v)).collect())
}

fn get<'a>(v: &'a JsonValue, key: &str) -> Option<&'a JsonValue> {
    match v {
        JsonValue::Object(entries) => entries.iter().find(|(k, _)| k == key).map(|(_, v)| v),
        _ => None,
    }
}

fn text(v: Option<&JsonValue>) -> Option<String> {
    match v {
        Some(JsonValue::Str(s)) => Some(s.clone()),
        Some(JsonValue::Number(s)) => Some(s.clone()),
        _ => None,
    }
}

fn strings(v: Option<&JsonValue>) -> Option<Vec<String>> {
    match v {
        Some(JsonValue::Array(items)) => Some(
            items
                .iter()
                .map(|i| match i {
                    JsonValue::Str(s) => s.clone(),
                    _ => String::new(),
                })
                .collect(),
        ),
        _ => None,
    }
}

#[test]
fn migrates_legacy_input_dir_setting() {
    let value = object(vec![
        ("inputDir", s("/tmp/photos")),
        ("outputDir", s("/tmp/out")),
        ("maxSide", n("2000")),
        ("quality", n("85")),
        ("concurrency", n("4")),
        ("outputFormat", s("keep")),
        ("copyNonImages", JsonValue::Bool(false)),
        ("skipExisting", JsonValue::Bool(true)),
    ]);
    let migrated = migrate_settings_value(value);
    assert_eq!(strings(get(&migrated, "inputSources")), Some(vec!["/tmp/photos".to_string()]));
    assert_eq!(text(get(&migrated, "resizeMode")), Some("fitLongestSide".to_string()));
    assert_eq!(text(get(&migrated, "rotation")), Some("auto".to_string()));
    assert!(get(&migrated, "inputDir").is_none());
    assert_eq!(text(get(&migrated, "width")), Some("2000".to_string()));
    assert_eq!(text(get(&migrated, "cropVertical")), Some("center".to_string()));
    assert!(matches!(get(&migrated, "thumbnail"), Some(JsonValue::Bool(false))));
    assert_eq!(text(get(&migrated, "quality")), Some("85".to_string()));
}

#[test]
fn empty_or_non_text_input_dir_gives_no_sources() {
    let migrated = migrate_settings_value(object(vec![("inputDir", s(""))]));
    assert_eq!(strings(get(&migrated, "inputSources")), Some(vec![]));
    let migrated = migrate_settings_value(object(vec![("inputDir", n("3"))]));
    assert_eq!(strings(get(&migrated, "inputSources")), Some(vec![]));
}

#[test]
fn existing_sources_and_options_are_kept() {
    let value = object(vec![
        ("inputSources", JsonValue::Array(vec![s("/a"), s("/b")])),
        ("inputDir", s("/old")),
        ("resizeMode", s("fitBox")),
        ("width", n("640")),
    ]);
    let migrated = migrate_settings_value(value);
    assert_eq!(strings(get(&migrated, "inputSources")), Some(vec!["/a".to_string(), "/b".to_string()]));
    assert_eq!(text(get(&migrated, "inputDir")), Some("/old".to_string()));
    assert_eq!(text(get(&migrated, "resizeMode")), Some("fitBox".to_string()));
    assert_eq!(text(get(&migrated, "width")), Some("640".to_string()));
    assert_eq!(text(get(&migrated, "height")), Some("2000".to_string()));
}

#[test]
fn retired_fill_crop_becomes_fixed_crop() {
    let migrated = migrate_settings_value(object(vec![("resizeMode", s("fillCrop"))]));
    assert_eq!(text(get(&migrated, "resizeMode")), Some("fixedCrop".to_string()));
}

#[test]
fn migrating_twice_changes_nothing_more() {
    let once = migrate_settings_value(object(vec![("inputDir", s("/p")), ("resizeMode", s("fillCrop"))]));
    let keys = |v: &JsonValue| -> Vec<(String, Option<String>)> {
        match v {
            JsonValue::Object(e) => {
                let mut k: Vec<(String, Option<String>)> =
                    e.iter().map(|(k, v)| (k.clone(), text(Some(v)))).collect();
                k.sort();
                k
            }
            _ => vec![],
        }
    };
    let first = keys(&once);
    let twice = migrate_settings_value(once);
    assert_eq!(keys(&twice), first);
    assert_eq!(strings(get(&twice, "inputSources")), Some(vec!["/p".to_string()]));
}

#[test]
fn non_objects_pass_through() {
    assert!(matches!(migrate_settings_value(JsonValue::Null), JsonValue::Null));
    assert!(matches!(migrate_settings_value(JsonValue::Bool(true)), JsonValue::Bool(true)));
}
