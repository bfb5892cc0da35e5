use gemini_web2api::models::{get_model, models, resolve_model};

#[test]
fn model_table_lists_seven_models_in_order() {
    let t = models();
    assert_eq!(t.len(), 7);
    assert_eq!(t[0].0, "gemini-3.5-flash");
    assert_eq!(t[3].0, "gemini-3.1-pro-enhanced");
    assert_eq!(t[6].0, "gemini-flash-lite");
    assert_eq!(t[6].1.mode, 6);
}

#[test]
fn get_model_finds_known_names() {
    let c = get_model("gemini-3.1-pro").unwrap();
    assert_eq!(c.mode, 3);
    assert_eq!(c.think, 4);
    assert!(c.extra.is_none());
    let t = get_model("gemini-3.5-flash-thinking").unwrap();
    assert_eq!(t.mode, 2);
    assert_eq!(t.think, 0);
}

#[test]
fn get_model_unknown_is_none() {
    assert!(get_model("gpt-4").is_none());
    assert!(get_model("").is_none());
}

#[test]
fn resolve_known_model_keeps_its_settings() {
    let r = resolve_model("gemini-auto", "gemini-3.5-flash").unwrap();
    assert_eq!(r.name, "gemini-auto");
    assert_eq!(r.mode, 4);
    assert_eq!(r.think, 4);
    assert!(r.extra.is_none());
}

#[test]
fn resolve_unknown_model_falls_back_to_default() {
    let r = resolve_model("gpt-4o", "gemini-3.5-flash").unwrap();
    assert_eq!(r.name, "gemini-3.5-flash");
    assert_eq!(r.mode, 1);
    assert_eq!(r.think, 4);
}

#[test]
fn resolve_think_suffix_overrides_level() {
    let r = resolve_model("gemini-3.1-pro@think=2", "gemini-3.5-flash").unwrap();
    assert_eq!(r.name, "gemini-3.1-pro");
    assert_eq!(r.mode, 3);
    assert_eq!(r.think, 2);
}

#[test]
fn resolve_think_suffix_negative_and_plus() {
    let r = resolve_model("gemini-auto@think=-1", "gemini-3.5-flash").unwrap();
    assert_eq!(r.think, -1);
    let r = resolve_model("gemini-auto@think=+7", "gemini-3.5-flash").unwrap();
    assert_eq!(r.think, 7);
}

#[test]
fn resolve_think_suffix_on_unknown_model_keeps_level() {
    let r = resolve_model("mystery@think=3", "gemini-flash-lite").unwrap();
    assert_eq!(r.name, "gemini-flash-lite");
    assert_eq!(r.mode, 6);
    assert_eq!(r.think, 3);
}

#[test]
fn resolve_bad_think_level_is_an_error() {
    match resolve_model("gemini-auto@think=high", "gemini-3.5-flash") {
        Err(e) => assert_eq!(e, "Invalid think level: high"),
        Ok(_) => panic!("expected an error"),
    }
    match resolve_model("gemini-auto@think=", "gemini-3.5-flash") {
        Err(e) => assert_eq!(e, "Invalid think level: "),
        Ok(_) => panic!("expected an error"),
    }
}

#[test]
fn resolve_uses_last_think_marker() {
    let r = resolve_model("gemini-auto@think=1@think=5", "gemini-3.5-flash").unwrap();
    assert_eq!(r.think, 5);
    assert_eq!(r.name, "gemini-3.5-flash");
}

#[test]
fn resolve_enhanced_model_carries_extra_fields() {
    let r = resolve_model("gemini-3.1-pro-enhanced", "gemini-3.5-flash").unwrap();
    assert_eq!(r.extra, Some(vec![(31usize, 2i64), (80usize, 3i64)]));
}

#[test]
fn resolve_known_model_does_not_need_the_default() {
    let r = resolve_model("gemini-auto@think=1", "not-a-model").unwrap();
    assert_eq!(r.name, "gemini-auto");
    assert_eq!(r.think, 1);
    assert!(resolve_model("gemini-auto@think=z", "not-a-model").is_err());
}
