use lau_dialogue::{
    decimal_text, decode_template_library, fallback_line, percent_text_of,
    populate_default_templates, replace_all, same_text, score_from_text,
    template_library_from_json, Character, DialogueContext, DialogueEngine, DialogueTemplate,
    DialogueTrigger, JsonValue, Mood, Personality, TemplateVars, SCORE_ONE,
};

fn full_engine() -> DialogueEngine {
    let mut e = DialogueEngine::new();
    e.add_character(Character::new("elder", "Elder Oak", Personality::Wise));
    e.add_character(Character::new("owl", "Whisper", Personality::Mysterious));
    e.add_character(Character::new("cat", "Pip", Personality::Curious));
    populate_default_templates(&mut e);
    e
}

fn text(s: &str) -> JsonValue {
    JsonValue::Text(s.to_string())
}

fn member(k: &str, v: JsonValue) -> (String, JsonValue) {
    (k.to_string(), v)
}

fn template_json(trigger: JsonValue, personality: &str, lines: &[&str]) -> JsonValue {
    JsonValue::Object(vec![
        member("trigger", trigger),
        member("personality", text(personality)),
        member("templates", JsonValue::Array(lines.iter().map(|l| text(l)).collect())),
    ])
}

#[test]
fn template_line_is_exact() {
    let mut e = full_engine();
    let ctx = DialogueContext { room: "forest".into(), ..DialogueContext::default() };
    let line = e.generate("elder", &ctx);
    assert_eq!(line.speaker, "Elder Oak");
    assert_eq!(line.text, "Welcome to the green cathedral, Elder Oak.");
    assert_eq!(line.emotion, Mood::Neutral);
    assert_eq!(line.triggers, vec![DialogueTrigger::OnEnterRoom("forest".into())]);
}

#[test]
fn player_level_picks_variation() {
    let mut e = full_engine();
    let ctx = DialogueContext { room: "forest".into(), player_level: 5, ..DialogueContext::default() };
    let line = e.generate("elder", &ctx);
    assert_eq!(line.text, "Listen to the canopy — it has stories to tell.");
}

#[test]
fn fallback_line_is_exact() {
    let mut e = DialogueEngine::new();
    e.add_character(Character::new("elder", "Elder Oak", Personality::Wise));
    let line = e.generate("elder", &DialogueContext::default());
    assert_eq!(line.text, "Greetings, Elder Oak. The world speaks to those who listen.");
    assert_eq!(line.emotion, Mood::Neutral);
    assert!(line.triggers.is_empty());
}

#[test]
fn fallback_lines_of_every_personality() {
    let vars = TemplateVars { name: "Pip".into(), ..TemplateVars::default() };
    assert_eq!(fallback_line(&Personality::Playful, &vars), "Hey Pip, bet you can't guess what I found!");
    assert_eq!(fallback_line(&Personality::Grumpy, &vars), "Oh, it's you again, Pip.");
    assert_eq!(fallback_line(&Personality::Curious, &vars), "Pip, what brings you here? I must know!");
    assert_eq!(fallback_line(&Personality::Brave, &vars), "Stay sharp, Pip. Danger could be anywhere.");
    assert_eq!(fallback_line(&Personality::Mysterious, &vars), "The winds carry your name, Pip... and mine.");
}

#[test]
fn fallback_keeps_character_mood() {
    let mut e = DialogueEngine::new();
    let mut c = Character::new("cat", "Pip", Personality::Curious);
    c.mood = Mood::Sad;
    e.add_character(c);
    let line = e.generate("cat", &DialogueContext::default());
    assert_eq!(line.emotion, Mood::Sad);
}

#[test]
fn windmill_line_is_excited() {
    let mut e = full_engine();
    let ctx = DialogueContext {
        room: "plains".into(),
        recent_action: Some("windmill".into()),
        ..DialogueContext::default()
    };
    let line = e.generate("elder", &ctx);
    assert_eq!(line.text, "Harnessing nature's breath — well done.");
    assert_eq!(line.emotion, Mood::Excited);
}

#[test]
fn relationship_threshold_fires_at_exactly_the_score() {
    let mut e = full_engine();
    e.update_relationship("owl", 300_000);
    let line = e.generate("owl", &DialogueContext::default());
    assert_eq!(line.text, "I suppose I can share my secrets with you now.");
    assert_eq!(line.emotion, Mood::Happy);
    assert_eq!(line.triggers, vec![DialogueTrigger::OnRelationshipAbove(800_000)]);
}

#[test]
fn time_of_day_moods() {
    let mut e = DialogueEngine::new();
    e.add_character(Character::new("a", "A", Personality::Wise));
    for (tod, mood) in [("morning", Mood::Happy), ("night", Mood::Thoughtful), ("dusk", Mood::Neutral)] {
        e.templates = vec![DialogueTemplate {
            trigger: DialogueTrigger::OnTimeOfDay(tod.into()),
            personality: Personality::Wise,
            templates: vec!["x".into()],
        }];
        let ctx = DialogueContext { time_of_day: tod.into(), ..DialogueContext::default() };
        assert_eq!(e.generate("a", &ctx).emotion, mood);
    }
}

#[test]
fn quest_trigger_never_fires() {
    let mut e = DialogueEngine::new();
    e.add_character(Character::new("a", "A", Personality::Brave));
    e.templates = vec![DialogueTemplate {
        trigger: DialogueTrigger::OnQuestComplete("tutorial".into()),
        personality: Personality::Brave,
        templates: vec!["done".into()],
    }];
    let line = e.generate("a", &DialogueContext::default());
    assert_eq!(line.text, "Stay sharp, A. Danger could be anywhere.");
}

#[test]
fn vibe_and_structure_placeholders() {
    let mut e = DialogueEngine::new();
    e.add_character(Character::new("a", "A", Personality::Wise));
    e.templates = vec![DialogueTemplate {
        trigger: DialogueTrigger::OnEnterRoom("hall".into()),
        personality: Personality::Wise,
        templates: vec!["{name} built a {structure} in the {room}: {vibe}".into()],
    }];
    let ctx = DialogueContext {
        room: "hall".into(),
        recent_action: Some("mill".into()),
        vibe: 625_000,
        ..DialogueContext::default()
    };
    assert_eq!(e.generate("a", &ctx).text, "A built a mill in the hall: 62%");
}

#[test]
fn adding_same_id_replaces() {
    let mut e = DialogueEngine::new();
    e.add_character(Character::new("a", "First", Personality::Wise));
    e.add_character(Character::new("b", "Other", Personality::Wise));
    e.add_character(Character::new("a", "Second", Personality::Grumpy));
    assert_eq!(e.characters.len(), 2);
    assert_eq!(e.character("a").unwrap().name, "Second");
    assert_eq!(e.character("b").unwrap().name, "Other");
    assert!(e.character("c").is_none());
}

#[test]
fn relationship_moves_and_others_stay() {
    let mut e = DialogueEngine::new();
    e.add_character(Character::new("a", "A", Personality::Wise));
    e.add_character(Character::new("b", "B", Personality::Wise));
    e.update_relationship("a", 250_000);
    assert_eq!(e.character("a").unwrap().relationship, 750_000);
    assert_eq!(e.character("b").unwrap().relationship, 500_000);
    e.update_relationship("a", i64::MAX);
    assert_eq!(e.character("a").unwrap().relationship, SCORE_ONE);
    e.update_relationship("a", i64::MIN);
    assert_eq!(e.character("a").unwrap().relationship, 0);
}

#[test]
fn render_cycles_past_the_end() {
    let t = DialogueTemplate {
        trigger: DialogueTrigger::OnEnterRoom("x".into()),
        personality: Personality::Wise,
        templates: vec!["a".into(), "b".into(), "c".into()],
    };
    let vars = TemplateVars::default();
    assert_eq!(t.render(4, &vars), t.render(1, &vars));
    assert_eq!(t.render(4, &vars), "b");
}

#[test]
fn replace_all_is_left_to_right_without_overlap() {
    assert_eq!(replace_all("aaa", "aa", "b"), "ba");
    assert_eq!(replace_all("{name}{name}", "{name}", "X"), "XX");
    assert_eq!(replace_all("no placeholders", "{name}", "X"), "no placeholders");
    assert_eq!(replace_all("", "{name}", "X"), "");
    assert_eq!(replace_all("ünï {name}!", "{name}", "çø"), "ünï çø!");
}

#[test]
fn same_text_compares_characters() {
    assert!(same_text("night", "night"));
    assert!(!same_text("night", "nigh"));
    assert!(!same_text("night", "nighT"));
}

#[test]
fn decimal_and_percent_texts() {
    assert_eq!(decimal_text(0), "0");
    assert_eq!(decimal_text(1234), "1234");
    assert_eq!(decimal_text(u64::MAX), "18446744073709551615");
    assert_eq!(percent_text_of(500_000), "50%");
    assert_eq!(percent_text_of(0), "0%");
    assert_eq!(percent_text_of(5_000), "0%");
    assert_eq!(percent_text_of(15_000), "2%");
    assert_eq!(percent_text_of(25_000), "2%");
    assert_eq!(percent_text_of(25_001), "3%");
    assert_eq!(percent_text_of(-5_000), "-0%");
    assert_eq!(percent_text_of(-1_234_567), "-123%");
    assert_eq!(percent_text_of(i64::MIN), "-922337203685478%");
}

#[test]
fn scores_from_decimal_text() {
    assert_eq!(score_from_text("0.5"), Some(500_000));
    assert_eq!(score_from_text("1"), Some(1_000_000));
    assert_eq!(score_from_text("-1.25"), Some(-1_250_000));
    assert_eq!(score_from_text("0.1234565"), Some(123_457));
    assert_eq!(score_from_text("0.1234564"), Some(123_456));
    assert_eq!(score_from_text("9223372036854.775807"), Some(i64::MAX));
    assert_eq!(score_from_text("9223372036854.775808"), None);
    assert_eq!(score_from_text("99999999999999999999"), None);
    assert_eq!(score_from_text("1."), None);
    assert_eq!(score_from_text(".5"), None);
    assert_eq!(score_from_text("1e5"), Some(100_000_000_000));
    assert_eq!(score_from_text(""), None);
    assert_eq!(score_from_text("-"), None);
}

#[test]
fn scores_from_exponent_notation() {
    assert_eq!(score_from_text("1e-7"), Some(0));
    assert_eq!(score_from_text("5e-7"), Some(1));
    assert_eq!(score_from_text("-5e-7"), Some(-1));
    assert_eq!(score_from_text("6.62607015e-34"), Some(0));
    assert_eq!(score_from_text("1.5e+2"), Some(150_000_000));
    assert_eq!(score_from_text("1E2"), Some(100_000_000));
    assert_eq!(score_from_text("1.0e-1"), Some(100_000));
    assert_eq!(score_from_text("2.5e-6"), Some(3));
    assert_eq!(score_from_text("9.223372036854775807e12"), Some(i64::MAX));
    assert_eq!(score_from_text("2e19"), None);
    assert_eq!(score_from_text("1e99999999999999999999"), None);
    assert_eq!(score_from_text("0e99999999999999999999"), Some(0));
    assert_eq!(score_from_text("1e-99999999999999999999"), Some(0));
    assert_eq!(score_from_text("1e"), None);
    assert_eq!(score_from_text("1e+"), None);
    assert_eq!(score_from_text("1e5.0"), None);
    assert_eq!(score_from_text("e5"), None);
}

#[test]
fn library_threshold_in_exponent_notation() {
    let ts = template_library_from_json(
        r#"[{"trigger":{"OnConservationError":8e-1},"personality":"Wise","templates":["x"]},
            {"trigger":{"OnRelationshipAbove":1e-7},"personality":"Wise","templates":["y"]}]"#,
    )
    .unwrap();
    assert_eq!(ts[0].trigger, DialogueTrigger::OnConservationError(800_000));
    assert_eq!(ts[1].trigger, DialogueTrigger::OnRelationshipAbove(0));
}

#[test]
fn loading_twice_equals_loading_once() {
    let mut once = DialogueEngine::new();
    once.add_character(Character::new("a", "A", Personality::Wise));
    populate_default_templates(&mut once);
    let mut twice = DialogueEngine::new();
    twice.add_character(Character::new("a", "A", Personality::Wise));
    populate_default_templates(&mut twice);
    populate_default_templates(&mut twice);
    assert_eq!(once.templates.len(), twice.templates.len());
    for (x, y) in once.templates.iter().zip(twice.templates.iter()) {
        assert_eq!(x.trigger, y.trigger);
        assert_eq!(x.personality, y.personality);
        assert_eq!(x.templates, y.templates);
    }
    assert_eq!(once.characters.len(), twice.characters.len());
}

#[test]
fn decode_reads_every_trigger_variant() {
    let lib = JsonValue::Array(vec![
        template_json(JsonValue::Object(vec![member("OnEnterRoom", text("cave"))]), "Wise", &["a"]),
        template_json(JsonValue::Object(vec![member("OnBuildStructure", text("mill"))]), "Playful", &["b"]),
        template_json(
            JsonValue::Object(vec![member("OnConservationError", JsonValue::Number("0.25".into()))]),
            "Grumpy",
            &["c"],
        ),
        template_json(JsonValue::Object(vec![member("OnQuestComplete", text("q"))]), "Curious", &["d"]),
        template_json(
            JsonValue::Object(vec![member("OnRelationshipAbove", JsonValue::Number("1".into()))]),
            "Brave",
            &["e", "f"],
        ),
        template_json(JsonValue::Object(vec![member("OnTimeOfDay", text("dawn"))]), "Mysterious", &[]),
    ]);
    let ts = decode_template_library(&lib).unwrap();
    assert_eq!(ts.len(), 6);
    assert_eq!(ts[0].trigger, DialogueTrigger::OnEnterRoom("cave".into()));
    assert_eq!(ts[1].trigger, DialogueTrigger::OnBuildStructure("mill".into()));
    assert_eq!(ts[2].trigger, DialogueTrigger::OnConservationError(250_000));
    assert_eq!(ts[3].trigger, DialogueTrigger::OnQuestComplete("q".into()));
    assert_eq!(ts[4].trigger, DialogueTrigger::OnRelationshipAbove(1_000_000));
    assert_eq!(ts[5].trigger, DialogueTrigger::OnTimeOfDay("dawn".into()));
    assert_eq!(ts[4].personality, Personality::Brave);
    assert_eq!(ts[4].templates, vec!["e".to_string(), "f".to_string()]);
    assert!(ts[5].templates.is_empty());
}

#[test]
fn decode_refuses_malformed_templates() {
    let trig = || JsonValue::Object(vec![member("OnEnterRoom", text("cave"))]);
    let bad_personality = JsonValue::Array(vec![template_json(trig(), "Sleepy", &["a"])]);
    assert!(decode_template_library(&bad_personality).is_none());
    let two_members = JsonValue::Array(vec![template_json(
        JsonValue::Object(vec![member("OnEnterRoom", text("a")), member("OnTimeOfDay", text("b"))]),
        "Wise",
        &["a"],
    )]);
    assert!(decode_template_library(&two_members).is_none());
    let wrong_payload = JsonValue::Array(vec![template_json(
        JsonValue::Object(vec![member("OnConservationError", text("high"))]),
        "Wise",
        &["a"],
    )]);
    assert!(decode_template_library(&wrong_payload).is_none());
    let missing = JsonValue::Array(vec![JsonValue::Object(vec![
        member("trigger", trig()),
        member("personality", text("Wise")),
    ])]);
    assert!(decode_template_library(&missing).is_none());
    assert!(decode_template_library(&text("x")).is_none());
    let extra = JsonValue::Array(vec![JsonValue::Object(vec![
        member("note", JsonValue::Null),
        member("trigger", trig()),
        member("personality", text("Wise")),
        member("templates", JsonValue::Array(vec![text("hi")])),
    ])]);
    assert_eq!(decode_template_library(&extra).unwrap().len(), 1);
}

#[test]
fn library_from_json_text() {
    assert_eq!(template_library_from_json("[]").unwrap().len(), 0);
    assert!(template_library_from_json("not json").is_none());
    assert!(template_library_from_json("{\"a\": 1}").is_none());
    let ts = template_library_from_json(
        r#"[{"templates":["Hi {name}"],"personality":"Wise","trigger":{"OnRelationshipAbove":0.8}}]"#,
    )
    .unwrap();
    assert_eq!(ts.len(), 1);
    assert_eq!(ts[0].trigger, DialogueTrigger::OnRelationshipAbove(800_000));
    assert_eq!(ts[0].personality, Personality::Wise);
    assert_eq!(ts[0].templates, vec!["Hi {name}".to_string()]);
}

#[test]
fn default_library_contents() {
    let mut e = DialogueEngine::new();
    populate_default_templates(&mut e);
    assert_eq!(e.templates.len(), 32);
    assert_eq!(e.templates[0].trigger, DialogueTrigger::OnEnterRoom("forest".into()));
    assert_eq!(e.templates[0].personality, Personality::Wise);
    assert_eq!(e.templates[17].trigger, DialogueTrigger::OnConservationError(500_000));
    assert_eq!(e.templates[21].templates[0], "You did it! Tutorial complete! 🎉");
    assert!(e.templates.iter().all(|t| !t.templates.is_empty()));
}

#[test]
fn generate_leaves_engine_unchanged() {
    let mut e = full_engine();
    let before = e.characters.len();
    let templates_before = e.templates.len();
    let _ = e.generate("elder", &DialogueContext::default());
    assert_eq!(e.characters.len(), before);
    assert_eq!(e.templates.len(), templates_before);
}

#[test]
fn clamping_twice_changes_nothing() {
    let mut c = Character::new("a", "A", Personality::Wise);
    c.relationship = 3 * SCORE_ONE;
    c.clamp_relationship();
    let once = c.relationship;
    c.clamp_relationship();
    assert_eq!(c.relationship, once);
    assert_eq!(once, SCORE_ONE);
    c.relationship = 420_000;
    c.clamp_relationship();
    assert_eq!(c.relationship, 420_000);
}

#[test]
fn unknown_id_leaves_relationships() {
    let mut e = DialogueEngine::new();
    e.add_character(Character::new("a", "A", Personality::Wise));
    e.update_relationship("zzz", 100_000);
    assert_eq!(e.characters.len(), 1);
    assert_eq!(e.character("a").unwrap().relationship, 500_000);
}
