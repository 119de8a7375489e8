use lau_dialogue::{
    populate_default_templates, Character, DialogueContext, DialogueEngine, DialogueTemplate,
    DialogueTrigger, Mood, Personality, TemplateVars, SCORE_ONE,
};

fn score(x: f64) -> i64 {
    (x * SCORE_ONE as f64).round() as i64
}

fn wise_elder() -> Character {
    Character::new("elder", "Elder Oak", Personality::Wise)
}

fn playful_fox() -> Character {
    Character {
        id: "fox".into(),
        name: "Fennick".into(),
        personality: Personality::Playful,
        mood: Mood::Happy,
        knowledge: vec!["forest lore".into()],
        relationship: score(0.6),
    }
}

fn grumpy_bear() -> Character {
    Character {
        id: "bear".into(),
        name: "Grizzle".into(),
        personality: Personality::Grumpy,
        mood: Mood::Neutral,
        knowledge: vec![],
        relationship: score(0.3),
    }
}

fn brave_knight() -> Character {
    Character {
        id: "knight".into(),
        name: "Sir Rowan".into(),
        personality: Personality::Brave,
        mood: Mood::Excited,
        knowledge: vec!["combat".into()],
        relationship: score(0.5),
    }
}

fn mysterious_owl() -> Character {
    Character {
        id: "owl".into(),
        name: "Whisper".into(),
        personality: Personality::Mysterious,
        mood: Mood::Thoughtful,
        knowledge: vec!["secrets".into(), "prophecies".into()],
        relationship: score(0.2),
    }
}

fn curious_cat() -> Character {
    Character {
        id: "cat".into(),
        name: "Pip".into(),
        personality: Personality::Curious,
        mood: Mood::Excited,
        knowledge: vec![],
        relationship: score(0.4),
    }
}

fn engine_with_characters() -> DialogueEngine {
    let mut e = DialogueEngine::new();
    e.add_character(wise_elder());
    e.add_character(playful_fox());
    e.add_character(grumpy_bear());
    e.add_character(brave_knight());
    e.add_character(mysterious_owl());
    e.add_character(curious_cat());
    populate_default_templates(&mut e);
    e
}

// -- Character tests --

#[test]
fn character_new_defaults() {
    let c = Character::new("a", "Alice", Personality::Curious);
    assert_eq!(c.id, "a");
    assert_eq!(c.name, "Alice");
    assert_eq!(c.personality, Personality::Curious);
    assert_eq!(c.mood, Mood::Neutral);
    assert!(c.knowledge.is_empty());
    assert_eq!(c.relationship, score(0.5));
}

#[test]
fn relationship_clamping() {
    let mut c = Character::new("a", "A", Personality::Wise);
    c.relationship = score(1.5);
    c.clamp_relationship();
    assert_eq!(c.relationship, score(1.0));
    c.relationship = score(-0.5);
    c.clamp_relationship();
    assert_eq!(c.relationship, score(0.0));
}

#[test]
fn update_relationship_clamps() {
    let mut e = DialogueEngine::new();
    e.add_character(Character::new("a", "A", Personality::Wise));
    e.update_relationship("a", score(10.0));
    assert_eq!(e.character("a").unwrap().relationship, score(1.0));
    e.update_relationship("a", score(-20.0));
    assert_eq!(e.character("a").unwrap().relationship, score(0.0));
}

#[test]
fn update_relationship_missing_is_noop() {
    let mut e = DialogueEngine::new();
    e.update_relationship("ghost", score(1.0));
    assert!(e.characters.is_empty());
}

// -- Generate tests --

#[test]
fn generate_unknown_character() {
    let mut e = DialogueEngine::new();
    let line = e.generate("nobody", &DialogueContext::default());
    assert_eq!(line.speaker, "nobody");
    assert_eq!(line.text, "...");
}

#[test]
fn generate_fallback_wise() {
    let mut e = DialogueEngine::new();
    e.add_character(wise_elder());
    let line = e.generate("elder", &DialogueContext::default());
    assert_eq!(line.speaker, "Elder Oak");
    assert!(line.text.contains("Elder Oak") || line.text.contains("Greetings"));
}

#[test]
fn generate_fallback_playful() {
    let mut e = DialogueEngine::new();
    e.add_character(playful_fox());
    let line = e.generate("fox", &DialogueContext::default());
    assert!(line.text.contains("Fennick"));
}

#[test]
fn generate_fallback_grumpy() {
    let mut e = DialogueEngine::new();
    e.add_character(grumpy_bear());
    let line = e.generate("bear", &DialogueContext::default());
    assert!(line.text.contains("Grizzle"));
}

#[test]
fn generate_fallback_brave() {
    let mut e = DialogueEngine::new();
    e.add_character(brave_knight());
    let line = e.generate("knight", &DialogueContext::default());
    assert!(line.text.contains("Sir Rowan"));
}

#[test]
fn generate_fallback_mysterious() {
    let mut e = DialogueEngine::new();
    e.add_character(mysterious_owl());
    let line = e.generate("owl", &DialogueContext::default());
    assert!(line.text.contains("Whisper") || line.text.contains("winds"));
}

#[test]
fn generate_on_enter_room_forest_wise() {
    let mut e = engine_with_characters();
    let ctx = DialogueContext {
        room: "forest".into(),
        ..DialogueContext::default()
    };
    let line = e.generate("elder", &ctx);
    assert!(line.text.contains("{name}") == false);
    assert!(line.emotion == Mood::Neutral);
}

#[test]
fn generate_on_enter_room_forest_playful() {
    let mut e = engine_with_characters();
    let ctx = DialogueContext {
        room: "forest".into(),
        ..DialogueContext::default()
    };
    let line = e.generate("fox", &ctx);
    assert!(!line.text.is_empty());
}

#[test]
fn generate_on_enter_room_forest_grumpy() {
    let mut e = engine_with_characters();
    let ctx = DialogueContext {
        room: "forest".into(),
        ..DialogueContext::default()
    };
    let line = e.generate("bear", &ctx);
    assert!(!line.text.is_empty());
}

#[test]
fn generate_on_enter_room_forest_curious() {
    let mut e = engine_with_characters();
    let ctx = DialogueContext {
        room: "forest".into(),
        ..DialogueContext::default()
    };
    let line = e.generate("cat", &ctx);
    assert!(!line.text.is_empty());
}

#[test]
fn generate_on_enter_room_forest_brave() {
    let mut e = engine_with_characters();
    let ctx = DialogueContext {
        room: "forest".into(),
        ..DialogueContext::default()
    };
    let line = e.generate("knight", &ctx);
    assert!(!line.text.is_empty());
}

#[test]
fn generate_on_enter_room_forest_mysterious() {
    let mut e = engine_with_characters();
    let ctx = DialogueContext {
        room: "forest".into(),
        ..DialogueContext::default()
    };
    let line = e.generate("owl", &ctx);
    assert!(!line.text.is_empty());
}

#[test]
fn generate_on_build_structure_windmill() {
    let mut e = engine_with_characters();
    let ctx = DialogueContext {
        room: "plains".into(),
        recent_action: Some("windmill".into()),
        ..DialogueContext::default()
    };
    let line = e.generate("elder", &ctx);
    assert!(line.emotion == Mood::Excited);
}

#[test]
fn generate_on_build_structure_garden() {
    let mut e = engine_with_characters();
    let ctx = DialogueContext {
        recent_action: Some("garden".into()),
        ..DialogueContext::default()
    };
    let line = e.generate("fox", &ctx);
    assert!(!line.text.is_empty());
}

#[test]
fn generate_conservation_error() {
    let mut e = engine_with_characters();
    let ctx = DialogueContext {
        room: "plains".into(),
        conservation_error: score(0.6),
        ..DialogueContext::default()
    };
    let line = e.generate("cat", &ctx);
    assert!(line.emotion == Mood::Worried);
}

#[test]
fn generate_time_of_day_morning() {
    let mut e = engine_with_characters();
    let ctx = DialogueContext {
        time_of_day: "morning".into(),
        ..DialogueContext::default()
    };
    let line = e.generate("fox", &ctx);
    assert!(!line.text.is_empty());
}

#[test]
fn generate_time_of_day_night() {
    let mut e = engine_with_characters();
    let ctx = DialogueContext {
        time_of_day: "night".into(),
        ..DialogueContext::default()
    };
    let line = e.generate("owl", &ctx);
    assert!(!line.text.is_empty());
}

#[test]
fn relationship_above_trigger() {
    let mut e = engine_with_characters();
    e.update_relationship("owl", score(0.7));
    let ctx = DialogueContext::default();
    let line = e.generate("owl", &ctx);
    assert!(!line.triggers.is_empty() || !line.text.is_empty());
}

#[test]
fn template_render_cycles() {
    let t = DialogueTemplate {
        trigger: DialogueTrigger::OnEnterRoom("forest".into()),
        personality: Personality::Wise,
        templates: vec!["one".into(), "two".into()],
    };
    let vars = TemplateVars::default();
    assert_eq!(t.render(0, &vars), "one");
    assert_eq!(t.render(2, &vars), "one");
    assert_eq!(t.render(1, &vars), "two");
}

#[test]
fn template_placeholders_substituted() {
    let t = DialogueTemplate {
        trigger: DialogueTrigger::OnEnterRoom("forest".into()),
        personality: Personality::Wise,
        templates: vec!["Hello {name} in {room}!".into()],
    };
    let vars = TemplateVars {
        name: "Alice".into(),
        room: "forest".into(),
        ..Default::default()
    };
    assert_eq!(t.render(0, &vars), "Hello Alice in forest!");
}

#[test]
fn default_context() {
    let ctx = DialogueContext::default();
    assert_eq!(ctx.room, "village");
    assert!(ctx.recent_action.is_none());
    assert_eq!(ctx.time_of_day, "day");
    assert_eq!(ctx.player_level, 1);
}

#[test]
fn default_engine() {
    let e = DialogueEngine::default();
    assert!(e.characters.is_empty());
    assert!(e.templates.is_empty());
}

#[test]
fn populate_default_template_count() {
    let mut e = DialogueEngine::new();
    populate_default_templates(&mut e);
    assert!(e.templates.len() >= 30, "expected 30+ templates, got {}", e.templates.len());
}

#[test]
fn generate_village_room() {
    let mut e = engine_with_characters();
    let ctx = DialogueContext {
        room: "village".into(),
        ..DialogueContext::default()
    };
    let line = e.generate("elder", &ctx);
    assert!(!line.text.is_empty());
}

#[test]
fn generate_mountain_brave() {
    let mut e = engine_with_characters();
    let ctx = DialogueContext {
        room: "mountain".into(),
        ..DialogueContext::default()
    };
    let line = e.generate("knight", &ctx);
    assert!(!line.text.is_empty());
}
