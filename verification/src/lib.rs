//! NPC dialogue engine: characters speak according to context, mood,
//! personality, and what the player is learning about the world.
//!
//! Scores are fixed-point numbers in millionths (`SCORE_ONE` is 1.0).

pub mod engine;
pub mod laws;
pub mod library;
pub mod model;
pub mod score;
pub mod text;

pub use engine::{fallback_line, DialogueEngine};
pub use library::{
    decode_template_library, populate_default_templates, template_library_from_json, JsonValue,
    DEFAULT_TEMPLATES_JSON,
};
pub use model::{
    Character, DialogueContext, DialogueLine, DialogueTemplate, DialogueTrigger, Mood,
    Personality, TemplateVars, SCORE_ONE,
};
pub use score::score_from_text;
pub use text::{decimal_text, percent_text_of, replace_all, same_text};
