//! The data of the dialogue engine: characters, triggers, templates, and
//! the game context a line is chosen in.
//!
//! Scores (a relationship, the vibe of a place, a conservation error and the
//! thresholds compared with them) are fixed-point numbers in millionths:
//! `SCORE_ONE` stands for 1.0.
use vstd::prelude::*;

use crate::text::{replace_all, replaced};

verus! {

/// The fixed-point value of 1.0 in a score.
pub const SCORE_ONE: i64 = 1000000;

/// A score clamped into `[0, SCORE_ONE]`.
pub open spec fn clamped_score(x: int) -> int {
    if x < 0 {
        0
    } else if x > SCORE_ONE {
        SCORE_ONE as int
    } else {
        x
    }
}

/// Core personality archetypes for NPCs.
#[derive(Debug, Clone, Copy, PartialEq, Eq, Structural)]
pub enum Personality {
    Wise,
    Playful,
    Grumpy,
    Curious,
    Brave,
    Mysterious,
}

/// Current emotional state of a character.
#[derive(Debug, Clone, Copy, PartialEq, Eq, Structural)]
pub enum Mood {
    Happy,
    Neutral,
    Worried,
    Excited,
    Thoughtful,
    Sad,
}

/// Events that can trigger a dialogue line.
#[derive(Debug, PartialEq)]
pub enum DialogueTrigger {
    OnEnterRoom(String),
    OnBuildStructure(String),
    /// Fires when the conservation error is at least this score.
    OnConservationError(i64),
    OnQuestComplete(String),
    /// Fires when the relationship is at least this score.
    OnRelationshipAbove(i64),
    OnTimeOfDay(String),
}

/// A trigger with its texts as character sequences.
pub enum DialogueTriggerView {
    OnEnterRoom(Seq<char>),
    OnBuildStructure(Seq<char>),
    OnConservationError(i64),
    OnQuestComplete(Seq<char>),
    OnRelationshipAbove(i64),
    OnTimeOfDay(Seq<char>),
}

impl View for DialogueTrigger {
    type V = DialogueTriggerView;

    open spec fn view(&self) -> DialogueTriggerView {
        match self {
            DialogueTrigger::OnEnterRoom(s) => DialogueTriggerView::OnEnterRoom(s@),
            DialogueTrigger::OnBuildStructure(s) => DialogueTriggerView::OnBuildStructure(s@),
            DialogueTrigger::OnConservationError(x) => DialogueTriggerView::OnConservationError(*x),
            DialogueTrigger::OnQuestComplete(s) => DialogueTriggerView::OnQuestComplete(s@),
            DialogueTrigger::OnRelationshipAbove(x) => DialogueTriggerView::OnRelationshipAbove(*x),
            DialogueTrigger::OnTimeOfDay(s) => DialogueTriggerView::OnTimeOfDay(s@),
        }
    }
}

impl Clone for DialogueTrigger {
    fn clone(&self) -> (r: Self)
        ensures
            r == *self,
    {
        match self {
            DialogueTrigger::OnEnterRoom(s) => DialogueTrigger::OnEnterRoom(s.clone()),
            DialogueTrigger::OnBuildStructure(s) => DialogueTrigger::OnBuildStructure(s.clone()),
            DialogueTrigger::OnConservationError(x) => DialogueTrigger::OnConservationError(*x),
            DialogueTrigger::OnQuestComplete(s) => DialogueTrigger::OnQuestComplete(s.clone()),
            DialogueTrigger::OnRelationshipAbove(x) => DialogueTrigger::OnRelationshipAbove(*x),
            DialogueTrigger::OnTimeOfDay(s) => DialogueTrigger::OnTimeOfDay(s.clone()),
        }
    }
}

/// An NPC in the game world.
#[derive(Debug, Clone)]
pub struct Character {
    pub id: String,
    pub name: String,
    pub personality: Personality,
    pub mood: Mood,
    pub knowledge: Vec<String>,
    /// Relationship score with the player, kept in `[0, SCORE_ONE]` by `clamp_relationship`.
    pub relationship: i64,
}

impl Character {
    /// A new character: neutral mood, no knowledge, relationship one half.
    pub fn new(id: &str, name: &str, personality: Personality) -> (c: Self)
        ensures
            c.id@ == id@,
            c.name@ == name@,
            c.personality == personality,
            c.mood == Mood::Neutral,
            c.knowledge@.len() == 0,
            c.relationship == SCORE_ONE / 2,
    {
        Character {
            id: String::from_str(id),
            name: String::from_str(name),
            personality,
            mood: Mood::Neutral,
            knowledge: Vec::new(),
            relationship: SCORE_ONE / 2,
        }
    }

    /// Clamp relationship into `[0, SCORE_ONE]`.
    pub fn clamp_relationship(&mut self)
        ensures
            final(self).relationship == clamped_score(old(self).relationship as int),
            final(self).id == old(self).id,
            final(self).name == old(self).name,
            final(self).personality == old(self).personality,
            final(self).mood == old(self).mood,
            final(self).knowledge == old(self).knowledge,
    {
        if self.relationship < 0 {
            self.relationship = 0;
        } else if self.relationship > SCORE_ONE {
            self.relationship = SCORE_ONE;
        }
    }
}

/// A single spoken line.
#[derive(Debug, Clone)]
pub struct DialogueLine {
    pub speaker: String,
    pub text: String,
    pub emotion: Mood,
    pub triggers: Vec<DialogueTrigger>,
}

/// Variable bag passed into template rendering.
#[derive(Debug, Clone)]
pub struct TemplateVars {
    pub name: String,
    pub room: String,
    pub structure: String,
    pub vibe: String,
}

/// The text of each template variable.
pub struct TemplateVarsView {
    pub name: Seq<char>,
    pub room: Seq<char>,
    pub structure: Seq<char>,
    pub vibe: Seq<char>,
}

impl View for TemplateVars {
    type V = TemplateVarsView;

    open spec fn view(&self) -> TemplateVarsView {
        TemplateVarsView {
            name: self.name@,
            room: self.room@,
            structure: self.structure@,
            vibe: self.vibe@,
        }
    }
}

impl Default for TemplateVars {
    fn default() -> (v: Self)
        ensures
            v.name@.len() == 0,
            v.room@.len() == 0,
            v.structure@.len() == 0,
            v.vibe@.len() == 0,
    {
        TemplateVars {
            name: String::new(),
            room: String::new(),
            structure: String::new(),
            vibe: String::new(),
        }
    }
}

/// `raw` with the placeholders `{name}`, `{room}`, `{structure}` and `{vibe}`
/// replaced, in that order, by the variables of `vars`.
pub open spec fn substituted(raw: Seq<char>, vars: TemplateVarsView) -> Seq<char> {
    replaced(
        replaced(
            replaced(replaced(raw, "{name}"@, vars.name), "{room}"@, vars.room),
            "{structure}"@,
            vars.structure,
        ),
        "{vibe}"@,
        vars.vibe,
    )
}

/// A template with multiple text variations for a given trigger and personality.
#[derive(Debug, Clone)]
pub struct DialogueTemplate {
    pub trigger: DialogueTrigger,
    pub personality: Personality,
    pub templates: Vec<String>,
}

/// A template with its texts as character sequences.
pub struct DialogueTemplateView {
    pub trigger: DialogueTriggerView,
    pub personality: Personality,
    pub templates: Seq<Seq<char>>,
}

impl View for DialogueTemplate {
    type V = DialogueTemplateView;

    open spec fn view(&self) -> DialogueTemplateView {
        DialogueTemplateView {
            trigger: self.trigger@,
            personality: self.personality,
            templates: self.templates@.map_values(|s: String| s@),
        }
    }
}

/// The templates of `ts` with their texts as character sequences.
pub open spec fn templates_view(ts: Seq<DialogueTemplate>) -> Seq<DialogueTemplateView> {
    ts.map_values(|t: DialogueTemplate| t@)
}

/// What `render` gives for the variation `index` (taken modulo their number).
pub open spec fn rendered(templates: Seq<String>, index: int, vars: TemplateVarsView) -> Seq<char>
    recommends
        templates.len() > 0,
{
    substituted(templates[index % (templates.len() as int)]@, vars)
}

impl DialogueTemplate {
    /// Pick a template text, cycling through the variations, and substitute placeholders.
    ///
    /// Placeholders: `{name}`, `{room}`, `{structure}`, `{vibe}`.
    pub fn render(&self, index: usize, vars: &TemplateVars) -> (r: String)
        requires
            self.templates@.len() > 0,
        ensures
            r@ == rendered(self.templates@, index as int, vars@),
    {
        let raw = &self.templates[index % self.templates.len()];
        self.substitute(raw.as_str(), vars)
    }

    fn substitute(&self, raw: &str, vars: &TemplateVars) -> (r: String)
        ensures
            r@ == substituted(raw@, vars@),
    {
        proof {
            reveal_strlit("{name}");
            reveal_strlit("{room}");
            reveal_strlit("{structure}");
            reveal_strlit("{vibe}");
        }
        let a = replace_all(raw, "{name}", vars.name.as_str());
        let b = replace_all(a.as_str(), "{room}", vars.room.as_str());
        let c = replace_all(b.as_str(), "{structure}", vars.structure.as_str());
        replace_all(c.as_str(), "{vibe}", vars.vibe.as_str())
    }
}

/// Snapshot of the game state used to decide what an NPC says.
#[derive(Debug, Clone)]
pub struct DialogueContext {
    pub room: String,
    pub recent_action: Option<String>,
    /// General atmosphere score, 0 to `SCORE_ONE`.
    pub vibe: i64,
    /// How far off the player's conservation efforts are, as a score.
    pub conservation_error: i64,
    pub time_of_day: String,
    pub player_level: u32,
}

/// What a spoken line says, by whom and in which mood.
pub struct DialogueLineView {
    pub speaker: Seq<char>,
    pub text: Seq<char>,
    pub emotion: Mood,
    pub triggers: Seq<DialogueTrigger>,
}

impl View for DialogueLine {
    type V = DialogueLineView;

    open spec fn view(&self) -> DialogueLineView {
        DialogueLineView {
            speaker: self.speaker@,
            text: self.text@,
            emotion: self.emotion,
            triggers: self.triggers@,
        }
    }
}

impl Default for DialogueContext {
    fn default() -> (c: Self)
        ensures
            c.room@ == "village"@,
            c.recent_action.is_none(),
            c.vibe == SCORE_ONE / 2,
            c.conservation_error == 0,
            c.time_of_day@ == "day"@,
            c.player_level == 1,
    {
        DialogueContext {
            room: String::from_str("village"),
            recent_action: None,
            vibe: SCORE_ONE / 2,
            conservation_error: 0,
            time_of_day: String::from_str("day"),
            player_level: 1,
        }
    }
}

} // verus!
