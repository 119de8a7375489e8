//! The dialogue engine: its characters, its templates, and how it picks what
//! a character says.
use vstd::prelude::*;

use crate::model::{
    clamped_score, rendered, Character, DialogueContext, DialogueLine, DialogueLineView,
    DialogueTemplate, DialogueTrigger, Mood, Personality, TemplateVars, TemplateVarsView,
    SCORE_ONE,
};
use crate::text::{percent_text, percent_text_of, same_text};

verus! {

// ---------------------------------------------------------------------------
// What the engine decides, stated over its data
// ---------------------------------------------------------------------------

/// `k` is the first position in `chars` of a character with id `id`.
pub open spec fn first_with_id(chars: Seq<Character>, id: Seq<char>, k: int) -> bool {
    &&& 0 <= k < chars.len()
    &&& chars[k].id@ == id
    &&& forall|j: int| 0 <= j < k ==> chars[j].id@ != id
}

/// The position of the first character with id `id`, if there is one.
pub open spec fn character_index(chars: Seq<Character>, id: Seq<char>) -> Option<int> {
    if exists|k: int| first_with_id(chars, id, k) {
        Some(choose|k: int| first_with_id(chars, id, k))
    } else {
        None
    }
}

/// The character that id `id` names, if there is one.
pub open spec fn lookup(chars: Seq<Character>, id: Seq<char>) -> Option<Character> {
    match character_index(chars, id) {
        Some(k) => Some(chars[k]),
        None => None,
    }
}

/// No two characters share an id.
pub open spec fn ids_unique(chars: Seq<Character>) -> bool {
    forall|i: int, j: int| 0 <= i < j < chars.len() ==> chars[i].id@ != chars[j].id@
}

/// The characters after adding `c`: it takes the place of the first character
/// with its id, or comes last when there is none.
pub open spec fn with_character(chars: Seq<Character>, c: Character) -> Seq<Character> {
    match character_index(chars, c.id@) {
        Some(k) => chars.update(k, c),
        None => chars.push(c),
    }
}

/// The characters after moving the relationship of character `id` by `delta`,
/// clamped into `[0, SCORE_ONE]`.
pub open spec fn with_relationship_moved(chars: Seq<Character>, id: Seq<char>, delta: int) -> Seq<
    Character,
> {
    match character_index(chars, id) {
        Some(k) => {
            let c = chars[k];
            chars.update(k, Character { relationship: clamped_score(c.relationship + delta) as i64, ..c })
        },
        None => chars,
    }
}

/// Whether `trigger` fires for character `c` in context `ctx`.
pub open spec fn trigger_holds(trigger: DialogueTrigger, ctx: DialogueContext, c: Character) -> bool {
    match trigger {
        DialogueTrigger::OnEnterRoom(room) => room@ == ctx.room@,
        DialogueTrigger::OnBuildStructure(s) => match ctx.recent_action {
            Some(a) => a@ == s@,
            None => false,
        },
        DialogueTrigger::OnConservationError(threshold) => ctx.conservation_error >= threshold,
        DialogueTrigger::OnQuestComplete(_) => false,
        DialogueTrigger::OnRelationshipAbove(threshold) => c.relationship >= threshold,
        DialogueTrigger::OnTimeOfDay(tod) => tod@ == ctx.time_of_day@,
    }
}

/// The mood a line spoken on `trigger` carries.
pub open spec fn trigger_mood(trigger: DialogueTrigger) -> Mood {
    match trigger {
        DialogueTrigger::OnEnterRoom(_) => Mood::Neutral,
        DialogueTrigger::OnBuildStructure(_) => Mood::Excited,
        DialogueTrigger::OnConservationError(_) => Mood::Worried,
        DialogueTrigger::OnQuestComplete(_) => Mood::Happy,
        DialogueTrigger::OnRelationshipAbove(_) => Mood::Happy,
        DialogueTrigger::OnTimeOfDay(tod) => if tod@ == "morning"@ {
            Mood::Happy
        } else if tod@ == "night"@ {
            Mood::Thoughtful
        } else {
            Mood::Neutral
        },
    }
}

/// The generic line of a personality, addressed to `name`.
pub open spec fn fallback_text(personality: Personality, name: Seq<char>) -> Seq<char> {
    match personality {
        Personality::Wise => "Greetings, "@ + name + ". The world speaks to those who listen."@,
        Personality::Playful => "Hey "@ + name + ", bet you can't guess what I found!"@,
        Personality::Grumpy => "Oh, it's you again, "@ + name + "."@,
        Personality::Curious => name + ", what brings you here? I must know!"@,
        Personality::Brave => "Stay sharp, "@ + name + ". Danger could be anywhere."@,
        Personality::Mysterious => "The winds carry your name, "@ + name + "... and mine."@,
    }
}

/// Template `t` is one that character `c` may speak in context `ctx`.
pub open spec fn template_fits(t: DialogueTemplate, ctx: DialogueContext, c: Character) -> bool {
    t.personality == c.personality && trigger_holds(t.trigger, ctx, c)
}

/// `k` is the first position in `templates` of a template that fits.
pub open spec fn first_fitting(
    templates: Seq<DialogueTemplate>,
    ctx: DialogueContext,
    c: Character,
    k: int,
) -> bool {
    &&& 0 <= k < templates.len()
    &&& template_fits(templates[k], ctx, c)
    &&& forall|j: int| 0 <= j < k ==> !template_fits(templates[j], ctx, c)
}

/// The position of the first template that fits, if there is one.
pub open spec fn template_index(
    templates: Seq<DialogueTemplate>,
    ctx: DialogueContext,
    c: Character,
) -> Option<int> {
    if exists|k: int| first_fitting(templates, ctx, c, k) {
        Some(choose|k: int| first_fitting(templates, ctx, c, k))
    } else {
        None
    }
}

/// The template variables of character `c` in context `ctx`.
pub open spec fn context_vars(c: Character, ctx: DialogueContext) -> TemplateVarsView {
    TemplateVarsView {
        name: c.name@,
        room: ctx.room@,
        structure: match ctx.recent_action {
            Some(a) => a@,
            None => Seq::empty(),
        },
        vibe: percent_text(ctx.vibe as int),
    }
}

/// The line that character `id` speaks in context `ctx`.
pub open spec fn generated(
    chars: Seq<Character>,
    templates: Seq<DialogueTemplate>,
    id: Seq<char>,
    ctx: DialogueContext,
) -> DialogueLineView {
    match character_index(chars, id) {
        None => DialogueLineView {
            speaker: id,
            text: "..."@,
            emotion: Mood::Neutral,
            triggers: Seq::empty(),
        },
        Some(k) => {
            let c = chars[k];
            match template_index(templates, ctx, c) {
                Some(t) => DialogueLineView {
                    speaker: c.name@,
                    text: rendered(templates[t].templates@, ctx.player_level as int, context_vars(c, ctx)),
                    emotion: trigger_mood(templates[t].trigger),
                    triggers: seq![templates[t].trigger],
                },
                None => DialogueLineView {
                    speaker: c.name@,
                    text: fallback_text(c.personality, c.name@),
                    emotion: c.mood,
                    triggers: Seq::empty(),
                },
            }
        },
    }
}

/// Generating a line for `id` does not fail: the template it would speak
/// from has at least one variation.
pub open spec fn can_generate(
    chars: Seq<Character>,
    templates: Seq<DialogueTemplate>,
    id: Seq<char>,
    ctx: DialogueContext,
) -> bool {
    match character_index(chars, id) {
        Some(k) => match template_index(templates, ctx, chars[k]) {
            Some(t) => templates[t].templates@.len() > 0,
            None => true,
        },
        None => true,
    }
}

proof fn lemma_first_with_id_unique(chars: Seq<Character>, id: Seq<char>, k1: int, k2: int)
    requires
        first_with_id(chars, id, k1),
        first_with_id(chars, id, k2),
    ensures
        k1 == k2,
{
    if k1 < k2 {
        assert(chars[k1].id@ != id);
    } else if k2 < k1 {
        assert(chars[k2].id@ != id);
    }
}

proof fn lemma_first_fitting_unique(
    templates: Seq<DialogueTemplate>,
    ctx: DialogueContext,
    c: Character,
    k1: int,
    k2: int,
)
    requires
        first_fitting(templates, ctx, c, k1),
        first_fitting(templates, ctx, c, k2),
    ensures
        k1 == k2,
{
    if k1 < k2 {
        assert(!template_fits(templates[k1], ctx, c));
    } else if k2 < k1 {
        assert(!template_fits(templates[k2], ctx, c));
    }
}

// ---------------------------------------------------------------------------
// Helpers
// ---------------------------------------------------------------------------

fn trigger_matches(trigger: &DialogueTrigger, ctx: &DialogueContext, char_: &Character) -> (r: bool)
    ensures
        r == trigger_holds(*trigger, *ctx, *char_),
{
    match trigger {
        DialogueTrigger::OnEnterRoom(room) => *room == ctx.room,
        DialogueTrigger::OnBuildStructure(s) => match &ctx.recent_action {
            Some(a) => *a == *s,
            None => false,
        },
        DialogueTrigger::OnConservationError(threshold) => ctx.conservation_error >= *threshold,
        DialogueTrigger::OnQuestComplete(_q) => false,
        DialogueTrigger::OnRelationshipAbove(threshold) => char_.relationship >= *threshold,
        DialogueTrigger::OnTimeOfDay(tod) => *tod == ctx.time_of_day,
    }
}

fn mood_from_trigger(trigger: &DialogueTrigger) -> (m: Mood)
    ensures
        m == trigger_mood(*trigger),
{
    match trigger {
        DialogueTrigger::OnEnterRoom(_) => Mood::Neutral,
        DialogueTrigger::OnBuildStructure(_) => Mood::Excited,
        DialogueTrigger::OnConservationError(_) => Mood::Worried,
        DialogueTrigger::OnQuestComplete(_) => Mood::Happy,
        DialogueTrigger::OnRelationshipAbove(_) => Mood::Happy,
        DialogueTrigger::OnTimeOfDay(tod) => {
            if same_text(tod.as_str(), "morning") {
                Mood::Happy
            } else if same_text(tod.as_str(), "night") {
                Mood::Thoughtful
            } else {
                Mood::Neutral
            }
        },
    }
}

/// The generic line a character of `personality` says when no template fits.
pub fn fallback_line(personality: &Personality, vars: &TemplateVars) -> (r: String)
    ensures
        r@ == fallback_text(*personality, vars.name@),
{
    match personality {
        Personality::Wise => {
            let mut s = String::from_str("Greetings, ");
            s.append(vars.name.as_str());
            s.append(". The world speaks to those who listen.");
            s
        },
        Personality::Playful => {
            let mut s = String::from_str("Hey ");
            s.append(vars.name.as_str());
            s.append(", bet you can't guess what I found!");
            s
        },
        Personality::Grumpy => {
            let mut s = String::from_str("Oh, it's you again, ");
            s.append(vars.name.as_str());
            s.append(".");
            s
        },
        Personality::Curious => {
            let mut s = vars.name.clone();
            s.append(", what brings you here? I must know!");
            s
        },
        Personality::Brave => {
            let mut s = String::from_str("Stay sharp, ");
            s.append(vars.name.as_str());
            s.append(". Danger could be anywhere.");
            s
        },
        Personality::Mysterious => {
            let mut s = String::from_str("The winds carry your name, ");
            s.append(vars.name.as_str());
            s.append("... and mine.");
            s
        },
    }
}

// ---------------------------------------------------------------------------
// The engine
// ---------------------------------------------------------------------------

/// The main dialogue engine.
#[derive(Debug, Clone)]
pub struct DialogueEngine {
    /// The characters, at most one per id when they are added with `add_character`.
    pub characters: Vec<Character>,
    pub templates: Vec<DialogueTemplate>,
}

impl Default for DialogueEngine {
    fn default() -> (e: Self)
        ensures
            e.characters@.len() == 0,
            e.templates@.len() == 0,
    {
        Self::new()
    }
}

impl DialogueEngine {
    /// An engine with no characters and no templates.
    pub fn new() -> (e: Self)
        ensures
            e.characters@.len() == 0,
            e.templates@.len() == 0,
    {
        DialogueEngine { characters: Vec::new(), templates: Vec::new() }
    }

    /// The position of the character with id `id`.
    fn find_character(&self, id: &str) -> (r: Option<usize>)
        ensures
            match r {
                Some(k) => character_index(self.characters@, id@) == Some(k as int),
                None => character_index(self.characters@, id@) == None::<int>,
            },
    {
        let n = self.characters.len();
        let mut i: usize = 0;
        while i < n
            invariant
                n == self.characters@.len(),
                i <= n,
                forall|j: int| 0 <= j < i ==> self.characters@[j].id@ != id@,
            decreases n - i,
        {
            if same_text(self.characters[i].id.as_str(), id) {
                proof {
                    let chars = self.characters@;
                    assert(first_with_id(chars, id@, i as int));
                    let k = choose|k: int| first_with_id(chars, id@, k);
                    lemma_first_with_id_unique(chars, id@, i as int, k);
                }
                return Some(i);
            }
            i = i + 1;
        }
        None
    }

    /// The character with id `id`, if the engine has one.
    pub fn character(&self, id: &str) -> (r: Option<&Character>)
        ensures
            match r {
                Some(c) => lookup(self.characters@, id@) == Some(*c),
                None => lookup(self.characters@, id@) is None,
            },
    {
        match self.find_character(id) {
            Some(k) => Some(&self.characters[k]),
            None => None,
        }
    }

    /// Add a character to the engine, replacing the one with the same id.
    pub fn add_character(&mut self, character: Character)
        ensures
            final(self).characters@ == with_character(old(self).characters@, character),
            final(self).templates == old(self).templates,
            ids_unique(old(self).characters@) ==> ids_unique(final(self).characters@),
    {
        proof {
            if ids_unique(old(self).characters@) {
                crate::laws::law_add_keeps_ids_unique(old(self).characters@, character);
            }
        }
        match self.find_character(character.id.as_str()) {
            Some(k) => {
                self.characters.set(k, character);
            },
            None => {
                self.characters.push(character);
            },
        }
    }

    /// Adjust the relationship score of a character by `delta`, clamped into
    /// `[0, SCORE_ONE]`; an unknown id changes nothing.
    pub fn update_relationship(&mut self, character_id: &str, delta: i64)
        ensures
            final(self).templates == old(self).templates,
            final(self).characters@ == with_relationship_moved(
                old(self).characters@,
                character_id@,
                delta as int,
            ),
            ids_unique(old(self).characters@) ==> ids_unique(final(self).characters@),
    {
        if let Some(k) = self.find_character(character_id) {
            let sum: i128 = self.characters[k].relationship as i128 + delta as i128;
            let clamped: i64 = if sum < 0 {
                0
            } else if sum > SCORE_ONE as i128 {
                SCORE_ONE
            } else {
                sum as i64
            };
            let mut c = self.characters.remove(k);
            c.relationship = clamped;
            self.characters.insert(k, c);
            proof {
                assert(self.characters@ =~= old(self).characters@.update(
                    k as int,
                    Character { relationship: clamped, ..old(self).characters@[k as int] },
                ));
                if ids_unique(old(self).characters@) {
                    assert forall|a: int, b: int|
                        0 <= a < b < self.characters@.len() implies self.characters@[a].id@
                        != self.characters@[b].id@ by {
                        assert(old(self).characters@[a].id@ != old(self).characters@[b].id@);
                    }
                }
            }
        }
    }

    /// The first template that fits character `c` in context `ctx`.
    fn first_fitting_template(&self, c: &Character, ctx: &DialogueContext) -> (r: Option<usize>)
        ensures
            match r {
                Some(k) => template_index(self.templates@, *ctx, *c) == Some(k as int),
                None => template_index(self.templates@, *ctx, *c) == None::<int>,
            },
    {
        let n = self.templates.len();
        let mut i: usize = 0;
        while i < n
            invariant
                n == self.templates@.len(),
                i <= n,
                forall|j: int| 0 <= j < i ==> !template_fits(self.templates@[j], *ctx, *c),
            decreases n - i,
        {
            let t = &self.templates[i];
            if t.personality == c.personality && trigger_matches(&t.trigger, ctx, c) {
                proof {
                    let ts = self.templates@;
                    assert(first_fitting(ts, *ctx, *c, i as int));
                    let k = choose|k: int| first_fitting(ts, *ctx, *c, k);
                    lemma_first_fitting_unique(ts, *ctx, *c, i as int, k);
                }
                return Some(i);
            }
            i = i + 1;
        }
        None
    }

    /// Produce a dialogue line for `character_id` given the current `context`.
    ///
    /// Falls back to a generic greeting when no template matches.
    pub fn generate(&mut self, character_id: &str, context: &DialogueContext) -> (line: DialogueLine)
        requires
            can_generate(old(self).characters@, old(self).templates@, character_id@, *context),
        ensures
            *final(self) == *old(self),
            line@ == generated(old(self).characters@, old(self).templates@, character_id@, *context),
    {
        let k = match self.find_character(character_id) {
            Some(k) => k,
            None => {
                return DialogueLine {
                    speaker: String::from_str(character_id),
                    text: String::from_str("..."),
                    emotion: Mood::Neutral,
                    triggers: Vec::new(),
                };
            },
        };
        let character = &self.characters[k];
        let vars = TemplateVars {
            name: character.name.clone(),
            room: context.room.clone(),
            structure: match &context.recent_action {
                Some(a) => a.clone(),
                None => String::new(),
            },
            vibe: percent_text_of(context.vibe),
        };
        match self.first_fitting_template(character, context) {
            Some(t) => {
                let pick = &self.templates[t];
                let n = pick.templates.len();
                let idx = (context.player_level as usize) % n;
                let text = pick.render(idx, &vars);
                proof {
                    vstd::arithmetic::div_mod::lemma_mod_twice(context.player_level as int, n as int);
                }
                let emotion = mood_from_trigger(&pick.trigger);
                let mut triggers = Vec::new();
                triggers.push(pick.trigger.clone());
                assert(triggers@ =~= seq![pick.trigger]);
                DialogueLine { speaker: character.name.clone(), text, emotion, triggers }
            },
            None => {
                let text = fallback_line(&character.personality, &vars);
                DialogueLine {
                    speaker: character.name.clone(),
                    text,
                    emotion: character.mood,
                    triggers: Vec::new(),
                }
            },
        }
    }
}

} // verus!
