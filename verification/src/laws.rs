//! What holds of the engine across calls: the laws its operations obey.
use vstd::prelude::*;

use crate::engine::{
    character_index, context_vars, fallback_text, first_fitting, first_with_id, generated,
    ids_unique, lookup, template_fits, template_index, trigger_mood, with_character,
    with_relationship_moved,
};
use crate::model::{
    clamped_score, rendered, substituted, Character, DialogueContext, DialogueTemplate,
    DialogueTrigger, Mood, Personality, TemplateVarsView, SCORE_ONE,
};
use crate::text::{decimal, digit_char, occurs_at, percent_text, replaced};

verus! {

// ---------------------------------------------------------------------------
// Facts about the first character with an id
// ---------------------------------------------------------------------------

proof fn lemma_index_is(chars: Seq<Character>, id: Seq<char>, m: int)
    requires
        first_with_id(chars, id, m),
    ensures
        character_index(chars, id) == Some(m),
{
    let k = choose|k: int| first_with_id(chars, id, k);
    if k < m {
        assert(chars[k].id@ != id);
    } else if m < k {
        assert(chars[m].id@ != id);
    }
}

proof fn lemma_has_first(chars: Seq<Character>, id: Seq<char>, j: int)
    requires
        0 <= j < chars.len(),
        chars[j].id@ == id,
    ensures
        exists|k: int| first_with_id(chars, id, k),
    decreases j,
{
    if exists|i: int| 0 <= i < j && chars[i].id@ == id {
        let i = choose|i: int| 0 <= i < j && chars[i].id@ == id;
        lemma_has_first(chars, id, i);
    } else {
        assert(first_with_id(chars, id, j));
    }
}

proof fn lemma_index_none(chars: Seq<Character>, id: Seq<char>)
    ensures
        character_index(chars, id) is None <==> forall|j: int|
            0 <= j < chars.len() ==> #[trigger] chars[j].id@ != id,
{
    if character_index(chars, id) is None {
        assert forall|j: int| 0 <= j < chars.len() implies #[trigger] chars[j].id@ != id by {
            if chars[j].id@ == id {
                lemma_has_first(chars, id, j);
            }
        }
    }
}

/// Two character lists that agree on which positions hold id `id`, and on
/// what those positions hold, agree on the character that `id` names.
proof fn lemma_lookup_agrees(a: Seq<Character>, b: Seq<Character>, id: Seq<char>)
    requires
        a.len() <= b.len(),
        forall|j: int| 0 <= j < a.len() ==> (#[trigger] a[j].id@ == id) == (b[j].id@ == id),
        forall|j: int| 0 <= j < a.len() && a[j].id@ == id ==> #[trigger] b[j] == a[j],
        forall|j: int| a.len() <= j < b.len() ==> #[trigger] b[j].id@ != id,
    ensures
        lookup(b, id) == lookup(a, id),
{
    lemma_index_none(a, id);
    lemma_index_none(b, id);
    if let Some(m) = character_index(a, id) {
        assert(first_with_id(a, id, m)) by {
            lemma_has_first(a, id, m);
        }
        assert(first_with_id(b, id, m));
        lemma_index_is(b, id, m);
    } else {
        assert forall|j: int| 0 <= j < b.len() implies #[trigger] b[j].id@ != id by {
            if j < a.len() {
                assert(a[j].id@ != id);
            }
        }
    }
}

// ---------------------------------------------------------------------------
// Laws of adding characters
// ---------------------------------------------------------------------------

/// A character that was just added is the one its id names.
pub proof fn law_lookup_after_add(chars: Seq<Character>, c: Character)
    ensures
        lookup(with_character(chars, c), c.id@) == Some(c),
{
    let id = c.id@;
    lemma_index_none(chars, id);
    match character_index(chars, id) {
        Some(k) => {
            assert(first_with_id(chars, id, k)) by {
                lemma_has_first(chars, id, k);
            }
            let new = chars.update(k, c);
            assert(first_with_id(new, id, k));
            lemma_index_is(new, id, k);
        },
        None => {
            let new = chars.push(c);
            assert(first_with_id(new, id, chars.len() as int));
            lemma_index_is(new, id, chars.len() as int);
        },
    }
}

/// Adding a character leaves what every other id names unchanged.
pub proof fn law_lookup_other_after_add(chars: Seq<Character>, c: Character, id: Seq<char>)
    requires
        id != c.id@,
    ensures
        lookup(with_character(chars, c), id) == lookup(chars, id),
{
    let new = with_character(chars, c);
    match character_index(chars, c.id@) {
        Some(k) => {
            assert(first_with_id(chars, c.id@, k)) by {
                lemma_has_first(chars, c.id@, k);
            }
        },
        None => {},
    }
    lemma_lookup_agrees(chars, new, id);
}

/// Adding characters keeps their ids distinct.
pub proof fn law_add_keeps_ids_unique(chars: Seq<Character>, c: Character)
    requires
        ids_unique(chars),
    ensures
        ids_unique(with_character(chars, c)),
{
    lemma_index_none(chars, c.id@);
    match character_index(chars, c.id@) {
        Some(k) => {
            assert(first_with_id(chars, c.id@, k)) by {
                lemma_has_first(chars, c.id@, k);
            }
        },
        None => {},
    }
}

// ---------------------------------------------------------------------------
// Laws of relationships
// ---------------------------------------------------------------------------

/// Clamping puts a score in `[0, SCORE_ONE]`, and clamping again changes nothing.
pub proof fn law_clamp_in_range(x: int)
    ensures
        0 <= clamped_score(x) <= SCORE_ONE,
        clamped_score(clamped_score(x)) == clamped_score(x),
        0 <= x <= SCORE_ONE ==> clamped_score(x) == x,
{
}

/// After its relationship moves, a character's relationship is in
/// `[0, SCORE_ONE]` and is the old one plus the change, clamped; its other
/// data, and every other character, stay as they were.
pub proof fn law_relationship_moved(chars: Seq<Character>, id: Seq<char>, delta: int, other: Seq<char>)
    requires
        other != id,
    ensures
        match lookup(chars, id) {
            Some(c) => lookup(with_relationship_moved(chars, id, delta), id) matches Some(n) && {
                &&& n.relationship == clamped_score(c.relationship + delta)
                &&& 0 <= n.relationship <= SCORE_ONE
                &&& n.id == c.id && n.name == c.name && n.personality == c.personality
                &&& n.mood == c.mood && n.knowledge == c.knowledge
            },
            None => with_relationship_moved(chars, id, delta) == chars,
        },
        lookup(with_relationship_moved(chars, id, delta), other) == lookup(chars, other),
{
    lemma_index_none(chars, id);
    let new = with_relationship_moved(chars, id, delta);
    match character_index(chars, id) {
        Some(k) => {
            assert(first_with_id(chars, id, k)) by {
                lemma_has_first(chars, id, k);
            }
            assert(first_with_id(new, id, k));
            lemma_index_is(new, id, k);
        },
        None => {},
    }
    lemma_lookup_agrees(chars, new, other);
}

/// Moving the relationship of an id that names no character changes nothing.
pub proof fn law_relationship_unknown_id(chars: Seq<Character>, id: Seq<char>, delta: int)
    requires
        lookup(chars, id) is None,
    ensures
        with_relationship_moved(chars, id, delta) == chars,
{
}

// ---------------------------------------------------------------------------
// Laws of rendering
// ---------------------------------------------------------------------------

/// Rendering cycles through the variations: index `i` and index `i + n`
/// give the same text, for `n` variations.
pub proof fn law_render_cycles(templates: Seq<String>, i: int, vars: TemplateVarsView)
    requires
        templates.len() > 0,
    ensures
        rendered(templates, i + templates.len(), vars) == rendered(templates, i, vars),
{
    vstd::arithmetic::div_mod::lemma_mod_add_multiples_vanish(i, templates.len() as int);
}

proof fn lemma_replaced_absent(s: Seq<char>, pat: Seq<char>, rep: Seq<char>)
    requires
        forall|i: int| !#[trigger] occurs_at(s, pat, i),
    ensures
        replaced(s, pat, rep) == s,
    decreases s.len(),
{
    if s.len() > 0 {
        assert(!occurs_at(s, pat, 0));
        if 0 < pat.len() <= s.len() {
            assert(s.take(pat.len() as int) =~= s.subrange(0, pat.len() as int));
        }
        let t = s.skip(1);
        assert forall|i: int| !#[trigger] occurs_at(t, pat, i) by {
            assert(!occurs_at(s, pat, i + 1));
            if 0 <= i && i + pat.len() <= t.len() {
                assert(t.subrange(i, i + pat.len()) =~= s.subrange(i + 1, i + 1 + pat.len()));
            }
        }
        lemma_replaced_absent(t, pat, rep);
        assert(seq![s[0]] + t =~= s);
    }
}

/// A text without placeholders renders as itself.
pub proof fn law_render_verbatim(raw: Seq<char>, vars: TemplateVarsView)
    requires
        forall|i: int| !#[trigger] occurs_at(raw, "{name}"@, i),
        forall|i: int| !#[trigger] occurs_at(raw, "{room}"@, i),
        forall|i: int| !#[trigger] occurs_at(raw, "{structure}"@, i),
        forall|i: int| !#[trigger] occurs_at(raw, "{vibe}"@, i),
    ensures
        substituted(raw, vars) == raw,
{
    lemma_replaced_absent(raw, "{name}"@, vars.name);
    lemma_replaced_absent(raw, "{room}"@, vars.room);
    lemma_replaced_absent(raw, "{structure}"@, vars.structure);
    lemma_replaced_absent(raw, "{vibe}"@, vars.vibe);
}

/// Every generic line addresses the character by name.
pub proof fn law_fallback_names_character(personality: Personality, name: Seq<char>)
    ensures
        exists|i: int| occurs_at(fallback_text(personality, name), name, i),
{
    let t = fallback_text(personality, name);
    let i: int = match personality {
        Personality::Wise => "Greetings, "@.len() as int,
        Personality::Playful => "Hey "@.len() as int,
        Personality::Grumpy => "Oh, it's you again, "@.len() as int,
        Personality::Curious => 0,
        Personality::Brave => "Stay sharp, "@.len() as int,
        Personality::Mysterious => "The winds carry your name, "@.len() as int,
    };
    assert(t.subrange(i, i + name.len()) =~= name);
    assert(occurs_at(t, name, i));
}

// ---------------------------------------------------------------------------
// Laws of generating lines
// ---------------------------------------------------------------------------

/// A known character speaks under its own name, from the first template that
/// fits or else its generic line; an unknown id is echoed back with "...".
pub proof fn law_generate_speaker(
    chars: Seq<Character>,
    templates: Seq<DialogueTemplate>,
    id: Seq<char>,
    ctx: DialogueContext,
)
    ensures
        match lookup(chars, id) {
            Some(c) => generated(chars, templates, id, ctx).speaker == c.name@,
            None => {
                let line = generated(chars, templates, id, ctx);
                &&& line.speaker == id
                &&& line.text == "..."@
                &&& line.emotion == Mood::Neutral
                &&& line.triggers.len() == 0
            },
        },
        generated(chars, templates, id, ctx).triggers.len() <= 1,
{
}

/// A character that was just added speaks under its own name.
pub proof fn law_added_character_speaks(
    chars: Seq<Character>,
    templates: Seq<DialogueTemplate>,
    c: Character,
    ctx: DialogueContext,
)
    ensures
        generated(with_character(chars, c), templates, c.id@, ctx).speaker == c.name@,
{
    law_lookup_after_add(chars, c);
}

// ---------------------------------------------------------------------------
// Laws of substitution
// ---------------------------------------------------------------------------

/// `s` holds no `{`, so no placeholder can start in it.
pub open spec fn no_open_brace(s: Seq<char>) -> bool {
    forall|i: int| 0 <= i < s.len() ==> #[trigger] s[i] != '{'
}

/// Replacing a pattern that starts with `{` copies a prefix without `{` unchanged.
proof fn lemma_replaced_prefix(p: Seq<char>, rest: Seq<char>, pat: Seq<char>, rep: Seq<char>)
    requires
        no_open_brace(p),
        pat.len() > 0,
        pat[0] == '{',
    ensures
        replaced(p + rest, pat, rep) == p + replaced(rest, pat, rep),
    decreases p.len(),
{
    if p.len() > 0 {
        let s = p + rest;
        assert(s[0] == p[0]);
        if pat.len() <= s.len() {
            assert(s.take(pat.len() as int)[0] == p[0]);
        }
        assert(s.skip(1) =~= p.skip(1) + rest);
        assert(no_open_brace(p.skip(1))) by {
            assert forall|i: int| 0 <= i < p.skip(1).len() implies #[trigger] p.skip(1)[i] != '{' by {
                assert(p.skip(1)[i] == p[i + 1]);
            }
        }
        lemma_replaced_prefix(p.skip(1), rest, pat, rep);
        assert(seq![p[0]] + (p.skip(1) + replaced(rest, pat, rep)) =~= p + replaced(rest, pat, rep));
    } else {
        assert(p + rest =~= rest);
        assert(p + replaced(rest, pat, rep) =~= replaced(rest, pat, rep));
    }
}

/// Replacing a pattern that starts with `{` leaves a text without `{` unchanged.
proof fn lemma_replaced_no_brace(s: Seq<char>, pat: Seq<char>, rep: Seq<char>)
    requires
        no_open_brace(s),
        pat.len() > 0,
        pat[0] == '{',
    ensures
        replaced(s, pat, rep) == s,
{
    lemma_replaced_prefix(s, Seq::empty(), pat, rep);
    assert(s + Seq::<char>::empty() =~= s);
    assert(s + replaced(Seq::<char>::empty(), pat, rep) =~= s);
}

/// A placeholder `t` followed by a text without `{` is left alone by
/// replacing another placeholder, one that differs from it in its second character.
proof fn lemma_replaced_other_placeholder(
    t: Seq<char>,
    q: Seq<char>,
    pat: Seq<char>,
    rep: Seq<char>,
)
    requires
        t.len() > 1,
        t[0] == '{',
        no_open_brace(t.skip(1)),
        no_open_brace(q),
        pat.len() > 1,
        pat[0] == '{',
        pat[1] != t[1],
    ensures
        replaced(t + q, pat, rep) == t + q,
{
    let s = t + q;
    assert(s[0] == '{');
    assert(s[1] == t[1]);
    if pat.len() <= s.len() {
        assert(s.take(pat.len() as int)[1] == t[1]);
    }
    let tail = t.skip(1) + q;
    assert(s.skip(1) =~= tail);
    assert(no_open_brace(tail)) by {
        assert forall|i: int| 0 <= i < tail.len() implies #[trigger] tail[i] != '{' by {
            if i < t.len() - 1 {
                assert(tail[i] == t.skip(1)[i]);
            } else {
                assert(tail[i] == q[i - (t.len() - 1)]);
            }
        }
    }
    lemma_replaced_no_brace(tail, pat, rep);
    assert(seq![s[0]] + tail =~= s);
}

/// One substitution step on `p + t + q`, `p` and `q` without `{` and `t` a
/// placeholder: replacing `t` itself gives `p + rep + q`; replacing another
/// placeholder changes nothing.
proof fn lemma_step(p: Seq<char>, t: Seq<char>, q: Seq<char>, pat: Seq<char>, rep: Seq<char>)
    requires
        no_open_brace(p),
        no_open_brace(q),
        t.len() > 1,
        t[0] == '{',
        no_open_brace(t.skip(1)),
        pat.len() > 1,
        pat[0] == '{',
        no_open_brace(pat.skip(1)),
        pat == t || pat[1] != t[1],
    ensures
        replaced(p + t + q, pat, rep) == if pat == t { p + rep + q } else { p + t + q },
{
    assert(p + t + q =~= p + (t + q));
    lemma_replaced_prefix(p, t + q, pat, rep);
    if pat == t {
        let s = t + q;
        assert(s.take(t.len() as int) =~= t);
        assert(s.skip(t.len() as int) =~= q);
        lemma_replaced_no_brace(q, t, rep);
        assert(p + (rep + q) =~= p + rep + q);
    } else {
        lemma_replaced_other_placeholder(t, q, pat, rep);
    }
}

proof fn lemma_concat_no_brace(a: Seq<char>, b: Seq<char>, c: Seq<char>)
    requires
        no_open_brace(a),
        no_open_brace(b),
        no_open_brace(c),
    ensures
        no_open_brace(a + b + c),
{
    let s = a + b + c;
    assert forall|i: int| 0 <= i < s.len() implies #[trigger] s[i] != '{' by {
        if i < a.len() {
            assert(s[i] == a[i]);
        } else if i < a.len() + b.len() {
            assert(s[i] == b[i - a.len()]);
        } else {
            assert(s[i] == c[i - a.len() - b.len()]);
        }
    }
}

proof fn lemma_placeholders_shape()
    ensures
        "{name}"@.len() > 1 && "{name}"@[0] == '{' && no_open_brace("{name}"@.skip(1)),
        "{room}"@.len() > 1 && "{room}"@[0] == '{' && no_open_brace("{room}"@.skip(1)),
        "{structure}"@.len() > 1 && "{structure}"@[0] == '{' && no_open_brace(
            "{structure}"@.skip(1),
        ),
        "{vibe}"@.len() > 1 && "{vibe}"@[0] == '{' && no_open_brace("{vibe}"@.skip(1)),
        "{name}"@[1] == 'n' && "{room}"@[1] == 'r' && "{structure}"@[1] == 's' && "{vibe}"@[1]
            == 'v',
{
    reveal_strlit("{name}");
    reveal_strlit("{room}");
    reveal_strlit("{structure}");
    reveal_strlit("{vibe}");
    assert forall|i: int| 0 <= i < "{name}"@.skip(1).len() implies #[trigger] "{name}"@.skip(1)[i] != '{' by {
        assert("{name}"@.skip(1)[i] == "{name}"@[i + 1]);
    }
    assert forall|i: int| 0 <= i < "{room}"@.skip(1).len() implies #[trigger] "{room}"@.skip(1)[i] != '{' by {
        assert("{room}"@.skip(1)[i] == "{room}"@[i + 1]);
    }
    assert forall|i: int|
        0 <= i < "{structure}"@.skip(1).len() implies #[trigger] "{structure}"@.skip(1)[i] != '{' by {
        assert("{structure}"@.skip(1)[i] == "{structure}"@[i + 1]);
    }
    assert forall|i: int| 0 <= i < "{vibe}"@.skip(1).len() implies #[trigger] "{vibe}"@.skip(1)[i] != '{' by {
        assert("{vibe}"@.skip(1)[i] == "{vibe}"@[i + 1]);
    }
}

/// Substitution on `p + t + q` for one placeholder `t`: it becomes exactly
/// the text of its variable, and the rest stays as it was.
proof fn lemma_substituted_one(p: Seq<char>, t: Seq<char>, q: Seq<char>, vars: TemplateVarsView, v: Seq<char>)
    requires
        no_open_brace(p),
        no_open_brace(q),
        no_open_brace(vars.name),
        no_open_brace(vars.room),
        no_open_brace(vars.structure),
        no_open_brace(vars.vibe),
        (t == "{name}"@ && v == vars.name) || (t == "{room}"@ && v == vars.room) || (t
            == "{structure}"@ && v == vars.structure) || (t == "{vibe}"@ && v == vars.vibe),
    ensures
        substituted(p + t + q, vars) == p + v + q,
{
    lemma_placeholders_shape();
    let raw = p + t + q;
    let a = replaced(raw, "{name}"@, vars.name);
    lemma_step(p, t, q, "{name}"@, vars.name);
    lemma_concat_no_brace(p, v, q);
    let b = replaced(a, "{room}"@, vars.room);
    if t == "{name}"@ {
        lemma_replaced_no_brace(a, "{room}"@, vars.room);
    } else {
        lemma_step(p, t, q, "{room}"@, vars.room);
    }
    let c = replaced(b, "{structure}"@, vars.structure);
    if t == "{name}"@ || t == "{room}"@ {
        lemma_replaced_no_brace(b, "{structure}"@, vars.structure);
    } else {
        lemma_step(p, t, q, "{structure}"@, vars.structure);
    }
    if t == "{vibe}"@ {
        lemma_step(p, t, q, "{vibe}"@, vars.vibe);
    } else {
        lemma_replaced_no_brace(c, "{vibe}"@, vars.vibe);
    }
}

/// Substitution replaces each placeholder by its variable whatever the
/// variable's text is, the empty text included: between texts without `{`,
/// and with variables without `{`, a placeholder becomes exactly its
/// variable's text.
pub proof fn law_placeholders_substituted(p: Seq<char>, q: Seq<char>, vars: TemplateVarsView)
    requires
        no_open_brace(p),
        no_open_brace(q),
        no_open_brace(vars.name),
        no_open_brace(vars.room),
        no_open_brace(vars.structure),
        no_open_brace(vars.vibe),
    ensures
        substituted(p + "{name}"@ + q, vars) == p + vars.name + q,
        substituted(p + "{room}"@ + q, vars) == p + vars.room + q,
        substituted(p + "{structure}"@ + q, vars) == p + vars.structure + q,
        substituted(p + "{vibe}"@ + q, vars) == p + vars.vibe + q,
{
    lemma_substituted_one(p, "{name}"@, q, vars, vars.name);
    lemma_substituted_one(p, "{room}"@, q, vars, vars.room);
    lemma_substituted_one(p, "{structure}"@, q, vars, vars.structure);
    lemma_substituted_one(p, "{vibe}"@, q, vars, vars.vibe);
}

/// Substitution replaces `{structure}` by the structure whatever the
/// structure is, the empty text included: between texts without `{`, a
/// `{structure}` placeholder becomes exactly the structure's text.
pub proof fn law_structure_substituted(p: Seq<char>, q: Seq<char>, vars: TemplateVarsView)
    requires
        no_open_brace(p),
        no_open_brace(q),
        no_open_brace(vars.structure),
    ensures
        substituted(p + "{structure}"@ + q, vars) == p + vars.structure + q,
{
    lemma_placeholders_shape();
    let t = "{structure}"@;
    lemma_step(p, t, q, "{name}"@, vars.name);
    lemma_step(p, t, q, "{room}"@, vars.room);
    lemma_step(p, t, q, t, vars.structure);
    lemma_concat_no_brace(p, vars.structure, q);
    lemma_replaced_no_brace(p + vars.structure + q, "{vibe}"@, vars.vibe);
}

// ---------------------------------------------------------------------------
// Laws of choosing a template
// ---------------------------------------------------------------------------

proof fn lemma_template_index_is(
    templates: Seq<DialogueTemplate>,
    ctx: DialogueContext,
    c: Character,
    k: int,
)
    requires
        first_fitting(templates, ctx, c, k),
    ensures
        template_index(templates, ctx, c) == Some(k),
{
    let m = choose|m: int| first_fitting(templates, ctx, c, m);
    if m < k {
        assert(!template_fits(templates[m], ctx, c));
    } else if k < m {
        assert(!template_fits(templates[k], ctx, c));
    }
}

proof fn lemma_lookup_is(chars: Seq<Character>, id: Seq<char>, c: Character)
    requires
        lookup(chars, id) == Some(c),
    ensures
        character_index(chars, id) matches Some(k) && chars[k] == c,
{
}

/// The template spoken is the first one that fits: when template `k` has the
/// character's personality and a trigger that fires, and no template before
/// it fits, the line carries its trigger and mood and is its variation number
/// `player_level` modulo the number of variations, with the context's
/// variables substituted.
pub proof fn law_first_fitting_template_spoken(
    chars: Seq<Character>,
    templates: Seq<DialogueTemplate>,
    id: Seq<char>,
    ctx: DialogueContext,
    c: Character,
    k: int,
)
    requires
        lookup(chars, id) == Some(c),
        0 <= k < templates.len(),
        template_fits(templates[k], ctx, c),
        forall|j: int| 0 <= j < k ==> !template_fits(#[trigger] templates[j], ctx, c),
        templates[k].templates@.len() > 0,
    ensures
        generated(chars, templates, id, ctx).speaker == c.name@,
        generated(chars, templates, id, ctx).triggers == seq![templates[k].trigger],
        generated(chars, templates, id, ctx).emotion == trigger_mood(templates[k].trigger),
        generated(chars, templates, id, ctx).text == substituted(
            templates[k].templates@[(ctx.player_level as int) % (
            templates[k].templates@.len() as int)]@,
            context_vars(c, ctx),
        ),
{
    lemma_lookup_is(chars, id, c);
    assert(first_fitting(templates, ctx, c, k));
    lemma_template_index_is(templates, ctx, c, k);
}

/// Whether a template fits does not depend on the player's level or on the vibe.
proof fn lemma_fits_ignores_level_and_vibe(
    templates: Seq<DialogueTemplate>,
    ctx1: DialogueContext,
    ctx2: DialogueContext,
    c: Character,
)
    requires
        ctx2 == (DialogueContext { player_level: ctx2.player_level, vibe: ctx2.vibe, ..ctx1 }),
    ensures
        template_index(templates, ctx1, c) == template_index(templates, ctx2, c),
{
    assert forall|t: DialogueTemplate| #[trigger] template_fits(t, ctx1, c) == template_fits(t, ctx2, c) by {
    }
    if let Some(k) = template_index(templates, ctx1, c) {
        assert(first_fitting(templates, ctx1, c, k));
        assert(first_fitting(templates, ctx2, c, k));
        lemma_template_index_is(templates, ctx2, c, k);
    } else if let Some(k) = template_index(templates, ctx2, c) {
        assert(first_fitting(templates, ctx2, c, k));
        assert(first_fitting(templates, ctx1, c, k));
    }
}

/// Variations cycle with the player's level: two contexts that differ only
/// in a level raised by the number of variations of the template spoken give
/// the same line.
pub proof fn law_level_cycles_variations(
    chars: Seq<Character>,
    templates: Seq<DialogueTemplate>,
    id: Seq<char>,
    ctx1: DialogueContext,
    ctx2: DialogueContext,
    c: Character,
    k: int,
)
    requires
        lookup(chars, id) == Some(c),
        0 <= k < templates.len(),
        template_fits(templates[k], ctx1, c),
        forall|j: int| 0 <= j < k ==> !template_fits(#[trigger] templates[j], ctx1, c),
        templates[k].templates@.len() > 0,
        ctx2 == (DialogueContext { player_level: ctx2.player_level, ..ctx1 }),
        ctx2.player_level == ctx1.player_level + templates[k].templates@.len(),
    ensures
        generated(chars, templates, id, ctx2) == generated(chars, templates, id, ctx1),
{
    let n = templates[k].templates@.len() as int;
    assert(template_fits(templates[k], ctx2, c));
    assert forall|j: int| 0 <= j < k implies !template_fits(#[trigger] templates[j], ctx2, c) by {
        assert(!template_fits(templates[j], ctx1, c));
    }
    law_first_fitting_template_spoken(chars, templates, id, ctx1, c, k);
    law_first_fitting_template_spoken(chars, templates, id, ctx2, c, k);
    vstd::arithmetic::div_mod::lemma_mod_add_multiples_vanish(ctx1.player_level as int, n);
    assert(context_vars(c, ctx2) == context_vars(c, ctx1));
    assert(generated(chars, templates, id, ctx2) =~= generated(chars, templates, id, ctx1));
}

/// The trigger a line carries fires in its context: a room trigger names the
/// room, a building trigger the recent action, a conservation trigger a
/// threshold that the conservation error reaches, a relationship trigger a
/// threshold that the speaker's relationship reaches, a time trigger the time
/// of day; a quest trigger is never carried.
pub proof fn law_carried_trigger_fires(
    chars: Seq<Character>,
    templates: Seq<DialogueTemplate>,
    id: Seq<char>,
    ctx: DialogueContext,
)
    ensures
        generated(chars, templates, id, ctx).triggers.len() > 0 ==> (lookup(chars, id) matches Some(
            c,
        ) && match generated(chars, templates, id, ctx).triggers[0] {
            DialogueTrigger::OnEnterRoom(room) => room@ == ctx.room@,
            DialogueTrigger::OnBuildStructure(s) => ctx.recent_action matches Some(a) && a@ == s@,
            DialogueTrigger::OnConservationError(x) => ctx.conservation_error >= x,
            DialogueTrigger::OnQuestComplete(_) => false,
            DialogueTrigger::OnRelationshipAbove(x) => c.relationship >= x,
            DialogueTrigger::OnTimeOfDay(tod) => tod@ == ctx.time_of_day@,
        }),
{
    if let Some(k) = character_index(chars, id) {
        let c = chars[k];
        if let Some(t) = template_index(templates, ctx, c) {
            assert(first_fitting(templates, ctx, c, t));
        }
    }
}

/// The vibe of a place colours a line's text but never chooses its
/// template: contexts that differ only in vibe give lines with the same
/// speaker, triggers and mood.
pub proof fn law_vibe_does_not_choose(
    chars: Seq<Character>,
    templates: Seq<DialogueTemplate>,
    id: Seq<char>,
    ctx1: DialogueContext,
    ctx2: DialogueContext,
)
    requires
        ctx2 == (DialogueContext { vibe: ctx2.vibe, ..ctx1 }),
    ensures
        generated(chars, templates, id, ctx2).speaker == generated(chars, templates, id, ctx1).speaker,
        generated(chars, templates, id, ctx2).triggers == generated(
            chars,
            templates,
            id,
            ctx1,
        ).triggers,
        generated(chars, templates, id, ctx2).emotion == generated(chars, templates, id, ctx1).emotion,
{
    if let Some(k) = character_index(chars, id) {
        lemma_fits_ignores_level_and_vibe(templates, ctx1, ctx2, chars[k]);
    }
}

/// The mood of a line: a known character speaking no template keeps its own
/// mood and says its generic line; a line from a template is neutral on
/// entering a room, excited on a building, worried on a conservation error,
/// happy on a quest or a relationship, and at a time of day happy in the
/// morning, thoughtful at night and neutral otherwise.
pub proof fn law_line_mood(
    chars: Seq<Character>,
    templates: Seq<DialogueTemplate>,
    id: Seq<char>,
    ctx: DialogueContext,
)
    ensures
        (lookup(chars, id) matches Some(c) && generated(chars, templates, id, ctx).triggers.len()
            == 0) ==> generated(chars, templates, id, ctx).emotion == lookup(chars, id)->0.mood
            && generated(chars, templates, id, ctx).text == fallback_text(
            lookup(chars, id)->0.personality,
            lookup(chars, id)->0.name@,
        ),
        generated(chars, templates, id, ctx).triggers.len() > 0 ==> generated(
            chars,
            templates,
            id,
            ctx,
        ).emotion == match generated(chars, templates, id, ctx).triggers[0] {
            DialogueTrigger::OnEnterRoom(_) => Mood::Neutral,
            DialogueTrigger::OnBuildStructure(_) => Mood::Excited,
            DialogueTrigger::OnConservationError(_) => Mood::Worried,
            DialogueTrigger::OnQuestComplete(_) => Mood::Happy,
            DialogueTrigger::OnRelationshipAbove(_) => Mood::Happy,
            DialogueTrigger::OnTimeOfDay(tod) => if tod@ == "morning"@ {
                Mood::Happy
            } else if tod@ == "night"@ {
                Mood::Thoughtful
            } else {
                Mood::Neutral
            },
        },
{
}

/// A line either comes from the first template that fits the speaker, of its
/// personality, at the variation its level picks; or, when no template fits,
/// carries no trigger.
pub proof fn law_line_source(
    chars: Seq<Character>,
    templates: Seq<DialogueTemplate>,
    id: Seq<char>,
    ctx: DialogueContext,
)
    ensures
        generated(chars, templates, id, ctx).triggers.len() > 0 ==> (lookup(chars, id) matches Some(
            c,
        ) && exists|k: int|
            0 <= k < templates.len() && templates[k].personality == c.personality && template_fits(
                templates[k],
                ctx,
                c,
            ) && (forall|j: int| 0 <= j < k ==> !template_fits(#[trigger] templates[j], ctx, c))
                && generated(chars, templates, id, ctx).triggers == seq![templates[k].trigger]
                && generated(chars, templates, id, ctx).text == substituted(
                templates[k].templates@[(ctx.player_level as int) % (
                templates[k].templates@.len() as int)]@,
                context_vars(c, ctx),
            )),
        (lookup(chars, id) matches Some(c) && generated(chars, templates, id, ctx).triggers.len()
            == 0) ==> forall|j: int|
            0 <= j < templates.len() ==> !template_fits(
                #[trigger] templates[j],
                ctx,
                lookup(chars, id)->0,
            ),
{
    if let Some(ci) = character_index(chars, id) {
        let c = chars[ci];
        if let Some(k) = template_index(templates, ctx, c) {
            assert(first_fitting(templates, ctx, c, k));
        } else {
            assert forall|j: int| 0 <= j < templates.len() implies !template_fits(
                #[trigger] templates[j],
                ctx,
                c,
            ) by {
                if template_fits(templates[j], ctx, c) {
                    assert(exists|m: int| first_fitting(templates, ctx, c, m)) by {
                        lemma_has_first_fitting(templates, ctx, c, j);
                    }
                }
            }
        }
    }
}

proof fn lemma_has_first_fitting(
    templates: Seq<DialogueTemplate>,
    ctx: DialogueContext,
    c: Character,
    j: int,
)
    requires
        0 <= j < templates.len(),
        template_fits(templates[j], ctx, c),
    ensures
        exists|k: int| first_fitting(templates, ctx, c, k),
    decreases j,
{
    if exists|i: int| 0 <= i < j && template_fits(templates[i], ctx, c) {
        let i = choose|i: int| 0 <= i < j && template_fits(templates[i], ctx, c);
        lemma_has_first_fitting(templates, ctx, c, i);
    } else {
        assert(first_fitting(templates, ctx, c, j));
    }
}

proof fn lemma_decimal_no_brace(n: nat)
    ensures
        no_open_brace(decimal(n)),
    decreases n,
{
    if n < 10 {
        assert(decimal(n) == seq![digit_char(n)]);
        assert(decimal(n)[0] == digit_char(n));
    } else {
        lemma_decimal_no_brace(n / 10);
        let s = decimal(n);
        assert(s == decimal(n / 10) + seq![digit_char(n % 10)]);
        assert forall|i: int| 0 <= i < s.len() implies #[trigger] s[i] != '{' by {
            if i < decimal(n / 10).len() {
                assert(s[i] == decimal(n / 10)[i]);
            } else {
                assert(s[i] == digit_char(n % 10));
            }
        }
    }
}

proof fn lemma_percent_no_brace(v: int)
    ensures
        no_open_brace(percent_text(v)),
{
    reveal_strlit("-");
    reveal_strlit("%");
    let magnitude: nat = if v < 0 { (-v) as nat } else { v as nat };
    let d = decimal(crate::text::round_half_even(magnitude, 10000));
    lemma_decimal_no_brace(crate::text::round_half_even(magnitude, 10000));
    let sign = if v < 0 { "-"@ } else { Seq::<char>::empty() };
    assert(no_open_brace(sign));
    assert(no_open_brace("%"@));
    lemma_concat_no_brace(sign, d, "%"@);
}

/// The placeholders of the template spoken are filled from the speaker and
/// the context: `{name}` with the speaker's name, `{room}` with the room,
/// `{structure}` with the recent action (nothing when there is none) and
/// `{vibe}` with the vibe as a percentage, whatever those texts are, as long
/// as they and the rest of the variation hold no `{`.
pub proof fn law_line_fills_placeholders(
    chars: Seq<Character>,
    templates: Seq<DialogueTemplate>,
    id: Seq<char>,
    ctx: DialogueContext,
    c: Character,
    k: int,
    p: Seq<char>,
    q: Seq<char>,
)
    requires
        lookup(chars, id) == Some(c),
        0 <= k < templates.len(),
        template_fits(templates[k], ctx, c),
        forall|j: int| 0 <= j < k ==> !template_fits(#[trigger] templates[j], ctx, c),
        templates[k].templates@.len() > 0,
        no_open_brace(p),
        no_open_brace(q),
        no_open_brace(c.name@),
        no_open_brace(ctx.room@),
        ctx.recent_action matches Some(a) ==> no_open_brace(a@),
    ensures
        ({
            let n = templates[k].templates@.len() as int;
            let raw = templates[k].templates@[(ctx.player_level as int) % n]@;
            let text = generated(chars, templates, id, ctx).text;
            &&& raw == p + "{name}"@ + q ==> text == p + c.name@ + q
            &&& raw == p + "{room}"@ + q ==> text == p + ctx.room@ + q
            &&& raw == p + "{structure}"@ + q ==> text == p + (match ctx.recent_action {
                Some(a) => a@,
                None => Seq::empty(),
            }) + q
            &&& raw == p + "{vibe}"@ + q ==> text == p + percent_text(ctx.vibe as int) + q
        }),
{
    law_first_fitting_template_spoken(chars, templates, id, ctx, c, k);
    lemma_percent_no_brace(ctx.vibe as int);
    let vars = context_vars(c, ctx);
    assert(no_open_brace(vars.structure));
    law_placeholders_substituted(p, q, vars);
}

} // verus!
