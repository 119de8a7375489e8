//! The built-in template library, kept as JSON text and read with serde_json.
use vstd::prelude::*;

use crate::engine::DialogueEngine;
use crate::model::{templates_view, DialogueTemplate, DialogueTrigger, Personality};
use crate::score::{score_from_text, score_of_text};
use crate::text::same_text;

verus! {

/// A JSON value as plain data. A number keeps the decimal text it is written as.
#[derive(Debug)]
pub enum JsonValue {
    Null,
    Bool(bool),
    Number(String),
    Text(String),
    Array(Vec<JsonValue>),
    /// The members of an object, in order.
    Object(Vec<(String, JsonValue)>),
}

/// One level of a JSON document: a scalar, or the JSON texts of the elements
/// of an array or of the members of an object.
pub enum JsonShape {
    Null,
    Bool(bool),
    Number(String),
    Text(String),
    Array(Vec<String>),
    Object(Vec<(String, String)>),
}

/// One level of a JSON document, as character sequences.
pub enum JsonShapeView {
    Null,
    Bool(bool),
    Number(Seq<char>),
    Text(Seq<char>),
    Array(Seq<Seq<char>>),
    /// The member names, and the JSON texts of their values.
    Object(Seq<Seq<char>>, Seq<Seq<char>>),
}

impl View for JsonShape {
    type V = JsonShapeView;

    open spec fn view(&self) -> JsonShapeView {
        match self {
            JsonShape::Null => JsonShapeView::Null,
            JsonShape::Bool(b) => JsonShapeView::Bool(*b),
            JsonShape::Number(n) => JsonShapeView::Number(n@),
            JsonShape::Text(t) => JsonShapeView::Text(t@),
            JsonShape::Array(items) => JsonShapeView::Array(items@.map_values(|s: String| s@)),
            JsonShape::Object(members) => JsonShapeView::Object(
                members@.map_values(|m: (String, String)| m.0@),
                members@.map_values(|m: (String, String)| m.1@),
            ),
        }
    }
}

/// The outer level of the JSON document `text` as serde_json reads it, or
/// `None` when serde_json refuses the text.
pub uninterp spec fn json_shape(text: Seq<char>) -> Option<JsonShapeView>;

/// Parses `text` with `serde_json::from_str` into a `serde_json::Value` and
/// takes its outer level apart: a number becomes the text that
/// `serde_json::Number`'s `Display` writes, each element or member value the
/// JSON text that `serde_json::Value`'s `Display` writes. Claimed: the result
/// is `json_shape` of the text, a function of the text alone.
#[verifier::external_body]
fn parse_json_shape(text: &str) -> (r: Option<JsonShape>)
    ensures
        match r {
            Some(s) => json_shape(text@) == Some(s@),
            None => json_shape(text@) is None,
        },
{
    let value: serde_json::Value = serde_json::from_str(text).ok()?;
    Some(match value {
        serde_json::Value::Null => JsonShape::Null,
        serde_json::Value::Bool(b) => JsonShape::Bool(b),
        serde_json::Value::Number(n) => JsonShape::Number(n.to_string()),
        serde_json::Value::String(s) => JsonShape::Text(s),
        serde_json::Value::Array(a) => JsonShape::Array(a.iter().map(|v| v.to_string()).collect()),
        serde_json::Value::Object(m) => JsonShape::Object(m.into_iter().map(|(k, v)| (k, v.to_string())).collect()),
    })
}

/// serde_json refuses documents nested deeper than this many levels.
pub const JSON_DEPTH_LIMIT: usize = 128;

/// The JSON document `text` has a plain form at most `depth` levels deep.
pub open spec fn tree_exists(text: Seq<char>, depth: nat) -> bool
    decreases depth,
{
    if depth == 0 {
        false
    } else {
        match json_shape(text) {
            Some(JsonShapeView::Array(items)) => forall|i: int|
                0 <= i < items.len() ==> tree_exists(#[trigger] items[i], (depth - 1) as nat),
            Some(JsonShapeView::Object(_, values)) => forall|i: int|
                0 <= i < values.len() ==> tree_exists(#[trigger] values[i], (depth - 1) as nat),
            Some(_) => true,
            None => false,
        }
    }
}

proof fn lemma_tree_exists_array(text: Seq<char>, d: nat, items: Seq<Seq<char>>)
    requires
        d > 0,
        json_shape(text) == Some(JsonShapeView::Array(items)),
    ensures
        tree_exists(text, d) == (forall|k: int|
            0 <= k < items.len() ==> tree_exists(#[trigger] items[k], (d - 1) as nat)),
{
    let t = tree_exists(text, d);
}

proof fn lemma_tree_exists_object(
    text: Seq<char>,
    d: nat,
    keys: Seq<Seq<char>>,
    values: Seq<Seq<char>>,
)
    requires
        d > 0,
        json_shape(text) == Some(JsonShapeView::Object(keys, values)),
    ensures
        tree_exists(text, d) == (forall|k: int|
            0 <= k < values.len() ==> tree_exists(#[trigger] values[k], (d - 1) as nat)),
{
    let t = tree_exists(text, d);
}

/// `j` is the plain form of the JSON document `text`, at most `depth` levels deep.
pub open spec fn tree_of(j: JsonValue, text: Seq<char>, depth: nat) -> bool
    decreases depth,
{
    if depth == 0 {
        false
    } else {
        match json_shape(text) {
            Some(JsonShapeView::Null) => j is Null,
            Some(JsonShapeView::Bool(b)) => j == JsonValue::Bool(b),
            Some(JsonShapeView::Number(n)) => j matches JsonValue::Number(s) && s@ == n,
            Some(JsonShapeView::Text(t)) => j matches JsonValue::Text(s) && s@ == t,
            Some(JsonShapeView::Array(items)) => j matches JsonValue::Array(v) && v@.len()
                == items.len() && forall|i: int|
                0 <= i < items.len() ==> tree_of(#[trigger] v@[i], items[i], (depth - 1) as nat),
            Some(JsonShapeView::Object(keys, values)) => j matches JsonValue::Object(v) && v@.len()
                == keys.len() && keys.len() == values.len() && forall|i: int|
                0 <= i < keys.len() ==> (#[trigger] v@[i]).0@ == keys[i] && tree_of(
                    v@[i].1,
                    values[i],
                    (depth - 1) as nat,
                ),
            None => false,
        }
    }
}

/// The plain form of the JSON document `text`, read level by level with
/// serde_json, or `None` when serde_json refuses a level or the document is
/// nested deeper than `depth`.
fn json_from_serde(text: &str, depth: usize) -> (r: Option<JsonValue>)
    ensures
        r is Some <==> tree_exists(text@, depth as nat),
        r matches Some(j) ==> tree_of(j, text@, depth as nat),
    decreases depth,
{
    if depth == 0 {
        return None;
    }
    let shape = parse_json_shape(text);
    match shape {
        None => None,
        Some(JsonShape::Null) => Some(JsonValue::Null),
        Some(JsonShape::Bool(b)) => Some(JsonValue::Bool(b)),
        Some(JsonShape::Number(n)) => Some(JsonValue::Number(n)),
        Some(JsonShape::Text(s)) => Some(JsonValue::Text(s)),
        Some(JsonShape::Array(items)) => {
            let ghost iv = items@.map_values(|s: String| s@);
            let n = items.len();
            let mut out: Vec<JsonValue> = Vec::new();
            let mut i: usize = 0;
            while i < n
                invariant
                    depth > 0,
                    n == items@.len(),
                    iv == items@.map_values(|s: String| s@),
                    json_shape(text@) == Some(JsonShapeView::Array(iv)),
                    i <= n,
                    out@.len() == i,
                    forall|k: int| 0 <= k < i ==> tree_exists(#[trigger] iv[k], (depth - 1) as nat),
                    forall|k: int|
                        0 <= k < i ==> tree_of(#[trigger] out@[k], iv[k], (depth - 1) as nat),
                decreases n - i,
            {
                match json_from_serde(items[i].as_str(), depth - 1) {
                    Some(j) => out.push(j),
                    None => {
                        proof {
                            lemma_tree_exists_array(text@, depth as nat, iv);
                        }
                        assert(!tree_exists(iv[i as int], (depth - 1) as nat));
                        return None;
                    },
                }
                i = i + 1;
            }
            let r = JsonValue::Array(out);
            assert(tree_of(r, text@, depth as nat));
            Some(r)
        },
        Some(JsonShape::Object(members)) => {
            let ghost keys = members@.map_values(|m: (String, String)| m.0@);
            let ghost values = members@.map_values(|m: (String, String)| m.1@);
            let n = members.len();
            let mut out: Vec<(String, JsonValue)> = Vec::new();
            let mut i: usize = 0;
            while i < n
                invariant
                    depth > 0,
                    n == members@.len(),
                    keys == members@.map_values(|m: (String, String)| m.0@),
                    values == members@.map_values(|m: (String, String)| m.1@),
                    json_shape(text@) == Some(JsonShapeView::Object(keys, values)),
                    i <= n,
                    out@.len() == i,
                    forall|k: int| 0 <= k < i ==> tree_exists(#[trigger] values[k], (depth - 1) as nat),
                    forall|k: int|
                        0 <= k < i ==> (#[trigger] out@[k]).0@ == keys[k] && tree_of(
                            out@[k].1,
                            values[k],
                            (depth - 1) as nat,
                        ),
                decreases n - i,
            {
                let key = members[i].0.clone();
                match json_from_serde(members[i].1.as_str(), depth - 1) {
                    Some(j) => out.push((key, j)),
                    None => {
                        proof {
                            lemma_tree_exists_object(text@, depth as nat, keys, values);
                        }
                        assert(!tree_exists(values[i as int], (depth - 1) as nat));
                        return None;
                    },
                }
                i = i + 1;
            }
            let r = JsonValue::Object(out);
            assert(tree_of(r, text@, depth as nat));
            Some(r)
        },
    }
}

// ---------------------------------------------------------------------------
// The shape of the template library in JSON
// ---------------------------------------------------------------------------

/// `j` is a JSON string with text `s`.
pub open spec fn is_text(j: JsonValue, s: Seq<char>) -> bool {
    match j {
        JsonValue::Text(t) => t@ == s,
        _ => false,
    }
}

/// `j` is a JSON number whose score is `x`.
pub open spec fn is_score(j: JsonValue, x: int) -> bool {
    match j {
        JsonValue::Number(n) => score_of_text(n@) == Some(x),
        _ => false,
    }
}

/// The personality that `name` names.
pub open spec fn personality_named(name: Seq<char>) -> Option<Personality> {
    if name == "Wise"@ {
        Some(Personality::Wise)
    } else if name == "Playful"@ {
        Some(Personality::Playful)
    } else if name == "Grumpy"@ {
        Some(Personality::Grumpy)
    } else if name == "Curious"@ {
        Some(Personality::Curious)
    } else if name == "Brave"@ {
        Some(Personality::Brave)
    } else if name == "Mysterious"@ {
        Some(Personality::Mysterious)
    } else {
        None
    }
}

/// The name a personality is written under.
pub open spec fn personality_name(p: Personality) -> Seq<char> {
    match p {
        Personality::Wise => "Wise"@,
        Personality::Playful => "Playful"@,
        Personality::Grumpy => "Grumpy"@,
        Personality::Curious => "Curious"@,
        Personality::Brave => "Brave"@,
        Personality::Mysterious => "Mysterious"@,
    }
}

/// Each personality's written name reads back as that personality, in a
/// template's JSON as anywhere else.
pub proof fn law_personality_names_read_back(p: Personality, j: JsonValue)
    requires
        is_text(j, personality_name(p)),
    ensures
        personality_named(personality_name(p)) == Some(p),
        personality_of_json(j) == Some(p),
{
    reveal_strlit("Wise");
    reveal_strlit("Playful");
    reveal_strlit("Grumpy");
    reveal_strlit("Curious");
    reveal_strlit("Brave");
    reveal_strlit("Mysterious");
    assert("Playful"@[0] != "Curious"@[0]);
    assert("Wise"@.len() != "Playful"@.len());
    assert("Wise"@.len() != "Grumpy"@.len());
    assert("Wise"@.len() != "Curious"@.len());
    assert("Wise"@.len() != "Brave"@.len());
    assert("Wise"@.len() != "Mysterious"@.len());
    assert("Playful"@.len() != "Grumpy"@.len());
    assert("Playful"@.len() != "Brave"@.len());
    assert("Playful"@.len() != "Mysterious"@.len());
    assert("Grumpy"@.len() != "Curious"@.len());
    assert("Grumpy"@.len() != "Brave"@.len());
    assert("Grumpy"@.len() != "Mysterious"@.len());
    assert("Curious"@.len() != "Brave"@.len());
    assert("Curious"@.len() != "Mysterious"@.len());
    assert("Brave"@.len() != "Mysterious"@.len());
}

/// The personality that the JSON value `j` names.
pub open spec fn personality_of_json(j: JsonValue) -> Option<Personality> {
    match j {
        JsonValue::Text(t) => personality_named(t@),
        _ => None,
    }
}

/// `k` is the position of the first member of `members` named `key`.
pub open spec fn first_member(members: Seq<(String, JsonValue)>, key: Seq<char>, k: int) -> bool {
    &&& 0 <= k < members.len()
    &&& members[k].0@ == key
    &&& forall|i: int| 0 <= i < k ==> members[i].0@ != key
}

/// The value of the first member named `key`, if there is one.
pub open spec fn member(members: Seq<(String, JsonValue)>, key: Seq<char>) -> Option<JsonValue> {
    if exists|k: int| first_member(members, key, k) {
        Some(members[choose|k: int| first_member(members, key, k)].1)
    } else {
        None
    }
}

/// The trigger variant `name` carrying `v` is `t`.
pub open spec fn variant_is(name: Seq<char>, v: JsonValue, t: DialogueTrigger) -> bool {
    match t {
        DialogueTrigger::OnEnterRoom(s) => name == "OnEnterRoom"@ && is_text(v, s@),
        DialogueTrigger::OnBuildStructure(s) => name == "OnBuildStructure"@ && is_text(v, s@),
        DialogueTrigger::OnConservationError(x) => name == "OnConservationError"@ && is_score(
            v,
            x as int,
        ),
        DialogueTrigger::OnQuestComplete(s) => name == "OnQuestComplete"@ && is_text(v, s@),
        DialogueTrigger::OnRelationshipAbove(x) => name == "OnRelationshipAbove"@ && is_score(
            v,
            x as int,
        ),
        DialogueTrigger::OnTimeOfDay(s) => name == "OnTimeOfDay"@ && is_text(v, s@),
    }
}

/// Some trigger variant is named `name` and carries `v`.
pub open spec fn variant_readable(name: Seq<char>, v: JsonValue) -> bool {
    let text_variant = name == "OnEnterRoom"@ || name == "OnBuildStructure"@ || name
        == "OnQuestComplete"@ || name == "OnTimeOfDay"@;
    let score_variant = name == "OnConservationError"@ || name == "OnRelationshipAbove"@;
    ||| text_variant && v is Text
    ||| score_variant && (match v {
        JsonValue::Number(n) => score_of_text(n@) is Some,
        _ => false,
    })
}

/// `j` is an object of exactly one member, the trigger variant's name and its payload.
pub open spec fn trigger_readable(j: JsonValue) -> bool {
    match j {
        JsonValue::Object(members) => members@.len() == 1 && variant_readable(
            members@[0].0@,
            members@[0].1,
        ),
        _ => false,
    }
}

/// `j` writes the trigger `t`.
pub open spec fn trigger_is(j: JsonValue, t: DialogueTrigger) -> bool {
    match j {
        JsonValue::Object(members) => members@.len() == 1 && variant_is(
            members@[0].0@,
            members@[0].1,
            t,
        ),
        _ => false,
    }
}

/// `j` is an array of strings.
pub open spec fn texts_readable(j: JsonValue) -> bool {
    match j {
        JsonValue::Array(items) => forall|i: int| 0 <= i < items@.len() ==> #[trigger] items@[i] is Text,
        _ => false,
    }
}

/// `j` is an array of strings with the texts of `ts`.
pub open spec fn texts_are(j: JsonValue, ts: Seq<String>) -> bool {
    match j {
        JsonValue::Array(items) => items@.len() == ts.len() && forall|i: int|
            0 <= i < ts.len() ==> is_text(#[trigger] items@[i], ts[i]@),
        _ => false,
    }
}

/// `j` is an object with members `trigger`, `personality` and `templates`
/// (the first of each name counts; other members are ignored) that can be read.
pub open spec fn template_readable(j: JsonValue) -> bool {
    match j {
        JsonValue::Object(members) => {
            let m = members@;
            &&& member(m, "trigger"@) matches Some(t) && trigger_readable(t)
            &&& member(m, "personality"@) matches Some(p) && personality_of_json(p) is Some
            &&& member(m, "templates"@) matches Some(ts) && texts_readable(ts)
        },
        _ => false,
    }
}

/// `j` writes the template `t`.
pub open spec fn template_is(j: JsonValue, t: DialogueTemplate) -> bool {
    match j {
        JsonValue::Object(members) => {
            let m = members@;
            &&& member(m, "trigger"@) matches Some(tj) && trigger_is(tj, t.trigger)
            &&& member(m, "personality"@) matches Some(p) && personality_of_json(p) == Some(
                t.personality,
            )
            &&& member(m, "templates"@) matches Some(ts) && texts_are(ts, t.templates@)
        },
        _ => false,
    }
}

/// `j` is an array of templates that can all be read.
pub open spec fn library_readable(j: JsonValue) -> bool {
    match j {
        JsonValue::Array(items) => forall|i: int|
            0 <= i < items@.len() ==> template_readable(#[trigger] items@[i]),
        _ => false,
    }
}

/// `j` writes the templates `ts`, in order.
pub open spec fn library_is(j: JsonValue, ts: Seq<DialogueTemplate>) -> bool {
    match j {
        JsonValue::Array(items) => items@.len() == ts.len() && forall|i: int|
            0 <= i < ts.len() ==> template_is(#[trigger] items@[i], ts[i]),
        _ => false,
    }
}


// ---------------------------------------------------------------------------
// One reading per text
// ---------------------------------------------------------------------------

/// `a` and `b` hold the same JSON, down to `d` levels: the same variants,
/// texts with the same characters, elements and members alike in order.
pub open spec fn json_equiv(a: JsonValue, b: JsonValue, d: nat) -> bool
    decreases d,
{
    if d == 0 {
        true
    } else {
        match (a, b) {
            (JsonValue::Null, JsonValue::Null) => true,
            (JsonValue::Bool(x), JsonValue::Bool(y)) => x == y,
            (JsonValue::Number(x), JsonValue::Number(y)) => x@ == y@,
            (JsonValue::Text(x), JsonValue::Text(y)) => x@ == y@,
            (JsonValue::Array(x), JsonValue::Array(y)) => x@.len() == y@.len() && forall|i: int|
                0 <= i < x@.len() ==> json_equiv(#[trigger] x@[i], y@[i], (d - 1) as nat),
            (JsonValue::Object(x), JsonValue::Object(y)) => x@.len() == y@.len() && forall|i: int|
                0 <= i < x@.len() ==> (#[trigger] x@[i]).0@ == y@[i].0@ && json_equiv(
                    x@[i].1,
                    y@[i].1,
                    (d - 1) as nat,
                ),
            _ => false,
        }
    }
}

/// Two plain forms of one text are alike.
proof fn lemma_tree_unique(a: JsonValue, b: JsonValue, text: Seq<char>, d: nat)
    requires
        tree_of(a, text, d),
        tree_of(b, text, d),
    ensures
        json_equiv(a, b, d),
    decreases d,
{
    let ta = tree_of(a, text, d);
    let tb = tree_of(b, text, d);
    match json_shape(text) {
        Some(JsonShapeView::Array(items)) => {
            let x = a->Array_0;
            let y = b->Array_0;
            assert(ta == (x@.len() == items.len() && forall|i: int|
                0 <= i < items.len() ==> tree_of(#[trigger] x@[i], items[i], (d - 1) as nat)));
            assert(tb == (y@.len() == items.len() && forall|i: int|
                0 <= i < items.len() ==> tree_of(#[trigger] y@[i], items[i], (d - 1) as nat)));
            assert forall|i: int| 0 <= i < x@.len() implies json_equiv(
                #[trigger] x@[i],
                y@[i],
                (d - 1) as nat,
            ) by {
                lemma_tree_unique(x@[i], y@[i], items[i], (d - 1) as nat);
            }
            let e = json_equiv(a, b, d);
        },
        Some(JsonShapeView::Object(keys, values)) => {
            let x = a->Object_0;
            let y = b->Object_0;
            assert(ta == (x@.len() == keys.len() && keys.len() == values.len() && forall|i: int|
                0 <= i < keys.len() ==> (#[trigger] x@[i]).0@ == keys[i] && tree_of(
                    x@[i].1,
                    values[i],
                    (d - 1) as nat,
                )));
            assert(tb == (y@.len() == keys.len() && keys.len() == values.len() && forall|i: int|
                0 <= i < keys.len() ==> (#[trigger] y@[i]).0@ == keys[i] && tree_of(
                    y@[i].1,
                    values[i],
                    (d - 1) as nat,
                )));
            assert forall|i: int| 0 <= i < x@.len() implies (#[trigger] x@[i]).0@ == y@[i].0@
                && json_equiv(x@[i].1, y@[i].1, (d - 1) as nat) by {
                assert(y@[i].0@ == keys[i]);
                lemma_tree_unique(x@[i].1, y@[i].1, values[i], (d - 1) as nat);
            }
            let e = json_equiv(a, b, d);
        },
        _ => {},
    }
}

proof fn lemma_equiv_leaf(a: JsonValue, b: JsonValue, d: nat)
    requires
        d >= 1,
        json_equiv(a, b, d),
    ensures
        (a is Text) == (b is Text),
        forall|s: Seq<char>| #[trigger] is_text(a, s) == is_text(b, s),
        forall|x: int| #[trigger] is_score(a, x) == is_score(b, x),
        personality_of_json(a) == personality_of_json(b),
        (match a {
            JsonValue::Number(n) => score_of_text(n@) is Some,
            _ => false,
        }) == (match b {
            JsonValue::Number(n) => score_of_text(n@) is Some,
            _ => false,
        }),
{
    let e = json_equiv(a, b, d);
}

/// The members of two alike objects, down to `d` levels below them.
pub open spec fn members_equiv(x: Seq<(String, JsonValue)>, y: Seq<(String, JsonValue)>, d: nat) -> bool {
    x.len() == y.len() && forall|i: int|
        0 <= i < x.len() ==> (#[trigger] x[i]).0@ == y[i].0@ && json_equiv(x[i].1, y[i].1, d)
}

proof fn lemma_equiv_members(a: JsonValue, b: JsonValue, d: nat)
    requires
        d >= 1,
        json_equiv(a, b, d),
        a is Object,
    ensures
        b is Object,
        members_equiv(a->Object_0@, b->Object_0@, (d - 1) as nat),
{
    let e = json_equiv(a, b, d);
}

proof fn lemma_equiv_items(a: JsonValue, b: JsonValue, d: nat)
    requires
        d >= 1,
        json_equiv(a, b, d),
        a is Array,
    ensures
        b is Array,
        a->Array_0@.len() == b->Array_0@.len(),
        forall|i: int|
            0 <= i < a->Array_0@.len() ==> json_equiv(
                #[trigger] a->Array_0@[i],
                b->Array_0@[i],
                (d - 1) as nat,
            ),
{
    let e = json_equiv(a, b, d);
}

proof fn lemma_member_equiv(
    x: Seq<(String, JsonValue)>,
    y: Seq<(String, JsonValue)>,
    key: Seq<char>,
    d: nat,
)
    requires
        members_equiv(x, y, d),
    ensures
        (member(x, key) is Some) == (member(y, key) is Some),
        member(x, key) is Some ==> json_equiv(member(x, key)->0, member(y, key)->0, d),
{
    assert forall|k: int| #[trigger] first_member(x, key, k) == first_member(y, key, k) by {
        if 0 <= k < x.len() {
            assert(x[k].0@ == y[k].0@);
            assert forall|i: int| 0 <= i < k implies (x[i].0@ != key) == (y[i].0@ != key) by {
                assert(x[i].0@ == y[i].0@);
            }
        }
    }
    if exists|k: int| first_member(x, key, k) {
        let kx = choose|k: int| first_member(x, key, k);
        assert(first_member(y, key, kx));
        let ky = choose|k: int| first_member(y, key, k);
        if kx < ky {
            assert(y[kx].0@ != key);
        } else if ky < kx {
            assert(x[ky].0@ != key);
        }
        assert(x[kx].0@ == y[kx].0@);
    } else if exists|k: int| first_member(y, key, k) {
        let ky = choose|k: int| first_member(y, key, k);
        assert(first_member(x, key, ky));
    }
}

proof fn lemma_trigger_equiv(a: JsonValue, b: JsonValue, d: nat)
    requires
        d >= 2,
        json_equiv(a, b, d),
    ensures
        trigger_readable(a) == trigger_readable(b),
        forall|t: DialogueTrigger| #[trigger] trigger_is(a, t) == trigger_is(b, t),
{
    let e = json_equiv(a, b, d);
    if a is Object {
        lemma_equiv_members(a, b, d);
        let x = a->Object_0@;
        let y = b->Object_0@;
        if x.len() == 1 {
            assert(x[0].0@ == y[0].0@);
            lemma_equiv_leaf(x[0].1, y[0].1, (d - 1) as nat);
        }
    }
}

proof fn lemma_texts_equiv(a: JsonValue, b: JsonValue, d: nat)
    requires
        d >= 2,
        json_equiv(a, b, d),
    ensures
        texts_readable(a) == texts_readable(b),
        forall|ts: Seq<String>| #[trigger] texts_are(a, ts) == texts_are(b, ts),
{
    let e = json_equiv(a, b, d);
    if a is Array {
        lemma_equiv_items(a, b, d);
        let x = a->Array_0@;
        let y = b->Array_0@;
        assert forall|i: int| 0 <= i < x.len() implies (#[trigger] x[i] is Text) == (y[i] is Text)
            && (forall|s: Seq<char>| is_text(x[i], s) == is_text(y[i], s)) by {
            lemma_equiv_leaf(x[i], y[i], (d - 1) as nat);
        }
        assert forall|ts: Seq<String>| #[trigger] texts_are(a, ts) == texts_are(b, ts) by {
            if texts_are(a, ts) {
                assert forall|i: int| 0 <= i < ts.len() implies is_text(#[trigger] y[i], ts[i]@) by {
                    assert(is_text(x[i], ts[i]@));
                    lemma_equiv_leaf(x[i], y[i], (d - 1) as nat);
                }
            }
            if texts_are(b, ts) {
                assert forall|i: int| 0 <= i < ts.len() implies is_text(#[trigger] x[i], ts[i]@) by {
                    assert(is_text(y[i], ts[i]@));
                    lemma_equiv_leaf(x[i], y[i], (d - 1) as nat);
                }
            }
        }
        if texts_readable(b) {
            assert forall|i: int| 0 <= i < x.len() implies #[trigger] x[i] is Text by {
                assert(y[i] is Text);
                lemma_equiv_leaf(x[i], y[i], (d - 1) as nat);
            }
        }
        if texts_readable(a) {
            assert forall|i: int| 0 <= i < y.len() implies #[trigger] y[i] is Text by {
                assert(x[i] is Text);
                lemma_equiv_leaf(x[i], y[i], (d - 1) as nat);
            }
        }
    }
}

proof fn lemma_template_equiv(a: JsonValue, b: JsonValue, d: nat)
    requires
        d >= 3,
        json_equiv(a, b, d),
    ensures
        template_readable(a) == template_readable(b),
        forall|t: DialogueTemplate| #[trigger] template_is(a, t) == template_is(b, t),
{
    let e = json_equiv(a, b, d);
    if a is Object {
        lemma_equiv_members(a, b, d);
        let x = a->Object_0@;
        let y = b->Object_0@;
        let d1 = (d - 1) as nat;
        lemma_member_equiv(x, y, "trigger"@, d1);
        lemma_member_equiv(x, y, "personality"@, d1);
        lemma_member_equiv(x, y, "templates"@, d1);
        if member(x, "trigger"@) is Some {
            lemma_trigger_equiv(member(x, "trigger"@)->0, member(y, "trigger"@)->0, d1);
        }
        if member(x, "personality"@) is Some {
            lemma_equiv_leaf(member(x, "personality"@)->0, member(y, "personality"@)->0, d1);
        }
        if member(x, "templates"@) is Some {
            lemma_texts_equiv(member(x, "templates"@)->0, member(y, "templates"@)->0, d1);
        }
    }
}

proof fn lemma_library_equiv(a: JsonValue, b: JsonValue, d: nat)
    requires
        d >= 4,
        json_equiv(a, b, d),
    ensures
        library_readable(a) == library_readable(b),
        forall|ts: Seq<DialogueTemplate>| #[trigger] library_is(a, ts) == library_is(b, ts),
{
    let e = json_equiv(a, b, d);
    if a is Array {
        lemma_equiv_items(a, b, d);
        let x = a->Array_0@;
        let y = b->Array_0@;
        assert forall|i: int| 0 <= i < x.len() implies (template_readable(#[trigger] x[i])
            == template_readable(y[i])) && (forall|t: DialogueTemplate|
            template_is(x[i], t) == template_is(y[i], t)) by {
            lemma_template_equiv(x[i], y[i], (d - 1) as nat);
        }
        assert forall|ts: Seq<DialogueTemplate>| #[trigger] library_is(a, ts) == library_is(b, ts) by {
            if library_is(a, ts) {
                assert forall|i: int| 0 <= i < ts.len() implies template_is(#[trigger] y[i], ts[i]) by {
                    assert(template_is(x[i], ts[i]));
                    lemma_template_equiv(x[i], y[i], (d - 1) as nat);
                }
            }
            if library_is(b, ts) {
                assert forall|i: int| 0 <= i < ts.len() implies template_is(#[trigger] x[i], ts[i]) by {
                    assert(template_is(y[i], ts[i]));
                    lemma_template_equiv(x[i], y[i], (d - 1) as nat);
                }
            }
        }
        if library_readable(b) {
            assert forall|i: int| 0 <= i < x.len() implies template_readable(#[trigger] x[i]) by {
                assert(template_readable(y[i]));
                lemma_template_equiv(x[i], y[i], (d - 1) as nat);
            }
        }
        if library_readable(a) {
            assert forall|i: int| 0 <= i < y.len() implies template_readable(#[trigger] y[i]) by {
                assert(template_readable(x[i]));
                lemma_template_equiv(x[i], y[i], (d - 1) as nat);
            }
        }
    }
}

proof fn lemma_trigger_functional(j: JsonValue, t1: DialogueTrigger, t2: DialogueTrigger)
    requires
        trigger_is(j, t1),
        trigger_is(j, t2),
    ensures
        t1@ == t2@,
{
    lemma_variant_names_distinct();
}

proof fn lemma_texts_functional(j: JsonValue, s1: Seq<String>, s2: Seq<String>)
    requires
        texts_are(j, s1),
        texts_are(j, s2),
    ensures
        s1.map_values(|s: String| s@) == s2.map_values(|s: String| s@),
{
    let items = j->Array_0@;
    assert forall|i: int| 0 <= i < s1.len() implies #[trigger] s1[i]@ == s2[i]@ by {
        assert(is_text(items[i], s1[i]@));
        assert(is_text(items[i], s2[i]@));
    }
    assert(s1.map_values(|s: String| s@) =~= s2.map_values(|s: String| s@));
}

proof fn lemma_template_functional(j: JsonValue, t1: DialogueTemplate, t2: DialogueTemplate)
    requires
        template_is(j, t1),
        template_is(j, t2),
    ensures
        t1@ == t2@,
{
    let m = j->Object_0@;
    lemma_trigger_functional(member(m, "trigger"@)->0, t1.trigger, t2.trigger);
    lemma_texts_functional(member(m, "templates"@)->0, t1.templates@, t2.templates@);
}

proof fn lemma_library_functional(j: JsonValue, ts1: Seq<DialogueTemplate>, ts2: Seq<DialogueTemplate>)
    requires
        library_is(j, ts1),
        library_is(j, ts2),
    ensures
        templates_view(ts1) == templates_view(ts2),
{
    let items = j->Array_0@;
    assert forall|i: int| 0 <= i < ts1.len() implies #[trigger] ts1[i]@ == ts2[i]@ by {
        lemma_template_functional(items[i], ts1[i], ts2[i]);
    }
    assert(templates_view(ts1) =~= templates_view(ts2));
}

// ---------------------------------------------------------------------------
// Reading templates from JSON
// ---------------------------------------------------------------------------

fn member_of<'a>(members: &'a Vec<(String, JsonValue)>, key: &str) -> (r: Option<&'a JsonValue>)
    ensures
        match r {
            Some(v) => member(members@, key@) == Some(*v),
            None => member(members@, key@) is None,
        },
{
    let n = members.len();
    let mut i: usize = 0;
    while i < n
        invariant
            n == members@.len(),
            i <= n,
            forall|j: int| 0 <= j < i ==> members@[j].0@ != key@,
        decreases n - i,
    {
        if same_text(members[i].0.as_str(), key) {
            proof {
                let m = members@;
                assert(first_member(m, key@, i as int));
                let k = choose|k: int| first_member(m, key@, k);
                if k < i {
                    assert(m[k].0@ != key@);
                } else if i < k {
                    assert(m[i as int].0@ != key@);
                }
            }
            return Some(&members[i].1);
        }
        i = i + 1;
    }
    None
}


fn text_payload(v: &JsonValue) -> (r: Option<String>)
    ensures
        r is Some <==> *v is Text,
        r matches Some(s) ==> is_text(*v, s@),
{
    match v {
        JsonValue::Text(s) => Some(s.clone()),
        _ => None,
    }
}

fn score_payload(v: &JsonValue) -> (r: Option<i64>)
    ensures
        r is Some <==> (match *v {
            JsonValue::Number(n) => score_of_text(n@) is Some,
            _ => false,
        }),
        r matches Some(x) ==> is_score(*v, x as int),
{
    match v {
        JsonValue::Number(n) => score_from_text(n.as_str()),
        _ => None,
    }
}

fn personality_from_json(j: &JsonValue) -> (r: Option<Personality>)
    ensures
        r == personality_of_json(*j),
{
    match j {
        JsonValue::Text(t) => {
            let t = t.as_str();
            if same_text(t, "Wise") {
                Some(Personality::Wise)
            } else if same_text(t, "Playful") {
                Some(Personality::Playful)
            } else if same_text(t, "Grumpy") {
                Some(Personality::Grumpy)
            } else if same_text(t, "Curious") {
                Some(Personality::Curious)
            } else if same_text(t, "Brave") {
                Some(Personality::Brave)
            } else if same_text(t, "Mysterious") {
                Some(Personality::Mysterious)
            } else {
                None
            }
        },
        _ => None,
    }
}

proof fn lemma_variant_names_distinct()
    ensures
        "OnEnterRoom"@ != "OnBuildStructure"@,
        "OnEnterRoom"@ != "OnConservationError"@,
        "OnEnterRoom"@ != "OnQuestComplete"@,
        "OnEnterRoom"@ != "OnRelationshipAbove"@,
        "OnEnterRoom"@ != "OnTimeOfDay"@,
        "OnBuildStructure"@ != "OnConservationError"@,
        "OnBuildStructure"@ != "OnQuestComplete"@,
        "OnBuildStructure"@ != "OnRelationshipAbove"@,
        "OnBuildStructure"@ != "OnTimeOfDay"@,
        "OnConservationError"@ != "OnQuestComplete"@,
        "OnConservationError"@ != "OnRelationshipAbove"@,
        "OnConservationError"@ != "OnTimeOfDay"@,
        "OnQuestComplete"@ != "OnRelationshipAbove"@,
        "OnQuestComplete"@ != "OnTimeOfDay"@,
        "OnRelationshipAbove"@ != "OnTimeOfDay"@,
{
    reveal_strlit("OnEnterRoom");
    reveal_strlit("OnBuildStructure");
    reveal_strlit("OnConservationError");
    reveal_strlit("OnQuestComplete");
    reveal_strlit("OnRelationshipAbove");
    reveal_strlit("OnTimeOfDay");
    assert("OnEnterRoom"@.len() != "OnBuildStructure"@.len());
    assert("OnEnterRoom"@.len() != "OnConservationError"@.len());
    assert("OnEnterRoom"@[2] != "OnQuestComplete"@[2]);
    assert("OnEnterRoom"@.len() != "OnRelationshipAbove"@.len());
    assert("OnEnterRoom"@[2] != "OnTimeOfDay"@[2]);
    assert("OnBuildStructure"@.len() != "OnConservationError"@.len());
    assert("OnBuildStructure"@.len() != "OnQuestComplete"@.len());
    assert("OnBuildStructure"@.len() != "OnRelationshipAbove"@.len());
    assert("OnBuildStructure"@.len() != "OnTimeOfDay"@.len());
    assert("OnConservationError"@.len() != "OnQuestComplete"@.len());
    assert("OnConservationError"@[2] != "OnRelationshipAbove"@[2]);
    assert("OnConservationError"@.len() != "OnTimeOfDay"@.len());
    assert("OnQuestComplete"@.len() != "OnRelationshipAbove"@.len());
    assert("OnQuestComplete"@.len() != "OnTimeOfDay"@.len());
    assert("OnRelationshipAbove"@.len() != "OnTimeOfDay"@.len());
}

/// The trigger that `j` writes, in serde's external tagging: an object whose
/// one member is named after the variant and holds its payload.
fn trigger_from_json(j: &JsonValue) -> (r: Option<DialogueTrigger>)
    ensures
        r is Some <==> trigger_readable(*j),
        r matches Some(t) ==> trigger_is(*j, t),
{
    proof {
        lemma_variant_names_distinct();
    }
    match j {
        JsonValue::Object(members) => {
            if members.len() != 1 {
                return None;
            }
            let name = members[0].0.as_str();
            let v = &members[0].1;
            if same_text(name, "OnEnterRoom") {
                match text_payload(v) {
                    Some(s) => Some(DialogueTrigger::OnEnterRoom(s)),
                    None => None,
                }
            } else if same_text(name, "OnBuildStructure") {
                match text_payload(v) {
                    Some(s) => Some(DialogueTrigger::OnBuildStructure(s)),
                    None => None,
                }
            } else if same_text(name, "OnConservationError") {
                match score_payload(v) {
                    Some(x) => Some(DialogueTrigger::OnConservationError(x)),
                    None => None,
                }
            } else if same_text(name, "OnQuestComplete") {
                match text_payload(v) {
                    Some(s) => Some(DialogueTrigger::OnQuestComplete(s)),
                    None => None,
                }
            } else if same_text(name, "OnRelationshipAbove") {
                match score_payload(v) {
                    Some(x) => Some(DialogueTrigger::OnRelationshipAbove(x)),
                    None => None,
                }
            } else if same_text(name, "OnTimeOfDay") {
                match text_payload(v) {
                    Some(s) => Some(DialogueTrigger::OnTimeOfDay(s)),
                    None => None,
                }
            } else {
                None
            }
        },
        _ => None,
    }
}


fn texts_from_json(j: &JsonValue) -> (r: Option<Vec<String>>)
    ensures
        r is Some <==> texts_readable(*j),
        r matches Some(ts) ==> texts_are(*j, ts@),
{
    match j {
        JsonValue::Array(items) => {
            let n = items.len();
            let mut out: Vec<String> = Vec::new();
            let mut i: usize = 0;
            while i < n
                invariant
                    n == items@.len(),
                    i <= n,
                    out@.len() == i,
                    forall|k: int| 0 <= k < i ==> is_text(#[trigger] items@[k], out@[k]@),
                    *j == JsonValue::Array(*items),
                decreases n - i,
            {
                match text_payload(&items[i]) {
                    Some(s) => out.push(s),
                    None => {
                        assert(!(items@[i as int] is Text));
                        return None;
                    },
                }
                i = i + 1;
            }
            Some(out)
        },
        _ => None,
    }
}

fn template_from_json(j: &JsonValue) -> (r: Option<DialogueTemplate>)
    ensures
        r is Some <==> template_readable(*j),
        r matches Some(t) ==> template_is(*j, t),
{
    match j {
        JsonValue::Object(members) => {
            let trigger = match member_of(members, "trigger") {
                Some(tj) => match trigger_from_json(tj) {
                    Some(t) => t,
                    None => return None,
                },
                None => return None,
            };
            let personality = match member_of(members, "personality") {
                Some(pj) => match personality_from_json(pj) {
                    Some(p) => p,
                    None => return None,
                },
                None => return None,
            };
            let templates = match member_of(members, "templates") {
                Some(sj) => match texts_from_json(sj) {
                    Some(ts) => ts,
                    None => return None,
                },
                None => return None,
            };
            Some(DialogueTemplate { trigger, personality, templates })
        },
        _ => None,
    }
}

/// The templates that the JSON array `j` writes, when every element is a readable template.
pub fn decode_template_library(j: &JsonValue) -> (r: Option<Vec<DialogueTemplate>>)
    ensures
        r is Some <==> library_readable(*j),
        r matches Some(ts) ==> library_is(*j, ts@),
{
    match j {
        JsonValue::Array(items) => {
            let n = items.len();
            let mut out: Vec<DialogueTemplate> = Vec::new();
            let mut i: usize = 0;
            while i < n
                invariant
                    n == items@.len(),
                    i <= n,
                    out@.len() == i,
                    forall|k: int| 0 <= k < i ==> template_is(#[trigger] items@[k], out@[k]),
                    forall|k: int| 0 <= k < i ==> template_readable(#[trigger] items@[k]),
                    *j == JsonValue::Array(*items),
                decreases n - i,
            {
                match template_from_json(&items[i]) {
                    Some(t) => out.push(t),
                    None => {
                        assert(!template_readable(items@[i as int]));
                        assert(*j is Array);
                        assert(j->Array_0 == *items);
                        assert(library_readable(*j) ==> forall|k: int|
                            0 <= k < items@.len() ==> template_readable(#[trigger] items@[k]));
                        return None;
                    },
                }
                i = i + 1;
            }
            Some(out)
        },
        _ => None,
    }
}


/// Every plain form of the JSON document `text` is an array of readable templates.
pub open spec fn text_library_readable(text: Seq<char>) -> bool {
    &&& tree_exists(text, JSON_DEPTH_LIMIT as nat)
    &&& forall|j: JsonValue| #[trigger] tree_of(j, text, JSON_DEPTH_LIMIT as nat) ==> library_readable(j)
}

/// The templates written by the JSON document `text`, which serde_json reads.
pub fn template_library_from_json(text: &str) -> (r: Option<Vec<DialogueTemplate>>)
    ensures
        r is Some <==> text_library_readable(text@),
        r matches Some(ts) ==> exists|j: JsonValue|
            tree_of(j, text@, JSON_DEPTH_LIMIT as nat) && library_is(j, ts@),
{
    match json_from_serde(text, JSON_DEPTH_LIMIT) {
        Some(j) => {
            let r = decode_template_library(&j);
            proof {
                let d = JSON_DEPTH_LIMIT as nat;
                if r is Some {
                    assert forall|k: JsonValue| #[trigger] tree_of(k, text@, d) implies library_readable(k) by {
                        lemma_tree_unique(j, k, text@, d);
                        lemma_library_equiv(j, k, d);
                    }
                } else {
                    assert(tree_of(j, text@, d) && !library_readable(j));
                }
            }
            r
        },
        None => None,
    }
}

/// What loading the library written by `text` makes of templates `before`:
/// the templates it reads, or `before` when the text is not a readable library.
pub open spec fn library_loaded(
    text: Seq<char>,
    before: Seq<DialogueTemplate>,
    after: Seq<DialogueTemplate>,
) -> bool {
    if text_library_readable(text) {
        exists|j: JsonValue| tree_of(j, text, JSON_DEPTH_LIMIT as nat) && library_is(j, after)
    } else {
        after == before
    }
}

/// Populate a `DialogueEngine` with the default template library.
///
/// The built-in library is well-formed JSON; were it not read, the engine's
/// templates would stay as they were.
pub fn populate_default_templates(engine: &mut DialogueEngine)
    ensures
        final(engine).characters == old(engine).characters,
        library_loaded(DEFAULT_TEMPLATES_JSON@, old(engine).templates@, final(engine).templates@),
{
    match template_library_from_json(DEFAULT_TEMPLATES_JSON) {
        Some(templates) => {
            engine.templates = templates;
        },
        None => {},
    }
}

/// A readable library text has one reading: any two template lists read
/// from it hold the same templates.
pub proof fn law_library_reading_unique(
    text: Seq<char>,
    ts1: Seq<DialogueTemplate>,
    ts2: Seq<DialogueTemplate>,
)
    requires
        exists|j: JsonValue| tree_of(j, text, JSON_DEPTH_LIMIT as nat) && library_is(j, ts1),
        exists|j: JsonValue| tree_of(j, text, JSON_DEPTH_LIMIT as nat) && library_is(j, ts2),
    ensures
        templates_view(ts1) == templates_view(ts2),
{
    let d = JSON_DEPTH_LIMIT as nat;
    let j1 = choose|j: JsonValue| tree_of(j, text, d) && library_is(j, ts1);
    let j2 = choose|j: JsonValue| tree_of(j, text, d) && library_is(j, ts2);
    lemma_tree_unique(j1, j2, text, d);
    lemma_library_equiv(j1, j2, d);
    lemma_library_functional(j2, ts1, ts2);
}

/// Loading a library twice gives the templates that loading it once gives.
pub proof fn law_load_idempotent(
    text: Seq<char>,
    t0: Seq<DialogueTemplate>,
    t1: Seq<DialogueTemplate>,
    t2: Seq<DialogueTemplate>,
)
    requires
        library_loaded(text, t0, t1),
        library_loaded(text, t1, t2),
    ensures
        templates_view(t2) == templates_view(t1),
{
    if text_library_readable(text) {
        law_library_reading_unique(text, t1, t2);
    }
}

/// Populating an engine a second time leaves it as the first time did: the
/// same characters and the same templates.
pub proof fn law_populate_idempotent(e0: DialogueEngine, e1: DialogueEngine, e2: DialogueEngine)
    requires
        e1.characters == e0.characters,
        library_loaded(DEFAULT_TEMPLATES_JSON@, e0.templates@, e1.templates@),
        e2.characters == e1.characters,
        library_loaded(DEFAULT_TEMPLATES_JSON@, e1.templates@, e2.templates@),
    ensures
        e2.characters == e1.characters,
        templates_view(e2.templates@) == templates_view(e1.templates@),
{
    law_load_idempotent(DEFAULT_TEMPLATES_JSON@, e0.templates@, e1.templates@, e2.templates@);
}

/// The built-in template library: more than thirty templates.
pub const DEFAULT_TEMPLATES_JSON: &'static str = r#"[
  {"trigger":{"OnEnterRoom":"forest"},"personality":"Wise","templates":["The forest remembers every footstep, {name}.","Welcome to the green cathedral, {name}.","Listen to the canopy — it has stories to tell."]},
  {"trigger":{"OnEnterRoom":"forest"},"personality":"Playful","templates":["Boo! Just kidding. Welcome to the trees, {name}!","Bet you've never seen a forest this fun!","Try counting the leaves — I dare you!"]},
  {"trigger":{"OnEnterRoom":"forest"},"personality":"Grumpy","templates":["Ugh, trees. Too many leaves.","I hate the outdoors.","Can we go back inside yet, {name}?"]},
  {"trigger":{"OnEnterRoom":"forest"},"personality":"Curious","templates":["Ooh, what's that over there? And THAT?","Do you think forests have feelings, {name}?","I wonder how old the oldest tree here is!"]},
  {"trigger":{"OnEnterRoom":"forest"},"personality":"Brave","templates":["Stay close, {name}. The forest hides dangers.","I'll scout ahead. Watch my back.","This forest is nothing — I've seen worse."]},
  {"trigger":{"OnEnterRoom":"forest"},"personality":"Mysterious","templates":["The trees whisper your name, {name}...","Something watches from the shadows.","Not all who wander are lost — but some are."]},
  {"trigger":{"OnEnterRoom":"village"},"personality":"Wise","templates":["The village thrives when its people care, {name}.","Every stone here was laid with purpose.","Welcome home, {name}."]},
  {"trigger":{"OnEnterRoom":"village"},"personality":"Grumpy","templates":["Too noisy. Too many people.","Village life is overrated.","What do you want, {name}?"]},
  {"trigger":{"OnEnterRoom":"village"},"personality":"Playful","templates":["Village party when?","Anyone seen my pet rock?","{name}, race you to the well!"]},
  {"trigger":{"OnEnterRoom":"mountain"},"personality":"Brave","templates":["The summit awaits, {name}!","I've been waiting for a challenge like this.","Don't look down — look forward."]},
  {"trigger":{"OnEnterRoom":"mountain"},"personality":"Wise","templates":["Mountains teach patience, {name}.","From up here, everything looks small.","The climb is the lesson."]},
  {"trigger":{"OnBuildStructure":"windmill"},"personality":"Wise","templates":["A windmill! The ancestors would be proud, {name}.","Harnessing nature's breath — well done."]},
  {"trigger":{"OnBuildStructure":"windmill"},"personality":"Playful","templates":["Wheee! Does it spin fast enough to ride?","I call the top bunk in the windmill!"]},
  {"trigger":{"OnBuildStructure":"windmill"},"personality":"Curious","templates":["How does it work? Show me everything!","The aerodynamics are fascinating!"]},
  {"trigger":{"OnBuildStructure":"garden"},"personality":"Wise","templates":["A garden is a conversation with the earth, {name}.","You reap what you sow — and you've sown well."]},
  {"trigger":{"OnBuildStructure":"garden"},"personality":"Grumpy","templates":["Great, more weeding for me.","Plants. My sworn enemy."]},
  {"trigger":{"OnBuildStructure":"garden"},"personality":"Playful","templates":["I'm going to name every flower!","Can we plant a trampoline next?"]},
  {"trigger":{"OnConservationError":0.5},"personality":"Wise","templates":["Careful, {name}. The balance is shifting.","We must restore what we've taken."]},
  {"trigger":{"OnConservationError":0.5},"personality":"Curious","templates":["This isn't good, {name}...","We need to fix this, fast!"]},
  {"trigger":{"OnConservationError":0.5},"personality":"Grumpy","templates":["Told you so.","This is why I don't trust 'progress'."]},
  {"trigger":{"OnConservationError":0.8},"personality":"Wise","templates":["The land cries out, {name}. We must act now.","If we don't change course, all is lost."]},
  {"trigger":{"OnQuestComplete":"tutorial"},"personality":"Playful","templates":["You did it! Tutorial complete! 🎉","That's my {name}! Onwards!"]},
  {"trigger":{"OnQuestComplete":"tutorial"},"personality":"Brave","templates":["Well done, {name}. The real adventure begins now.","First quest down. Many more to go."]},
  {"trigger":{"OnQuestComplete":"ecology_101"},"personality":"Wise","templates":["You understand the web of life now, {name}.","Knowledge is the seed of change."]},
  {"trigger":{"OnRelationshipAbove":0.8},"personality":"Wise","templates":["I consider you a true friend, {name}.","Our bond is unbreakable."]},
  {"trigger":{"OnRelationshipAbove":0.8},"personality":"Playful","templates":["Besties forever, {name}!","You're my favourite person and I won't hear otherwise!"]},
  {"trigger":{"OnRelationshipAbove":0.8},"personality":"Mysterious","templates":["You've earned my trust... that is rare.","I suppose I can share my secrets with you now."]},
  {"trigger":{"OnTimeOfDay":"morning"},"personality":"Playful","templates":["Rise and shine, {name}! Adventure awaits!","Good morning! I've been up for HOURS."]},
  {"trigger":{"OnTimeOfDay":"morning"},"personality":"Grumpy","templates":["Too early. Come back later.","Mornings should be illegal."]},
  {"trigger":{"OnTimeOfDay":"night"},"personality":"Wise","templates":["The stars hold ancient wisdom, {name}.","Night is when the world reveals its truths."]},
  {"trigger":{"OnTimeOfDay":"night"},"personality":"Mysterious","templates":["Shadows deepen... and so do truths.","The night speaks, if you listen."]},
  {"trigger":{"OnTimeOfDay":"evening"},"personality":"Curious","templates":["What happens when the sun goes down? Let's find out!","Evenings are full of surprises!"]}
]"#;

} // verus!
