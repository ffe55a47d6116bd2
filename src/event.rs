//! Raw camera events, the risk annotation embedded in their payload, and
//! the batch extraction that keeps the events whose annotation parses.
use vstd::prelude::*;
use crate::json::{
    JsonValue,
    lookup,
    object_get,
    json_number_text,
    json_string_text,
    number_field_text,
    string_field_text,
};
use crate::score::{parse_score, score_of_text};
use crate::text::{
    occurs_at,
    remove_all,
    remove_occurrences,
    lemma_remove_absent,
    lemma_remove_leading,
    lemma_remove_trailing,
};

verus! {

/// A camera event as the event source delivers it. Times are milliseconds
/// since the Unix epoch.
pub struct Event {
    pub id: String,
    pub label: Option<String>,
    pub sub_label: Option<String>,
    pub camera: String,
    pub start_time_ms: Option<i64>,
    pub end_time_ms: Option<i64>,
    pub false_positive: Option<bool>,
    pub zones: Option<Vec<String>>,
    pub thumbnail: Option<String>,
    pub has_clip: Option<bool>,
    pub has_snapshot: Option<bool>,
    pub retain_indefinitely: Option<bool>,
    pub plus_id: Option<String>,
    pub model_hash: Option<String>,
    pub detector_type: Option<String>,
    pub model_type: Option<String>,
    pub data: JsonValue,
}

/// The scores and narrative inferred for one event. Scores are in
/// thousandths of a point.
pub struct InferredData {
    pub threat_level: u64,
    pub suspiciousness: u64,
    pub interest: u64,
    pub description: String,
}

/// An event together with the annotation parsed from its own payload.
pub struct CombinedEventData {
    pub event: Event,
    pub inferreddata: InferredData,
}

/// Threat level, suspiciousness, interest and description.
pub type AnnotationModel = (u64, u64, u64, Seq<char>);

impl View for InferredData {
    type V = AnnotationModel;

    open spec fn view(&self) -> AnnotationModel {
        (self.threat_level, self.suspiciousness, self.interest, self.description@)
    }
}

/// Name of the payload field that holds the annotation text.
pub open spec fn annotation_key() -> Seq<char> {
    seq!['d', 'e', 's', 'c', 'r', 'i', 'p', 't', 'i', 'o', 'n']
}

pub open spec fn code_fence() -> Seq<char> {
    seq!['`', '`', '`']
}

pub open spec fn json_fence() -> Seq<char> {
    code_fence() + seq!['j', 's', 'o', 'n']
}

/// The annotation text with every `json`-tagged fence removed, then every
/// bare fence.
pub open spec fn unfenced(t: Seq<char>) -> Seq<char> {
    remove_all(remove_all(t, json_fence()), code_fence())
}

pub open spec fn threat_key() -> Seq<char> {
    seq!['t', 'h', 'r', 'e', 'a', 't', '_', 'l', 'e', 'v', 'e', 'l']
}

pub open spec fn suspiciousness_key() -> Seq<char> {
    seq!['s', 'u', 's', 'p', 'i', 'c', 'i', 'o', 'u', 's', 'n', 'e', 's', 's']
}

pub open spec fn interest_key() -> Seq<char> {
    seq!['i', 'n', 't', 'e', 'r', 'e', 's', 't']
}

/// A score field of the JSON text `doc`.
pub open spec fn score_field(doc: Seq<char>, key: Seq<char>) -> Option<u64> {
    match json_number_text(doc, key) {
        Some(t) => score_of_text(t),
        None => None,
    }
}

/// The annotation written by the JSON text `doc`: three scores and a
/// description, or nothing when any of them is missing or malformed.
pub open spec fn annotation_of_json(doc: Seq<char>) -> Option<AnnotationModel> {
    match (
        score_field(doc, threat_key()),
        score_field(doc, suspiciousness_key()),
        score_field(doc, interest_key()),
        json_string_text(doc, annotation_key()),
    ) {
        (Some(t), Some(s), Some(i), Some(d)) => Some((t, s, i, d)),
        _ => None,
    }
}

/// The annotation held by an annotation text, fenced or not.
pub open spec fn annotation_of_text(t: Seq<char>) -> Option<AnnotationModel> {
    annotation_of_json(unfenced(t))
}

/// The annotation text of a payload: the string under the annotation key
/// of an object.
pub open spec fn annotation_text_of(data: JsonValue) -> Option<Seq<char>> {
    match data {
        JsonValue::Object(entries) => match lookup(entries@, annotation_key()) {
            Some(JsonValue::Str(s)) => Some(s@),
            _ => None,
        },
        _ => None,
    }
}

/// The annotation of a payload, when it has one that parses.
pub open spec fn annotation_of_payload(data: JsonValue) -> Option<AnnotationModel> {
    match annotation_text_of(data) {
        Some(t) => annotation_of_text(t),
        None => None,
    }
}

/// Removes the code fences around an annotation: every `json`-tagged
/// fence, then every bare one.
pub fn strip_fences(t: &str) -> (r: String)
    ensures
        r@ == unfenced(t@),
{
    proof {
        reveal_strlit("```json");
        reveal_strlit("```");
    }
    assert("```json"@ =~= json_fence());
    assert("```"@ =~= code_fence());
    let once = remove_occurrences(t, "```json");
    remove_occurrences(once.as_str(), "```")
}

/// A text without a backtick holds no occurrence of a pattern that starts
/// with one.
proof fn lemma_no_backtick_no_fence(j: Seq<char>, p: Seq<char>)
    requires
        p.len() > 0,
        p[0] == '`',
        forall|i: int| 0 <= i < j.len() ==> j[i] != '`',
    ensures
        forall|i: int| !#[trigger] occurs_at(j, i, p),
{
    assert forall|i: int| !#[trigger] occurs_at(j, i, p) by {
        if occurs_at(j, i, p) {
            assert(j.subrange(i, i + p.len())[0] == j[i]);
        }
    }
}

/// Fence stripping preserves content: a JSON text without backticks,
/// wrapped in a `json`-tagged fence, is unwrapped to itself, a text
/// without fences is left alone, and so the wrapped and the bare text
/// yield the same annotation.
pub proof fn lemma_fence_transparent(j: Seq<char>)
    requires
        forall|i: int| 0 <= i < j.len() ==> j[i] != '`',
    ensures
        unfenced(json_fence() + j + code_fence()) == j,
        unfenced(j) == j,
        annotation_of_text(json_fence() + j + code_fence()) == annotation_of_text(j),
{
    let t = json_fence();
    let c = code_fence();
    lemma_no_backtick_no_fence(j, t);
    lemma_no_backtick_no_fence(j, c);
    lemma_remove_absent(j, t);
    lemma_remove_absent(j, c);
    let body = j + c;
    assert(t + j + c =~= t + body);
    lemma_remove_leading(t, body);
    assert forall|i: int| !#[trigger] occurs_at(body, i, t) by {
        if occurs_at(body, i, t) {
            assert(body.subrange(i, i + t.len())[0] == body[i]);
            if i < j.len() {
                assert(body[i] == j[i]);
            }
        }
    }
    lemma_remove_absent(body, t);
    lemma_remove_trailing(j, c);
}

/// Removing bare fences from a text that starts with a character other
/// than a backtick keeps that character first.
proof fn lemma_unfenced_first(t: Seq<char>)
    requires
        t.len() > 0,
        t[0] != '`',
    ensures
        remove_all(t, code_fence()).len() > 0,
        remove_all(t, code_fence())[0] == t[0],
{
    if t.len() >= 3 {
        assert(t.subrange(0, 3)[0] == t[0]);
    }
}

/// No bare fence is left once bare fences are removed.
proof fn lemma_no_fence_left(s: Seq<char>)
    ensures
        forall|i: int| !#[trigger] occurs_at(remove_all(s, code_fence()), i, code_fence()),
    decreases s.len(),
{
    let c = code_fence();
    assert(c.len() == 3);
    if s.len() == 0 {
        assert(remove_all(s, c) == s);
    } else if occurs_at(s, 0, c) {
        lemma_no_fence_left(s.subrange(3, s.len() as int));
        assert(remove_all(s, c) == remove_all(s.subrange(3, s.len() as int), c));
    } else {
        let t = s.subrange(1, s.len() as int);
        lemma_no_fence_left(t);
        let rt = remove_all(t, c);
        let r = remove_all(s, c);
        assert(r == seq![s[0]] + rt);
        assert forall|i: int| !#[trigger] occurs_at(r, i, c) by {
            if i >= 1 && occurs_at(r, i, c) {
                assert(r.subrange(i, i + 3) =~= rt.subrange(i - 1, i + 2));
                assert(occurs_at(rt, i - 1, c));
            }
            if i == 0 && occurs_at(r, 0, c) {
                assert(r.subrange(0, 3)[0] == r[0]);
                assert(r.subrange(0, 3)[1] == r[1]);
                assert(r.subrange(0, 3)[2] == r[2]);
                assert(r[0] == '`' && r[1] == '`' && r[2] == '`');
                assert(s[0] == '`');
                if t[0] != '`' {
                    lemma_unfenced_first(t);
                } else if s.len() < 3 {
                    assert(t =~= seq!['`']);
                    assert(t.subrange(1, 1) =~= Seq::<char>::empty());
                    assert(remove_all(Seq::<char>::empty(), c) == Seq::<char>::empty());
                    assert(rt =~= seq!['`']);
                } else {
                    assert(s.subrange(0, 3) =~= seq![s[0], s[1], s[2]]);
                    assert(s[2] != '`');
                    let u = t.subrange(1, t.len() as int);
                    if t.len() >= 3 {
                        assert(t.subrange(0, 3)[1] == t[1]);
                    }
                    assert(rt == seq![t[0]] + remove_all(u, c));
                    lemma_unfenced_first(u);
                }
            }
        }
    }
}

/// Stripping fences twice is the same as stripping them once.
pub proof fn lemma_unfenced_idempotent(t: Seq<char>)
    ensures
        unfenced(unfenced(t)) == unfenced(t),
{
    let u = unfenced(t);
    lemma_no_fence_left(remove_all(t, json_fence()));
    assert forall|i: int| !#[trigger] occurs_at(u, i, json_fence()) by {
        if occurs_at(u, i, json_fence()) {
            assert(u.subrange(i, i + 3) =~= u.subrange(i, i + 7).subrange(0, 3));
            assert(json_fence().subrange(0, 3) =~= code_fence());
            assert(occurs_at(u, i, code_fence()));
        }
    }
    lemma_remove_absent(u, json_fence());
    lemma_remove_absent(u, code_fence());
}

/// An event whose payload is not an object, or has no entry under the
/// annotation key, has no annotation, so extraction yields nothing for it.
pub proof fn lemma_no_annotation_without_field(e: Event)
    requires
        !(e.data is Object) || lookup(e.data->Object_0@, annotation_key()) is None,
    ensures
        e.annotation() is None,
{
}

/// Reads a score field of the JSON text `doc`.
fn read_score(doc: &str, key: &str) -> (r: Option<u64>)
    ensures
        r == score_field(doc@, key@),
{
    match number_field_text(doc, key) {
        Some(t) => parse_score(t.as_str()),
        None => None,
    }
}

/// Parses an annotation text, fenced or not, as `annotation_of_text` says.
pub fn parse_annotation(t: &str) -> (r: Option<InferredData>)
    ensures
        match r {
            Some(d) => annotation_of_text(t@) == Some(d@),
            None => annotation_of_text(t@) is None,
        },
{
    let doc = strip_fences(t);
    let doc = doc.as_str();
    proof {
        reveal_strlit("threat_level");
        reveal_strlit("suspiciousness");
        reveal_strlit("interest");
        reveal_strlit("description");
    }
    assert("threat_level"@ =~= threat_key());
    assert("suspiciousness"@ =~= suspiciousness_key());
    assert("interest"@ =~= interest_key());
    assert("description"@ =~= annotation_key());
    let threat_level = match read_score(doc, "threat_level") {
        Some(v) => v,
        None => return None,
    };
    let suspiciousness = match read_score(doc, "suspiciousness") {
        Some(v) => v,
        None => return None,
    };
    let interest = match read_score(doc, "interest") {
        Some(v) => v,
        None => return None,
    };
    let description = match string_field_text(doc, "description") {
        Some(d) => d,
        None => return None,
    };
    Some(InferredData { threat_level, suspiciousness, interest, description })
}

impl Event {
    /// The annotation of this event's payload, when there is one that
    /// parses.
    pub open spec fn annotation(&self) -> Option<AnnotationModel> {
        annotation_of_payload(self.data)
    }

    /// Pairs this event with the annotation in its payload. Yields nothing
    /// when the payload is not an object, has no string under the
    /// annotation key, or that string does not parse.
    pub fn extract_inferred_data(self) -> (r: Option<CombinedEventData>)
        ensures
            match r {
                Some(c) => c.event == self && self.annotation() == Some(c.inferreddata@),
                None => self.annotation() is None,
            },
    {
        let parsed = match &self.data {
            JsonValue::Object(entries) => {
                proof {
                    reveal_strlit("description");
                }
                assert("description"@ =~= annotation_key());
                match object_get(entries, "description") {
                    Some(JsonValue::Str(text)) => parse_annotation(text.as_str()),
                    _ => None,
                }
            },
            _ => None,
        };
        match parsed {
            Some(inferreddata) => Some(CombinedEventData { event: self, inferreddata }),
            None => None,
        }
    }
}

/// The analyzed events of a batch: each event whose annotation parses,
/// paired with it, in batch order.
pub open spec fn analyzed(events: Seq<Event>) -> Seq<AnalyzedModel>
    decreases events.len(),
{
    if events.len() == 0 {
        Seq::empty()
    } else {
        let e = events.last();
        let rest = analyzed(events.drop_last());
        match e.annotation() {
            Some(a) => rest.push((e, a)),
            None => rest,
        }
    }
}

/// The event and annotation model of an analyzed event.
pub open spec fn pair_of(c: CombinedEventData) -> (Event, AnnotationModel) {
    (c.event, c.inferreddata@)
}

/// An analyzed event as the contracts see it: the event and its annotation.
pub type AnalyzedModel = (Event, AnnotationModel);

/// The models of a sequence of analyzed events.
pub open spec fn models(s: Seq<CombinedEventData>) -> Seq<AnalyzedModel> {
    s.map_values(|c: CombinedEventData| pair_of(c))
}

/// Extracts every event of the batch, keeping those whose annotation
/// parses, in batch order.
pub fn analyze_events(events: Vec<Event>) -> (r: Vec<CombinedEventData>)
    ensures
        models(r@) == analyzed(events@),
{
    let ghost all = events@;
    let mut rest = events;
    let mut out: Vec<CombinedEventData> = Vec::new();
    while rest.len() > 0
        invariant
            rest@.len() <= all.len(),
            rest@ == all.skip(all.len() - rest@.len()),
            models(out@) == analyzed(
                all.take(all.len() - rest@.len()),
            ),
        decreases rest@.len(),
    {
        let ghost k = all.len() - rest@.len();
        let e = rest.remove(0);
        assert(all.take(k + 1).drop_last() =~= all.take(k));
        assert(all.take(k + 1).last() == e);
        assert(rest@ =~= all.skip(k + 1));
        let ghost before = out@;
        match e.extract_inferred_data() {
            Some(c) => {
                out.push(c);
                assert(models(out@) =~= models(before).push(pair_of(c)));
            },
            None => {},
        }
    }
    assert(all.take(all.len() as int) =~= all);
    out
}

} // verus!
