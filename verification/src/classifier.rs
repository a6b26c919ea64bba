//! Defensive parsing of the classifier's reply. The model's free-text answer
//! may wrap the JSON verdict in prose or code fences: the candidate payload is
//! the substring from the first `{` to the last `}`, and it must decode into
//! the strict classification schema, else the parse fails closed.

use vstd::prelude::*;

use crate::entry::{Classification, ClassificationV};

verus! {

pub const OPEN_BRACE: u8 = 123;

pub const CLOSE_BRACE: u8 = 125;

/// `i` is the first `{` of `s`, `j` the last `}`, and they enclose at least
/// one byte.
pub open spec fn payload_bounds(s: Seq<u8>, i: int, j: int) -> bool {
    &&& 0 <= i < j < s.len()
    &&& s[i] == OPEN_BRACE
    &&& s[j] == CLOSE_BRACE
    &&& forall|k: int| 0 <= k < i ==> s[k] != OPEN_BRACE
    &&& forall|k: int| j < k < s.len() ==> s[k] != CLOSE_BRACE
}

/// The text holds a candidate payload: some `{` strictly before some `}`.
pub open spec fn has_payload(s: Seq<u8>) -> bool {
    exists|i: int, j: int| payload_bounds(s, i, j)
}

/// The candidate payload itself: first `{` through last `}`, inclusive.
pub open spec fn candidate_payload(s: Seq<u8>) -> Seq<u8>
    recommends
        has_payload(s),
{
    let (i, j) = choose|i: int, j: int| payload_bounds(s, i, j);
    s.subrange(i, j + 1)
}

pub proof fn lemma_payload_bounds_unique(s: Seq<u8>, i1: int, j1: int, i2: int, j2: int)
    requires
        payload_bounds(s, i1, j1),
        payload_bounds(s, i2, j2),
    ensures
        i1 == i2,
        j1 == j2,
{
}

/// Extracts the candidate JSON payload: the substring from the first `{` to
/// the last `}`. Returns nothing when no such pair exists in order.
pub fn extract_json(text: &[u8]) -> (r: Option<Vec<u8>>)
    ensures
        r is Some <==> has_payload(text@),
        r matches Some(p) ==> p@ == candidate_payload(text@),
{
    let n = text.len();
    let mut first: usize = 0;
    while first < n && text[first] != OPEN_BRACE
        invariant
            n == text@.len(),
            first <= n,
            forall|k: int| 0 <= k < first ==> text@[k] != OPEN_BRACE,
        decreases n - first,
    {
        first = first + 1;
    }
    if first == n {
        proof {
            assert forall|i: int, j: int| !payload_bounds(text@, i, j) by {
                if payload_bounds(text@, i, j) {
                    assert(text@[i] == OPEN_BRACE);
                }
            }
        }
        return None;
    }
    let mut last: usize = n;
    while last > 0 && text[last - 1] != CLOSE_BRACE
        invariant
            n == text@.len(),
            last <= n,
            forall|k: int| last <= k < n ==> text@[k] != CLOSE_BRACE,
        decreases last,
    {
        last = last - 1;
    }
    if last == 0 || last - 1 <= first {
        proof {
            assert forall|i: int, j: int| !payload_bounds(text@, i, j) by {
                if payload_bounds(text@, i, j) {
                    assert(i == first);
                    assert(j == last - 1);
                }
            }
        }
        return None;
    }
    let end = last;
    let mut payload: Vec<u8> = Vec::new();
    let mut k = first;
    while k < end
        invariant
            n == text@.len(),
            first < end <= n,
            first <= k <= end,
            payload@ == text@.subrange(first as int, k as int),
        decreases end - k,
    {
        payload.push(text[k]);
        proof {
            assert(payload@ =~= text@.subrange(first as int, k + 1));
        }
        k = k + 1;
    }
    proof {
        assert(payload_bounds(text@, first as int, end - 1));
        let (ci, cj) = choose|ci: int, cj: int| payload_bounds(text@, ci, cj);
        lemma_payload_bounds_unique(text@, ci, cj, first as int, end - 1);
    }
    Some(payload)
}

/// What decoding a candidate payload into the strict classification schema
/// yields: fields `label` (string), `description` (string), `tags` (array of
/// strings), `confidence` (number, optional). A function of the bytes alone.
pub uninterp spec fn classification_fields_of(payload: Seq<u8>) -> Option<ClassificationV>;

/// Relies on `serde_json::from_slice` and `serde_json::Value`'s accessors:
/// decodes the payload as a JSON object with string fields `label` and
/// `description`, string-array field `tags`, and an optional numeric field
/// `confidence` (kept as its decimal text; `null` counts as absent). Unknown
/// fields are ignored; any other shape is rejected. The result depends on the
/// payload bytes alone.
#[verifier::external_body]
fn decode_fields(payload: &[u8]) -> (r: Option<Classification>)
    ensures
        r is Some <==> classification_fields_of(payload@) is Some,
        r matches Some(c) ==> classification_fields_of(payload@) == Some(c@),
{
    let v: serde_json::Value = match serde_json::from_slice(payload) {
        Ok(v) => v,
        Err(_) => return None,
    };
    let label = v.get("label")?.as_str()?.to_string();
    let description = v.get("description")?.as_str()?.to_string();
    let tags: Vec<String> = serde_json::from_value(v.get("tags")?.clone()).ok()?;
    let confidence = match v.get("confidence") {
        None => None,
        Some(c) if c.is_null() => None,
        Some(c) if c.is_number() => Some(c.to_string()),
        Some(_) => return None,
    };
    Some(Classification { label, description, tags, confidence })
}

#[verifier::external_type_specification]
#[verifier::external_body]
pub struct ExValue(serde_json::Value);

/// Relies on `serde_json::from_slice`: parses the bytes as one JSON document.
#[verifier::external_body]
fn json_from_slice(bytes: &[u8]) -> (r: Option<serde_json::Value>) {
    serde_json::from_slice(bytes).ok()
}

/// Relies on `serde_json::Value::get`: the value at a key of a JSON object,
/// nothing for other shapes or a missing key.
#[verifier::external_body]
fn json_get<'a>(v: &'a serde_json::Value, key: &str) -> (r: Option<&'a serde_json::Value>) {
    v.get(key)
}

/// Relies on `serde_json::Value::as_str`: the text a JSON string holds,
/// nothing for other shapes.
#[verifier::external_body]
fn json_as_str(v: &serde_json::Value) -> (r: Option<String>) {
    v.as_str().map(|s| s.to_string())
}

/// Relies on `serde_json::Value::as_array`: the items of a JSON array,
/// nothing for other shapes.
#[verifier::external_body]
fn json_as_array(v: &serde_json::Value) -> (r: Option<&Vec<serde_json::Value>>) {
    v.as_array()
}

/// Pulls the model's reply text out of the upstream response envelope: the
/// `text` of the first `content` item whose `type` is `"text"`. The envelope
/// is an opaque upstream shape reached only through `serde_json::Value`
/// accessors, whose intermediate values no specification can name, so this
/// function promises nothing of its result beyond memory safety and
/// termination; what the text means is the verified parser's business.
pub fn response_text(body: &[u8]) -> Option<String> {
    let v = match json_from_slice(body) {
        Some(v) => v,
        None => {
            return None;
        },
    };
    let content = match json_get(&v, "content") {
        Some(c) => c,
        None => {
            return None;
        },
    };
    let items = match json_as_array(content) {
        Some(a) => a,
        None => {
            return None;
        },
    };
    let text_kind: String = "text".to_owned();
    let n = items.len();
    let mut i: usize = 0;
    while i < n
        invariant
            n == items@.len(),
            i <= n,
        decreases n - i,
    {
        let item = &items[i];
        let is_text = match json_get(item, "type") {
            Some(t) => match json_as_str(t) {
                Some(s) => s == text_kind,
                None => false,
            },
            None => false,
        };
        if is_text {
            return match json_get(item, "text") {
                Some(t) => json_as_str(t),
                None => None,
            };
        }
        i = i + 1;
    }
    None
}

/// Why a classifier reply could not be parsed.
#[derive(Clone, Copy, Debug, PartialEq, Eq, Structural)]
pub enum ClassifierError {
    /// No `{` before a `}` anywhere in the reply text.
    NoPayload,
    /// The candidate payload is not a classification object.
    InvalidPayload,
}

/// Parses the classifier's free-text reply into a `Classification`. Success
/// is owed exactly when a candidate payload exists and decodes into the
/// strict schema, and the result is then that decode; otherwise the parse
/// fails closed with the matching error. Never fabricates a verdict.
pub fn parse_classification(text: &[u8]) -> (r: Result<Classification, ClassifierError>)
    ensures
        r is Ok <==> has_payload(text@) && classification_fields_of(
            candidate_payload(text@),
        ) is Some,
        !has_payload(text@) ==> r == Err::<Classification, ClassifierError>(
            ClassifierError::NoPayload,
        ),
        has_payload(text@) && classification_fields_of(candidate_payload(text@)) is None ==> r
            == Err::<Classification, ClassifierError>(ClassifierError::InvalidPayload),
        r matches Ok(c) ==> classification_fields_of(candidate_payload(text@)) == Some(c@),
{
    match extract_json(text) {
        None => Err(ClassifierError::NoPayload),
        Some(payload) => match decode_fields(payload.as_slice()) {
            None => Err(ClassifierError::InvalidPayload),
            Some(c) => Ok(c),
        },
    }
}

} // verus!

