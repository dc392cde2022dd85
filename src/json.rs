use vstd::prelude::*;

verus! {

/// A JSON document as a tree of plain values. Numbers keep their text;
/// an object keeps its members in the order the parser hands them out.
#[derive(Debug)]
pub enum Json {
    Null,
    Bool(bool),
    Number(String),
    Str(String),
    Array(Vec<Json>),
    Object(Vec<(String, Json)>),
}

/// The document that serde_json reads from a byte buffer, or `None` where
/// the buffer is not one JSON document.
pub uninterp spec fn json_of(bytes: Seq<u8>) -> Option<Json>;

/// serde_json's document type, opaque here: it is only converted.
#[verifier::external_type_specification]
#[verifier::external_body]
pub struct ExJsonValue(serde_json::Value);

/// Relies on the variants of `serde_json::Value`, moved one for one into the
/// library's tree, and on `Number`'s `Display` for the text of a number.
#[verifier::external_body]
fn json_from_value(v: serde_json::Value) -> Json {
    match v {
        serde_json::Value::Null => Json::Null,
        serde_json::Value::Bool(b) => Json::Bool(b),
        serde_json::Value::Number(n) => Json::Number(n.to_string()),
        serde_json::Value::String(s) => Json::Str(s),
        serde_json::Value::Array(a) => Json::Array(a.into_iter().map(json_from_value).collect()),
        serde_json::Value::Object(m) => Json::Object(
            m.into_iter().map(|(k, x)| (k, json_from_value(x))).collect(),
        ),
    }
}

/// Relies on serde_json::from_slice to parse a buffer as one JSON document.
#[verifier::external_body]
pub(crate) fn parse_json(bytes: &[u8]) -> (r: Option<Json>)
    ensures
        r == json_of(bytes@),
{
    serde_json::from_slice::<serde_json::Value>(bytes).ok().map(json_from_value)
}

/// The value of the first member of `members` named `name`.
pub open spec fn field_of(members: Seq<(String, Json)>, name: Seq<char>) -> Option<Json>
    decreases members.len(),
{
    if members.len() == 0 {
        None
    } else if members[0].0@ == name {
        Some(members[0].1)
    } else {
        field_of(members.drop_first(), name)
    }
}

/// The text of a JSON string, if `j` is one.
pub open spec fn text_of(j: Option<Json>) -> Option<Seq<char>> {
    match j {
        Some(Json::Str(s)) => Some(s@),
        _ => None,
    }
}

/// Whether two strings hold the same characters.
pub fn same_text(a: &str, b: &str) -> (r: bool)
    ensures
        r == (a@ == b@),
{
    let n = a.unicode_len();
    if n != b.unicode_len() {
        return false;
    }
    let mut i: usize = 0;
    while i < n
        invariant
            n == a@.len() == b@.len(),
            i <= n,
            a@.take(i as int) == b@.take(i as int),
        decreases n - i,
    {
        if a.get_char(i) != b.get_char(i) {
            return false;
        }
        assert(a@.take(i + 1) =~= a@.take(i as int).push(a@[i as int]));
        assert(b@.take(i + 1) =~= b@.take(i as int).push(b@[i as int]));
        i = i + 1;
    }
    assert(a@.take(n as int) =~= a@);
    assert(b@.take(n as int) =~= b@);
    true
}

proof fn lemma_field_of_skip(members: Seq<(String, Json)>, name: Seq<char>, i: int)
    requires
        0 <= i <= members.len(),
        forall|k: int| 0 <= k < i ==> members[k].0@ != name,
    ensures
        field_of(members, name) == field_of(members.subrange(i, members.len() as int), name),
    decreases i,
{
    if i == 0 {
        assert(members.subrange(0, members.len() as int) =~= members);
    } else {
        assert(members[0].0@ != name);
        assert forall|k: int| 0 <= k < i - 1 implies members.drop_first()[k].0@ != name by {
            assert(members.drop_first()[k] == members[k + 1]);
        }
        lemma_field_of_skip(members.drop_first(), name, i - 1);
        assert(members.drop_first().subrange(i - 1, members.len() - 1) =~= members.subrange(i, members.len() as int));
    }
}

/// The position of the first member named `name`.
pub fn find_field(members: &Vec<(String, Json)>, name: &str) -> (r: Option<usize>)
    ensures
        r is None ==> field_of(members@, name@) is None,
        r matches Some(i) ==> i < members@.len() && field_of(members@, name@) == Some(members@[i as int].1),
{
    let mut i: usize = 0;
    while i < members.len()
        invariant
            i <= members@.len(),
            forall|k: int| 0 <= k < i ==> members@[k].0@ != name@,
        decreases members@.len() - i,
    {
        if same_text(members[i].0.as_str(), name) {
            proof {
                lemma_field_of_skip(members@, name@, i as int);
            }
            return Some(i);
        }
        i = i + 1;
    }
    proof {
        lemma_field_of_skip(members@, name@, i as int);
    }
    None
}

} // verus!
