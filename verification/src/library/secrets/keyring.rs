//! The secrets stored in the system keyring: one JSON document, normally an
//! object of secret names to values. Reading it, and the text written back
//! by `sm secret add`, `sm secret remove` and listed by `sm secret list`.
use vstd::prelude::*;

use crate::library::utils::str_map::{sorted_keys, Duplicate, StrMap};
use crate::library::utils::text::{all_ascii, compare_keys, KeyOrder};

verus! {

/// The value of a member of the stored object.
#[derive(Debug)]
pub enum MemberValue {
    /// A JSON string: a secret.
    Text(String),
    /// Any other JSON value, as the text `serde_json` writes for it.
    Json(String),
}

/// A member value, as values.
pub enum MemberView {
    Text(Seq<char>),
    Json(Seq<char>),
}

impl View for MemberValue {
    type V = MemberView;

    open spec fn view(&self) -> MemberView {
        match self {
            MemberValue::Text(s) => MemberView::Text(s@),
            MemberValue::Json(t) => MemberView::Json(t@),
        }
    }
}

impl Duplicate for MemberValue {
    fn duplicate(&self) -> (r: MemberValue) {
        match self {
            MemberValue::Text(s) => MemberValue::Text(s.clone()),
            MemberValue::Json(t) => MemberValue::Json(t.clone()),
        }
    }
}

/// A JSON document as `serde_json` reads it into a `serde_json::Value`.
pub enum JsonDocument {
    /// An object: its members in the order in which the parsed map walks them.
    Object(Vec<(String, MemberValue)>),
    /// `null`.
    Null,
    /// Any other value, as the text `serde_json` writes for it.
    Other(String),
}

/// A JSON document, as values.
pub enum JsonDocumentView {
    Object(Seq<(Seq<char>, MemberView)>),
    Null,
    Other(Seq<char>),
}

/// The members as values.
pub open spec fn members_view(v: Seq<(String, MemberValue)>) -> Seq<(Seq<char>, MemberView)> {
    v.map_values(|e: (String, MemberValue)| (e.0@, e.1@))
}

impl View for JsonDocument {
    type V = JsonDocumentView;

    open spec fn view(&self) -> JsonDocumentView {
        match self {
            JsonDocument::Object(ms) => JsonDocumentView::Object(members_view(ms@)),
            JsonDocument::Null => JsonDocumentView::Null,
            JsonDocument::Other(t) => JsonDocumentView::Other(t@),
        }
    }
}

/// A parsed document, if any, as values.
pub open spec fn parsed_view(d: Option<JsonDocument>) -> Option<JsonDocumentView> {
    match d {
        Some(d) => Some(d@),
        None => None,
    }
}

/// The result of two `serde_json` functions: `serde_json::from_str` reads
/// `text` into a `serde_json::Value` (`None` when `text` is not JSON), and
/// `serde_json::to_string` renders again each value that is not a string.
/// For an object: its members, string values as they are, other values as
/// rendered; for `null`: `Null`; for any other value: its rendering.
pub uninterp spec fn json_document(text: Seq<char>) -> Option<JsonDocumentView>;

/// Calls two `serde_json` functions: `serde_json::from_str` into a
/// `serde_json::Value`, then `serde_json::to_string` on each value that is
/// not a string (to carry it as text). Trusted: the
/// result is `json_document(text)`; what `serde_json` accepts as JSON and
/// the text it writes are not stated. Writing a `Value` cannot fail (its
/// map keys are strings), so the empty text that would stand for an error
/// never occurs.
#[verifier::external_body]
fn parse_json(text: &str) -> (r: Option<JsonDocument>)
    ensures
        parsed_view(r) == json_document(text@),
{
    match serde_json::from_str::<serde_json::Value>(text) {
        Err(_) => None,
        Ok(serde_json::Value::Null) => Some(JsonDocument::Null),
        Ok(serde_json::Value::Object(m)) => Some(JsonDocument::Object(m.into_iter().map(|(k, v)| match v {
            serde_json::Value::String(s) => (k, MemberValue::Text(s)),
            v => (k, MemberValue::Json(serde_json::to_string(&v).unwrap_or_default())),
        }).collect())),
        Ok(v) => Some(JsonDocument::Other(serde_json::to_string(&v).unwrap_or_default())),
    }
}

/// The map of `members`; a later member wins.
pub open spec fn members_map(ms: Seq<(Seq<char>, MemberView)>) -> Map<Seq<char>, MemberView>
    decreases ms.len(),
{
    if ms.len() == 0 {
        Map::empty()
    } else {
        members_map(ms.drop_last()).insert(ms.last().0, ms.last().1)
    }
}

/// The result of two `serde_json` functions: `serde_json::from_str` reads
/// back each `Json` member's text into a `serde_json::Value`, then
/// `serde_json::to_string` writes the object with the members `members`
/// (its map walks its keys in order, so the text depends on the members
/// alone).
pub uninterp spec fn json_object_text(members: Map<Seq<char>, MemberView>) -> Seq<char>;

/// Calls two `serde_json` functions: `serde_json::from_str` on each `Json`
/// member's text, then `serde_json::to_string` on the object made of the
/// members (a later member wins, as `serde_json::Map` keeps the last value
/// inserted). Trusted: the result is `json_object_text` of the members, and
/// when every member is a string, `serde_json::from_str` reads the text
/// back as an object with exactly those members (strings are written
/// escaped and read back unescaped). The text itself is not stated. Writing
/// a `Value` cannot fail, so the empty text that would stand for an error
/// never occurs.
#[verifier::external_body]
fn write_json_object(members: &Vec<(String, MemberValue)>) -> (r: String)
    ensures
        r@ == json_object_text(members_map(members_view(members@))),
        string_members(members_map(members_view(members@))) ==> stored_view(Some(r@))
            == SecretsDocView::Object(members_map(members_view(members@))),
{
    let object: serde_json::Map<String, serde_json::Value> = members.iter().map(|(k, m)| match m {
        MemberValue::Text(s) => (k.clone(), serde_json::Value::String(s.clone())),
        MemberValue::Json(t) => (k.clone(), serde_json::from_str(t).unwrap_or(serde_json::Value::Null)),
    }).collect();
    serde_json::to_string(&serde_json::Value::Object(object)).unwrap_or_default()
}

/// Every member is a string.
pub open spec fn string_members(m: Map<Seq<char>, MemberView>) -> bool {
    forall|k: Seq<char>| #[trigger] m.contains_key(k) ==> m[k] is Text
}

/// What `str::to_uppercase` gives for `s`.
pub uninterp spec fn uppercase(s: Seq<char>) -> Seq<char>;

/// `c` with `a`-`z` made `A`-`Z`; any other character unchanged.
pub open spec fn ascii_upper(c: char) -> char {
    if 97 <= (c as int) <= 122 {
        ((c as int) - 32) as char
    } else {
        c
    }
}

/// Calls `str::to_uppercase`. Trusted: the result is `uppercase(s)`; for an
/// ASCII string it is the string with `a`-`z` made `A`-`Z` and every other
/// character unchanged (the Unicode mapping of ASCII letters). The mapping
/// of other characters is not stated.
#[verifier::external_body]
fn to_uppercase(s: &str) -> (r: String)
    ensures
        r@ == uppercase(s@),
        all_ascii(s@) ==> r@ == s@.map_values(|c: char| ascii_upper(c)),
{
    s.to_uppercase()
}

/// The stored secrets.
pub enum SecretsDoc {
    /// An object: the secrets by name (names in ascending order).
    Object(StrMap<MemberValue>),
    /// `null`.
    Null,
    /// Any other JSON value, as the text `serde_json` writes for it.
    Other(String),
}

/// The stored secrets, as values.
pub enum SecretsDocView {
    Object(Map<Seq<char>, MemberView>),
    Null,
    Other(Seq<char>),
}

impl View for SecretsDoc {
    type V = SecretsDocView;

    open spec fn view(&self) -> SecretsDocView {
        match self {
            SecretsDoc::Object(m) => SecretsDocView::Object(m@),
            SecretsDoc::Null => SecretsDocView::Null,
            SecretsDoc::Other(t) => SecretsDocView::Other(t@),
        }
    }
}

/// The stored secrets of a parsed document.
pub open spec fn doc_of(d: JsonDocumentView) -> SecretsDocView {
    match d {
        JsonDocumentView::Object(ms) => SecretsDocView::Object(members_map(ms)),
        JsonDocumentView::Null => SecretsDocView::Null,
        JsonDocumentView::Other(t) => SecretsDocView::Other(t),
    }
}

/// The map of the members `ms`; a later member wins.
fn map_of_members(ms: &Vec<(String, MemberValue)>) -> (r: StrMap<MemberValue>)
    ensures
        r@ == members_map(members_view(ms@)),
{
    let ghost mv = members_view(ms@);
    let mut r = StrMap::new();
    let mut i: usize = 0;
    while i < ms.len()
        invariant
            mv == members_view(ms@),
            i <= ms@.len(),
            r@ == members_map(mv.take(i as int)),
        decreases ms.len() - i,
    {
        proof {
            assert(mv.take(i + 1).drop_last() =~= mv.take(i as int));
            assert(mv.take(i + 1).last() == mv[i as int]);
        }
        r.insert(ms[i].0.clone(), ms[i].1.duplicate());
        i = i + 1;
    }
    assert(mv.take(ms@.len() as int) =~= mv);
    r
}

/// What `stored_secrets` reads from the keyring text `password`.
pub open spec fn stored_view(password: Option<Seq<char>>) -> SecretsDocView {
    match password {
        None => SecretsDocView::Object(Map::empty()),
        Some(p) => match json_document(p) {
            None => SecretsDocView::Object(Map::empty()),
            Some(d) => doc_of(d),
        },
    }
}

/// The stored secrets read from the keyring text `password` (`None` when
/// the keyring holds none), and whether that text was not JSON. No text,
/// or text that is not JSON, counts as the empty object.
pub fn stored_secrets(password: Option<&str>) -> (r: (SecretsDoc, bool))
    ensures
        password is None ==> r.0@ == SecretsDocView::Object(Map::empty()) && !r.1,
        password matches Some(p) ==> match json_document(p@) {
            None => r.0@ == SecretsDocView::Object(Map::empty()) && r.1,
            Some(d) => r.0@ == doc_of(d) && !r.1,
        },
        password is None ==> r.0@ == stored_view(None),
        password matches Some(p) ==> r.0@ == stored_view(Some(p@)),
{
    match password {
        None => (SecretsDoc::Object(StrMap::new()), false),
        Some(text) => match parse_json(text) {
            None => (SecretsDoc::Object(StrMap::new()), true),
            Some(JsonDocument::Object(ms)) => (SecretsDoc::Object(map_of_members(&ms)), false),
            Some(JsonDocument::Null) => (SecretsDoc::Null, false),
            Some(JsonDocument::Other(t)) => (SecretsDoc::Other(t), false),
        },
    }
}

/// The name under which `sm secret add NAME` stores a secret: `NAME` in
/// upper case.
pub fn secret_name(name: &str) -> (r: String)
    ensures
        r@ == uppercase(name@),
        all_ascii(name@) ==> r@ == name@.map_values(|c: char| ascii_upper(c)),
{
    to_uppercase(name)
}

/// The members of `m` in ascending order, leaving out `except` if given.
fn members_of(m: &StrMap<MemberValue>, except: Option<&str>) -> (v: Vec<(String, MemberValue)>)
    ensures
        members_map(members_view(v@)) == match except {
            Some(k) => m@.remove(k@),
            None => m@,
        },
{
    let n = m.len();
    let ghost ks = m.key_seq();
    let ghost target = match except {
        Some(k) => m@.remove(k@),
        None => m@,
    };
    let mut v: Vec<(String, MemberValue)> = Vec::new();
    let mut i: usize = 0;
    while i < n
        invariant
            n == ks.len(),
            ks == m.key_seq(),
            i <= n,
            forall|k: Seq<char>| m@.contains_key(k) <==> ks.contains(k),
            target == match except {
                Some(k) => m@.remove(k@),
                None => m@,
            },
            members_map(members_view(v@)) == target.restrict(ks.take(i as int).to_set()),
        decreases n - i,
    {
        let key = m.key_at(i);
        let ghost s0 = ks.take(i as int).to_set();
        let ghost s1 = ks.take(i + 1).to_set();
        proof {
            assert(ks.take(i + 1) =~= ks.take(i as int).push(ks[i as int]));
            ks.take(i as int).lemma_push_to_set_commute(ks[i as int]);
            assert(s1 =~= s0.insert(ks[i as int]));
            assert(ks.contains(ks[i as int]));
        }
        let skip = match except {
            Some(k) => compare_keys(key.as_str(), k) == KeyOrder::Equal,
            None => false,
        };
        if skip {
            proof {
                assert(target.restrict(s1) =~= target.restrict(s0));
            }
        } else {
            let ghost before = members_view(v@);
            v.push((key.clone(), m.value_at(i).duplicate()));
            proof {
                assert(members_view(v@).drop_last() =~= before);
                assert(m@.contains_key(ks[i as int]));
                assert(target.restrict(s1) =~= target.restrict(s0).insert(
                    ks[i as int],
                    target[ks[i as int]],
                ));
            }
        }
        i = i + 1;
    }
    proof {
        assert(ks.take(n as int) =~= ks);
        assert(target.restrict(ks.to_set()) =~= target);
    }
    v
}

/// The text stored when every secret is removed: the empty object.
pub fn no_secrets() -> (r: String)
    ensures
        r@ == json_object_text(Map::empty()),
        stored_view(Some(r@)) == SecretsDocView::Object(Map::empty()),
{
    let v: Vec<(String, MemberValue)> = Vec::new();
    assert(members_map(members_view(v@)) =~= Map::<Seq<char>, MemberView>::empty());
    write_json_object(&v)
}

/// The secrets of `doc` with the secret `name` (upper-cased) set to
/// `value`. A `null` document counts as the empty object.
pub open spec fn doc_with(doc: SecretsDocView, name: Seq<char>, value: Seq<char>) -> Map<
    Seq<char>,
    MemberView,
> {
    match doc {
        SecretsDocView::Object(m) => m.insert(uppercase(name), MemberView::Text(value)),
        _ => Map::empty().insert(uppercase(name), MemberView::Text(value)),
    }
}

/// The text stored by `sm secret add NAME VALUE`: the stored secrets with
/// `NAME` in upper case set to `VALUE`. A document that is JSON but neither
/// an object nor `null` cannot take a member, so it is left out.
pub fn with_secret(doc: &SecretsDoc, name: &str, value: &str) -> (r: String)
    requires
        !(doc@ is Other),
    ensures
        r@ == json_object_text(doc_with(doc@, name@, value@)),
        string_members(doc_with(doc@, name@, value@)) ==> stored_view(Some(r@))
            == SecretsDocView::Object(doc_with(doc@, name@, value@)),
{
    let upper = to_uppercase(name);
    let mut m: StrMap<MemberValue> = match doc {
        SecretsDoc::Object(m) => m.copy(),
        _ => StrMap::new(),
    };
    m.insert(upper, MemberValue::Text(value.to_owned()));
    let v = members_of(&m, None);
    write_json_object(&v)
}

/// The text stored by `sm secret remove NAME`: the stored object without
/// `NAME` in upper case; a document that is not an object is written back
/// as it was read.
pub open spec fn doc_without_text(doc: SecretsDocView, name: Seq<char>) -> Seq<char> {
    match doc {
        SecretsDocView::Object(m) => json_object_text(m.remove(uppercase(name))),
        SecretsDocView::Null => "null"@,
        SecretsDocView::Other(t) => t,
    }
}

/// The text stored by `sm secret remove NAME`.
pub fn without_secret(doc: &SecretsDoc, name: &str) -> (r: String)
    ensures
        r@ == doc_without_text(doc@, name@),
        doc@ is Object && string_members(doc@->Object_0) ==> stored_view(Some(r@))
            == SecretsDocView::Object(doc@->Object_0.remove(uppercase(name@))),
{
    match doc {
        SecretsDoc::Object(m) => {
            let upper = to_uppercase(name);
            let v = members_of(m, Some(upper.as_str()));
            assert(string_members(m@) ==> string_members(m@.remove(upper@)));
            write_json_object(&v)
        },
        SecretsDoc::Null => "null".to_owned(),
        SecretsDoc::Other(t) => t.clone(),
    }
}

/// The names of the stored secrets, as `sm secret list` prints them: in
/// ascending order, each once. Only an object has names.
pub fn secret_names(doc: &SecretsDoc) -> (r: Vec<String>)
    requires
        doc@ is Object,
    ensures
        sorted_keys(r@.map_values(|s: String| s@)),
        forall|k: Seq<char>|
            r@.map_values(|s: String| s@).contains(k) <==> doc@->Object_0.contains_key(k),
{
    match doc {
        SecretsDoc::Object(m) => {
            let n = m.len();
            let ghost ks = m.key_seq();
            let mut r: Vec<String> = Vec::new();
            let mut i: usize = 0;
            while i < n
                invariant
                    n == ks.len(),
                    ks == m.key_seq(),
                    i <= n,
                    r@.map_values(|s: String| s@) == ks.take(i as int),
                decreases n - i,
            {
                let ghost before = r@.map_values(|s: String| s@);
                r.push(m.key_at(i).clone());
                assert(r@.map_values(|s: String| s@) =~= before.push(ks[i as int]));
                assert(ks.take(i + 1) =~= ks.take(i as int).push(ks[i as int]));
                i = i + 1;
            }
            assert(ks.take(n as int) =~= ks);
            r
        },
        _ => Vec::new(),
    }
}

} // verus!
