//! JSON values.
//!
//! [`Json`] is the tree that the rest of the library reads and builds. Parsing
//! and printing are serde_json's: a text becomes a [`serde_json::Value`],
//! which is taken apart node by node into a [`Json`], and back.

use vstd::prelude::*;
use crate::text::str_eq;

verus! {

// ---------------------------------------------------------------------------
// the outside types
// ---------------------------------------------------------------------------

/// `serde_json::Value`: a parsed JSON document.
#[verifier::external_type_specification]
#[verifier::external_body]
pub struct ExValue(serde_json::Value);

/// `serde_json::Number`: an unsigned, a negative or a floating-point number.
#[verifier::external_type_specification]
#[verifier::external_body]
pub struct ExNumber(serde_json::Number);

/// `serde_json::Error`: why a text is not JSON.
#[verifier::external_type_specification]
#[verifier::external_body]
pub struct ExError(serde_json::Error);

/// What a `serde_json::Value` holds.
pub uninterp spec fn value_content(v: serde_json::Value) -> JsonView;

/// What a `serde_json::Number` holds.
pub uninterp spec fn number_content(n: serde_json::Number) -> JsonNumber;

/// What `serde_json::from_str` reads from a text; the message of its error
/// where the text is not one JSON document.
pub uninterp spec fn json_of_text(text: Seq<char>) -> Result<JsonView, Seq<char>>;

/// The message that `Display` of a `serde_json::Error` writes.
pub uninterp spec fn error_message(e: serde_json::Error) -> Seq<char>;

/// The compact text that `serde_json::Value`'s `Display` writes.
pub uninterp spec fn text_of_json(v: JsonView) -> Seq<char>;

/// The indented text that `serde_json::to_string_pretty` writes; `None` where
/// it reports an error.
pub uninterp spec fn pretty_text_of_json(v: JsonView) -> Option<Seq<char>>;

// ---------------------------------------------------------------------------
// the model
// ---------------------------------------------------------------------------

/// What a JSON number says. A floating-point number is itself.
pub enum JsonNumber {
    Unsigned(u64),
    Negative(i64),
    Float(serde_json::Number),
}

/// A JSON value. Where a key stands twice in an object, the later entry counts.
#[derive(Debug, PartialEq)]
pub enum Json {
    Null,
    Bool(bool),
    Number(serde_json::Number),
    Text(String),
    Array(Vec<Json>),
    Object(Vec<(String, Json)>),
}

/// What a [`Json`] says: an object is the map from its keys to its values.
#[verifier::ext_equal]
pub enum JsonView {
    Null,
    Bool(bool),
    Number(JsonNumber),
    Text(Seq<char>),
    Array(Seq<JsonView>),
    Object(Map<Seq<char>, JsonView>),
}

/// The map that a list of entries stands for: later entries replace earlier
/// ones of the same key.
pub open spec fn entries_map(e: Seq<(Seq<char>, JsonView)>) -> Map<Seq<char>, JsonView>
    decreases e.len(),
{
    if e.len() == 0 {
        Map::empty()
    } else {
        entries_map(e.drop_last()).insert(e.last().0, e.last().1)
    }
}

/// The view of a [`Json`].
pub open spec fn json_view(j: Json) -> JsonView
    decreases j,
{
    match j {
        Json::Null => JsonView::Null,
        Json::Bool(b) => JsonView::Bool(b),
        Json::Number(n) => JsonView::Number(number_content(n)),
        Json::Text(s) => JsonView::Text(s@),
        Json::Array(a) => JsonView::Array(json_views(a@)),
        Json::Object(o) => JsonView::Object(entries_map(json_entries(o@))),
    }
}

/// The views of a list of values.
pub open spec fn json_views(s: Seq<Json>) -> Seq<JsonView>
    decreases s,
{
    Seq::new(
        s.len(),
        |i: int|
            if 0 <= i < s.len() {
                json_view(s[i])
            } else {
                arbitrary()
            },
    )
}

/// The views of a list of entries.
pub open spec fn json_entries(s: Seq<(String, Json)>) -> Seq<(Seq<char>, JsonView)>
    decreases s,
{
    Seq::new(
        s.len(),
        |i: int|
            if 0 <= i < s.len() {
                (s[i].0@, json_view(s[i].1))
            } else {
                arbitrary()
            },
    )
}

impl View for Json {
    type V = JsonView;

    open spec fn view(&self) -> JsonView {
        json_view(*self)
    }
}

impl JsonView {
    /// The value of `key`, where this is an object that has it.
    pub open spec fn get(self, key: Seq<char>) -> Option<JsonView> {
        match self {
            JsonView::Object(m) => if m.dom().contains(key) {
                Some(m[key])
            } else {
                None
            },
            _ => None,
        }
    }

    /// The text, where this is a string.
    pub open spec fn as_str(self) -> Option<Seq<char>> {
        match self {
            JsonView::Text(s) => Some(s),
            _ => None,
        }
    }

    /// The number, where this is an unsigned integer.
    pub open spec fn as_u64(self) -> Option<u64> {
        match self {
            JsonView::Number(JsonNumber::Unsigned(n)) => Some(n),
            _ => None,
        }
    }

    /// The elements, where this is an array.
    pub open spec fn as_array(self) -> Option<Seq<JsonView>> {
        match self {
            JsonView::Array(a) => Some(a),
            _ => None,
        }
    }

    /// The text of the string under `key`.
    pub open spec fn str_at(self, key: Seq<char>) -> Option<Seq<char>> {
        match self.get(key) {
            Some(v) => v.as_str(),
            None => None,
        }
    }

    /// The unsigned integer under `key`.
    pub open spec fn u64_at(self, key: Seq<char>) -> Option<u64> {
        match self.get(key) {
            Some(v) => v.as_u64(),
            None => None,
        }
    }

    /// The elements of the array under `key`.
    pub open spec fn array_at(self, key: Seq<char>) -> Option<Seq<JsonView>> {
        match self.get(key) {
            Some(v) => v.as_array(),
            None => None,
        }
    }
}

/// The number that stands for a signed integer.
pub open spec fn integer(i: int) -> JsonNumber {
    if i >= 0 {
        JsonNumber::Unsigned(i as u64)
    } else {
        JsonNumber::Negative(i as i64)
    }
}

// ---------------------------------------------------------------------------
// reading a value
// ---------------------------------------------------------------------------

/// `clone` of `serde_json::Number` copies the number.
pub assume_specification[ <serde_json::Number as Clone>::clone ](
    n: &serde_json::Number,
) -> (r: serde_json::Number)
    ensures
        r == *n,
;

impl Clone for Json {
    fn clone(&self) -> (r: Self)
        ensures
            r@ == self@,
        decreases self,
    {
        match self {
            Json::Null => Json::Null,
            Json::Bool(b) => Json::Bool(*b),
            Json::Number(n) => Json::Number(n.clone()),
            Json::Text(s) => Json::Text(s.clone()),
            Json::Array(a) => {
                let mut out: Vec<Json> = Vec::new();
                for i in 0..a.len()
                    invariant
                        out.len() == i,
                        self matches Json::Array(b) && *a == b,
                        forall|k: int| 0 <= k < i ==> (#[trigger] out@[k])@ == a@[k]@,
                {
                    out.push(a[i].clone());
                }
                assert(json_views(out@) =~= json_views(a@));
                Json::Array(out)
            },
            Json::Object(o) => {
                let mut out: Vec<(String, Json)> = Vec::new();
                for i in 0..o.len()
                    invariant
                        out.len() == i,
                        self matches Json::Object(b) && *o == b,
                        forall|k: int|
                            0 <= k < i ==> (#[trigger] out@[k]).0@ == o@[k].0@ && out@[k].1@
                                == o@[k].1@,
                {
                    out.push((o[i].0.clone(), o[i].1.clone()));
                }
                assert(json_entries(out@) =~= json_entries(o@));
                Json::Object(out)
            },
        }
    }
}

/// The entries before position `n` hold `key` at `at` and nowhere later.
pub proof fn lemma_entries_lookup(e: Seq<(Seq<char>, JsonView)>, key: Seq<char>, at: int)
    requires
        -1 <= at < e.len(),
        at >= 0 ==> e[at].0 == key,
        forall|k: int| at < k < e.len() ==> (#[trigger] e[k]).0 != key,
    ensures
        at >= 0 ==> entries_map(e).dom().contains(key) && entries_map(e)[key] == e[at].1,
        at < 0 ==> !entries_map(e).dom().contains(key),
    decreases e.len(),
{
    if e.len() > 0 && at < e.len() - 1 {
        assert(e[e.len() - 1].0 != key);
        assert forall|k: int| at < k < e.drop_last().len() implies (#[trigger] e.drop_last()[k]).0
            != key by {
            assert(e.drop_last()[k] == e[k]);
        }
        lemma_entries_lookup(e.drop_last(), key, at);
    }
}

/// What a map holds under a key stands among the entries.
pub proof fn lemma_entry_of_key(e: Seq<(Seq<char>, JsonView)>, key: Seq<char>)
    ensures
        entries_map(e).dom().contains(key) ==> exists|i: int|
            0 <= i < e.len() && #[trigger] e[i] == (key, entries_map(e)[key]),
    decreases e.len(),
{
    if e.len() > 0 && entries_map(e).dom().contains(key) {
        if e.last().0 == key {
            assert(e[e.len() - 1] == (key, entries_map(e)[key]));
        } else {
            lemma_entry_of_key(e.drop_last(), key);
            let i = choose|i: int|
                0 <= i < e.drop_last().len() && #[trigger] e.drop_last()[i] == (
                    key,
                    entries_map(e.drop_last())[key],
                );
            assert(e[i] == (key, entries_map(e)[key]));
        }
    }
}

impl Json {
    /// The value of `key`, where this is an object that has it.
    pub fn get(&self, key: &str) -> (r: Option<&Json>)
        ensures
            match r {
                Some(v) => self@.get(key@) == Some(v@),
                None => self@.get(key@) is None,
            },
    {
        match self {
            Json::Object(o) => {
                let ghost e = json_entries(o@);
                let mut i: usize = o.len();
                while i > 0
                    invariant
                        i <= o@.len(),
                        e == json_entries(o@),
                        forall|k: int| i <= k < e.len() ==> (#[trigger] e[k]).0 != key@,
                        self@ == JsonView::Object(entries_map(e)),
                    decreases i,
                {
                    i = i - 1;
                    if str_eq(o[i].0.as_str(), key) {
                        proof {
                            assert(e[i as int].0 == key@);
                            lemma_entries_lookup(e, key@, i as int);
                        }
                        return Some(&o[i].1);
                    }
                }
                proof {
                    lemma_entries_lookup(e, key@, -1);
                }
                None
            },
            _ => None,
        }
    }

    /// The text, where this is a string.
    pub fn as_str(&self) -> (r: Option<&str>)
        ensures
            match r {
                Some(s) => self@.as_str() == Some(s@),
                None => self@.as_str() is None,
            },
    {
        match self {
            Json::Text(s) => Some(s.as_str()),
            _ => None,
        }
    }

    /// The number, where this is an unsigned integer.
    pub fn as_u64(&self) -> (r: Option<u64>)
        ensures
            r == self@.as_u64(),
    {
        match self {
            Json::Number(n) => number_as_u64(n),
            _ => None,
        }
    }

    /// The elements, where this is an array.
    pub fn as_array(&self) -> (r: Option<&Vec<Json>>)
        ensures
            match r {
                Some(a) => self@.as_array() == Some(json_views(a@)),
                None => self@.as_array() is None,
            },
    {
        match self {
            Json::Array(a) => Some(a),
            _ => None,
        }
    }

    /// The text of the string under `key`.
    pub fn str_at(&self, key: &str) -> (r: Option<&str>)
        ensures
            match r {
                Some(s) => self@.str_at(key@) == Some(s@),
                None => self@.str_at(key@) is None,
            },
    {
        match self.get(key) {
            Some(v) => v.as_str(),
            None => None,
        }
    }

    /// The unsigned integer under `key`.
    pub fn u64_at(&self, key: &str) -> (r: Option<u64>)
        ensures
            r == self@.u64_at(key@),
    {
        match self.get(key) {
            Some(v) => v.as_u64(),
            None => None,
        }
    }

    /// The elements of the array under `key`.
    pub fn array_at(&self, key: &str) -> (r: Option<&Vec<Json>>)
        ensures
            match r {
                Some(a) => self@.array_at(key@) == Some(json_views(a@)),
                None => self@.array_at(key@) is None,
            },
    {
        match self.get(key) {
            Some(v) => v.as_array(),
            None => None,
        }
    }

    /// A string.
    pub fn text(s: &str) -> (r: Json)
        ensures
            r@ == JsonView::Text(s@),
    {
        Json::Text(s.to_owned())
    }

    /// An unsigned integer.
    pub fn unsigned(n: u64) -> (r: Json)
        ensures
            r@ == JsonView::Number(JsonNumber::Unsigned(n)),
    {
        Json::Number(number_from_u64(n))
    }

    /// A signed integer.
    pub fn signed(n: i64) -> (r: Json)
        ensures
            r@ == JsonView::Number(integer(n as int)),
    {
        Json::Number(number_from_i64(n))
    }

    /// An array of strings.
    pub fn texts(v: &Vec<String>) -> (r: Json)
        ensures
            r@ == JsonView::Array(text_values(crate::text::views(v@))),
    {
        let mut out: Vec<Json> = Vec::new();
        for i in 0..v.len()
            invariant
                out.len() == i,
                forall|k: int| 0 <= k < i ==> (#[trigger] out@[k])@ == JsonView::Text(v@[k]@),
        {
            out.push(Json::Text(v[i].clone()));
        }
        assert(json_views(out@) =~= text_values(crate::text::views(v@)));
        Json::Array(out)
    }

    /// The object that `entries` stands for.
    pub fn object(entries: Vec<(String, Json)>) -> (r: Json)
        ensures
            r@ == JsonView::Object(entries_map(json_entries(entries@))),
    {
        Json::Object(entries)
    }
}

// ---------------------------------------------------------------------------
// from and to text
// ---------------------------------------------------------------------------

/// One node of a `serde_json::Value`, its children still outside values.
pub enum Node {
    Null,
    Bool(bool),
    Number(serde_json::Number),
    Text(String),
    Array(Vec<serde_json::Value>),
    Object(Vec<(String, serde_json::Value)>),
}

/// What the elements of an array node hold.
pub open spec fn value_contents(s: Seq<serde_json::Value>) -> Seq<JsonView> {
    Seq::new(s.len(), |i: int| value_content(s[i]))
}

/// What the entries of an object node hold.
pub open spec fn entry_contents(s: Seq<(String, serde_json::Value)>) -> Seq<
    (Seq<char>, JsonView),
> {
    Seq::new(s.len(), |i: int| (s[i].0@, value_content(s[i].1)))
}

/// Whether no key stands twice.
pub open spec fn distinct_keys(e: Seq<(Seq<char>, JsonView)>) -> bool {
    forall|i: int, j: int| 0 <= i < j < e.len() ==> (#[trigger] e[i]).0 != (#[trigger] e[j]).0
}

/// What a node holds.
pub open spec fn node_content(n: Node) -> JsonView {
    match n {
        Node::Null => JsonView::Null,
        Node::Bool(b) => JsonView::Bool(b),
        Node::Number(n) => JsonView::Number(number_content(n)),
        Node::Text(s) => JsonView::Text(s@),
        Node::Array(a) => JsonView::Array(value_contents(a@)),
        Node::Object(o) => JsonView::Object(entries_map(entry_contents(o@))),
    }
}

/// The keys of an object node are distinct.
pub open spec fn node_ok(n: Node) -> bool {
    n matches Node::Object(o) ==> distinct_keys(entry_contents(o@))
}

/// Takes the outermost node of a `serde_json::Value` apart. The keys of a
/// `serde_json::Map` are distinct.
#[verifier::external_body]
fn open_value(v: serde_json::Value) -> (r: Node)
    ensures
        node_content(r) == value_content(v),
        node_ok(r),
{
    match v {
        serde_json::Value::Null => Node::Null,
        serde_json::Value::Bool(b) => Node::Bool(b),
        serde_json::Value::Number(n) => Node::Number(n),
        serde_json::Value::String(s) => Node::Text(s),
        serde_json::Value::Array(a) => Node::Array(a),
        serde_json::Value::Object(o) => Node::Object(o.into_iter().collect()),
    }
}

/// Puts the outermost node of a `serde_json::Value` together. An object's
/// entries become a `serde_json::Map`.
#[verifier::external_body]
fn close_value(n: Node) -> (r: serde_json::Value)
    requires
        node_ok(n),
    ensures
        value_content(r) == node_content(n),
{
    match n {
        Node::Null => serde_json::Value::Null,
        Node::Bool(b) => serde_json::Value::Bool(b),
        Node::Number(n) => serde_json::Value::Number(n),
        Node::Text(s) => serde_json::Value::String(s),
        Node::Array(a) => serde_json::Value::Array(a),
        Node::Object(o) => serde_json::Value::Object(o.into_iter().collect()),
    }
}

/// `serde_json::Number::as_u64`: the number where it is held as unsigned.
#[verifier::external_body]
fn number_as_u64(n: &serde_json::Number) -> (r: Option<u64>)
    ensures
        r == (match number_content(*n) {
            JsonNumber::Unsigned(u) => Some(u),
            _ => None,
        }),
{
    n.as_u64()
}

/// `serde_json::Number::from` of an unsigned integer.
#[verifier::external_body]
fn number_from_u64(u: u64) -> (r: serde_json::Number)
    ensures
        number_content(r) == JsonNumber::Unsigned(u),
{
    serde_json::Number::from(u)
}

/// `serde_json::Number::from` of a signed integer.
#[verifier::external_body]
fn number_from_i64(i: i64) -> (r: serde_json::Number)
    ensures
        number_content(r) == integer(i as int),
{
    serde_json::Number::from(i)
}

/// `serde_json::from_str` into a `serde_json::Value`.
#[verifier::external_body]
fn parse_value(text: &str) -> (r: Result<serde_json::Value, serde_json::Error>)
    ensures
        match r {
            Ok(v) => json_of_text(text@) == Ok::<JsonView, Seq<char>>(value_content(v)),
            Err(e) => json_of_text(text@) == Err::<JsonView, Seq<char>>(error_message(e)),
        },
{
    serde_json::from_str(text)
}

/// `Display` of `serde_json::Error`.
#[verifier::external_body]
fn error_text(e: &serde_json::Error) -> (r: String)
    ensures
        r@ == error_message(*e),
{
    e.to_string()
}

/// `Display` of `serde_json::Value`.
#[verifier::external_body]
fn value_text(v: &serde_json::Value) -> (r: String)
    ensures
        r@ == text_of_json(value_content(*v)),
{
    v.to_string()
}

/// `serde_json::to_string_pretty` of a `serde_json::Value`.
#[verifier::external_body]
fn value_pretty_text(v: &serde_json::Value) -> (r: Result<String, serde_json::Error>)
    ensures
        match r {
            Ok(s) => pretty_text_of_json(value_content(*v)) == Some(s@),
            Err(_) => pretty_text_of_json(value_content(*v)) is None,
        },
{
    serde_json::to_string_pretty(v)
}

proof fn lemma_entry_smaller(v: JsonView, e: Seq<(Seq<char>, JsonView)>, i: int)
    requires
        v == JsonView::Object(entries_map(e)),
        distinct_keys(e),
        0 <= i < e.len(),
    ensures
        decreases_to!(v => e[i].1),
{
    lemma_entries_lookup(e, e[i].0, i);
    lemma_entries_finite(e);
    let m = entries_map(e);
    assert(decreases_to!(v => v->Object_0));
    assert(decreases_to!(m => m[e[i].0]));
}

proof fn lemma_entries_finite(e: Seq<(Seq<char>, JsonView)>)
    ensures
        entries_map(e).dom().finite(),
    decreases e.len(),
{
    if e.len() > 0 {
        lemma_entries_finite(e.drop_last());
    }
}

/// The [`Json`] that a `serde_json::Value` holds.
pub fn from_value(v: serde_json::Value) -> (r: Json)
    ensures
        r@ == value_content(v),
    decreases value_content(v),
{
    let ghost whole = value_content(v);
    match open_value(v) {
        Node::Null => Json::Null,
        Node::Bool(b) => Json::Bool(b),
        Node::Number(n) => Json::Number(n),
        Node::Text(s) => Json::Text(s),
        Node::Array(a) => {
            let ghost all = a@;
            let mut out: Vec<Json> = Vec::new();
            for x in it: a
                invariant
                    it.seq() == all,
                    whole == JsonView::Array(value_contents(all)),
                    out@.len() == it.index(),
                    forall|k: int|
                        0 <= k < out@.len() ==> (#[trigger] out@[k])@ == value_content(all[k]),
                    value_content(v) == whole,
            {
                assert(decreases_to!(whole => whole->Array_0));
                assert(decreases_to!(value_contents(all) => value_contents(all)[it.index()]));
                out.push(from_value(x));
            }
            assert(json_views(out@) =~= value_contents(all));
            Json::Array(out)
        },
        Node::Object(o) => {
            let ghost all = o@;
            let mut out: Vec<(String, Json)> = Vec::new();
            for x in it: o
                invariant
                    it.seq() == all,
                    whole == JsonView::Object(entries_map(entry_contents(all))),
                    distinct_keys(entry_contents(all)),
                    out@.len() == it.index(),
                    forall|k: int|
                        0 <= k < out@.len() ==> (#[trigger] out@[k]).0@ == all[k].0@ && out@[k].1@
                            == value_content(all[k].1),
                    value_content(v) == whole,
            {
                proof {
                    lemma_entry_smaller(whole, entry_contents(all), it.index());
                }
                let (key, value) = x;
                out.push((key, from_value(value)));
            }
            assert(json_entries(out@) =~= entry_contents(all));
            Json::Object(out)
        },
    }
}

/// Replacing the value of one of several distinct keys.
proof fn lemma_entries_update(e: Seq<(Seq<char>, JsonView)>, i: int, v: JsonView)
    requires
        distinct_keys(e),
        0 <= i < e.len(),
    ensures
        entries_map(e.update(i, (e[i].0, v))) == entries_map(e).insert(e[i].0, v),
        distinct_keys(e.update(i, (e[i].0, v))),
    decreases e.len(),
{
    let u = e.update(i, (e[i].0, v));
    if i == e.len() - 1 {
        assert(u.drop_last() =~= e.drop_last());
        assert(entries_map(u) =~= entries_map(e).insert(e[i].0, v));
    } else {
        assert(e.drop_last()[i] == e[i]);
        assert forall|a: int, b: int| 0 <= a < b < e.drop_last().len() implies (
        #[trigger] e.drop_last()[a]).0 != (#[trigger] e.drop_last()[b]).0 by {
            assert(e.drop_last()[a] == e[a]);
            assert(e.drop_last()[b] == e[b]);
        }
        lemma_entries_update(e.drop_last(), i, v);
        assert(u.drop_last() =~= e.drop_last().update(i, (e[i].0, v)));
        assert(u.last() == e.last());
        assert(e.last().0 != e[i].0);
        assert(entries_map(u) =~= entries_map(e).insert(e[i].0, v));
    }
}

/// Sets the value of `key` in a list of entries whose keys are distinct.
fn set_entry(out: &mut Vec<(String, serde_json::Value)>, key: String, value: serde_json::Value)
    requires
        distinct_keys(entry_contents(old(out)@)),
    ensures
        distinct_keys(entry_contents(final(out)@)),
        entries_map(entry_contents(final(out)@)) == entries_map(entry_contents(old(out)@)).insert(
            key@,
            value_content(value),
        ),
{
    let ghost e = entry_contents(out@);
    let mut i: usize = 0;
    while i < out.len()
        invariant
            i <= out@.len(),
            out@ == old(out)@,
            e == entry_contents(out@),
            distinct_keys(e),
            forall|k: int| 0 <= k < i ==> (#[trigger] e[k]).0 != key@,
        decreases out@.len() - i,
    {
        if str_eq(out[i].0.as_str(), key.as_str()) {
            let ghost content = value_content(value);
            proof {
                assert(e[i as int].0 == key@);
                lemma_entries_update(e, i as int, content);
            }
            out.set(i, (key, value));
            assert(entry_contents(out@) =~= e.update(i as int, (e[i as int].0, content)));
            return ;
        }
        i = i + 1;
    }
    let ghost pair = (key@, value_content(value));
    out.push((key, value));
    assert(entry_contents(out@) =~= e.push(pair));
    assert(e.push(pair).drop_last() =~= e);
    assert forall|a: int, b: int| 0 <= a < b < e.push(pair).len() implies (
    #[trigger] e.push(pair)[a]).0 != (#[trigger] e.push(pair)[b]).0 by {
        assert(e.push(pair)[a] == e[a]);
        if b < e.len() {
            assert(e.push(pair)[b] == e[b]);
        }
    }
}

/// The `serde_json::Value` that holds a [`Json`].
pub fn to_value(j: &Json) -> (r: serde_json::Value)
    ensures
        value_content(r) == j@,
    decreases j,
{
    match j {
        Json::Null => close_value(Node::Null),
        Json::Bool(b) => close_value(Node::Bool(*b)),
        Json::Number(n) => close_value(Node::Number(n.clone())),
        Json::Text(s) => close_value(Node::Text(s.clone())),
        Json::Array(a) => {
            let mut out: Vec<serde_json::Value> = Vec::new();
            for i in 0..a.len()
                invariant
                    out.len() == i,
                    j matches Json::Array(b) && *a == b,
                    forall|k: int| 0 <= k < i ==> value_content(#[trigger] out@[k]) == a@[k]@,
            {
                out.push(to_value(&a[i]));
            }
            assert(value_contents(out@) =~= json_views(a@));
            close_value(Node::Array(out))
        },
        Json::Object(o) => {
            let mut out: Vec<(String, serde_json::Value)> = Vec::new();
            assert(entry_contents(out@) =~= seq![]);
            assert(json_entries(o@).take(0) =~= seq![]);
            for i in 0..o.len()
                invariant
                    j matches Json::Object(b) && *o == b,
                    distinct_keys(entry_contents(out@)),
                    entries_map(entry_contents(out@)) == entries_map(
                        json_entries(o@).take(i as int),
                    ),
            {
                let value = to_value(&o[i].1);
                set_entry(&mut out, o[i].0.clone(), value);
                let ghost next = json_entries(o@).take(i + 1);
                assert(next.drop_last() =~= json_entries(o@).take(i as int));
                assert(next.last() == json_entries(o@)[i as int]);
            }
            assert(json_entries(o@).take(o@.len() as int) =~= json_entries(o@));
            close_value(Node::Object(out))
        },
    }
}

/// Reads one JSON document; says why a text is none.
pub fn read(text: &str) -> (r: Result<Json, String>)
    ensures
        match r {
            Ok(j) => json_of_text(text@) == Ok::<JsonView, Seq<char>>(j@),
            Err(m) => json_of_text(text@) == Err::<JsonView, Seq<char>>(m@),
        },
{
    match parse_value(text) {
        Ok(v) => Ok(from_value(v)),
        Err(e) => Err(error_text(&e)),
    }
}

/// The JSON document that a text is, if it is one.
pub open spec fn parsed(text: Seq<char>) -> Option<JsonView> {
    match json_of_text(text) {
        Ok(v) => Some(v),
        Err(_) => None,
    }
}

/// Reads one JSON document.
pub fn parse(text: &str) -> (r: Option<Json>)
    ensures
        crate::text::opt_view(r) == parsed(text@),
{
    match parse_value(text) {
        Ok(v) => Some(from_value(v)),
        Err(_) => None,
    }
}

/// Writes a value without white space.
pub fn print(j: &Json) -> (r: String)
    ensures
        r@ == text_of_json(j@),
{
    value_text(&to_value(j))
}

/// Writes a value with indentation; `None` where serde_json reports an error.
pub fn print_pretty(j: &Json) -> (r: Option<String>)
    ensures
        match r {
            Some(s) => pretty_text_of_json(j@) == Some(s@),
            None => pretty_text_of_json(j@) is None,
        },
{
    match value_pretty_text(&to_value(j)) {
        Ok(s) => Some(s),
        Err(_) => None,
    }
}

// ---------------------------------------------------------------------------
// building
// ---------------------------------------------------------------------------

/// The object that a list of entries stands for.
pub open spec fn object_of(e: Seq<(Seq<char>, JsonView)>) -> JsonView {
    JsonView::Object(entries_map(e))
}

/// The unsigned integer `n`.
pub open spec fn number_of(n: u64) -> JsonView {
    JsonView::Number(JsonNumber::Unsigned(n))
}

/// An object without entries, to be filled.
pub fn no_entries() -> (r: Vec<(String, Json)>)
    ensures
        json_entries(r@) == Seq::<(Seq<char>, JsonView)>::empty(),
{
    let r: Vec<(String, Json)> = Vec::new();
    assert(json_entries(r@) =~= seq![]);
    r
}

/// Adds an entry.
pub fn put(entries: &mut Vec<(String, Json)>, key: &str, value: Json)
    ensures
        json_entries(final(entries)@) == json_entries(old(entries)@).push((key@, value@)),
{
    entries.push((key.to_owned(), value));
    assert(json_entries(entries@) =~= json_entries(old(entries)@).push((key@, value@)));
}

/// Whether the entries stand in the order of their keys, no key twice.
pub open spec fn ordered_keys(e: Seq<(Seq<char>, JsonView)>) -> bool {
    &&& distinct_keys(e)
    &&& forall|i: int, j: int|
        0 <= i < j < e.len() ==> crate::text::precedes(
            None,
            (#[trigger] e[i]).0,
            (#[trigger] e[j]).0,
        )
}

/// The entries with one more at position `at`.
proof fn lemma_entries_insert(
    e: Seq<(Seq<char>, JsonView)>,
    at: int,
    key: Seq<char>,
    value: JsonView,
)
    requires
        0 <= at <= e.len(),
        forall|i: int| 0 <= i < e.len() ==> (#[trigger] e[i]).0 != key,
    ensures
        entries_map(e.insert(at, (key, value))) == entries_map(e).insert(key, value),
    decreases e.len(),
{
    let n = e.insert(at, (key, value));
    if at == e.len() {
        assert(n.drop_last() =~= e);
    } else {
        let before = e.drop_last();
        assert forall|i: int| 0 <= i < before.len() implies (#[trigger] before[i]).0 != key by {
            assert(before[i] == e[i]);
        }
        lemma_entries_insert(before, at, key, value);
        assert(n.drop_last() =~= before.insert(at, (key, value)));
        assert(n.last() == e.last());
        assert(e.last().0 != key);
        assert(entries_map(n) =~= entries_map(e).insert(key, value));
    }
}

/// Sets the value of `key` among entries in the order of their keys: in its
/// place where the key is there, else where it belongs.
pub fn set(entries: &mut Vec<(String, Json)>, key: &str, value: Json)
    requires
        ordered_keys(json_entries(old(entries)@)),
    ensures
        ordered_keys(json_entries(final(entries)@)),
        entries_map(json_entries(final(entries)@)) == entries_map(
            json_entries(old(entries)@),
        ).insert(key@, value@),
{
    let ghost e = json_entries(entries@);
    let mut at: usize = 0;
    while at < entries.len() && !crate::text::comes_before(None, key, entries[at].0.as_str())
        invariant
            at <= entries@.len(),
            entries@ == old(entries)@,
            e == json_entries(entries@),
            forall|k: int|
                0 <= k < at ==> !crate::text::precedes(None, key@, (#[trigger] e[k]).0),
        decreases entries@.len() - at,
    {
        assert(e[at as int].0 == entries@[at as int].0@);
        at = at + 1;
    }
    let ghost pair = (key@, value@);
    proof {
        assert forall|k: int| 0 <= k < at implies (#[trigger] e[k]).0 != key@
            && crate::text::precedes(None, e[k].0, key@) by {
            crate::text::lemma_precedes_total(None, key@, e[k].0);
        }
        if at < e.len() {
            assert(e[at as int].0 == entries@[at as int].0@);
            assert forall|k: int| at <= k < e.len() implies crate::text::precedes(
                None,
                key@,
                (#[trigger] e[k]).0,
            ) by {
                if k > at {
                    crate::text::lemma_precedes_transitive(None, key@, e[at as int].0, e[k].0);
                }
            }
        }
    }
    if at < entries.len() && str_eq(entries[at].0.as_str(), key) {
        proof {
            lemma_entries_update(e, at as int, value@);
        }
        entries.set(at, (key.to_owned(), value));
        assert(json_entries(entries@) =~= e.update(at as int, pair));
        assert forall|i: int, j: int| 0 <= i < j < e.len() implies crate::text::precedes(
            None,
            (#[trigger] e.update(at as int, pair)[i]).0,
            (#[trigger] e.update(at as int, pair)[j]).0,
        ) by {
            assert(e.update(at as int, pair)[i].0 == e[i].0);
            assert(e.update(at as int, pair)[j].0 == e[j].0);
        }
    } else {
        let ghost n = e.insert(at as int, pair);
        proof {
            assert forall|k: int| 0 <= k < e.len() implies (#[trigger] e[k]).0 != key@ by {
                if k > at && e[k].0 == key@ {
                    crate::text::lemma_precedes_antisymmetric(None, e[at as int].0, e[k].0);
                }
            }
            lemma_entries_insert(e, at as int, key@, value@);
        }
        entries.insert(at, (key.to_owned(), value));
        assert(json_entries(entries@) =~= n);
        assert forall|i: int, j: int| 0 <= i < j < n.len() implies (#[trigger] n[i]).0 != (
        #[trigger] n[j]).0 && crate::text::precedes(None, n[i].0, n[j].0) by {
            if i < at {
                assert(n[i] == e[i]);
            } else if i > at {
                assert(n[i] == e[i - 1]);
            }
            if j < at {
                assert(n[j] == e[j]);
            } else if j > at {
                assert(n[j] == e[j - 1]);
            }
        }
    }
}

/// The entries that count, in the order of their keys: of those with one key
/// the last.
pub fn settled(entries: &Vec<(String, Json)>) -> (r: Vec<(String, Json)>)
    ensures
        ordered_keys(json_entries(r@)),
        entries_map(json_entries(r@)) == entries_map(json_entries(entries@)),
{
    let ghost all = json_entries(entries@);
    let mut out = no_entries();
    assert(all.take(0) =~= seq![]);
    for i in 0..entries.len()
        invariant
            all == json_entries(entries@),
            ordered_keys(json_entries(out@)),
            entries_map(json_entries(out@)) == entries_map(all.take(i as int)),
    {
        assert(all.take(i + 1).drop_last() =~= all.take(i as int));
        assert(all.take(i + 1).last() == (entries@[i as int].0@, entries@[i as int].1@));
        set(&mut out, entries[i].0.as_str(), entries[i].1.clone());
    }
    assert(all.take(all.len() as int) =~= all);
    out
}

/// Adds an element.
pub fn push_value(values: &mut Vec<Json>, value: Json)
    ensures
        json_views(final(values)@) == json_views(old(values)@).push(value@),
{
    values.push(value);
    assert(json_views(values@) =~= json_views(old(values)@).push(value@));
}

/// An array without elements, to be filled.
pub fn no_values() -> (r: Vec<Json>)
    ensures
        json_views(r@) == Seq::<JsonView>::empty(),
{
    let r: Vec<Json> = Vec::new();
    assert(json_views(r@) =~= seq![]);
    r
}

/// Strings as JSON values.
pub open spec fn text_values(s: Seq<Seq<char>>) -> Seq<JsonView> {
    Seq::new(s.len(), |i: int| JsonView::Text(s[i]))
}

// ---------------------------------------------------------------------------
// laws
// ---------------------------------------------------------------------------

proof fn lemma_last_key(a: Seq<(Seq<char>, JsonView)>, b: Seq<(Seq<char>, JsonView)>)
    requires
        ordered_keys(a),
        ordered_keys(b),
        entries_map(a) == entries_map(b),
        a.len() > 0,
    ensures
        b.len() > 0,
        crate::text::precedes(None, a.last().0, b.last().0),
{
    let key = a.last().0;
    assert(entries_map(a).dom().contains(key));
    lemma_entry_of_key(b, key);
    let j = choose|j: int| 0 <= j < b.len() && #[trigger] b[j] == (key, entries_map(b)[key]);
    if j < b.len() - 1 {
        assert(crate::text::precedes(None, b[j].0, b[b.len() - 1].0));
    } else {
        crate::text::lemma_precedes_total(None, key, key);
    }
}

/// An object has its entries in the order of their keys in one way only.
pub proof fn law_ordered_entries_are_unique(
    a: Seq<(Seq<char>, JsonView)>,
    b: Seq<(Seq<char>, JsonView)>,
)
    requires
        ordered_keys(a),
        ordered_keys(b),
        entries_map(a) == entries_map(b),
    ensures
        a == b,
    decreases a.len(),
{
    if a.len() == 0 {
        if b.len() > 0 {
            assert(entries_map(b).dom().contains(b.last().0));
        }
        assert(a =~= b);
    } else {
        lemma_last_key(a, b);
        lemma_last_key(b, a);
        crate::text::lemma_precedes_antisymmetric(None, a.last().0, b.last().0);
        let key = a.last().0;
        assert(entries_map(a)[key] == a.last().1);
        assert(entries_map(b)[key] == b.last().1);
        lemma_entries_lookup(a.drop_last(), key, -1);
        lemma_entries_lookup(b.drop_last(), key, -1);
        assert(entries_map(a.drop_last()) =~= entries_map(a).remove(key));
        assert(entries_map(b.drop_last()) =~= entries_map(b).remove(key));
        law_ordered_entries_are_unique(a.drop_last(), b.drop_last());
        assert(a =~= a.drop_last().push(a.last()));
        assert(b =~= b.drop_last().push(b.last()));
    }
}

/// An object holds what was put into it: each of its entries is found under its
/// key, and no other key is.
pub proof fn law_object_holds_its_entries(e: Seq<(Seq<char>, JsonView)>, i: int)
    requires
        distinct_keys(e),
        0 <= i < e.len(),
    ensures
        object_of(e).get(e[i].0) == Some(e[i].1),
        forall|key: Seq<char>|
            (forall|k: int| 0 <= k < e.len() ==> (#[trigger] e[k]).0 != key)
                ==> #[trigger] object_of(e).get(key) is None,
{
    assert forall|k: int| i < k < e.len() implies (#[trigger] e[k]).0 != e[i].0 by {
        assert(e[i].0 != e[k].0);
    }
    lemma_entries_lookup(e, e[i].0, i);
    assert forall|key: Seq<char>|
        (forall|k: int| 0 <= k < e.len() ==> (#[trigger] e[k]).0 != key) implies
        #[trigger] object_of(e).get(key) is None by {
        lemma_entries_lookup(e, key, -1);
    }
}

/// Of two entries with one key the later counts, and other keys are left alone.
pub proof fn law_later_entry_counts(
    e: Seq<(Seq<char>, JsonView)>,
    key: Seq<char>,
    value: JsonView,
    other: Seq<char>,
)
    ensures
        object_of(e.push((key, value))).get(key) == Some(value),
        other != key ==> object_of(e.push((key, value))).get(other) == object_of(e).get(other),
{
    assert(e.push((key, value)).drop_last() =~= e);
}

/// A value is what it was made of: a text gives its characters, a list its
/// elements, an object what it maps a key to. Nothing else does.
pub proof fn law_values_give_what_they_hold(
    s: Seq<char>,
    n: u64,
    a: Seq<JsonView>,
    m: Map<Seq<char>, JsonView>,
    key: Seq<char>,
)
    ensures
        JsonView::Text(s).as_str() == Some(s),
        number_of(n).as_u64() == Some(n),
        JsonView::Array(a).as_array() == Some(a),
        m.dom().contains(key) ==> JsonView::Object(m).get(key) == Some(m[key]),
        !m.dom().contains(key) ==> JsonView::Object(m).get(key) is None,
        m.dom().contains(key) && m[key] == JsonView::Text(s) ==> JsonView::Object(m).str_at(key)
            == Some(s),
        m.dom().contains(key) && m[key] == number_of(n) ==> JsonView::Object(m).u64_at(key)
            == Some(n),
        m.dom().contains(key) && m[key] == JsonView::Array(a) ==> JsonView::Object(m).array_at(key)
            == Some(a),
        forall|v: JsonView| v !is Text ==> #[trigger] v.as_str() is None,
        forall|v: JsonView| v !is Array ==> #[trigger] v.as_array() is None,
        forall|v: JsonView| v !is Object ==> #[trigger] v.get(key) is None,
{
}

/// A text is read as the document that it is; a text that is none is not read.
pub proof fn law_documents_are_read(text: Seq<char>)
    ensures
        json_of_text(text) matches Ok(v) ==> parsed(text) == Some(v),
        json_of_text(text) is Err ==> parsed(text) is None,
{
}

/// What two lists of entries hold together: what the second holds, and of the
/// first what the second does not.
pub proof fn law_joined_entries(
    a: Seq<(Seq<char>, JsonView)>,
    b: Seq<(Seq<char>, JsonView)>,
    key: Seq<char>,
)
    ensures
        object_of(a + b).get(key) == (match object_of(b).get(key) {
            Some(v) => Some(v),
            None => object_of(a).get(key),
        }),
    decreases b.len(),
{
    if b.len() == 0 {
        assert(a + b =~= a);
    } else {
        law_joined_entries(a, b.drop_last(), key);
        assert((a + b).drop_last() =~= a + b.drop_last());
        assert((a + b).last() == b.last());
    }
}

} // verus!
