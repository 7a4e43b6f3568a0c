//! Catalog records: one entry of a vendor's catalog as a table of fields.

use crate::table::{lemma_assoc, Table};
use vstd::prelude::*;

verus! {

/// The value of one field: plain text, or any other JSON value kept as
/// its JSON encoding.
#[derive(Debug)]
pub enum Value {
    Text(String),
    Json(String),
}

/// What a `Value` stands for in contracts.
pub enum ValueView {
    Text(Seq<char>),
    Json(Seq<char>),
}

impl View for Value {
    type V = ValueView;

    open spec fn view(&self) -> ValueView {
        match self {
            Value::Text(s) => ValueView::Text(s@),
            Value::Json(s) => ValueView::Json(s@),
        }
    }
}

/// What the JSON parser makes of `text`: nothing where `text` is no JSON
/// document, the decoded string where it is a JSON string, and no string
/// where it is another JSON value. It depends on the text alone.
pub uninterp spec fn json_decoding(text: Seq<char>) -> Option<Option<Seq<char>>>;

/// The JSON encoding of the string `s`, where the encoder gives one. It
/// depends on the string alone.
pub uninterp spec fn json_string_literal(s: Seq<char>) -> Option<Seq<char>>;

/// A decoding as contracts see it.
pub open spec fn decoding_view(d: Option<Option<String>>) -> Option<Option<Seq<char>>> {
    match d {
        None => None,
        Some(None) => Some(None),
        Some(Some(s)) => Some(Some(s@)),
    }
}

/// The view of an optional string.
pub open spec fn text_view(t: Option<String>) -> Option<Seq<char>> {
    match t {
        None => None,
        Some(s) => Some(s@),
    }
}

/// The view of an optional value.
pub open spec fn value_view(v: Option<Value>) -> Option<ValueView> {
    match v {
        None => None,
        Some(x) => Some(x@),
    }
}

/// The value that a JSON text with the given decoding stands for: a JSON
/// string is the text it encodes, any other JSON value is kept as the
/// text itself, and what is no JSON is no value.
pub open spec fn decoded_value(text: Seq<char>, decoding: Option<Option<Seq<char>>>) -> Option<
    ValueView,
> {
    match decoding {
        None => None,
        Some(None) => Some(ValueView::Json(text)),
        Some(Some(s)) => Some(ValueView::Text(s)),
    }
}

/// Calls `serde_json::from_str` for a `serde_json::Value` on `text` and
/// tells an error, a string and any other value apart, handing out the
/// string. Trusted: that the result is the one named `json_decoding`,
/// the same for the same text.
#[verifier::external_body]
fn decode_json(text: &str) -> (d: Option<Option<String>>)
    ensures
        decoding_view(d) == json_decoding(text@),
{
    match serde_json::from_str::<serde_json::Value>(text) {
        Err(_) => None,
        Ok(serde_json::Value::String(s)) => Some(Some(s)),
        Ok(_) => Some(None),
    }
}

/// Calls `serde_json::to_string` on the string `s`. Trusted: that the
/// result, where the call succeeds, is the one named
/// `json_string_literal`, the same for the same string.
#[verifier::external_body]
fn encode_json_string(s: &str) -> (r: Option<String>)
    ensures
        text_view(r) == json_string_literal(s@),
{
    serde_json::to_string(s).ok()
}

impl Value {
    /// The value that `text` stands for, given what the JSON parser made
    /// of it.
    pub fn from_decoding(text: &str, decoding: Option<Option<String>>) -> (r: Option<Value>)
        ensures
            value_view(r) == decoded_value(text@, decoding_view(decoding)),
    {
        match decoding {
            None => None,
            Some(None) => Some(Value::Json(text.to_owned())),
            Some(Some(s)) => Some(Value::Text(s)),
        }
    }

    /// The value that the JSON text `text` stands for; `None` where
    /// `text` is no JSON document.
    pub fn from_json(text: &str) -> (r: Option<Value>)
        ensures
            value_view(r) == decoded_value(text@, json_decoding(text@)),
    {
        let decoding = decode_json(text);
        Value::from_decoding(text, decoding)
    }

    /// The JSON text of the value: the encoding of a text, and the kept
    /// text of any other value. `None` where the encoder gives none.
    pub fn to_json(&self) -> (r: Option<String>)
        ensures
            text_view(r) == match self@ {
                ValueView::Text(s) => json_string_literal(s),
                ValueView::Json(t) => Some(t),
            },
    {
        match self {
            Value::Text(s) => encode_json_string(s.as_str()),
            Value::Json(t) => Some(t.clone()),
        }
    }

    /// Whether two values are of the same kind and hold the same text.
    pub fn same(&self, other: &Value) -> (r: bool)
        ensures
            r == (self@ == other@),
    {
        match (self, other) {
            (Value::Text(a), Value::Text(b)) => *a == *b,
            (Value::Json(a), Value::Json(b)) => *a == *b,
            _ => false,
        }
    }

    /// A copy of the value.
    pub fn duplicate(&self) -> (r: Value)
        ensures
            r@ == self@,
    {
        match self {
            Value::Text(s) => Value::Text(s.clone()),
            Value::Json(s) => Value::Json(s.clone()),
        }
    }
}

/// A record as contracts see it: field name to value.
pub type RecordView = Map<Seq<char>, ValueView>;

/// The text of the field `field`, where the record has it and it is text.
pub open spec fn primary_key(r: RecordView, field: Seq<char>) -> Option<Seq<char>> {
    if r.contains_key(field) {
        match r[field] {
            ValueView::Text(s) => Some(s),
            ValueView::Json(_) => None,
        }
    } else {
        None
    }
}

/// One catalog entry: a mapping from field name to value.
pub struct Record {
    fields: Table<Value>,
}

impl Record {
    /// No field name occurs twice.
    pub closed spec fn wf(&self) -> bool {
        self.fields.wf()
    }

    /// The record as a map from field name to value.
    pub closed spec fn view(&self) -> RecordView {
        self.fields@.map_values(|v: Value| v@)
    }

    /// The number of fields.
    pub open spec fn field_count(&self) -> nat {
        self@.dom().len()
    }

    /// The field names in the order in which they were first set.
    pub closed spec fn name_seq(&self) -> Seq<Seq<char>> {
        self.fields.key_seq()
    }

    /// A record without fields.
    pub fn new() -> (r: Self)
        ensures
            r.wf(),
            r@ == RecordView::empty(),
            r.name_seq() == Seq::<Seq<char>>::empty(),
    {
        let r = Record { fields: Table::new() };
        proof {
            assert(r@ =~= RecordView::empty());
        }
        r
    }

    /// Sets the field `name`, replacing the value it had, and tells
    /// whether it had one.
    pub fn insert(&mut self, name: String, value: Value) -> (replaced: bool)
        requires
            old(self).wf(),
        ensures
            final(self).wf(),
            final(self)@ == old(self)@.insert(name@, value@),
            replaced == old(self)@.contains_key(name@),
            final(self).name_seq() == if replaced {
                old(self).name_seq()
            } else {
                old(self).name_seq().push(name@)
            },
    {
        let replaced = self.fields.insert(name, value);
        proof {
            assert(self@ =~= old(self)@.insert(name@, value@));
        }
        replaced
    }

    /// The number of fields.
    pub fn len(&self) -> (n: usize)
        requires
            self.wf(),
        ensures
            self@.dom().finite(),
            n == self.field_count(),
            n == self.name_seq().len(),
    {
        let n = self.fields.len();
        proof {
            assert(self@.dom() =~= self.fields@.dom());
        }
        n
    }

    /// The name of the field at position `i`.
    pub fn name_at(&self, i: usize) -> (name: &String)
        requires
            self.wf(),
            i < self.name_seq().len(),
        ensures
            name@ == self.name_seq()[i as int],
            self@.contains_key(name@),
    {
        proof {
            lemma_assoc(self.fields.key_seq(), self.fields.val_seq());
        }
        self.fields.key_at(i)
    }

    /// The value of the field at position `i`.
    pub fn value_at(&self, i: usize) -> (value: &Value)
        requires
            self.wf(),
            i < self.name_seq().len(),
        ensures
            self@.contains_key(self.name_seq()[i as int]),
            value@ == self@[self.name_seq()[i as int]],
    {
        self.fields.value_at(i)
    }

    /// The value of the field `name`, if the record has it.
    pub fn get(&self, name: &String) -> (r: Option<&Value>)
        requires
            self.wf(),
        ensures
            match r {
                Some(v) => self@.contains_key(name@) && v@ == self@[name@],
                None => !self@.contains_key(name@),
            },
    {
        self.fields.get(name)
    }

    /// The record's primary key: the text of the field `field`. `None`
    /// where the record lacks the field or holds something other than
    /// text in it.
    pub fn primary_key(&self, field: &String) -> (r: Option<&String>)
        requires
            self.wf(),
        ensures
            match r {
                Some(k) => primary_key(self@, field@) == Some(k@),
                None => primary_key(self@, field@).is_none(),
            },
    {
        match self.fields.get(field) {
            Some(Value::Text(s)) => Some(s),
            _ => None,
        }
    }

    /// Whether every field of `self` is a field of `other` with the same
    /// value.
    pub fn included_in(&self, other: &Record) -> (r: bool)
        requires
            self.wf(),
            other.wf(),
        ensures
            r == self@.submap_of(other@),
    {
        let n = self.fields.len();
        let mut i: usize = 0;
        while i < n
            invariant
                self.wf(),
                other.wf(),
                n == self.fields.key_seq().len(),
                i <= n,
                forall|j: int|
                    0 <= j < i ==> other@.contains_key(#[trigger] self.fields.key_seq()[j])
                        && other@[self.fields.key_seq()[j]] == self@[self.fields.key_seq()[j]],
            decreases n - i,
        {
            let name = self.fields.key_at(i);
            let value = self.fields.value_at(i);
            proof {
                lemma_assoc(self.fields.key_seq(), self.fields.val_seq());
            }
            let found = match other.fields.get(name) {
                Some(v) => v.same(value),
                None => false,
            };
            if !found {
                proof {
                    assert(self@.dom().contains(name@));
                    assert(self@[name@] == value@);
                    assert(!other@.dom().contains(name@) || other@[name@] != self@[name@]);
                }
                return false;
            }
            i += 1;
        }
        proof {
            lemma_assoc(self.fields.key_seq(), self.fields.val_seq());
            assert forall|k: Seq<char>| self@.dom().contains(k) implies #[trigger] other@.dom().contains(k)
                && self@[k] == other@[k] by {
                assert(self.fields.key_seq().contains(k));
                let j = self.fields.key_seq().index_of(k);
                assert(self.fields.key_seq()[j] == k);
            }
        }
        true
    }

    /// Whether the two records are field for field identical.
    pub fn same(&self, other: &Record) -> (r: bool)
        requires
            self.wf(),
            other.wf(),
        ensures
            r == (self@ == other@),
    {
        let r = self.included_in(other) && other.included_in(self);
        proof {
            if r {
                let a = self@;
                let b = other@;
                assert forall|k: Seq<char>| a.dom().contains(k) == b.dom().contains(k) by {
                    if a.dom().contains(k) {
                        assert(b.dom().contains(k));
                    }
                    if b.dom().contains(k) {
                        assert(a.dom().contains(k));
                    }
                }
                assert forall|k: Seq<char>| a.dom().contains(k) implies a[k] == b[k] by {
                    assert(b.dom().contains(k));
                }
                assert(a =~= b);
            }
        }
        r
    }

    /// A copy of the record.
    pub fn duplicate(&self) -> (r: Record)
        requires
            self.wf(),
        ensures
            r.wf(),
            r@ == self@,
    {
        let mut r = Record::new();
        let n = self.fields.len();
        let mut i: usize = 0;
        while i < n
            invariant
                self.wf(),
                r.wf(),
                n == self.fields.key_seq().len(),
                i <= n,
                r@.submap_of(self@),
                forall|j: int| 0 <= j < i ==> r@.contains_key(#[trigger] self.fields.key_seq()[j]),
            decreases n - i,
        {
            let name = self.fields.key_at(i).clone();
            let value = self.fields.value_at(i).duplicate();
            proof {
                lemma_assoc(self.fields.key_seq(), self.fields.val_seq());
            }
            r.insert(name, value);
            i += 1;
        }
        proof {
            lemma_assoc(self.fields.key_seq(), self.fields.val_seq());
            assert forall|k: Seq<char>| self@.dom().contains(k) implies r@.dom().contains(k) by {
                assert(self.fields.key_seq().contains(k));
                let j = self.fields.key_seq().index_of(k);
                assert(self.fields.key_seq()[j] == k);
            }
            assert(r@ =~= self@);
        }
        r
    }
}

} // verus!
