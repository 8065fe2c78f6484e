//! The document tree model.
//!
//! A memo's rich content is stored as a JSON-compatible tree: container
//! nodes carry a `type` tag and an ordered list of children under the
//! `content` key; text nodes carry a `text` string and a list of `marks`,
//! where a mark of type `link` holds an `attrs` object with an `href`.
//! The tree is held here as a general JSON-shaped value so that unknown
//! node and mark shapes pass through every transformation untouched.

use vstd::prelude::*;

verus! {

/// Mathematical model of a document value.
#[verifier::ext_equal]
pub enum JsonView {
    Null,
    Bool(bool),
    /// A number, kept as its literal text so that no precision is lost.
    Num(Seq<char>),
    Str(Seq<char>),
    Arr(Seq<JsonView>),
    Obj(Seq<EntryView>),
}

/// Mathematical model of one key/value entry of an object.
#[verifier::ext_equal]
pub struct EntryView {
    pub key: Seq<char>,
    pub value: JsonView,
}

/// A JSON-compatible document value.
pub enum JsonValue {
    Null,
    Bool(bool),
    /// A number, kept as its literal text so that no precision is lost.
    Num(String),
    Str(String),
    Arr(Vec<JsonValue>),
    Obj(Vec<ObjEntry>),
}

/// One key/value entry of an object node. Entries keep their order; a
/// lookup finds the first entry with the given key.
pub struct ObjEntry {
    pub key: String,
    pub value: JsonValue,
}

pub open spec fn view_of(v: JsonValue) -> JsonView
    decreases v,
{
    match v {
        JsonValue::Null => JsonView::Null,
        JsonValue::Bool(b) => JsonView::Bool(b),
        JsonValue::Num(s) => JsonView::Num(s@),
        JsonValue::Str(s) => JsonView::Str(s@),
        JsonValue::Arr(elems) => JsonView::Arr(view_of_seq(elems@)),
        JsonValue::Obj(entries) => JsonView::Obj(view_of_entries(entries@)),
    }
}

pub open spec fn view_of_seq(s: Seq<JsonValue>) -> Seq<JsonView>
    decreases s,
{
    if s.len() == 0 {
        Seq::empty()
    } else {
        view_of_seq(s.drop_last()).push(view_of(s.last()))
    }
}

pub open spec fn view_of_entries(s: Seq<ObjEntry>) -> Seq<EntryView>
    decreases s,
{
    if s.len() == 0 {
        Seq::empty()
    } else {
        view_of_entries(s.drop_last()).push(
            EntryView { key: s.last().key@, value: view_of(s.last().value) },
        )
    }
}

pub proof fn lemma_view_of_seq(s: Seq<JsonValue>)
    ensures
        view_of_seq(s).len() == s.len(),
        forall|i: int| 0 <= i < s.len() ==> view_of_seq(s)[i] == view_of(s[i]),
    decreases s.len(),
{
    if s.len() > 0 {
        lemma_view_of_seq(s.drop_last());
        assert forall|i: int| 0 <= i < s.len() implies view_of_seq(s)[i] == view_of(s[i]) by {
            if i < s.len() - 1 {
                assert(s.drop_last()[i] == s[i]);
            }
        }
    }
}

pub proof fn lemma_view_of_entries(s: Seq<ObjEntry>)
    ensures
        view_of_entries(s).len() == s.len(),
        forall|i: int|
            0 <= i < s.len() ==> view_of_entries(s)[i] == (EntryView {
                key: s[i].key@,
                value: view_of(s[i].value),
            }),
    decreases s.len(),
{
    if s.len() > 0 {
        lemma_view_of_entries(s.drop_last());
        assert forall|i: int|
            0 <= i < s.len() implies view_of_entries(s)[i] == (EntryView {
            key: s[i].key@,
            value: view_of(s[i].value),
        }) by {
            if i < s.len() - 1 {
                assert(s.drop_last()[i] == s[i]);
            }
        }
    }
}

impl View for JsonValue {
    type V = JsonView;

    open spec fn view(&self) -> JsonView {
        view_of(*self)
    }
}

impl View for ObjEntry {
    type V = EntryView;

    open spec fn view(&self) -> EntryView {
        EntryView { key: self.key@, value: view_of(self.value) }
    }
}

} // verus!
