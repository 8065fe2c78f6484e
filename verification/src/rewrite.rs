//! The document tree rewriter.
//!
//! Given a rename descriptor, every text node that carries a link mark
//! whose `href` equals `/{workspace_slug}/{old_slug}` has that `href`
//! rewritten to `/{workspace_slug}/{new_slug}`; the node's visible text is
//! replaced by `new_display_text` if and only if it still equals
//! `old_display_text` (that is, it has not been hand-edited since the link
//! was created). Every other node passes through unchanged, and the
//! rewriter descends into the `content` children of every node.

use vstd::prelude::*;

use crate::doc::EntryView;
use crate::doc::JsonValue;
use crate::doc::JsonView;
use crate::doc::ObjEntry;
use crate::doc::lemma_view_of_entries;
use crate::doc::lemma_view_of_seq;
use crate::doc::view_of;
use crate::doc::view_of_entries;
use crate::doc::view_of_seq;

verus! {

/// Describes a single memo's identity change: the slug moves from
/// `old_slug` to `new_slug` inside `workspace_slug`, and anchor text that
/// still reads `old_display_text` should now read `new_display_text`.
pub struct RenameDescriptor {
    pub workspace_slug: String,
    pub old_slug: String,
    pub old_display_text: String,
    pub new_slug: String,
    pub new_display_text: String,
}

/// Mathematical model of a rename descriptor.
#[verifier::ext_equal]
pub struct DescView {
    pub workspace_slug: Seq<char>,
    pub old_slug: Seq<char>,
    pub old_display_text: Seq<char>,
    pub new_slug: Seq<char>,
    pub new_display_text: Seq<char>,
}

impl View for RenameDescriptor {
    type V = DescView;

    open spec fn view(&self) -> DescView {
        DescView {
            workspace_slug: self.workspace_slug@,
            old_slug: self.old_slug@,
            old_display_text: self.old_display_text@,
            new_slug: self.new_slug@,
            new_display_text: self.new_display_text@,
        }
    }
}

/// The hyperlink target for `slug` inside `ws`: `/{ws}/{slug}`.
pub open spec fn href_of(ws: Seq<char>, slug: Seq<char>) -> Seq<char> {
    seq!['/'] + ws + seq!['/'] + slug
}

/// The value of the first entry with the given key, if any.
pub open spec fn obj_get(es: Seq<EntryView>, key: Seq<char>) -> Option<JsonView>
    decreases es.len(),
{
    if es.len() == 0 {
        None
    } else if es[0].key == key {
        Some(es[0].value)
    } else {
        obj_get(es.drop_first(), key)
    }
}

/// The entries with the value of the first entry with the given key
/// replaced by `val`; unchanged when no entry has the key.
pub open spec fn obj_set(es: Seq<EntryView>, key: Seq<char>, val: JsonView) -> Seq<EntryView>
    decreases es.len(),
{
    if es.len() == 0 {
        es
    } else if es[0].key == key {
        seq![EntryView { key: es[0].key, value: val }] + es.drop_first()
    } else {
        seq![es[0]] + obj_set(es.drop_first(), key, val)
    }
}

/// A mark object tagged as a link.
pub open spec fn is_link_mark(m: JsonView) -> bool {
    m is Obj && obj_get(m->Obj_0, "type"@) == Some(JsonView::Str("link"@))
}

/// The index of the first link mark, or -1 when there is none.
pub open spec fn first_link_mark_index(ms: Seq<JsonView>) -> int
    decreases ms.len(),
{
    if ms.len() == 0 {
        -1
    } else if is_link_mark(ms[0]) {
        0
    } else {
        let r = first_link_mark_index(ms.drop_first());
        if r < 0 {
            -1
        } else {
            r + 1
        }
    }
}

/// An object tagged as a text node.
pub open spec fn is_text_obj(es: Seq<EntryView>) -> bool {
    obj_get(es, "type"@) == Some(JsonView::Str("text"@))
}

/// The node's marks list, when present and a list.
pub open spec fn node_marks(es: Seq<EntryView>) -> Option<Seq<JsonView>> {
    match obj_get(es, "marks"@) {
        Some(JsonView::Arr(ms)) => Some(ms),
        _ => None,
    }
}

/// A mark's attribute object, when present and an object.
pub open spec fn mark_attrs(m: JsonView) -> Option<Seq<EntryView>> {
    if m is Obj {
        match obj_get(m->Obj_0, "attrs"@) {
            Some(JsonView::Obj(ats)) => Some(ats),
            _ => None,
        }
    } else {
        None
    }
}

/// The string `href` attribute of the first link mark in a marks list,
/// if there is a link mark, an attribute object on it, and a string
/// `href` in that.
pub open spec fn marks_href(ms: Seq<JsonView>) -> Option<Seq<char>> {
    let i = first_link_mark_index(ms);
    if i >= 0 {
        match mark_attrs(ms[i]) {
            Some(ats) => match obj_get(ats, "href"@) {
                Some(JsonView::Str(h)) => Some(h),
                _ => None,
            },
            None => None,
        }
    } else {
        None
    }
}

/// The string `href` attribute of the node's first link mark, if the
/// node has marks, a link mark among them, an attribute object on that
/// mark, and a string `href` in it.
pub open spec fn node_href(es: Seq<EntryView>) -> Option<Seq<char>> {
    match node_marks(es) {
        Some(ms) => marks_href(ms),
        None => None,
    }
}

/// A node is rewritten exactly when it is a text node and the `href` of
/// its first link mark equals the descriptor's old hyperlink target.
pub open spec fn node_matches(es: Seq<EntryView>, d: DescView) -> bool {
    is_text_obj(es) && node_href(es) == Some(href_of(d.workspace_slug, d.old_slug))
}

/// The marks list with the first link mark's `href` attribute replaced
/// by `h`; unchanged when the mark or its attributes are missing.
pub open spec fn set_marks_href(ms: Seq<JsonView>, h: Seq<char>) -> Seq<JsonView> {
    let i = first_link_mark_index(ms);
    if i >= 0 {
        match ms[i] {
            JsonView::Obj(mo) => match obj_get(mo, "attrs"@) {
                Some(JsonView::Obj(ats)) => ms.update(
                    i,
                    JsonView::Obj(
                        obj_set(
                            mo,
                            "attrs"@,
                            JsonView::Obj(obj_set(ats, "href"@, JsonView::Str(h))),
                        ),
                    ),
                ),
                _ => ms,
            },
            _ => ms,
        }
    } else {
        ms
    }
}

/// The rewrite applied to one object node, children aside: when the node
/// matches, its first link mark's `href` becomes the new target, and its
/// text becomes `new_display_text` when it still equals
/// `old_display_text`.
pub open spec fn rewrite_obj_top(es: Seq<EntryView>, d: DescView) -> Seq<EntryView> {
    if node_matches(es, d) {
        match node_marks(es) {
            Some(ms) => {
                let e1 = obj_set(
                    es,
                    "marks"@,
                    JsonView::Arr(set_marks_href(ms, href_of(d.workspace_slug, d.new_slug))),
                );
                if obj_get(e1, "text"@) == Some(JsonView::Str(d.old_display_text)) {
                    obj_set(e1, "text"@, JsonView::Str(d.new_display_text))
                } else {
                    e1
                }
            },
            None => es,
        }
    } else {
        es
    }
}

/// The whole rewrite of a document value: lists are rewritten element by
/// element; an object first has the children under its `content` key
/// rewritten, then the rewrite applied to the node itself; every other
/// value passes through unchanged.
pub open spec fn rewrite_value(v: JsonView, d: DescView) -> JsonView
    decreases v,
{
    match v {
        JsonView::Arr(elems) => JsonView::Arr(rewrite_seq(elems, d)),
        JsonView::Obj(entries) => JsonView::Obj(rewrite_obj_top(rewrite_entries(entries, d), d)),
        _ => v,
    }
}

/// Rewrites the children held by the first `content` entry, when its
/// value is a list; all other entries are kept as they are.
pub open spec fn rewrite_entries(es: Seq<EntryView>, d: DescView) -> Seq<EntryView>
    decreases es,
{
    if es.len() == 0 {
        es
    } else if es[0].key == "content"@ {
        match es[0].value {
            JsonView::Arr(cs) => seq![
                EntryView { key: es[0].key, value: JsonView::Arr(rewrite_seq(cs, d)) },
            ] + es.drop_first(),
            _ => es,
        }
    } else {
        seq![es[0]] + rewrite_entries(es.drop_first(), d)
    }
}

/// Element-by-element rewrite of a list of values.
pub open spec fn rewrite_seq(s: Seq<JsonView>, d: DescView) -> Seq<JsonView>
    decreases s,
{
    if s.len() == 0 {
        s
    } else {
        rewrite_seq(s.drop_last(), d).push(rewrite_value(s.last(), d))
    }
}

/// Whether some node anywhere in the value matches the descriptor, that
/// is, whether the rewrite changes anything it is pointed at.
pub open spec fn has_match(v: JsonView, d: DescView) -> bool
    decreases v,
{
    match v {
        JsonView::Arr(elems) => seq_has_match(elems, d),
        JsonView::Obj(entries) => node_matches(entries, d) || entries_has_match(entries, d),
        _ => false,
    }
}

/// Whether some node below the first `content` entry matches.
pub open spec fn entries_has_match(es: Seq<EntryView>, d: DescView) -> bool
    decreases es,
{
    if es.len() == 0 {
        false
    } else if es[0].key == "content"@ {
        match es[0].value {
            JsonView::Arr(cs) => seq_has_match(cs, d),
            _ => false,
        }
    } else {
        entries_has_match(es.drop_first(), d)
    }
}

/// Whether some node in one of the listed values matches.
pub open spec fn seq_has_match(s: Seq<JsonView>, d: DescView) -> bool
    decreases s,
{
    if s.len() == 0 {
        false
    } else {
        seq_has_match(s.drop_last(), d) || has_match(s.last(), d)
    }
}

pub proof fn lemma_obj_get_at(es: Seq<EntryView>, key: Seq<char>, i: int)
    requires
        0 <= i < es.len(),
        es[i].key == key,
        forall|j: int| 0 <= j < i ==> es[j].key != key,
    ensures
        obj_get(es, key) == Some(es[i].value),
    decreases i,
{
    if i > 0 {
        assert forall|j: int| 0 <= j < i - 1 implies es.drop_first()[j].key != key by {
            assert(es.drop_first()[j] == es[j + 1]);
        }
        assert(es.drop_first()[i - 1] == es[i]);
        lemma_obj_get_at(es.drop_first(), key, i - 1);
    }
}

pub proof fn lemma_obj_get_none(es: Seq<EntryView>, key: Seq<char>)
    requires
        forall|j: int| 0 <= j < es.len() ==> es[j].key != key,
    ensures
        obj_get(es, key) is None,
    decreases es.len(),
{
    if es.len() > 0 {
        assert forall|j: int| 0 <= j < es.len() - 1 implies es.drop_first()[j].key != key by {
            assert(es.drop_first()[j] == es[j + 1]);
        }
        lemma_obj_get_none(es.drop_first(), key);
    }
}

pub proof fn lemma_obj_set_at(es: Seq<EntryView>, key: Seq<char>, val: JsonView, i: int)
    requires
        0 <= i < es.len(),
        es[i].key == key,
        forall|j: int| 0 <= j < i ==> es[j].key != key,
    ensures
        obj_set(es, key, val) =~= es.update(i, EntryView { key: es[i].key, value: val }),
    decreases i,
{
    if i > 0 {
        assert forall|j: int| 0 <= j < i - 1 implies es.drop_first()[j].key != key by {
            assert(es.drop_first()[j] == es[j + 1]);
        }
        assert(es.drop_first()[i - 1] == es[i]);
        lemma_obj_set_at(es.drop_first(), key, val, i - 1);
        assert(es.drop_first().update(i - 1, EntryView { key: es[i].key, value: val })
            =~= es.update(i, EntryView { key: es[i].key, value: val }).drop_first());
    }
}

pub proof fn lemma_obj_set_none(es: Seq<EntryView>, key: Seq<char>, val: JsonView)
    requires
        forall|j: int| 0 <= j < es.len() ==> es[j].key != key,
    ensures
        obj_set(es, key, val) =~= es,
    decreases es.len(),
{
    if es.len() > 0 {
        assert forall|j: int| 0 <= j < es.len() - 1 implies es.drop_first()[j].key != key by {
            assert(es.drop_first()[j] == es[j + 1]);
        }
        lemma_obj_set_none(es.drop_first(), key, val);
    }
}

pub proof fn lemma_first_link_mark_at(ms: Seq<JsonView>, i: int)
    requires
        0 <= i < ms.len(),
        is_link_mark(ms[i]),
        forall|j: int| 0 <= j < i ==> !is_link_mark(ms[j]),
    ensures
        first_link_mark_index(ms) == i,
    decreases i,
{
    if i > 0 {
        assert forall|j: int| 0 <= j < i - 1 implies !is_link_mark(ms.drop_first()[j]) by {
            assert(ms.drop_first()[j] == ms[j + 1]);
        }
        assert(ms.drop_first()[i - 1] == ms[i]);
        lemma_first_link_mark_at(ms.drop_first(), i - 1);
    }
}

pub proof fn lemma_rewrite_entries_at(es: Seq<EntryView>, d: DescView, i: int)
    requires
        0 <= i < es.len(),
        es[i].key == "content"@,
        forall|j: int| 0 <= j < i ==> es[j].key != "content"@,
        es[i].value is Arr,
    ensures
        rewrite_entries(es, d) =~= es.update(
            i,
            EntryView { key: es[i].key, value: JsonView::Arr(rewrite_seq(es[i].value->Arr_0, d)) },
        ),
        entries_has_match(es, d) == seq_has_match(es[i].value->Arr_0, d),
    decreases i,
{
    if i > 0 {
        assert forall|j: int| 0 <= j < i - 1 implies es.drop_first()[j].key != "content"@ by {
            assert(es.drop_first()[j] == es[j + 1]);
        }
        assert(es.drop_first()[i - 1] == es[i]);
        lemma_rewrite_entries_at(es.drop_first(), d, i - 1);
        let e2 = EntryView { key: es[i].key, value: JsonView::Arr(rewrite_seq(es[i].value->Arr_0, d)) };
        assert(es.drop_first().update(i - 1, e2) =~= es.update(i, e2).drop_first());
    }
}

pub proof fn lemma_rewrite_entries_stop(es: Seq<EntryView>, d: DescView, i: int)
    requires
        0 <= i < es.len(),
        es[i].key == "content"@,
        forall|j: int| 0 <= j < i ==> es[j].key != "content"@,
        !(es[i].value is Arr),
    ensures
        rewrite_entries(es, d) =~= es,
        !entries_has_match(es, d),
    decreases i,
{
    if i > 0 {
        assert forall|j: int| 0 <= j < i - 1 implies es.drop_first()[j].key != "content"@ by {
            assert(es.drop_first()[j] == es[j + 1]);
        }
        assert(es.drop_first()[i - 1] == es[i]);
        lemma_rewrite_entries_stop(es.drop_first(), d, i - 1);
    }
}

pub proof fn lemma_rewrite_entries_none(es: Seq<EntryView>, d: DescView)
    requires
        forall|j: int| 0 <= j < es.len() ==> es[j].key != "content"@,
    ensures
        rewrite_entries(es, d) =~= es,
        !entries_has_match(es, d),
    decreases es.len(),
{
    if es.len() > 0 {
        assert forall|j: int| 0 <= j < es.len() - 1 implies es.drop_first()[j].key != "content"@ by {
            assert(es.drop_first()[j] == es[j + 1]);
        }
        lemma_rewrite_entries_none(es.drop_first(), d);
    }
}

/// Replacing one entry's value in place, key kept, leaves every lookup
/// under a different key unchanged.
pub proof fn lemma_obj_get_update_other(es: Seq<EntryView>, i: int, e2: EntryView, key: Seq<char>)
    requires
        0 <= i < es.len(),
        e2.key == es[i].key,
        es[i].key != key,
    ensures
        obj_get(es.update(i, e2), key) == obj_get(es, key),
    decreases i,
{
    let es2 = es.update(i, e2);
    if i == 0 {
        assert(es2.drop_first() =~= es.drop_first());
    } else {
        assert(es2[0] == es[0]);
        if es[0].key != key {
            assert(es2.drop_first() =~= es.drop_first().update(i - 1, e2));
            lemma_obj_get_update_other(es.drop_first(), i - 1, e2, key);
        }
    }
}

/// Rewriting the `content` children changes neither whether the node is
/// a matching link-bearing text node nor which `href` it carries.
pub proof fn lemma_node_matches_after_rewrite_entries(es: Seq<EntryView>, d: DescView)
    ensures
        node_matches(rewrite_entries(es, d), d) == node_matches(es, d),
        is_text_obj(rewrite_entries(es, d)) == is_text_obj(es),
        node_marks(rewrite_entries(es, d)) == node_marks(es),
        node_href(rewrite_entries(es, d)) == node_href(es),
{
    reveal_strlit("content");
    reveal_strlit("type");
    reveal_strlit("marks");
    let rec = rewrite_entries(es, d);
    if exists|j: int| 0 <= j < es.len() && es[j].key == "content"@ {
        let i = choose|i: int|
            0 <= i < es.len() && es[i].key == "content"@ && forall|j: int|
                0 <= j < i ==> es[j].key != "content"@;
        assert(exists|i: int|
            0 <= i < es.len() && es[i].key == "content"@ && forall|j: int|
                0 <= j < i ==> es[j].key != "content"@) by {
            let j0 = choose|j: int| 0 <= j < es.len() && es[j].key == "content"@;
            lemma_first_key_exists(es, "content"@, j0);
        }
        if es[i].value is Arr {
            lemma_rewrite_entries_at(es, d, i);
            let e2 = EntryView {
                key: es[i].key,
                value: JsonView::Arr(rewrite_seq(es[i].value->Arr_0, d)),
            };
            assert("content"@.len() == 7 && "type"@.len() == 4);
            lemma_obj_get_update_other(es, i, e2, "type"@);
            assert("marks"@.len() == 5);
            lemma_obj_get_update_other(es, i, e2, "marks"@);
            assert(obj_get(rec, "type"@) == obj_get(es, "type"@));
            assert(obj_get(rec, "marks"@) == obj_get(es, "marks"@));
        } else {
            lemma_rewrite_entries_stop(es, d, i);
            assert(rec =~= es);
        }
    } else {
        lemma_rewrite_entries_none(es, d);
        assert(rec =~= es);
    }
}

/// From any entry with the wanted key, there is a first one.
pub proof fn lemma_first_key_exists(es: Seq<EntryView>, key: Seq<char>, j0: int)
    requires
        0 <= j0 < es.len(),
        es[j0].key == key,
    ensures
        exists|i: int|
            0 <= i < es.len() && es[i].key == key && forall|j: int| 0 <= j < i ==> es[j].key != key,
    decreases j0,
{
    if forall|j: int| 0 <= j < j0 ==> es[j].key != key {
        assert(0 <= j0 < es.len() && es[j0].key == key && forall|j: int|
            0 <= j < j0 ==> es[j].key != key);
    } else {
        let j1 = choose|j: int| 0 <= j < j0 && es[j].key == key;
        lemma_first_key_exists(es, key, j1);
    }
}

pub proof fn lemma_first_link_mark_none(ms: Seq<JsonView>)
    requires
        forall|j: int| 0 <= j < ms.len() ==> !is_link_mark(ms[j]),
    ensures
        first_link_mark_index(ms) == -1,
    decreases ms.len(),
{
    if ms.len() > 0 {
        assert forall|j: int| 0 <= j < ms.len() - 1 implies !is_link_mark(ms.drop_first()[j]) by {
            assert(ms.drop_first()[j] == ms[j + 1]);
        }
        lemma_first_link_mark_none(ms.drop_first());
    }
}

pub proof fn lemma_remove_insert<T>(s: Seq<T>, i: int, x: T)
    requires
        0 <= i < s.len(),
    ensures
        s.remove(i).insert(i, x) =~= s.update(i, x),
{
}

/// Replacing one element keeps the views of all the others.
pub proof fn lemma_view_of_entries_update(s: Seq<ObjEntry>, i: int, e: ObjEntry)
    ensures
        0 <= i < s.len() ==> view_of_entries(s.update(i, e)) =~= view_of_entries(s).update(i, e@),
{
    if 0 <= i < s.len() {
        lemma_view_of_entries(s);
        lemma_view_of_entries(s.update(i, e));
    }
}

/// Replacing one element keeps the views of all the others.
pub proof fn lemma_view_of_seq_update(s: Seq<JsonValue>, i: int, x: JsonValue)
    ensures
        0 <= i < s.len() ==> view_of_seq(s.update(i, x)) =~= view_of_seq(s).update(i, x@),
{
    if 0 <= i < s.len() {
        lemma_view_of_seq(s);
        lemma_view_of_seq(s.update(i, x));
    }
}

/// A structurally fresh copy of a document value.
pub fn clone_value(v: &JsonValue) -> (r: JsonValue)
    ensures
        r@ == v@,
    decreases v,
{
    match v {
        JsonValue::Null => JsonValue::Null,
        JsonValue::Bool(b) => JsonValue::Bool(*b),
        JsonValue::Num(s) => JsonValue::Num(s.clone()),
        JsonValue::Str(s) => JsonValue::Str(s.clone()),
        JsonValue::Arr(elems) => {
            let mut out: Vec<JsonValue> = Vec::new();
            let n = elems.len();
            let mut i: usize = 0;
            while i < n
                invariant
                    n == elems@.len(),
                    i <= n,
                    out@.len() == i,
                    *v is Arr,
                    elems@ == v->Arr_0@,
                    forall|j: int| 0 <= j < i ==> view_of(#[trigger] out@[j]) == view_of(elems@[j]),
                decreases n - i,
            {
                proof {
                    assert(decreases_to!(*v => v->Arr_0));
                    assert(decreases_to!(v->Arr_0 => v->Arr_0@));
                    assert(decreases_to!(v->Arr_0@ => v->Arr_0@[i as int]));
                    assert(decreases_to!(*v => elems@[i as int]));
                }
                let c = clone_value(&elems[i]);
                out.push(c);
                i = i + 1;
            }
            proof {
                lemma_view_of_seq(out@);
                lemma_view_of_seq(elems@);
                assert(view_of_seq(out@) =~= view_of_seq(elems@));
            }
            JsonValue::Arr(out)
        },
        JsonValue::Obj(entries) => {
            let mut out: Vec<ObjEntry> = Vec::new();
            let n = entries.len();
            let mut i: usize = 0;
            while i < n
                invariant
                    n == entries@.len(),
                    i <= n,
                    out@.len() == i,
                    *v is Obj,
                    entries@ == v->Obj_0@,
                    forall|j: int| 0 <= j < i ==> (#[trigger] out@[j])@ == entries@[j]@,
                decreases n - i,
            {
                proof {
                    assert(decreases_to!(*v => v->Obj_0));
                    assert(decreases_to!(v->Obj_0 => v->Obj_0@));
                    assert(decreases_to!(v->Obj_0@ => v->Obj_0@[i as int]));
                    assert(decreases_to!(v->Obj_0@[i as int] => v->Obj_0@[i as int].value));
                    assert(decreases_to!(*v => entries@[i as int].value));
                }
                let c = clone_value(&entries[i].value);
                out.push(ObjEntry { key: entries[i].key.clone(), value: c });
                i = i + 1;
            }
            proof {
                lemma_view_of_entries(out@);
                lemma_view_of_entries(entries@);
                assert(view_of_entries(out@) =~= view_of_entries(entries@));
            }
            JsonValue::Obj(out)
        },
    }
}

/// A value and its model always agree on their variant, and on the
/// model of each field.
pub proof fn lemma_view_variant(x: JsonValue)
    ensures
        view_of(x) is Null <==> x is Null,
        view_of(x) is Bool <==> x is Bool,
        view_of(x) is Num <==> x is Num,
        view_of(x) is Str <==> x is Str,
        view_of(x) is Arr <==> x is Arr,
        view_of(x) is Obj <==> x is Obj,
        x is Str ==> view_of(x)->Str_0 == x->Str_0@,
        x is Arr ==> view_of(x)->Arr_0 == view_of_seq(x->Arr_0@),
        x is Obj ==> view_of(x)->Obj_0 == view_of_entries(x->Obj_0@),
{
    match x {
        JsonValue::Null => {},
        JsonValue::Bool(_) => {},
        JsonValue::Num(_) => {},
        JsonValue::Str(_) => {},
        JsonValue::Arr(_) => {},
        JsonValue::Obj(_) => {},
    }
}

/// Whether a mark value is an object tagged as a link.
fn is_link_mark_exec(m: &JsonValue) -> (r: bool)
    ensures
        r == is_link_mark(m@),
{
    proof {
        lemma_view_variant(*m);
    }
    match m {
        JsonValue::Obj(mo) => {
            let ghost mov = view_of_entries(mo@);
            proof {
                lemma_view_of_entries(mo@);
            }
            let type_key = String::from_str("type");
            let link_lit = String::from_str("link");
            match find_key(mo, &type_key) {
                Some(i) => {
                    proof {
                        lemma_obj_get_at(mov, "type"@, i as int);
                        lemma_view_variant(mo@[i as int].value);
                    }
                    match &mo[i].value {
                        JsonValue::Str(s) => s.eq(&link_lit),
                        _ => false,
                    }
                },
                None => {
                    proof {
                        lemma_obj_get_none(mov, "type"@);
                    }
                    false
                },
            }
        },
        _ => false,
    }
}

/// The first link mark in a marks list, as an index.
fn find_link_mark(ms: &Vec<JsonValue>) -> (r: Option<usize>)
    ensures
        match r {
            Some(k) => k < ms@.len() && first_link_mark_index(view_of_seq(ms@)) == k as int,
            None => first_link_mark_index(view_of_seq(ms@)) == -1,
        },
{
    let ghost msv = view_of_seq(ms@);
    proof {
        lemma_view_of_seq(ms@);
    }
    let n = ms.len();
    let mut i: usize = 0;
    while i < n
        invariant
            n == ms@.len(),
            i <= n,
            msv == view_of_seq(ms@),
            msv.len() == n,
            forall|j: int| 0 <= j < n ==> msv[j] == view_of(ms@[j]),
            forall|j: int| 0 <= j < i ==> !is_link_mark(msv[j]),
        decreases n - i,
    {
        if is_link_mark_exec(&ms[i]) {
            proof {
                lemma_first_link_mark_at(msv, i as int);
            }
            return Some(i);
        }
        i = i + 1;
    }
    proof {
        lemma_first_link_mark_none(msv);
    }
    None
}

/// The first entry with the given key, as an index.
fn find_key(entries: &Vec<ObjEntry>, key: &String) -> (r: Option<usize>)
    ensures
        match r {
            Some(i) => i < entries@.len() && entries@[i as int].key@ == key@ && (forall|j: int|
                0 <= j < i ==> entries@[j].key@ != key@),
            None => forall|j: int| 0 <= j < entries@.len() ==> entries@[j].key@ != key@,
        },
{
    let n = entries.len();
    let mut i: usize = 0;
    while i < n
        invariant
            n == entries@.len(),
            i <= n,
            forall|j: int| 0 <= j < i ==> entries@[j].key@ != key@,
        decreases n - i,
    {
        if entries[i].key.eq(key) {
            return Some(i);
        }
        i = i + 1;
    }
    None
}

/// A found first link mark is a link mark inside the list.
pub proof fn lemma_first_link_mark_props(ms: Seq<JsonView>)
    ensures
        first_link_mark_index(ms) >= 0 ==> 0 <= first_link_mark_index(ms) < ms.len()
            && is_link_mark(ms[first_link_mark_index(ms)]),
    decreases ms.len(),
{
    if ms.len() > 0 && !is_link_mark(ms[0]) {
        lemma_first_link_mark_props(ms.drop_first());
    }
}

/// Locates, inside a marks list, the first link mark, the first `attrs`
/// entry of that mark, and the first `href` entry under it, when that
/// `href` is the given string; answers `None` exactly when the list's
/// link `href` is not that string.
fn locate_marks_href(ms: &Vec<JsonValue>, target: &String) -> (r: Option<(usize, usize, usize)>)
    ensures
        match r {
            Some(loc) => {
                let k = loc.0 as int;
                let ia = loc.1 as int;
                let ih = loc.2 as int;
                let msv = view_of_seq(ms@);
                &&& marks_href(msv) == Some(target@)
                &&& 0 <= k < ms@.len()
                &&& first_link_mark_index(msv) == k
                &&& ms@[k] is Obj
                &&& {
                    let mo = ms@[k]->Obj_0@;
                    &&& 0 <= ia < mo.len()
                    &&& mo[ia].key@ == "attrs"@
                    &&& (forall|j: int| 0 <= j < ia ==> mo[j].key@ != "attrs"@)
                    &&& mo[ia].value is Obj
                    &&& {
                        let ats = mo[ia].value->Obj_0@;
                        &&& 0 <= ih < ats.len()
                        &&& ats[ih].key@ == "href"@
                        &&& (forall|j: int| 0 <= j < ih ==> ats[j].key@ != "href"@)
                        &&& ats[ih].value is Str
                        &&& ats[ih].value->Str_0@ == target@
                    }
                }
            },
            None => marks_href(view_of_seq(ms@)) != Some(target@),
        },
{
    let ghost msv = view_of_seq(ms@);
    proof {
        lemma_view_of_seq(ms@);
    }
    let k = match find_link_mark(ms) {
        Some(k) => k,
        None => {
            return None;
        },
    };
    proof {
        lemma_first_link_mark_props(msv);
        lemma_view_variant(ms@[k as int]);
    }
    match &ms[k] {
        JsonValue::Obj(mo) => {
            let ghost mov = view_of_entries(mo@);
            proof {
                lemma_view_of_entries(mo@);
            }
            let attrs_key = String::from_str("attrs");
            match find_key(mo, &attrs_key) {
                Some(ia) => {
                    proof {
                        lemma_obj_get_at(mov, "attrs"@, ia as int);
                        lemma_view_variant(mo@[ia as int].value);
                    }
                    match &mo[ia].value {
                        JsonValue::Obj(ats) => {
                            let ghost atsv = view_of_entries(ats@);
                            proof {
                                lemma_view_of_entries(ats@);
                            }
                            let href_key = String::from_str("href");
                            match find_key(ats, &href_key) {
                                Some(ih) => {
                                    proof {
                                        lemma_obj_get_at(atsv, "href"@, ih as int);
                                        lemma_view_variant(ats@[ih as int].value);
                                    }
                                    match &ats[ih].value {
                                        JsonValue::Str(h) => {
                                            if h.eq(target) {
                                                Some((k, ia, ih))
                                            } else {
                                                None
                                            }
                                        },
                                        _ => None,
                                    }
                                },
                                None => {
                                    proof {
                                        lemma_obj_get_none(atsv, "href"@);
                                    }
                                    None
                                },
                            }
                        },
                        _ => None,
                    }
                },
                None => {
                    proof {
                        lemma_obj_get_none(mov, "attrs"@);
                    }
                    None
                },
            }
        },
        _ => {
            proof {
                assert(false);
            }
            vstd::pervasive::unreached()
        },
    }
}

/// Replaces the value of entry `i`, keeping its key.
fn set_entry_value(entries: &mut Vec<ObjEntry>, i: usize, val: JsonValue)
    requires
        i < old(entries)@.len(),
    ensures
        final(entries)@ =~= old(entries)@.update(
            i as int,
            ObjEntry { key: old(entries)@[i as int].key, value: val },
        ),
{
    let e = entries.remove(i);
    entries.insert(i, ObjEntry { key: e.key, value: val });
    proof {
        lemma_remove_insert(
            old(entries)@,
            i as int,
            ObjEntry { key: old(entries)@[i as int].key, value: val },
        );
    }
}

/// Applies the node-level rewrite to an object's entries: when the node
/// is a matching link-bearing text node, its first link mark's `href`
/// becomes the new target and its text follows when it still equals the
/// old display text. The second result says whether the node matched.
fn rewrite_obj_top_exec(entries: Vec<ObjEntry>, d: &RenameDescriptor) -> (r: (Vec<ObjEntry>, bool))
    ensures
        view_of_entries(r.0@) == rewrite_obj_top(view_of_entries(entries@), d@),
        r.1 == node_matches(view_of_entries(entries@), d@),
{
    let ghost es = view_of_entries(entries@);
    proof {
        lemma_view_of_entries(entries@);
    }
    let type_key = String::from_str("type");
    let text_lit = String::from_str("text");
    let is_text = match find_key(&entries, &type_key) {
        Some(i) => {
            proof {
                lemma_obj_get_at(es, "type"@, i as int);
                lemma_view_variant(entries@[i as int].value);
            }
            match &entries[i].value {
                JsonValue::Str(s) => s.eq(&text_lit),
                _ => false,
            }
        },
        None => {
            proof {
                lemma_obj_get_none(es, "type"@);
            }
            false
        },
    };
    proof {
        assert(is_text == is_text_obj(es));
    }
    if !is_text {
        return (entries, false);
    }
    let marks_key = String::from_str("marks");
    let m_idx = match find_key(&entries, &marks_key) {
        Some(i) => i,
        None => {
            proof {
                lemma_obj_get_none(es, "marks"@);
            }
            return (entries, false);
        },
    };
    proof {
        lemma_obj_get_at(es, "marks"@, m_idx as int);
        lemma_view_variant(entries@[m_idx as int].value);
    }
    let target = make_href(&d.workspace_slug, &d.old_slug);
    let loc = match &entries[m_idx].value {
        JsonValue::Arr(ms) => locate_marks_href(ms, &target),
        _ => {
            proof {
                assert(node_marks(es) is None);
            }
            return (entries, false);
        },
    };
    let ghost ms0 = entries@[m_idx as int].value->Arr_0@;
    let ghost msv = view_of_seq(ms0);
    proof {
        assert(node_marks(es) == Some(msv));
    }
    let (k, ia, ih) = match loc {
        Some(t) => t,
        None => {
            proof {
                assert(node_href(es) != Some(href_of(d@.workspace_slug, d@.old_slug)));
            }
            return (entries, false);
        },
    };
    proof {
        assert(node_matches(es, d@));
    }
    let new_href = make_href(&d.workspace_slug, &d.new_slug);
    let ghost h2 = href_of(d@.workspace_slug, d@.new_slug);

    let mut entries = entries;
    let ghost es0 = entries@;
    let e_m = entries.remove(m_idx);
    let ObjEntry { key: marks_name, value: marks_value } = e_m;
    let mut ms = match marks_value {
        JsonValue::Arr(ms) => ms,
        _ => vstd::pervasive::unreached(),
    };
    let ghost mo0 = ms@[k as int]->Obj_0@;
    let ghost mov = view_of_entries(mo0);
    let mark = ms.remove(k);
    let mut mo = match mark {
        JsonValue::Obj(mo) => mo,
        _ => vstd::pervasive::unreached(),
    };
    let ghost ats0 = mo@[ia as int].value->Obj_0@;
    let ghost atsv = view_of_entries(ats0);
    let e_a = mo.remove(ia);
    let ObjEntry { key: attrs_name, value: attrs_value } = e_a;
    let mut ats = match attrs_value {
        JsonValue::Obj(a) => a,
        _ => vstd::pervasive::unreached(),
    };
    set_entry_value(&mut ats, ih, JsonValue::Str(new_href));
    proof {
        lemma_view_of_entries(ats0);
        lemma_view_of_entries(mo0);
        lemma_view_of_seq(ms0);
        lemma_view_of_entries_update(
            ats0,
            ih as int,
            ObjEntry { key: ats0[ih as int].key, value: JsonValue::Str(new_href) },
        );
        lemma_obj_set_at(atsv, "href"@, JsonView::Str(h2), ih as int);
        assert(view_of_entries(ats@) =~= obj_set(atsv, "href"@, JsonView::Str(h2)));
    }
    let mo_len = mo.len();
    mo.insert(ia, ObjEntry { key: attrs_name, value: JsonValue::Obj(ats) });
    proof {
        lemma_remove_insert(
            mo0,
            ia as int,
            ObjEntry { key: mo0[ia as int].key, value: JsonValue::Obj(ats) },
        );
        lemma_view_of_entries_update(
            mo0,
            ia as int,
            ObjEntry { key: mo0[ia as int].key, value: JsonValue::Obj(ats) },
        );
        lemma_obj_set_at(mov, "attrs"@, JsonView::Obj(obj_set(atsv, "href"@, JsonView::Str(h2))), ia as int);
        assert(view_of_entries(mo@) =~= obj_set(
            mov,
            "attrs"@,
            JsonView::Obj(obj_set(atsv, "href"@, JsonView::Str(h2))),
        ));
    }
    let ms_len = ms.len();
    ms.insert(k, JsonValue::Obj(mo));
    proof {
        lemma_remove_insert(ms0, k as int, JsonValue::Obj(mo));
        lemma_view_of_seq_update(ms0, k as int, JsonValue::Obj(mo));
        lemma_view_variant(ms0[k as int]);
        lemma_view_variant(mo0[ia as int].value);
        lemma_obj_get_at(mov, "attrs"@, ia as int);
        assert(msv[k as int] is Obj && msv[k as int]->Obj_0 == mov);
        assert(obj_get(mov, "attrs"@) == Some(JsonView::Obj(atsv)));
        assert(view_of_seq(ms@) =~= set_marks_href(msv, h2));
    }
    entries.insert(m_idx, ObjEntry { key: marks_name, value: JsonValue::Arr(ms) });
    proof {
        lemma_remove_insert(es0, m_idx as int, ObjEntry { key: es0[m_idx as int].key, value: JsonValue::Arr(ms) });
        lemma_view_of_entries_update(
            es0,
            m_idx as int,
            ObjEntry { key: es0[m_idx as int].key, value: JsonValue::Arr(ms) },
        );
        lemma_obj_set_at(es, "marks"@, JsonView::Arr(set_marks_href(msv, h2)), m_idx as int);
        assert(view_of_entries(entries@) =~= obj_set(es, "marks"@, JsonView::Arr(set_marks_href(msv, h2))));
    }

    let ghost e1 = view_of_entries(entries@);
    proof {
        lemma_view_of_entries(entries@);
    }
    let text_key = String::from_str("text");
    match find_key(&entries, &text_key) {
        Some(it) => {
            proof {
                lemma_obj_get_at(e1, "text"@, it as int);
                lemma_view_variant(entries@[it as int].value);
            }
            let do_text = match &entries[it].value {
                JsonValue::Str(s) => s.eq(&d.old_display_text),
                _ => false,
            };
            if do_text {
                let ghost before = entries@;
                set_entry_value(&mut entries, it, JsonValue::Str(d.new_display_text.clone()));
                proof {
                    lemma_view_of_entries_update(
                        before,
                        it as int,
                        ObjEntry {
                            key: before[it as int].key,
                            value: JsonValue::Str(d.new_display_text),
                        },
                    );
                    lemma_obj_set_at(e1, "text"@, JsonView::Str(d@.new_display_text), it as int);
                    assert(view_of_entries(entries@) =~= obj_set(
                        e1,
                        "text"@,
                        JsonView::Str(d@.new_display_text),
                    ));
                }
            }
        },
        None => {
            proof {
                lemma_obj_get_none(e1, "text"@);
            }
        },
    }
    (entries, true)
}

/// The hyperlink target `/{ws}/{slug}`.
fn make_href(ws: &String, slug: &String) -> (r: String)
    ensures
        r@ == href_of(ws@, slug@),
{
    let mut s = String::from_str("/");
    s.append(ws.as_str());
    s.append("/");
    s.append(slug.as_str());
    proof {
        reveal_strlit("/");
        assert("/"@ =~= seq!['/']);
        assert(s@ =~= href_of(ws@, slug@));
    }
    s
}

/// A fresh copy of an object's entries.
fn clone_entries(entries: &Vec<ObjEntry>) -> (r: Vec<ObjEntry>)
    ensures
        r@.len() == entries@.len(),
        forall|j: int| 0 <= j < entries@.len() ==> (#[trigger] r@[j])@ == entries@[j]@,
{
    let n = entries.len();
    let mut out: Vec<ObjEntry> = Vec::new();
    let mut i: usize = 0;
    while i < n
        invariant
            n == entries@.len(),
            i <= n,
            out@.len() == i,
            forall|j: int| 0 <= j < i ==> (#[trigger] out@[j])@ == entries@[j]@,
        decreases n - i,
    {
        let c = clone_value(&entries[i].value);
        out.push(ObjEntry { key: entries[i].key.clone(), value: c });
        i = i + 1;
    }
    out
}

/// Rewrites each value of a list in order, and reports whether any node
/// in any of them matched.
fn update_children(elems: &Vec<JsonValue>, d: &RenameDescriptor) -> (r: (Vec<JsonValue>, bool))
    ensures
        view_of_seq(r.0@) == rewrite_seq(view_of_seq(elems@), d@),
        r.1 == seq_has_match(view_of_seq(elems@), d@),
    decreases elems,
{
    let ghost vs = view_of_seq(elems@);
    proof {
        lemma_view_of_seq(elems@);
    }
    let n = elems.len();
    let mut out: Vec<JsonValue> = Vec::new();
    let mut changed = false;
    let mut i: usize = 0;
    while i < n
        invariant
            n == elems@.len(),
            i <= n,
            vs == view_of_seq(elems@),
            vs.len() == n,
            forall|j: int| 0 <= j < n ==> vs[j] == view_of(elems@[j]),
            view_of_seq(out@) == rewrite_seq(vs.take(i as int), d@),
            changed == seq_has_match(vs.take(i as int), d@),
        decreases n - i,
    {
        proof {
            assert(decreases_to!(*elems => elems@));
            assert(decreases_to!(elems@ => elems@[i as int]));
        }
        let ghost out_before = out@;
        let (c, ch) = update_nodes(&elems[i], d);
        out.push(c);
        changed = changed || ch;
        i = i + 1;
        proof {
            assert(out@.drop_last() =~= out_before);
            assert(vs.take(i as int).drop_last() =~= vs.take(i as int - 1));
            assert(vs.take(i as int).last() == vs[i as int - 1]);
        }
    }
    proof {
        assert(vs.take(n as int) =~= vs);
    }
    (out, changed)
}

/// Rewrites one document value, depth first, and reports whether any
/// node in it matched the descriptor.
pub fn update_nodes(v: &JsonValue, d: &RenameDescriptor) -> (r: (JsonValue, bool))
    ensures
        r.0@ == rewrite_value(v@, d@),
        r.1 == has_match(v@, d@),
    decreases v,
{
    match v {
        JsonValue::Null => (JsonValue::Null, false),
        JsonValue::Bool(b) => (JsonValue::Bool(*b), false),
        JsonValue::Num(s) => (JsonValue::Num(s.clone()), false),
        JsonValue::Str(s) => (JsonValue::Str(s.clone()), false),
        JsonValue::Arr(elems) => {
            proof {
                assert(decreases_to!(*v => v->Arr_0));
            }
            let (out, changed) = update_children(elems, d);
            (JsonValue::Arr(out), changed)
        },
        JsonValue::Obj(entries) => {
            let ghost es = view_of_entries(entries@);
            proof {
                lemma_view_of_entries(entries@);
            }
            let n = entries.len();
            let content_key = String::from_str("content");
            let found = find_key(&entries, &content_key);
            let mut changed = false;
            let mut rec: Vec<ObjEntry>;
            match found {
                Some(ic) => {
                    proof {
                        lemma_view_variant(entries@[ic as int].value);
                    }
                    let is_arr = match &entries[ic].value {
                        JsonValue::Arr(_) => true,
                        _ => false,
                    };
                    if is_arr {
                        let mut out: Vec<ObjEntry> = Vec::new();
                        let mut j: usize = 0;
                        while j < n
                            invariant
                                n == entries@.len(),
                                j <= n,
                                out@.len() == j,
                                *v is Obj,
                                entries@ == v->Obj_0@,
                                ic < n,
                                entries@[ic as int].key@ == "content"@,
                                forall|jj: int| 0 <= jj < ic ==> entries@[jj].key@ != "content"@,
                                entries@[ic as int].value is Arr,
                                forall|jj: int|
                                    0 <= jj < j && jj != ic ==> (#[trigger] out@[jj])@
                                        == entries@[jj]@,
                                j > ic ==> out@[ic as int]@ == (EntryView {
                                    key: entries@[ic as int].key@,
                                    value: JsonView::Arr(
                                        rewrite_seq(
                                            view_of_seq(entries@[ic as int].value->Arr_0@),
                                            d@,
                                        ),
                                    ),
                                }),
                                j > ic ==> changed == seq_has_match(
                                    view_of_seq(entries@[ic as int].value->Arr_0@),
                                    d@,
                                ),
                                j <= ic ==> changed == false,
                            decreases n - j,
                        {
                            if j == ic {
                                proof {
                                    assert(decreases_to!(*v => v->Obj_0));
                                    assert(decreases_to!(v->Obj_0 => v->Obj_0@));
                                    assert(decreases_to!(v->Obj_0@ => v->Obj_0@[j as int]));
                                    assert(decreases_to!(
                                        v->Obj_0@[j as int] => v->Obj_0@[j as int].value));
                                    assert(decreases_to!(
                                        v->Obj_0@[j as int].value
                                            => v->Obj_0@[j as int].value->Arr_0));
                                    assert(decreases_to!(*v => entries@[j as int].value->Arr_0));
                                }
                                let (cs2, ch) = match &entries[j].value {
                                    JsonValue::Arr(cs) => update_children(cs, d),
                                    _ => vstd::pervasive::unreached(),
                                };
                                out.push(ObjEntry {
                                    key: entries[j].key.clone(),
                                    value: JsonValue::Arr(cs2),
                                });
                                changed = ch;
                            } else {
                                let c = clone_value(&entries[j].value);
                                out.push(ObjEntry { key: entries[j].key.clone(), value: c });
                            }
                            j = j + 1;
                        }
                        proof {
                            lemma_rewrite_entries_at(es, d@, ic as int);
                            lemma_view_of_entries(out@);
                            lemma_view_variant(entries@[ic as int].value);
                            assert(view_of_entries(out@) =~= rewrite_entries(es, d@));
                        }
                        rec = out;
                    } else {
                        proof {
                            lemma_rewrite_entries_stop(es, d@, ic as int);
                        }
                        rec = clone_entries(entries);
                        proof {
                            lemma_view_of_entries(rec@);
                            assert(view_of_entries(rec@) =~= rewrite_entries(es, d@));
                        }
                    }
                },
                None => {
                    proof {
                        lemma_rewrite_entries_none(es, d@);
                    }
                    rec = clone_entries(entries);
                    proof {
                        lemma_view_of_entries(rec@);
                        assert(view_of_entries(rec@) =~= rewrite_entries(es, d@));
                    }
                },
            }
            let ghost rec_view = view_of_entries(rec@);
            let (out2, matched) = rewrite_obj_top_exec(rec, d);
            proof {
                lemma_node_matches_after_rewrite_entries(es, d@);
                assert(matched == node_matches(es, d@));
                assert(view_of_entries(out2@) == rewrite_obj_top(rewrite_entries(es, d@), d@));
            }
            (JsonValue::Obj(out2), matched || changed)
        },
    }
}

/// Rewrites a whole document for a rename: every link to the old target
/// is pointed at the new one, and anchor text that still equals the old
/// display text follows the rename. The second result reports whether
/// anything matched.
pub fn update_link_text(doc: &JsonValue, desc: &RenameDescriptor) -> (r: (JsonValue, bool))
    ensures
        r.0@ == rewrite_value(doc@, desc@),
        r.1 == has_match(doc@, desc@),
{
    update_nodes(doc, desc)
}

} // verus!
