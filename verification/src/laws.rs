//! Laws of the document tree rewriter.
//!
//! These proof functions state, over the rewriter's mathematical model,
//! what a rename does to a document: a matching node's `href` and
//! hand-untouched text are rewritten, a hand-edited text is kept, and
//! nodes that do not match pass through untouched wherever they sit.

use vstd::prelude::*;

use crate::doc::EntryView;
use crate::doc::JsonView;
use crate::rewrite::DescView;
use crate::rewrite::entries_has_match;
use crate::rewrite::first_link_mark_index;
use crate::rewrite::has_match;
use crate::rewrite::href_of;
use crate::rewrite::is_link_mark;
use crate::rewrite::lemma_first_link_mark_at;
use crate::rewrite::lemma_first_link_mark_props;
use crate::rewrite::lemma_node_matches_after_rewrite_entries;
use crate::rewrite::mark_attrs;
use crate::rewrite::marks_href;
use crate::rewrite::node_href;
use crate::rewrite::node_marks;
use crate::rewrite::node_matches;
use crate::rewrite::obj_get;
use crate::rewrite::obj_set;
use crate::rewrite::rewrite_entries;
use crate::rewrite::rewrite_obj_top;
use crate::rewrite::rewrite_seq;
use crate::rewrite::rewrite_value;
use crate::rewrite::seq_has_match;
use crate::rewrite::set_marks_href;

verus! {

/// After a replacement, the replaced key reads the new value, provided
/// the key was there at all.
pub proof fn lemma_obj_get_set_same(es: Seq<EntryView>, key: Seq<char>, val: JsonView)
    requires
        obj_get(es, key) is Some,
    ensures
        obj_get(obj_set(es, key, val), key) == Some(val),
    decreases es.len(),
{
    if es.len() > 0 {
        if es[0].key == key {
            let es2 = seq![EntryView { key: es[0].key, value: val }] + es.drop_first();
            assert(es2[0].key == key);
        } else {
            let es2 = seq![es[0]] + obj_set(es.drop_first(), key, val);
            assert(es2[0] == es[0]);
            assert(es2.drop_first() =~= obj_set(es.drop_first(), key, val));
            lemma_obj_get_set_same(es.drop_first(), key, val);
        }
    }
}

/// A replacement under one key leaves every lookup under another key
/// unchanged.
pub proof fn lemma_obj_get_set_other(
    es: Seq<EntryView>,
    key1: Seq<char>,
    val: JsonView,
    key2: Seq<char>,
)
    requires
        key1 != key2,
    ensures
        obj_get(obj_set(es, key1, val), key2) == obj_get(es, key2),
    decreases es.len(),
{
    if es.len() > 0 {
        if es[0].key == key1 {
            let es2 = seq![EntryView { key: es[0].key, value: val }] + es.drop_first();
            assert(es2[0].key == key1);
            assert(es2.drop_first() =~= es.drop_first());
        } else {
            let es2 = seq![es[0]] + obj_set(es.drop_first(), key1, val);
            assert(es2[0] == es[0]);
            assert(es2.drop_first() =~= obj_set(es.drop_first(), key1, val));
            lemma_obj_get_set_other(es.drop_first(), key1, val, key2);
        }
    }
}

/// Rewriting the children under `content` leaves every lookup under
/// another key unchanged.
pub proof fn lemma_rewrite_entries_get_other(es: Seq<EntryView>, d: DescView, key: Seq<char>)
    requires
        key != "content"@,
    ensures
        obj_get(rewrite_entries(es, d), key) == obj_get(es, key),
    decreases es.len(),
{
    if es.len() > 0 {
        if es[0].key == "content"@ {
            match es[0].value {
                JsonView::Arr(cs) => {
                    let e2 = EntryView { key: es[0].key, value: JsonView::Arr(rewrite_seq(cs, d)) };
                    let es2 = seq![e2] + es.drop_first();
                    assert(es2[0] == e2);
                    assert(es2.drop_first() =~= es.drop_first());
                },
                _ => {},
            }
        } else {
            let es2 = seq![es[0]] + rewrite_entries(es.drop_first(), d);
            assert(es2[0] == es[0]);
            assert(es2.drop_first() =~= rewrite_entries(es.drop_first(), d));
            lemma_rewrite_entries_get_other(es.drop_first(), d, key);
        }
    }
}

/// Setting the link `href` of a marks list really sets it: afterwards
/// the list's link `href` reads the new value, the first link mark is
/// still the same mark, and every other mark is untouched.
pub proof fn lemma_set_marks_href(ms: Seq<JsonView>, h: Seq<char>)
    requires
        marks_href(ms) is Some,
    ensures
        marks_href(set_marks_href(ms, h)) == Some(h),
        set_marks_href(ms, h).len() == ms.len(),
        first_link_mark_index(set_marks_href(ms, h)) == first_link_mark_index(ms),
        forall|j: int|
            0 <= j < ms.len() && j != first_link_mark_index(ms) ==> set_marks_href(ms, h)[j]
                == ms[j],
{
    reveal_strlit("type");
    reveal_strlit("attrs");
    assert("type"@.len() == 4 && "attrs"@.len() == 5);
    let i = first_link_mark_index(ms);
    lemma_first_link_mark_props(ms);
    let mo = ms[i]->Obj_0;
    let ats = match obj_get(mo, "attrs"@) {
        Some(JsonView::Obj(a)) => a,
        _ => arbitrary(),
    };
    let ats2 = obj_set(ats, "href"@, JsonView::Str(h));
    let mo2 = obj_set(mo, "attrs"@, JsonView::Obj(ats2));
    let ms2 = set_marks_href(ms, h);
    assert(ms2 == ms.update(i, JsonView::Obj(mo2)));
    lemma_obj_get_set_other(mo, "attrs"@, JsonView::Obj(ats2), "type"@);
    assert(is_link_mark(ms2[i]));
    assert forall|j: int| 0 <= j < i implies !is_link_mark(ms2[j]) by {
        assert(ms2[j] == ms[j]);
        lemma_first_link_mark_index_prefix(ms, j);
    }
    lemma_first_link_mark_at(ms2, i);
    lemma_obj_get_set_same(mo, "attrs"@, JsonView::Obj(ats2));
    assert(mark_attrs(ms2[i]) == Some(ats2));
    lemma_obj_get_set_same(ats, "href"@, JsonView::Str(h));
}

/// Marks before the first link mark are no link marks.
pub proof fn lemma_first_link_mark_index_prefix(ms: Seq<JsonView>, j: int)
    requires
        0 <= j < first_link_mark_index(ms),
    ensures
        !is_link_mark(ms[j]),
    decreases j,
{
    lemma_first_link_mark_props(ms);
    if ms.len() > 0 && !is_link_mark(ms[0]) && j > 0 {
        assert(ms.drop_first()[j - 1] == ms[j]);
        lemma_first_link_mark_index_prefix(ms.drop_first(), j - 1);
    }
}

/// The rewrite of a list works element by element: each listed value is
/// rewritten on its own, and none is moved, dropped or added. In
/// particular a nested node that does not match stays as it is even when
/// its siblings match.
pub proof fn lemma_rewrite_seq_elementwise(s: Seq<JsonView>, d: DescView)
    ensures
        rewrite_seq(s, d).len() == s.len(),
        forall|i: int| 0 <= i < s.len() ==> rewrite_seq(s, d)[i] == rewrite_value(s[i], d),
    decreases s.len(),
{
    if s.len() > 0 {
        lemma_rewrite_seq_elementwise(s.drop_last(), d);
        assert forall|i: int| 0 <= i < s.len() implies rewrite_seq(s, d)[i] == rewrite_value(
            s[i],
            d,
        ) by {
            if i < s.len() - 1 {
                assert(s.drop_last()[i] == s[i]);
            }
        }
    }
}

/// What a rename does to a matching node: the node keeps its shape, its
/// first link mark's `href` now reads the new target, its text becomes
/// the new display text exactly when it still equalled the old display
/// text, and any hand-edited text is kept letter for letter.
pub proof fn lemma_rewrite_matching_node(es: Seq<EntryView>, d: DescView)
    requires
        node_matches(es, d),
    ensures
        ({
            let r = rewrite_value(JsonView::Obj(es), d)->Obj_0;
            &&& node_href(r) == Some(href_of(d.workspace_slug, d.new_slug))
            &&& (obj_get(es, "text"@) == Some(JsonView::Str(d.old_display_text)) ==> obj_get(
                r,
                "text"@,
            ) == Some(JsonView::Str(d.new_display_text)))
            &&& (forall|t: Seq<char>|
                obj_get(es, "text"@) == Some(JsonView::Str(t)) && t != d.old_display_text
                    ==> obj_get(r, "text"@) == Some(JsonView::Str(t)))
        }),
{
    reveal_strlit("content");
    reveal_strlit("marks");
    reveal_strlit("text");
    assert("content"@.len() == 7 && "marks"@.len() == 5 && "text"@.len() == 4);
    let rec = rewrite_entries(es, d);
    lemma_node_matches_after_rewrite_entries(es, d);
    lemma_rewrite_entries_get_other(es, d, "text"@);
    let h2 = href_of(d.workspace_slug, d.new_slug);
    let ms = match node_marks(es) {
        Some(ms) => ms,
        None => arbitrary(),
    };
    let e1 = obj_set(rec, "marks"@, JsonView::Arr(set_marks_href(ms, h2)));
    lemma_obj_get_set_other(rec, "marks"@, JsonView::Arr(set_marks_href(ms, h2)), "text"@);
    lemma_obj_get_set_same(rec, "marks"@, JsonView::Arr(set_marks_href(ms, h2)));
    lemma_set_marks_href(ms, h2);
    assert(node_href(e1) == Some(h2));
    let r = rewrite_obj_top(rec, d);
    if obj_get(e1, "text"@) == Some(JsonView::Str(d.old_display_text)) {
        assert(r == obj_set(e1, "text"@, JsonView::Str(d.new_display_text)));
        lemma_obj_get_set_same(e1, "text"@, JsonView::Str(d.new_display_text));
        lemma_obj_get_set_other(e1, "text"@, JsonView::Str(d.new_display_text), "marks"@);
        assert(node_href(r) == Some(h2));
    } else {
        assert(r == e1);
    }
}

/// A value in which no node matches is returned unchanged, however deep
/// the rewrite looks into it.
pub proof fn lemma_no_match_unchanged(v: JsonView, d: DescView)
    requires
        !has_match(v, d),
    ensures
        rewrite_value(v, d) == v,
    decreases v,
{
    match v {
        JsonView::Arr(elems) => {
            lemma_no_match_unchanged_seq(elems, d);
        },
        JsonView::Obj(es) => {
            lemma_no_match_unchanged_entries(es, d);
            lemma_node_matches_after_rewrite_entries(es, d);
            assert(rewrite_entries(es, d) == es);
            assert(rewrite_obj_top(es, d) == es);
        },
        _ => {},
    }
}

/// A list in which no node matches is returned unchanged.
pub proof fn lemma_no_match_unchanged_seq(s: Seq<JsonView>, d: DescView)
    requires
        !seq_has_match(s, d),
    ensures
        rewrite_seq(s, d) == s,
    decreases s,
{
    if s.len() > 0 {
        lemma_no_match_unchanged_seq(s.drop_last(), d);
        lemma_no_match_unchanged(s.last(), d);
        assert(rewrite_seq(s, d) =~= s);
    }
}

/// Entries in which no node below `content` matches are returned
/// unchanged.
pub proof fn lemma_no_match_unchanged_entries(es: Seq<EntryView>, d: DescView)
    requires
        !entries_has_match(es, d),
    ensures
        rewrite_entries(es, d) == es,
    decreases es,
{
    if es.len() > 0 {
        if es[0].key == "content"@ {
            match es[0].value {
                JsonView::Arr(cs) => {
                    lemma_no_match_unchanged_seq(cs, d);
                    assert(EntryView { key: es[0].key, value: JsonView::Arr(cs) } == es[0]);
                    assert(rewrite_entries(es, d) =~= es);
                },
                _ => {},
            }
        } else {
            lemma_no_match_unchanged_entries(es.drop_first(), d);
            assert(rewrite_entries(es, d) =~= es);
        }
    }
}

} // verus!
