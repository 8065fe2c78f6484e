//! The in-memory relational store: workspaces, memos, and the directed
//! link graph between memos.
//!
//! The store is the library's model of the three tables the application
//! keeps: every operation states exactly how it changes the rows, each
//! row id is handed out once, a workspace slug is unique, a memo slug is
//! unique inside its workspace, and at most one edge exists per ordered
//! pair of memos. Every operation is a single synchronous step on one
//! owned value, so an operation that answers with an error has, by its
//! contract, changed nothing: the all-or-nothing behaviour that the
//! surrounding storage layer realises with one transaction per call.

use vstd::prelude::*;

use crate::doc::JsonValue;
use crate::rewrite::DescView;
use crate::rewrite::RenameDescriptor;
use crate::rewrite::rewrite_value;
use crate::models::Link;
use crate::models::LinkId;
use crate::models::LinkType;
use crate::models::MemoDetail;
use crate::models::MemoIndexItem;
use crate::models::Workspace;

verus! {

/// The failures a store operation can answer with.
#[derive(PartialEq, Eq, Structural, Clone, Copy, Debug)]
pub enum StoreError {
    /// A workspace, memo or edge that the call names is absent.
    NotFound,
    /// An edge or slug uniqueness rule would be violated.
    DuplicateConstraint,
    /// A stored document cannot be read as a document tree.
    MalformedDocument,
    /// The underlying storage failed; here: a row id space is used up.
    StorageFailure,
}

impl StoreError {
    /// A human-readable message for the failure.
    pub fn message(&self) -> (r: String)
        ensures
            self is NotFound ==> r@ == "not found"@,
            self is DuplicateConstraint ==> r@ == "duplicate constraint"@,
            self is MalformedDocument ==> r@ == "malformed document"@,
            self is StorageFailure ==> r@ == "storage failure"@,
    {
        match self {
            StoreError::NotFound => String::from_str("not found"),
            StoreError::DuplicateConstraint => String::from_str("duplicate constraint"),
            StoreError::MalformedDocument => String::from_str("malformed document"),
            StoreError::StorageFailure => String::from_str("storage failure"),
        }
    }
}

/// One memo row as the store keeps it.
pub struct MemoRecord {
    pub id: i32,
    pub workspace_id: i32,
    pub slug_title: String,
    pub title: String,
    pub content: JsonValue,
    pub description: Option<String>,
}

/// Some row of the given memo table carries this id.
pub open spec fn seq_has_memo(memos: Seq<MemoRecord>, id: i32) -> bool {
    exists|i: int| 0 <= i < memos.len() && (#[trigger] memos[i]).id == id
}

/// The three tables and the next free row id of each.
pub struct Store {
    pub workspaces: Vec<Workspace>,
    pub memos: Vec<MemoRecord>,
    pub links: Vec<LinkId>,
    pub next_workspace_id: i32,
    pub next_memo_id: i32,
    pub next_link_id: i32,
}

impl Store {
    /// Some workspace row carries this id.
    pub open spec fn has_workspace(&self, id: i32) -> bool {
        exists|i: int| 0 <= i < self.workspaces@.len() && (#[trigger] self.workspaces@[i]).id == id
    }

    /// Some workspace row carries this slug.
    pub open spec fn has_workspace_slug(&self, slug: Seq<char>) -> bool {
        exists|i: int|
            0 <= i < self.workspaces@.len() && (#[trigger] self.workspaces@[i]).slug_name@ == slug
    }

    /// Some memo row carries this id.
    pub open spec fn has_memo(&self, id: i32) -> bool {
        seq_has_memo(self.memos@, id)
    }

    /// Some memo row of this workspace carries this slug.
    pub open spec fn has_memo_slug(&self, workspace_id: i32, slug: Seq<char>) -> bool {
        exists|i: int|
            0 <= i < self.memos@.len() && (#[trigger] self.memos@[i]).workspace_id == workspace_id
                && self.memos@[i].slug_title@ == slug
    }

    /// Some edge goes from `from` to `to`.
    pub open spec fn has_edge(&self, from: i32, to: i32) -> bool {
        exists|i: int|
            0 <= i < self.links@.len() && (#[trigger] self.links@[i]).from_memo_id == from
                && self.links@[i].to_memo_id == to
    }

    /// Workspace rows have pairwise distinct ids and slugs, each id
    /// below the next free one.
    pub open spec fn workspaces_wf(&self) -> bool {
        &&& self.next_workspace_id >= 1
        &&& forall|i: int, j: int|
            #![trigger self.workspaces@[i].id, self.workspaces@[j].id]
            0 <= i < j < self.workspaces@.len() ==> self.workspaces@[i].id
                != self.workspaces@[j].id
        &&& forall|i: int, j: int|
            #![trigger self.workspaces@[i].slug_name, self.workspaces@[j].slug_name]
            0 <= i < j < self.workspaces@.len() ==> self.workspaces@[i].slug_name@
                != self.workspaces@[j].slug_name@
        &&& forall|i: int|
            0 <= i < self.workspaces@.len() ==> 0 <= (#[trigger] self.workspaces@[i]).id
                < self.next_workspace_id
    }

    /// Memo rows have pairwise distinct ids, a slug unique inside each
    /// workspace, each id below the next free one, and each row's
    /// workspace exists.
    pub open spec fn memos_wf(&self) -> bool {
        &&& self.next_memo_id >= 1
        &&& forall|i: int, j: int|
            #![trigger self.memos@[i].id, self.memos@[j].id]
            0 <= i < j < self.memos@.len() ==> self.memos@[i].id != self.memos@[j].id
        &&& forall|i: int, j: int|
            #![trigger self.memos@[i].slug_title, self.memos@[j].slug_title]
            0 <= i < j < self.memos@.len() ==> !(self.memos@[i].workspace_id
                == self.memos@[j].workspace_id && self.memos@[i].slug_title@
                == self.memos@[j].slug_title@)
        &&& forall|i: int|
            0 <= i < self.memos@.len() ==> 0 <= (#[trigger] self.memos@[i]).id
                < self.next_memo_id
    }

    /// Edges have pairwise distinct ids, at most one edge per ordered
    /// pair, each id below the next free one, and both endpoints exist.
    pub open spec fn links_wf(&self) -> bool {
        &&& self.next_link_id >= 1
        &&& forall|i: int, j: int|
            #![trigger self.links@[i].id, self.links@[j].id]
            0 <= i < j < self.links@.len() ==> self.links@[i].id != self.links@[j].id
        &&& forall|i: int, j: int|
            #![trigger self.links@[i], self.links@[j]]
            0 <= i < j < self.links@.len() ==> !(self.links@[i].from_memo_id
                == self.links@[j].from_memo_id && self.links@[i].to_memo_id
                == self.links@[j].to_memo_id)
        &&& forall|i: int|
            0 <= i < self.links@.len() ==> 0 <= (#[trigger] self.links@[i]).id
                < self.next_link_id
        &&& forall|i: int|
            0 <= i < self.links@.len() ==> self.has_memo(
                (#[trigger] self.links@[i]).from_memo_id,
            ) && self.has_memo(self.links@[i].to_memo_id)
    }

    /// The store's invariant: every constructor establishes it and
    /// every operation keeps it.
    pub open spec fn wf(&self) -> bool {
        self.workspaces_wf() && self.memos_wf() && self.links_wf()
    }
}

/// A fresh, empty store: no workspaces, no memos, no edges; row ids
/// start at one, as the storage layer's tables do.
pub fn initialize_database() -> (s: Store)
    ensures
        s.wf(),
        s.workspaces@.len() == 0,
        s.memos@.len() == 0,
        s.links@.len() == 0,
        s.next_workspace_id == 1,
        s.next_memo_id == 1,
        s.next_link_id == 1,
{
    Store {
        workspaces: Vec::new(),
        memos: Vec::new(),
        links: Vec::new(),
        next_workspace_id: 1,
        next_memo_id: 1,
        next_link_id: 1,
    }
}

/// Replaces element `i` of a vector.
pub fn vec_set<T>(v: &mut Vec<T>, i: usize, x: T)
    requires
        i < old(v)@.len(),
    ensures
        final(v)@ =~= old(v)@.update(i as int, x),
{
    let _ = v.remove(i);
    v.insert(i, x);
}

/// The index of the workspace row with the given id.
pub fn find_workspace_index(s: &Store, id: i32) -> (r: Option<usize>)
    ensures
        match r {
            Some(i) => i < s.workspaces@.len() && s.workspaces@[i as int].id == id,
            None => !s.has_workspace(id),
        },
{
    let n = s.workspaces.len();
    let mut i: usize = 0;
    while i < n
        invariant
            n == s.workspaces@.len(),
            i <= n,
            forall|j: int| 0 <= j < i ==> (#[trigger] s.workspaces@[j]).id != id,
        decreases n - i,
    {
        if s.workspaces[i].id == id {
            return Some(i);
        }
        i = i + 1;
    }
    None
}

/// The index of the workspace row with the given slug.
pub fn find_workspace_by_slug(s: &Store, slug_name: &String) -> (r: Option<usize>)
    ensures
        match r {
            Some(i) => i < s.workspaces@.len() && s.workspaces@[i as int].slug_name@ == slug_name@,
            None => !s.has_workspace_slug(slug_name@),
        },
{
    let n = s.workspaces.len();
    let mut i: usize = 0;
    while i < n
        invariant
            n == s.workspaces@.len(),
            i <= n,
            forall|j: int| 0 <= j < i ==> (#[trigger] s.workspaces@[j]).slug_name@ != slug_name@,
        decreases n - i,
    {
        if s.workspaces[i].slug_name.eq(slug_name) {
            return Some(i);
        }
        i = i + 1;
    }
    None
}

/// The index of the memo row with the given id.
pub fn find_memo_index(s: &Store, id: i32) -> (r: Option<usize>)
    ensures
        match r {
            Some(i) => i < s.memos@.len() && s.memos@[i as int].id == id,
            None => !s.has_memo(id),
        },
{
    let n = s.memos.len();
    let mut i: usize = 0;
    while i < n
        invariant
            n == s.memos@.len(),
            i <= n,
            forall|j: int| 0 <= j < i ==> (#[trigger] s.memos@[j]).id != id,
        decreases n - i,
    {
        if s.memos[i].id == id {
            return Some(i);
        }
        i = i + 1;
    }
    None
}

/// The index of the memo row of the given workspace with the given
/// slug.
pub fn find_memo_by_slug(s: &Store, workspace_id: i32, slug_title: &String) -> (r: Option<usize>)
    ensures
        match r {
            Some(i) => i < s.memos@.len() && s.memos@[i as int].workspace_id == workspace_id
                && s.memos@[i as int].slug_title@ == slug_title@,
            None => !s.has_memo_slug(workspace_id, slug_title@),
        },
{
    let n = s.memos.len();
    let mut i: usize = 0;
    while i < n
        invariant
            n == s.memos@.len(),
            i <= n,
            forall|j: int|
                0 <= j < i ==> !((#[trigger] s.memos@[j]).workspace_id == workspace_id
                    && s.memos@[j].slug_title@ == slug_title@),
        decreases n - i,
    {
        if s.memos[i].workspace_id == workspace_id && s.memos[i].slug_title.eq(slug_title) {
            return Some(i);
        }
        i = i + 1;
    }
    None
}

/// The index of the edge row for the given ordered pair.
pub fn find_edge_index(s: &Store, from: i32, to: i32) -> (r: Option<usize>)
    ensures
        match r {
            Some(i) => i < s.links@.len() && s.links@[i as int].from_memo_id == from
                && s.links@[i as int].to_memo_id == to,
            None => !s.has_edge(from, to),
        },
{
    let n = s.links.len();
    let mut i: usize = 0;
    while i < n
        invariant
            n == s.links@.len(),
            i <= n,
            forall|j: int|
                0 <= j < i ==> !((#[trigger] s.links@[j]).from_memo_id == from
                    && s.links@[j].to_memo_id == to),
        decreases n - i,
    {
        if s.links[i].from_memo_id == from && s.links[i].to_memo_id == to {
            return Some(i);
        }
        i = i + 1;
    }
    None
}

/// A fresh copy of a workspace row.
pub fn clone_workspace(w: &Workspace) -> (r: Workspace)
    ensures
        r == *w,
{
    Workspace {
        id: w.id,
        slug_name: w.slug_name.clone(),
        name: w.name.clone(),
        created_at: w.created_at.clone(),
        updated_at: w.updated_at.clone(),
    }
}

/// A fresh copy of an optional string.
pub fn clone_opt_string(s: &Option<String>) -> (r: Option<String>)
    ensures
        r == *s,
{
    match s {
        Some(x) => Some(x.clone()),
        None => None,
    }
}

/// Filtering a sequence extended by one element keeps the element
/// exactly when the predicate holds of it.
pub proof fn lemma_filter_push<T>(s: Seq<T>, x: T, pred: spec_fn(T) -> bool)
    ensures
        s.push(x).filter(pred) == if pred(x) {
            s.filter(pred).push(x)
        } else {
            s.filter(pred)
        },
{
    reveal(Seq::filter);
    assert(s.push(x).drop_last() =~= s);
    assert(s.push(x).last() == x);
}

/// The operations on workspace rows.
pub struct WorkspaceRepository;

impl WorkspaceRepository {
    /// Every workspace row, in store order.
    pub fn list(s: &Store) -> (r: Result<Vec<Workspace>, StoreError>)
        ensures
            r is Ok,
            r->Ok_0@ == s.workspaces@,
    {
        let n = s.workspaces.len();
        let mut out: Vec<Workspace> = Vec::new();
        let mut i: usize = 0;
        while i < n
            invariant
                n == s.workspaces@.len(),
                i <= n,
                out@.len() == i,
                forall|j: int| 0 <= j < i ==> #[trigger] out@[j] == s.workspaces@[j],
            decreases n - i,
        {
            out.push(clone_workspace(&s.workspaces[i]));
            i = i + 1;
        }
        proof {
            assert(out@ =~= s.workspaces@);
        }
        Ok(out)
    }

    /// The workspace with the given slug, if any.
    pub fn find_by_slug(s: &Store, slug_name: &String) -> (r: Option<Workspace>)
        requires
            s.wf(),
        ensures
            match r {
                Some(w) => s.has_workspace_slug(slug_name@) && w.slug_name@ == slug_name@
                    && (exists|i: int|
                    0 <= i < s.workspaces@.len() && #[trigger] s.workspaces@[i] == w),
                None => !s.has_workspace_slug(slug_name@),
            },
    {
        match find_workspace_by_slug(s, slug_name) {
            Some(i) => Some(clone_workspace(&s.workspaces[i])),
            None => None,
        }
    }

    /// Adds a workspace. Fails with `DuplicateConstraint` exactly when
    /// the slug is taken, and with `StorageFailure` exactly when the
    /// workspace id space is used up; on failure the store is
    /// unchanged.
    pub fn create(s: &mut Store, slug_name: &String, name: &String) -> (r: Result<
        Workspace,
        StoreError,
    >)
        requires
            old(s).wf(),
        ensures
            final(s).wf(),
            match r {
                Ok(w) => {
                    &&& !old(s).has_workspace_slug(slug_name@)
                    &&& old(s).next_workspace_id < i32::MAX
                    &&& w.id == old(s).next_workspace_id
                    &&& w.slug_name@ == slug_name@
                    &&& w.name@ == name@
                    &&& final(s).workspaces@ == old(s).workspaces@.push(w)
                    &&& final(s).memos@ == old(s).memos@
                    &&& final(s).links@ == old(s).links@
                    &&& final(s).next_workspace_id == old(s).next_workspace_id + 1
                    &&& final(s).next_memo_id == old(s).next_memo_id
                    &&& final(s).next_link_id == old(s).next_link_id
                },
                Err(e) => {
                    &&& *final(s) == *old(s)
                    &&& (e is DuplicateConstraint <==> old(s).has_workspace_slug(slug_name@))
                    &&& (e is StorageFailure <==> !old(s).has_workspace_slug(slug_name@)
                        && old(s).next_workspace_id == i32::MAX)
                    &&& (e is DuplicateConstraint || e is StorageFailure)
                },
            },
    {
        if find_workspace_by_slug(s, slug_name).is_some() {
            return Err(StoreError::DuplicateConstraint);
        }
        if s.next_workspace_id == i32::MAX {
            return Err(StoreError::StorageFailure);
        }
        let w = Workspace {
            id: s.next_workspace_id,
            slug_name: slug_name.clone(),
            name: name.clone(),
            created_at: String::new(),
            updated_at: String::new(),
        };
        let ret = clone_workspace(&w);
        s.workspaces.push(w);
        s.next_workspace_id = s.next_workspace_id + 1;
        proof {
            let ws2 = s.workspaces@;
            let ws1 = old(s).workspaces@;
            assert forall|i: int, j: int|
                #![trigger ws2[i].slug_name, ws2[j].slug_name]
                0 <= i < j < ws2.len() implies ws2[i].slug_name@ != ws2[j].slug_name@ by {
                if j == ws2.len() - 1 {
                    assert(ws2[i] == ws1[i]);
                    if ws1[i].slug_name@ == slug_name@ {
                        assert(old(s).has_workspace_slug(slug_name@));
                    }
                } else {
                    assert(ws2[i] == ws1[i] && ws2[j] == ws1[j]);
                }
            }
            assert forall|i: int, j: int|
                #![trigger ws2[i].id, ws2[j].id]
                0 <= i < j < ws2.len() implies ws2[i].id != ws2[j].id by {
                if j == ws2.len() - 1 {
                    assert(ws2[i] == ws1[i]);
                } else {
                    assert(ws2[i] == ws1[i] && ws2[j] == ws1[j]);
                }
            }
            assert forall|i: int|
                0 <= i < ws2.len() implies 0 <= (#[trigger] ws2[i]).id
                    < s.next_workspace_id by {
                if i < ws2.len() - 1 {
                    assert(ws2[i] == ws1[i]);
                }
            }
        }
        Ok(ret)
    }

    /// Renames a workspace in place. A missing workspace id is a
    /// no-op; moving to a slug that another workspace holds fails with
    /// `DuplicateConstraint` and changes nothing.
    pub fn save(s: &mut Store, workspace_id: i32, slug_name: &String, name: &String) -> (r: Result<
        (),
        StoreError,
    >)
        requires
            old(s).wf(),
        ensures
            final(s).wf(),
            final(s).memos@ == old(s).memos@,
            final(s).links@ == old(s).links@,
            final(s).next_workspace_id == old(s).next_workspace_id,
            final(s).next_memo_id == old(s).next_memo_id,
            final(s).next_link_id == old(s).next_link_id,
            match r {
                Ok(_) => {
                    &&& final(s).workspaces@.len() == old(s).workspaces@.len()
                    &&& forall|i: int|
                        0 <= i < old(s).workspaces@.len() ==> if (#[trigger] old(
                            s,
                        ).workspaces@[i]).id == workspace_id {
                            final(s).workspaces@[i].id == workspace_id
                                && final(s).workspaces@[i].slug_name@ == slug_name@
                                && final(s).workspaces@[i].name@ == name@
                                && final(s).workspaces@[i].created_at == old(
                                s,
                            ).workspaces@[i].created_at && final(s).workspaces@[i].updated_at
                                == old(s).workspaces@[i].updated_at
                        } else {
                            final(s).workspaces@[i] == old(s).workspaces@[i]
                        }
                    &&& !(old(s).has_workspace(workspace_id) && (exists|i: int|
                        0 <= i < old(s).workspaces@.len() && (#[trigger] old(
                            s,
                        ).workspaces@[i]).id != workspace_id && old(s).workspaces@[i].slug_name@
                            == slug_name@))
                },
                Err(e) => {
                    &&& e is DuplicateConstraint
                    &&& *final(s) == *old(s)
                    &&& old(s).has_workspace(workspace_id)
                    &&& exists|i: int|
                        0 <= i < old(s).workspaces@.len() && (#[trigger] old(
                            s,
                        ).workspaces@[i]).id != workspace_id && old(s).workspaces@[i].slug_name@
                            == slug_name@
                },
            },
    {
        let ti = match find_workspace_index(s, workspace_id) {
            Some(i) => i,
            None => {
                return Ok(());
            },
        };
        match find_workspace_by_slug(s, slug_name) {
            Some(i) => {
                if s.workspaces[i].id != workspace_id {
                    return Err(StoreError::DuplicateConstraint);
                }
            },
            None => {},
        }
        proof {
            assert forall|i: int|
                0 <= i < old(s).workspaces@.len() && (#[trigger] old(s).workspaces@[i]).id
                    != workspace_id implies old(s).workspaces@[i].slug_name@ != slug_name@ by {
                if old(s).workspaces@[i].slug_name@ == slug_name@ {
                    assert(old(s).has_workspace_slug(slug_name@));
                }
            }
        }
        let w0 = &s.workspaces[ti];
        let w2 = Workspace {
            id: w0.id,
            slug_name: slug_name.clone(),
            name: name.clone(),
            created_at: w0.created_at.clone(),
            updated_at: w0.updated_at.clone(),
        };
        vec_set(&mut s.workspaces, ti, w2);
        proof {
            let ws2 = s.workspaces@;
            let ws1 = old(s).workspaces@;
            assert forall|i: int| 0 <= i < ws2.len() implies (#[trigger] ws2[i]).id
                == ws1[i].id by {
                if i != ti {
                    assert(ws2[i] == ws1[i]);
                }
            }
            assert forall|i: int, j: int|
                #![trigger ws2[i].slug_name, ws2[j].slug_name]
                0 <= i < j < ws2.len() implies ws2[i].slug_name@ != ws2[j].slug_name@ by {
                if i == ti as int {
                    assert(ws2[j] == ws1[j]);
                    assert(ws1[ti as int].id != ws1[j].id);
                } else if j == ti as int {
                    assert(ws2[i] == ws1[i]);
                    assert(ws1[i].id != ws1[ti as int].id);
                } else {
                    assert(ws2[i] == ws1[i] && ws2[j] == ws1[j]);
                }
            }
        }
        Ok(())
    }
}

/// The edges that neither start nor end at the given memo, in order.
pub open spec fn links_without(links: Seq<LinkId>, memo_id: i32) -> Seq<LinkId>
    decreases links.len(),
{
    if links.len() == 0 {
        links
    } else {
        let r = links_without(links.drop_last(), memo_id);
        if links.last().from_memo_id != memo_id && links.last().to_memo_id != memo_id {
            r.push(links.last())
        } else {
            r
        }
    }
}

/// The memo rows other than the given one, in order.
pub open spec fn memos_without(memos: Seq<MemoRecord>, memo_id: i32) -> Seq<MemoRecord>
    decreases memos.len(),
{
    if memos.len() == 0 {
        memos
    } else {
        let r = memos_without(memos.drop_last(), memo_id);
        if memos.last().id != memo_id {
            r.push(memos.last())
        } else {
            r
        }
    }
}

/// What is left is a subsequence: every kept edge avoids the memo,
/// every kept edge was an edge before, and every edge that avoids the
/// memo is kept.
pub proof fn lemma_links_without(links: Seq<LinkId>, memo_id: i32)
    ensures
        ({
            let r = links_without(links, memo_id);
            &&& r.len() <= links.len()
            &&& forall|i: int|
                0 <= i < r.len() ==> (#[trigger] r[i]).from_memo_id != memo_id
                    && r[i].to_memo_id != memo_id
            &&& forall|i: int|
                0 <= i < r.len() ==> exists|a: int|
                    0 <= a < links.len() && links[a] == #[trigger] r[i]
            &&& forall|a: int|
                0 <= a < links.len() && (#[trigger] links[a]).from_memo_id != memo_id
                    && links[a].to_memo_id != memo_id ==> exists|i: int|
                    0 <= i < r.len() && #[trigger] r[i] == links[a]
        }),
    decreases links.len(),
{
    let r = links_without(links, memo_id);
    if links.len() > 0 {
        let s = links.drop_last();
        lemma_links_without(s, memo_id);
        let r0 = links_without(s, memo_id);
        assert forall|i: int|
            0 <= i < r.len() implies exists|a: int|
            0 <= a < links.len() && links[a] == #[trigger] r[i] by {
            if i < r0.len() {
                let a = choose|a: int| 0 <= a < s.len() && s[a] == r0[i];
                assert(links[a] == r[i]);
            } else {
                assert(links[links.len() - 1] == r[i]);
            }
        }
        assert forall|a: int|
            0 <= a < links.len() && (#[trigger] links[a]).from_memo_id != memo_id
                && links[a].to_memo_id != memo_id implies exists|i: int|
            0 <= i < r.len() && #[trigger] r[i] == links[a] by {
            if a < links.len() - 1 {
                assert(s[a] == links[a]);
                let i = choose|i: int| 0 <= i < r0.len() && r0[i] == s[a];
                assert(r[i] == links[a]);
            } else {
                assert(r[r.len() - 1] == links[a]);
            }
        }
    }
}

/// Removing a memo's edges keeps the edge rows pairwise distinct.
#[verifier::rlimit(60)]
pub proof fn lemma_links_without_distinct(links: Seq<LinkId>, memo_id: i32)
    requires
        forall|i: int, j: int|
            #![trigger links[i].id, links[j].id]
            0 <= i < j < links.len() ==> links[i].id != links[j].id,
        forall|i: int, j: int|
            #![trigger links[i], links[j]]
            0 <= i < j < links.len() ==> !(links[i].from_memo_id == links[j].from_memo_id
                && links[i].to_memo_id == links[j].to_memo_id),
    ensures
        ({
            let r = links_without(links, memo_id);
            &&& forall|i: int, j: int|
                #![trigger r[i].id, r[j].id]
                0 <= i < j < r.len() ==> r[i].id != r[j].id
            &&& forall|i: int, j: int|
                #![trigger r[i], r[j]]
                0 <= i < j < r.len() ==> !(r[i].from_memo_id == r[j].from_memo_id
                    && r[i].to_memo_id == r[j].to_memo_id)
        }),
    decreases links.len(),
{
    let r = links_without(links, memo_id);
    if links.len() > 0 {
        let s = links.drop_last();
        let x = links.last();
        assert forall|i: int, j: int|
            #![trigger s[i].id, s[j].id]
            0 <= i < j < s.len() implies s[i].id != s[j].id by {
            assert(links[i].id != links[j].id);
        }
        assert forall|i: int, j: int|
            #![trigger s[i], s[j]]
            0 <= i < j < s.len() implies !(s[i].from_memo_id == s[j].from_memo_id
                && s[i].to_memo_id == s[j].to_memo_id) by {
            assert(links[i] == s[i] && links[j] == s[j]);
        }
        lemma_links_without_distinct(s, memo_id);
        lemma_links_without(s, memo_id);
        let r0 = links_without(s, memo_id);
        if x.from_memo_id != memo_id && x.to_memo_id != memo_id {
            assert forall|i: int, j: int|
                #![trigger r[i].id, r[j].id]
                0 <= i < j < r.len() implies r[i].id != r[j].id by {
                if j == r.len() - 1 {
                    let a = choose|a: int| 0 <= a < s.len() && s[a] == r0[i];
                    assert(links[a].id != links[links.len() - 1].id);
                } else {
                    assert(r[i] == r0[i] && r[j] == r0[j]);
                }
            }
            assert forall|i: int, j: int|
                #![trigger r[i], r[j]]
                0 <= i < j < r.len() implies !(r[i].from_memo_id == r[j].from_memo_id
                    && r[i].to_memo_id == r[j].to_memo_id) by {
                if j == r.len() - 1 {
                    let a = choose|a: int| 0 <= a < s.len() && s[a] == r0[i];
                    assert(links[a] == r[i] && links[links.len() - 1] == r[j]);
                } else {
                    assert(r[i] == r0[i] && r[j] == r0[j]);
                }
            }
        }
    }
}

/// What is left is a subsequence: every kept memo differs from the one
/// removed, every kept row was a row before, and every other row is
/// kept.
pub proof fn lemma_memos_without(memos: Seq<MemoRecord>, memo_id: i32)
    ensures
        ({
            let r = memos_without(memos, memo_id);
            &&& r.len() <= memos.len()
            &&& forall|i: int| 0 <= i < r.len() ==> (#[trigger] r[i]).id != memo_id
            &&& forall|i: int|
                0 <= i < r.len() ==> exists|a: int|
                    0 <= a < memos.len() && memos[a] == #[trigger] r[i]
            &&& forall|a: int|
                0 <= a < memos.len() && (#[trigger] memos[a]).id != memo_id ==> exists|i: int|
                    0 <= i < r.len() && #[trigger] r[i] == memos[a]
        }),
    decreases memos.len(),
{
    let r = memos_without(memos, memo_id);
    if memos.len() > 0 {
        let s = memos.drop_last();
        lemma_memos_without(s, memo_id);
        let r0 = memos_without(s, memo_id);
        assert forall|i: int|
            0 <= i < r.len() implies exists|a: int|
            0 <= a < memos.len() && memos[a] == #[trigger] r[i] by {
            if i < r0.len() {
                let a = choose|a: int| 0 <= a < s.len() && s[a] == r0[i];
                assert(memos[a] == r[i]);
            } else {
                assert(memos[memos.len() - 1] == r[i]);
            }
        }
        assert forall|a: int|
            0 <= a < memos.len() && (#[trigger] memos[a]).id != memo_id implies exists|i: int|
            0 <= i < r.len() && #[trigger] r[i] == memos[a] by {
            if a < memos.len() - 1 {
                assert(s[a] == memos[a]);
                let i = choose|i: int| 0 <= i < r0.len() && r0[i] == s[a];
                assert(r[i] == memos[a]);
            } else {
                assert(r[r.len() - 1] == memos[a]);
            }
        }
    }
}

/// Removing a memo keeps the row ids pairwise distinct.
pub proof fn lemma_memos_without_ids(memos: Seq<MemoRecord>, memo_id: i32)
    requires
        forall|i: int, j: int|
            #![trigger memos[i].id, memos[j].id]
            0 <= i < j < memos.len() ==> memos[i].id != memos[j].id,
    ensures
        ({
            let r = memos_without(memos, memo_id);
            &&& forall|i: int, j: int|
                #![trigger r[i].id, r[j].id]
                0 <= i < j < r.len() ==> r[i].id != r[j].id
            &&& forall|i: int|
                0 <= i < r.len() ==> exists|a: int|
                    0 <= a < memos.len() && (#[trigger] r[i]).id == memos[a].id
            &&& forall|a: int|
                0 <= a < memos.len() && (#[trigger] memos[a]).id != memo_id ==> exists|i: int|
                    0 <= i < r.len() && (#[trigger] r[i]).id == memos[a].id
        }),
    decreases memos.len(),
{
    let r = memos_without(memos, memo_id);
    if memos.len() > 0 {
        let s = memos.drop_last();
        let x = memos.last();
        assert forall|i: int, j: int|
            #![trigger s[i].id, s[j].id]
            0 <= i < j < s.len() implies s[i].id != s[j].id by {
            assert(memos[i].id != memos[j].id);
        }
        lemma_memos_without_ids(s, memo_id);
        let r0 = memos_without(s, memo_id);
        assert forall|i: int|
            0 <= i < r.len() implies exists|a: int|
            0 <= a < memos.len() && (#[trigger] r[i]).id == memos[a].id by {
            if i < r0.len() {
                let a = choose|a: int| 0 <= a < s.len() && r0[i].id == s[a].id;
                assert(r[i].id == memos[a].id);
            } else {
                assert(r[i].id == memos[memos.len() - 1].id);
            }
        }
        if x.id != memo_id {
            assert forall|i: int, j: int|
                #![trigger r[i].id, r[j].id]
                0 <= i < j < r.len() implies r[i].id != r[j].id by {
                if j == r.len() - 1 {
                    let a = choose|a: int| 0 <= a < s.len() && r0[i].id == s[a].id;
                    assert(memos[a].id != memos[memos.len() - 1].id);
                } else {
                    assert(r[i] == r0[i] && r[j] == r0[j]);
                }
            }
        }
        assert forall|a: int|
            0 <= a < memos.len() && (#[trigger] memos[a]).id != memo_id implies exists|i: int|
            0 <= i < r.len() && (#[trigger] r[i]).id == memos[a].id by {
            if a < memos.len() - 1 {
                assert(s[a].id == memos[a].id && s[a].id != memo_id);
                let i = choose|i: int| 0 <= i < r0.len() && (#[trigger] r0[i]).id == s[a].id;
                assert(r[i].id == memos[a].id);
            } else {
                assert(r[r.len() - 1].id == memos[a].id);
            }
        }
    }
}

/// Removing a memo keeps slugs unique per workspace.
pub proof fn lemma_memos_without_slugs(memos: Seq<MemoRecord>, memo_id: i32)
    requires
        forall|i: int, j: int|
            #![trigger memos[i].slug_title, memos[j].slug_title]
            0 <= i < j < memos.len() ==> !(memos[i].workspace_id == memos[j].workspace_id
                && memos[i].slug_title@ == memos[j].slug_title@),
    ensures
        ({
            let r = memos_without(memos, memo_id);
            forall|i: int, j: int|
                #![trigger r[i].slug_title, r[j].slug_title]
                0 <= i < j < r.len() ==> !(r[i].workspace_id == r[j].workspace_id
                    && r[i].slug_title@ == r[j].slug_title@)
        }),
    decreases memos.len(),
{
    let r = memos_without(memos, memo_id);
    if memos.len() > 0 {
        let s = memos.drop_last();
        let x = memos.last();
        assert forall|i: int, j: int|
            #![trigger s[i].slug_title, s[j].slug_title]
            0 <= i < j < s.len() implies !(s[i].workspace_id == s[j].workspace_id
                && s[i].slug_title@ == s[j].slug_title@) by {
            assert(memos[i] == s[i] && memos[j] == s[j]);
        }
        lemma_memos_without_slugs(s, memo_id);
        lemma_memos_without_sites(s, memo_id);
        let r0 = memos_without(s, memo_id);
        if x.id != memo_id {
            assert forall|i: int, j: int|
                #![trigger r[i].slug_title, r[j].slug_title]
                0 <= i < j < r.len() implies !(r[i].workspace_id == r[j].workspace_id
                    && r[i].slug_title@ == r[j].slug_title@) by {
                if j == r.len() - 1 {
                    let a = choose|a: int|
                        0 <= a < s.len() && r0[i].workspace_id == s[a].workspace_id
                            && r0[i].slug_title@ == s[a].slug_title@;
                    assert(!(memos[a].workspace_id == memos[memos.len() - 1].workspace_id
                        && memos[a].slug_title@ == memos[memos.len() - 1].slug_title@));
                } else {
                    assert(r[i] == r0[i] && r[j] == r0[j]);
                }
            }
        }
    }
}

/// Every kept row's workspace and slug come from a row that was there.
pub proof fn lemma_memos_without_sites(memos: Seq<MemoRecord>, memo_id: i32)
    ensures
        ({
            let r = memos_without(memos, memo_id);
            forall|i: int|
                0 <= i < r.len() ==> exists|a: int|
                    0 <= a < memos.len() && (#[trigger] r[i]).workspace_id
                        == memos[a].workspace_id && r[i].slug_title@ == memos[a].slug_title@
        }),
    decreases memos.len(),
{
    let r = memos_without(memos, memo_id);
    if memos.len() > 0 {
        let s = memos.drop_last();
        lemma_memos_without_sites(s, memo_id);
        let r0 = memos_without(s, memo_id);
        assert forall|i: int|
            0 <= i < r.len() implies exists|a: int|
            0 <= a < memos.len() && (#[trigger] r[i]).workspace_id == memos[a].workspace_id
                && r[i].slug_title@ == memos[a].slug_title@ by {
            if i < r0.len() {
                let a = choose|a: int|
                    0 <= a < s.len() && r0[i].workspace_id == s[a].workspace_id
                        && r0[i].slug_title@ == s[a].slug_title@;
                assert(r[i].workspace_id == memos[a].workspace_id && r[i].slug_title@
                    == memos[a].slug_title@);
            } else {
                assert(r[i].workspace_id == memos[memos.len() - 1].workspace_id && r[i].slug_title@
                    == memos[memos.len() - 1].slug_title@);
            }
        }
    }
}

/// Renaming the given memo to this slug would collide: another memo of
/// the same workspace already carries the slug.
pub open spec fn rename_slug_taken(s: Store, memo_id: i32, slug: Seq<char>) -> bool {
    exists|i: int, j: int|
        0 <= i < s.memos@.len() && 0 <= j < s.memos@.len() && (#[trigger] s.memos@[i]).id
            == memo_id && (#[trigger] s.memos@[j]).id != memo_id && s.memos@[j].workspace_id
            == s.memos@[i].workspace_id && s.memos@[j].slug_title@ == slug
}

/// The second memo row is the first with its document rewritten for
/// the rename and everything else kept.
pub open spec fn memo_rewritten(m1: MemoRecord, m2: MemoRecord, dv: DescView) -> bool {
    &&& m2.id == m1.id
    &&& m2.workspace_id == m1.workspace_id
    &&& m2.slug_title == m1.slug_title
    &&& m2.title == m1.title
    &&& m2.description == m1.description
    &&& m2.content@ == rewrite_value(m1.content@, dv)
}

/// Updating the renamed memo's own row keeps the memo table well
/// formed, provided the new slug is free or the memo's own.
pub proof fn lemma_save_slugs_wf(s1: Store, s2: Store, ti: int, ws_id: i32, new_slug: Seq<char>, memo_id: i32)
    requires
        s1.wf(),
        0 <= ti < s1.memos@.len(),
        s1.memos@[ti].id == memo_id,
        s2.memos@.len() == s1.memos@.len(),
        s2.memos@ == s1.memos@.update(ti, s2.memos@[ti]),
        s2.memos@[ti].id == memo_id,
        s2.memos@[ti].workspace_id == ws_id,
        s2.memos@[ti].slug_title@ == new_slug,
        s2.next_memo_id == s1.next_memo_id,
        forall|i: int|
            0 <= i < s1.memos@.len() && (#[trigger] s1.memos@[i]).workspace_id == ws_id
                && s1.memos@[i].slug_title@ == new_slug ==> s1.memos@[i].id == memo_id,
    ensures
        forall|i: int, j: int|
            #![trigger s2.memos@[i].id, s2.memos@[j].id]
            0 <= i < j < s2.memos@.len() ==> s2.memos@[i].id != s2.memos@[j].id,
        forall|i: int, j: int|
            #![trigger s2.memos@[i].slug_title, s2.memos@[j].slug_title]
            0 <= i < j < s2.memos@.len() ==> !(s2.memos@[i].workspace_id
                == s2.memos@[j].workspace_id && s2.memos@[i].slug_title@
                == s2.memos@[j].slug_title@),
        forall|i: int|
            0 <= i < s2.memos@.len() ==> 0 <= (#[trigger] s2.memos@[i]).id < s2.next_memo_id,
        forall|i: int| 0 <= i < s2.memos@.len() ==> (#[trigger] s2.memos@[i]).id == s1.memos@[i].id,
{
    let a1 = s1.memos@;
    let a2 = s2.memos@;
    assert forall|i: int| 0 <= i < a2.len() implies (#[trigger] a2[i]).id == a1[i].id by {
        if i != ti {
            assert(a2[i] == a1[i]);
        }
    }
    assert forall|i: int, j: int|
        #![trigger a2[i].slug_title, a2[j].slug_title]
        0 <= i < j < a2.len() implies !(a2[i].workspace_id == a2[j].workspace_id
            && a2[i].slug_title@ == a2[j].slug_title@) by {
        if i == ti {
            assert(a2[j] == a1[j]);
            if a1[j].workspace_id == ws_id && a1[j].slug_title@ == new_slug {
                assert(a1[j].id == memo_id);
                assert(a1[ti].id != a1[j].id);
            }
        } else if j == ti {
            assert(a2[i] == a1[i]);
            if a1[i].workspace_id == ws_id && a1[i].slug_title@ == new_slug {
                assert(a1[i].id == memo_id);
                assert(a1[i].id != a1[ti].id);
            }
        } else {
            assert(a2[i] == a1[i] && a2[j] == a1[j]);
        }
    }
}

/// The propagation loop keeps the store well formed: every row keeps
/// its id, workspace and slug; only documents change.
pub proof fn lemma_save_wf(s1: Store, mid: Seq<MemoRecord>, s2: Store, memo_id: i32, dv: DescView)
    requires
        s1.wf(),
        mid.len() == s1.memos@.len(),
        forall|i: int| 0 <= i < mid.len() ==> (#[trigger] mid[i]).id == s1.memos@[i].id,
        forall|i: int, j: int|
            #![trigger mid[i].slug_title, mid[j].slug_title]
            0 <= i < j < mid.len() ==> !(mid[i].workspace_id == mid[j].workspace_id
                && mid[i].slug_title@ == mid[j].slug_title@),
        s2.memos@.len() == mid.len(),
        forall|i: int|
            0 <= i < mid.len() ==> (#[trigger] s2.memos@[i]).id == mid[i].id
                && s2.memos@[i].workspace_id == mid[i].workspace_id
                && s2.memos@[i].slug_title == mid[i].slug_title,
        s2.links@ == s1.links@,
        s2.workspaces@ == s1.workspaces@,
        s2.next_workspace_id == s1.next_workspace_id,
        s2.next_memo_id == s1.next_memo_id,
        s2.next_link_id == s1.next_link_id,
    ensures
        s2.wf(),
{
    let a1 = s1.memos@;
    let a2 = s2.memos@;
    assert forall|i: int, j: int|
        #![trigger a2[i].id, a2[j].id]
        0 <= i < j < a2.len() implies a2[i].id != a2[j].id by {
        assert(a1[i].id != a1[j].id);
    }
    assert forall|i: int, j: int|
        #![trigger a2[i].slug_title, a2[j].slug_title]
        0 <= i < j < a2.len() implies !(a2[i].workspace_id == a2[j].workspace_id
            && a2[i].slug_title@ == a2[j].slug_title@) by {
        assert(!(mid[i].workspace_id == mid[j].workspace_id && mid[i].slug_title@
            == mid[j].slug_title@));
    }
    assert forall|i: int| 0 <= i < a2.len() implies 0 <= (#[trigger] a2[i]).id
        < s2.next_memo_id by {
        assert(a2[i].id == a1[i].id);
    }
    assert forall|i: int|
        0 <= i < s2.links@.len() implies s2.has_memo((#[trigger] s2.links@[i]).from_memo_id)
            && s2.has_memo(s2.links@[i].to_memo_id) by {
        assert(s1.has_memo(s1.links@[i].from_memo_id));
        let w1 = choose|w: int|
            0 <= w < a1.len() && (#[trigger] a1[w]).id == s1.links@[i].from_memo_id;
        assert(a2[w1].id == s2.links@[i].from_memo_id);
        assert(s1.has_memo(s1.links@[i].to_memo_id));
        let w2 = choose|w: int|
            0 <= w < a1.len() && (#[trigger] a1[w]).id == s1.links@[i].to_memo_id;
        assert(a2[w2].id == s2.links@[i].to_memo_id);
    }
}

/// A listing row carries a memo row's data; the time stamps are the
/// storage layer's business and stay empty here.
pub open spec fn index_item_of(row: MemoIndexItem, m: MemoRecord) -> bool {
    &&& row.id == m.id
    &&& row.slug_title@ == m.slug_title@
    &&& row.title@ == m.title@
    &&& row.description == m.description
    &&& row.created_at@ == Seq::<char>::empty()
    &&& row.updated_at@ == Seq::<char>::empty()
    &&& row.modified_at@ == Seq::<char>::empty()
}

/// A detail row carries a memo row's data, document included; the time
/// stamps are the storage layer's business and stay empty here.
pub open spec fn detail_of(d: MemoDetail, m: MemoRecord) -> bool {
    &&& d.id == m.id
    &&& d.slug_title@ == m.slug_title@
    &&& d.title@ == m.title@
    &&& d.content@ == m.content@
    &&& d.description == m.description
    &&& d.workspace_id == m.workspace_id
    &&& d.created_at@ == Seq::<char>::empty()
    &&& d.updated_at@ == Seq::<char>::empty()
    &&& d.modified_at@ == Seq::<char>::empty()
}

/// The memo rows of one workspace, in store order.
pub open spec fn memos_of_workspace(memos: Seq<MemoRecord>, workspace_id: i32) -> Seq<MemoRecord>
    decreases memos.len(),
{
    if memos.len() == 0 {
        memos
    } else {
        let r = memos_of_workspace(memos.drop_last(), workspace_id);
        if memos.last().workspace_id == workspace_id {
            r.push(memos.last())
        } else {
            r
        }
    }
}

/// The operations on memo rows.
pub struct MemoRepository;

impl MemoRepository {
    /// The listing rows of one workspace's memos, in store order.
    pub fn list(s: &Store, workspace_id: i32) -> (r: Result<Vec<MemoIndexItem>, StoreError>)
        ensures
            r is Ok,
            ({
                let rows = r->Ok_0@;
                let kept = memos_of_workspace(s.memos@, workspace_id);
                &&& rows.len() == kept.len()
                &&& forall|i: int| 0 <= i < rows.len() ==> index_item_of(#[trigger] rows[i], kept[i])
            }),
    {
        let ghost m0 = s.memos@;
        let n = s.memos.len();
        let mut rows: Vec<MemoIndexItem> = Vec::new();
        let mut i: usize = 0;
        while i < n
            invariant
                n == m0.len(),
                i <= n,
                m0 == s.memos@,
                ({
                    let kept = memos_of_workspace(m0.take(i as int), workspace_id);
                    rows@.len() == kept.len() && forall|j: int|
                        0 <= j < rows@.len() ==> index_item_of(#[trigger] rows@[j], kept[j])
                }),
            decreases n - i,
        {
            proof {
                assert(m0.take(i as int + 1).drop_last() =~= m0.take(i as int));
                assert(m0.take(i as int + 1).last() == m0[i as int]);
            }
            let m = &s.memos[i];
            if m.workspace_id == workspace_id {
                rows.push(
                    MemoIndexItem {
                        id: m.id,
                        slug_title: m.slug_title.clone(),
                        title: m.title.clone(),
                        description: clone_opt_string(&m.description),
                        created_at: String::new(),
                        updated_at: String::new(),
                        modified_at: String::new(),
                    },
                );
            }
            i = i + 1;
        }
        proof {
            assert(m0.take(n as int) =~= m0);
        }
        Ok(rows)
    }

    /// The memo of the given workspace with the given slug, if any.
    pub fn find_by_slug(s: &Store, workspace_id: i32, memo_slug_title: &String) -> (r: Option<
        MemoDetail,
    >)
        ensures
            match r {
                Some(d) => exists|i: int|
                    0 <= i < s.memos@.len() && {
                        let m = #[trigger] s.memos@[i];
                        m.workspace_id == workspace_id && m.slug_title@ == memo_slug_title@
                            && detail_of(d, m)
                    },
                None => !s.has_memo_slug(workspace_id, memo_slug_title@),
            },
    {
        match find_memo_by_slug(s, workspace_id, memo_slug_title) {
            Some(i) => {
                let m = &s.memos[i];
                Some(
                    MemoDetail {
                        id: m.id,
                        slug_title: m.slug_title.clone(),
                        title: m.title.clone(),
                        content: crate::rewrite::clone_value(&m.content),
                        description: clone_opt_string(&m.description),
                        workspace_id: m.workspace_id,
                        created_at: String::new(),
                        updated_at: String::new(),
                        modified_at: String::new(),
                    },
                )
            },
            None => None,
        }
    }

    /// Adds a memo to a workspace. Fails with `NotFound` exactly when
    /// the workspace is absent, with `DuplicateConstraint` exactly when
    /// the slug is taken inside it, and with `StorageFailure` exactly
    /// when the memo id space is used up; on failure the store is
    /// unchanged.
    pub fn create(
        s: &mut Store,
        workspace_id: i32,
        slug_title: &String,
        title: &String,
        content: JsonValue,
    ) -> (r: Result<MemoDetail, StoreError>)
        requires
            old(s).wf(),
        ensures
            final(s).wf(),
            match r {
                Ok(d) => {
                    &&& old(s).has_workspace(workspace_id)
                    &&& !old(s).has_memo_slug(workspace_id, slug_title@)
                    &&& old(s).next_memo_id < i32::MAX
                    &&& final(s).memos@.len() == old(s).memos@.len() + 1
                    &&& final(s).memos@ == old(s).memos@.push(final(s).memos@.last())
                    &&& ({
                        let m = final(s).memos@.last();
                        &&& m.id == old(s).next_memo_id
                        &&& m.workspace_id == workspace_id
                        &&& m.slug_title@ == slug_title@
                        &&& m.title@ == title@
                        &&& m.content@ == content@
                        &&& m.description is None
                        &&& detail_of(d, m)
                    })
                    &&& final(s).workspaces@ == old(s).workspaces@
                    &&& final(s).links@ == old(s).links@
                    &&& final(s).next_memo_id == old(s).next_memo_id + 1
                    &&& final(s).next_workspace_id == old(s).next_workspace_id
                    &&& final(s).next_link_id == old(s).next_link_id
                },
                Err(e) => {
                    &&& *final(s) == *old(s)
                    &&& (e is NotFound <==> !old(s).has_workspace(workspace_id))
                    &&& (e is DuplicateConstraint <==> old(s).has_workspace(workspace_id) && old(
                        s,
                    ).has_memo_slug(workspace_id, slug_title@))
                    &&& (e is StorageFailure <==> old(s).has_workspace(workspace_id) && !old(
                        s,
                    ).has_memo_slug(workspace_id, slug_title@) && old(s).next_memo_id == i32::MAX)
                    &&& (e is NotFound || e is DuplicateConstraint || e is StorageFailure)
                },
            },
    {
        if find_workspace_index(s, workspace_id).is_none() {
            return Err(StoreError::NotFound);
        }
        if find_memo_by_slug(s, workspace_id, slug_title).is_some() {
            return Err(StoreError::DuplicateConstraint);
        }
        if s.next_memo_id == i32::MAX {
            return Err(StoreError::StorageFailure);
        }
        let d = MemoDetail {
            id: s.next_memo_id,
            slug_title: slug_title.clone(),
            title: title.clone(),
            content: crate::rewrite::clone_value(&content),
            description: None,
            workspace_id,
            created_at: String::new(),
            updated_at: String::new(),
            modified_at: String::new(),
        };
        let m = MemoRecord {
            id: s.next_memo_id,
            workspace_id,
            slug_title: slug_title.clone(),
            title: title.clone(),
            content,
            description: None,
        };
        s.memos.push(m);
        s.next_memo_id = s.next_memo_id + 1;
        proof {
            let m2 = s.memos@;
            let m1 = old(s).memos@;
            assert forall|i: int, j: int|
                #![trigger m2[i].id, m2[j].id]
                0 <= i < j < m2.len() implies m2[i].id != m2[j].id by {
                if j == m2.len() - 1 {
                    assert(m2[i] == m1[i]);
                } else {
                    assert(m2[i] == m1[i] && m2[j] == m1[j]);
                }
            }
            assert forall|i: int, j: int|
                #![trigger m2[i].slug_title, m2[j].slug_title]
                0 <= i < j < m2.len() implies !(m2[i].workspace_id == m2[j].workspace_id
                    && m2[i].slug_title@ == m2[j].slug_title@) by {
                if j == m2.len() - 1 {
                    assert(m2[i] == m1[i]);
                    if m1[i].workspace_id == workspace_id && m1[i].slug_title@ == slug_title@ {
                        assert(old(s).has_memo_slug(workspace_id, slug_title@));
                    }
                } else {
                    assert(m2[i] == m1[i] && m2[j] == m1[j]);
                }
            }
            assert forall|i: int|
                0 <= i < m2.len() implies 0 <= (#[trigger] m2[i]).id < s.next_memo_id by {
                if i < m2.len() - 1 {
                    assert(m2[i] == m1[i]);
                }
            }
            assert forall|i: int|
                0 <= i < s.links@.len() implies s.has_memo(
                (#[trigger] s.links@[i]).from_memo_id,
            ) && s.has_memo(s.links@[i].to_memo_id) by {
                let a = choose|a: int|
                    0 <= a < m1.len() && (#[trigger] m1[a]).id == old(s).links@[i].from_memo_id;
                assert(m2[a].id == s.links@[i].from_memo_id);
                let b = choose|b: int|
                    0 <= b < m1.len() && (#[trigger] m1[b]).id == old(s).links@[i].to_memo_id;
                assert(m2[b].id == s.links@[i].to_memo_id);
            }
        }
        Ok(d)
    }

    /// Renames one memo and propagates the rename to every referrer, in
    /// one step: the memo's own row takes the new slug, title, document
    /// and description, and then the document of every memo with an
    /// edge to it — the renamed memo itself included, when it links to
    /// itself — is rewritten with the rename descriptor built from
    /// `workspace_slug`, the old slug `target_slug_title`, the old
    /// display text `target_title`, and the new slug and title. A
    /// failure leaves the whole store exactly as it was: no partial
    /// propagation can be observed.
    #[verifier::rlimit(100)]
    pub fn save(
        s: &mut Store,
        memo_id: i32,
        workspace_slug: &String,
        target_slug_title: &String,
        target_title: &String,
        slug_title: &String,
        title: &String,
        content: JsonValue,
        description: &String,
    ) -> (r: Result<(), StoreError>)
        requires
            old(s).wf(),
        ensures
            final(s).wf(),
            final(s).links@ == old(s).links@,
            final(s).workspaces@ == old(s).workspaces@,
            final(s).next_workspace_id == old(s).next_workspace_id,
            final(s).next_memo_id == old(s).next_memo_id,
            final(s).next_link_id == old(s).next_link_id,
            match r {
                Ok(_) => {
                    let dv = DescView {
                        workspace_slug: workspace_slug@,
                        old_slug: target_slug_title@,
                        old_display_text: target_title@,
                        new_slug: slug_title@,
                        new_display_text: title@,
                    };
                    &&& old(s).has_memo(memo_id)
                    &&& final(s).memos@.len() == old(s).memos@.len()
                    &&& forall|i: int|
                        0 <= i < old(s).memos@.len() ==> {
                            let m1 = #[trigger] old(s).memos@[i];
                            let m2 = final(s).memos@[i];
                            if m1.id == memo_id {
                                &&& m2.id == m1.id
                                &&& m2.workspace_id == m1.workspace_id
                                &&& m2.slug_title@ == slug_title@
                                &&& m2.title@ == title@
                                &&& m2.description matches Some(d) && d@ == description@
                                &&& m2.content@ == if old(s).has_edge(memo_id, memo_id) {
                                    rewrite_value(content@, dv)
                                } else {
                                    content@
                                }
                            } else if old(s).has_edge(m1.id, memo_id) {
                                memo_rewritten(m1, m2, dv)
                            } else {
                                m2 == m1
                            }
                        }
                },
                Err(e) => {
                    &&& *final(s) == *old(s)
                    &&& (e is NotFound <==> !old(s).has_memo(memo_id))
                    &&& (e is DuplicateConstraint <==> old(s).has_memo(memo_id)
                        && rename_slug_taken(*old(s), memo_id, slug_title@))
                    &&& (e is NotFound || e is DuplicateConstraint)
                },
            },
    {
        let ti = match find_memo_index(s, memo_id) {
            Some(i) => i,
            None => {
                return Err(StoreError::NotFound);
            },
        };
        let ws_id = s.memos[ti].workspace_id;
        match find_memo_by_slug(s, ws_id, slug_title) {
            Some(j) => {
                if s.memos[j].id != memo_id {
                    proof {
                        assert(s.memos@[ti as int].id == memo_id);
                        assert(rename_slug_taken(*old(s), memo_id, slug_title@));
                    }
                    return Err(StoreError::DuplicateConstraint);
                }
            },
            None => {},
        }
        let m2 = MemoRecord {
            id: memo_id,
            workspace_id: ws_id,
            slug_title: slug_title.clone(),
            title: title.clone(),
            content,
            description: Some(description.clone()),
        };
        vec_set(&mut s.memos, ti, m2);
        proof {
            lemma_save_slugs_wf(*old(s), *s, ti as int, ws_id, slug_title@, memo_id);
        }
        let desc = RenameDescriptor {
            workspace_slug: workspace_slug.clone(),
            old_slug: target_slug_title.clone(),
            old_display_text: target_title.clone(),
            new_slug: slug_title.clone(),
            new_display_text: title.clone(),
        };
        let ghost dv = desc@;
        let ghost mid = s.memos@;
        let ghost l0 = s.links@;
        proof {
            assert(forall|i: int|
                0 <= i < mid.len() ==> (#[trigger] mid[i]).id == old(s).memos@[i].id);
            assert(l0 == old(s).links@);
        }
        let n = s.links.len();
        let mut li: usize = 0;
        while li < n
            invariant
                n == l0.len(),
                li <= n,
                old(s).wf(),
                l0 == old(s).links@,
                mid.len() == old(s).memos@.len(),
                forall|i: int|
                    0 <= i < mid.len() ==> (#[trigger] mid[i]).id == old(s).memos@[i].id,
                s.links@ == l0,
                s.workspaces@ == old(s).workspaces@,
                s.next_workspace_id == old(s).next_workspace_id,
                s.next_memo_id == old(s).next_memo_id,
                s.next_link_id == old(s).next_link_id,
                s.memos@.len() == mid.len(),
                dv == desc@,
                forall|i: int, j: int|
                    #![trigger mid[i].id, mid[j].id]
                    0 <= i < j < mid.len() ==> mid[i].id != mid[j].id,
                forall|i: int|
                    0 <= i < mid.len() ==> {
                        let m1 = #[trigger] mid[i];
                        let m2 = s.memos@[i];
                        if exists|lj: int|
                            0 <= lj < li && (#[trigger] l0[lj]).to_memo_id == memo_id
                                && l0[lj].from_memo_id == m1.id {
                            memo_rewritten(m1, m2, dv)
                        } else {
                            m2 == m1
                        }
                    },
                forall|i: int, j: int|
                    #![trigger l0[i], l0[j]]
                    0 <= i < j < l0.len() ==> !(l0[i].from_memo_id == l0[j].from_memo_id
                        && l0[i].to_memo_id == l0[j].to_memo_id),
                forall|i: int| 0 <= i < mid.len() ==> (#[trigger] s.memos@[i]).id == mid[i].id,
                forall|id: i32| seq_has_memo(mid, id) ==> seq_has_memo(s.memos@, id),
            decreases n - li,
        {
            let l = s.links[li];
            if l.to_memo_id == memo_id {
                let fi = match find_memo_index(s, l.from_memo_id) {
                    Some(i) => i,
                    None => {
                        proof {
                            assert(l0[li as int] == l);
                            assert(old(s).has_memo(l.from_memo_id));
                            let w = choose|w: int|
                                0 <= w < old(s).memos@.len() && (#[trigger] old(
                                    s,
                                ).memos@[w]).id == l.from_memo_id;
                            assert(mid[w].id == l.from_memo_id);
                            assert(seq_has_memo(mid, l.from_memo_id));
                            assert(false);
                        }
                        vstd::pervasive::unreached()
                    },
                };
                proof {
                    assert forall|lj: int|
                        0 <= lj < li implies !((#[trigger] l0[lj]).to_memo_id == memo_id
                            && l0[lj].from_memo_id == mid[fi as int].id) by {
                        assert(!(l0[lj].from_memo_id == l0[li as int].from_memo_id
                            && l0[lj].to_memo_id == l0[li as int].to_memo_id));
                    }
                    assert(s.memos@[fi as int] == mid[fi as int]);
                }
                let ghost before = s.memos@;
                let (new_doc, ch) = crate::rewrite::update_link_text(&s.memos[fi].content, &desc);
                if ch {
                    let rec = s.memos.remove(fi);
                    let MemoRecord {
                        id: rid,
                        workspace_id: rws,
                        slug_title: rslug,
                        title: rtitle,
                        content: _rcontent,
                        description: rdesc,
                    } = rec;
                    s.memos.insert(
                        fi,
                        MemoRecord {
                            id: rid,
                            workspace_id: rws,
                            slug_title: rslug,
                            title: rtitle,
                            content: new_doc,
                            description: rdesc,
                        },
                    );
                    proof {
                        assert(s.memos@ =~= before.update(fi as int, s.memos@[fi as int]));
                    }
                } else {
                    proof {
                        crate::laws::lemma_no_match_unchanged(mid[fi as int].content@, dv);
                    }
                }
                proof {
                    assert(memo_rewritten(mid[fi as int], s.memos@[fi as int], dv));
                    assert forall|i: int|
                        0 <= i < mid.len() && i != fi implies s.memos@[i] == before[i] by {}
                }
            }
            li = li + 1;
            proof {
                assert forall|i: int|
                    0 <= i < mid.len() implies {
                    let m1 = #[trigger] mid[i];
                    let m2 = s.memos@[i];
                    if exists|lj: int|
                        0 <= lj < li && (#[trigger] l0[lj]).to_memo_id == memo_id
                            && l0[lj].from_memo_id == m1.id {
                        memo_rewritten(m1, m2, dv)
                    } else {
                        m2 == m1
                    }
                } by {
                    if exists|lj: int|
                        0 <= lj < li && (#[trigger] l0[lj]).to_memo_id == memo_id
                            && l0[lj].from_memo_id == mid[i].id {
                        let lj = choose|lj: int|
                            0 <= lj < li && (#[trigger] l0[lj]).to_memo_id == memo_id
                                && l0[lj].from_memo_id == mid[i].id;
                    }
                }
            }
        }
        proof {
            lemma_save_wf(*old(s), mid, *s, memo_id, dv);
        }
        Ok(())
    }

    /// Removes a memo and every edge that starts or ends at it, in one
    /// step. Removing an absent memo is a no-op. Afterwards no edge
    /// names the memo on either side.
    pub fn delete(s: &mut Store, memo_id: i32) -> (r: Result<(), StoreError>)
        requires
            old(s).wf(),
        ensures
            final(s).wf(),
            r is Ok,
            final(s).memos@ == memos_without(old(s).memos@, memo_id),
            final(s).links@ == links_without(old(s).links@, memo_id),
            final(s).workspaces@ == old(s).workspaces@,
            final(s).next_workspace_id == old(s).next_workspace_id,
            final(s).next_memo_id == old(s).next_memo_id,
            final(s).next_link_id == old(s).next_link_id,
            !final(s).has_memo(memo_id),
            forall|i: int|
                0 <= i < final(s).links@.len() ==> (#[trigger] final(s).links@[i]).from_memo_id
                    != memo_id && final(s).links@[i].to_memo_id != memo_id,
    {
        let ghost l0 = s.links@;
        let n = s.links.len();
        let mut kept: Vec<LinkId> = Vec::new();
        let mut i: usize = 0;
        while i < n
            invariant
                n == l0.len(),
                i <= n,
                l0 == s.links@,
                kept@ == links_without(l0.take(i as int), memo_id),
            decreases n - i,
        {
            proof {
                assert(l0.take(i as int + 1).drop_last() =~= l0.take(i as int));
                assert(l0.take(i as int + 1).last() == l0[i as int]);
            }
            let l = s.links[i];
            if l.from_memo_id != memo_id && l.to_memo_id != memo_id {
                kept.push(l);
            }
            i = i + 1;
        }
        proof {
            assert(l0.take(n as int) =~= l0);
        }
        s.links = kept;

        let ghost m0 = s.memos@;
        let mut taken: Vec<MemoRecord> = Vec::new();
        core::mem::swap(&mut s.memos, &mut taken);
        proof {
            assert(m0.skip(0) =~= m0);
            assert(memos_without(m0.take(0), memo_id) =~= s.memos@);
        }
        while taken.len() > 0
            invariant
                taken@.len() <= m0.len(),
                taken@ == m0.skip(m0.len() - taken@.len()),
                s.memos@ == memos_without(m0.take(m0.len() - taken@.len()), memo_id),
                s.links@ == links_without(l0, memo_id),
                s.workspaces@ == old(s).workspaces@,
                s.next_workspace_id == old(s).next_workspace_id,
                s.next_memo_id == old(s).next_memo_id,
                s.next_link_id == old(s).next_link_id,
            decreases taken@.len(),
        {
            let ghost k = m0.len() - taken@.len();
            proof {
                assert(taken@[0] == m0[k]);
                assert(taken@.drop_first() =~= m0.skip(k + 1));
                assert(m0.take(k + 1).drop_last() =~= m0.take(k));
                assert(m0.take(k + 1).last() == m0[k]);
            }
            let m = taken.remove(0);
            if m.id != memo_id {
                s.memos.push(m);
            }
        }
        proof {
            assert(m0.take(m0.len() as int) =~= m0);
            lemma_delete_wf(*old(s), *s, memo_id);
        }
        Ok(())
    }
}

/// Row id bounds survive removing a memo.
pub proof fn lemma_memos_without_bound(memos: Seq<MemoRecord>, memo_id: i32, bound: i32)
    requires
        forall|i: int| 0 <= i < memos.len() ==> 0 <= (#[trigger] memos[i]).id < bound,
    ensures
        ({
            let r = memos_without(memos, memo_id);
            forall|i: int| 0 <= i < r.len() ==> 0 <= (#[trigger] r[i]).id < bound
        }),
    decreases memos.len(),
{
    if memos.len() > 0 {
        let s = memos.drop_last();
        assert forall|i: int| 0 <= i < s.len() implies 0 <= (#[trigger] s[i]).id < bound by {
            assert(s[i] == memos[i]);
        }
        lemma_memos_without_bound(s, memo_id, bound);
        let r = memos_without(memos, memo_id);
        let r0 = memos_without(s, memo_id);
        assert forall|i: int| 0 <= i < r.len() implies 0 <= (#[trigger] r[i]).id < bound by {
            if memos.last().id != memo_id && i == r.len() - 1 {
                assert(memos[memos.len() - 1] == memos.last());
            } else {
                assert(r[i] == r0[i]);
            }
        }
    }
}

/// Edge id bounds survive removing a memo's edges.
pub proof fn lemma_links_without_bound(links: Seq<LinkId>, memo_id: i32, bound: i32)
    requires
        forall|i: int| 0 <= i < links.len() ==> 0 <= (#[trigger] links[i]).id < bound,
    ensures
        ({
            let r = links_without(links, memo_id);
            forall|i: int| 0 <= i < r.len() ==> 0 <= (#[trigger] r[i]).id < bound
        }),
    decreases links.len(),
{
    if links.len() > 0 {
        let s = links.drop_last();
        assert forall|i: int| 0 <= i < s.len() implies 0 <= (#[trigger] s[i]).id < bound by {
            assert(s[i] == links[i]);
        }
        lemma_links_without_bound(s, memo_id, bound);
        let r = links_without(links, memo_id);
        let r0 = links_without(s, memo_id);
        assert forall|i: int| 0 <= i < r.len() implies 0 <= (#[trigger] r[i]).id < bound by {
            if links.last().from_memo_id != memo_id && links.last().to_memo_id != memo_id && i == r.len() - 1 {
                assert(links[links.len() - 1] == links.last());
            } else {
                assert(r[i] == r0[i]);
            }
        }
    }
}

/// Every other memo id is still found after removing one memo.
pub proof fn lemma_memos_without_keeps(memos: Seq<MemoRecord>, memo_id: i32)
    ensures
        forall|id: i32|
            seq_has_memo(memos, id) && id != memo_id ==> seq_has_memo(
                #[trigger] memos_without(memos, memo_id),
                id,
            ),
{
    lemma_memos_without_ids_completeness(memos, memo_id);
    let r = memos_without(memos, memo_id);
    assert forall|id: i32| seq_has_memo(memos, id) && id != memo_id implies seq_has_memo(
        #[trigger] memos_without(memos, memo_id),
        id,
    ) by {
        let a = choose|a: int| 0 <= a < memos.len() && (#[trigger] memos[a]).id == id;
        let i = choose|i: int| 0 <= i < r.len() && (#[trigger] r[i]).id == memos[a].id;
        assert(seq_has_memo(r, id));
    }
}

/// Every kept row's id is still found after removing one memo.
pub proof fn lemma_memos_without_ids_completeness(memos: Seq<MemoRecord>, memo_id: i32)
    ensures
        ({
            let r = memos_without(memos, memo_id);
            forall|a: int|
                0 <= a < memos.len() && (#[trigger] memos[a]).id != memo_id ==> exists|i: int|
                    0 <= i < r.len() && (#[trigger] r[i]).id == memos[a].id
        }),
    decreases memos.len(),
{
    let r = memos_without(memos, memo_id);
    if memos.len() > 0 {
        let s = memos.drop_last();
        lemma_memos_without_ids_completeness(s, memo_id);
        let r0 = memos_without(s, memo_id);
        assert forall|a: int|
            0 <= a < memos.len() && (#[trigger] memos[a]).id != memo_id implies exists|i: int|
            0 <= i < r.len() && (#[trigger] r[i]).id == memos[a].id by {
            if a < memos.len() - 1 {
                assert(s[a].id == memos[a].id && s[a].id != memo_id);
                let i = choose|i: int| 0 <= i < r0.len() && (#[trigger] r0[i]).id == s[a].id;
                assert(r[i].id == memos[a].id);
            } else {
                assert(r[r.len() - 1].id == memos[a].id);
            }
        }
    }
}

/// No kept memo row carries the removed id.
pub proof fn lemma_memos_without_pred(memos: Seq<MemoRecord>, memo_id: i32)
    ensures
        ({
            let r = memos_without(memos, memo_id);
            forall|i: int| 0 <= i < r.len() ==> (#[trigger] r[i]).id != memo_id
        }),
    decreases memos.len(),
{
    if memos.len() > 0 {
        lemma_memos_without_pred(memos.drop_last(), memo_id);
    }
}

/// Removing a memo and its edges keeps the store well formed, and
/// afterwards the memo is gone.
#[verifier::rlimit(100)]
#[verifier::spinoff_prover]
pub proof fn lemma_delete_wf(s1: Store, s2: Store, memo_id: i32)
    requires
        s1.wf(),
        s2.memos@ == memos_without(s1.memos@, memo_id),
        s2.links@ == links_without(s1.links@, memo_id),
        s2.workspaces@ == s1.workspaces@,
        s2.next_workspace_id == s1.next_workspace_id,
        s2.next_memo_id == s1.next_memo_id,
        s2.next_link_id == s1.next_link_id,
    ensures
        s2.wf(),
        !s2.has_memo(memo_id),
        forall|i: int|
            0 <= i < s2.links@.len() ==> (#[trigger] s2.links@[i]).from_memo_id != memo_id
                && s2.links@[i].to_memo_id != memo_id,
{
    let m0 = s1.memos@;
    let l0 = s1.links@;
    let mr = s2.memos@;
    let lr = s2.links@;
    lemma_memos_without_ids(m0, memo_id);
    lemma_memos_without_slugs(m0, memo_id);
    lemma_memos_without_bound(m0, memo_id, s1.next_memo_id);
    lemma_links_without(l0, memo_id);
    lemma_links_without_distinct(l0, memo_id);
    lemma_links_without_bound(l0, memo_id, s1.next_link_id);
    lemma_memos_without_pred(m0, memo_id);
    lemma_delete_endpoints(m0, l0, memo_id);
    assert forall|i: int|
        0 <= i < lr.len() implies s2.has_memo((#[trigger] lr[i]).from_memo_id) && s2.has_memo(
        lr[i].to_memo_id,
    ) by {
        assert(seq_has_memo(memos_without(m0, memo_id), lr[i].from_memo_id));
        assert(seq_has_memo(memos_without(m0, memo_id), lr[i].to_memo_id));
    }
    assert(s2.workspaces_wf());
    assert(s2.memos_wf());
    assert(s2.links_wf());
}

/// After removing a memo, every kept edge still finds both endpoints
/// among the kept memo rows.
#[verifier::spinoff_prover]
pub proof fn lemma_delete_endpoints(m0: Seq<MemoRecord>, l0: Seq<LinkId>, memo_id: i32)
    requires
        forall|i: int|
            0 <= i < l0.len() ==> seq_has_memo(m0, (#[trigger] l0[i]).from_memo_id)
                && seq_has_memo(m0, l0[i].to_memo_id),
    ensures
        ({
            let lr = links_without(l0, memo_id);
            forall|i: int|
                0 <= i < lr.len() ==> seq_has_memo(
                    memos_without(m0, memo_id),
                    (#[trigger] lr[i]).from_memo_id,
                ) && seq_has_memo(memos_without(m0, memo_id), lr[i].to_memo_id)
        }),
{
    lemma_links_without(l0, memo_id);
    lemma_memos_without_keeps(m0, memo_id);
    let lr = links_without(l0, memo_id);
    assert forall|i: int|
        0 <= i < lr.len() implies seq_has_memo(
        memos_without(m0, memo_id),
        (#[trigger] lr[i]).from_memo_id,
    ) && seq_has_memo(memos_without(m0, memo_id), lr[i].to_memo_id) by {
        let a = choose|a: int| 0 <= a < l0.len() && l0[a] == lr[i];
        assert(seq_has_memo(m0, l0[a].from_memo_id));
        assert(seq_has_memo(m0, l0[a].to_memo_id));
    }
}

/// A listing row reports a memo's data, the relation, and the edge
/// responsible for the row.
pub open spec fn link_row_of(row: Link, m: MemoRecord, t: LinkType, link_id: i32) -> bool {
    &&& row.id == m.id
    &&& row.slug_title@ == m.slug_title@
    &&& row.title@ == m.title@
    &&& row.description == m.description
    &&& row.link_type == t
    &&& row.link_id == link_id
}

impl Store {
    /// The row reports a memo that the queried memo links to.
    pub open spec fn forward_justified(&self, memo_id: i32, row: Link) -> bool {
        exists|li: int, mi: int|
            0 <= li < self.links@.len() && 0 <= mi < self.memos@.len() && (#[trigger] self.links@[li]).from_memo_id
                == memo_id && self.links@[li].to_memo_id == (#[trigger] self.memos@[mi]).id
                && link_row_of(row, self.memos@[mi], LinkType::Forward, self.links@[li].id)
    }

    /// The row reports a memo that links to the queried memo.
    pub open spec fn backward_justified(&self, memo_id: i32, row: Link) -> bool {
        exists|li: int, mi: int|
            0 <= li < self.links@.len() && 0 <= mi < self.memos@.len() && (#[trigger] self.links@[li]).to_memo_id
                == memo_id && self.links@[li].from_memo_id == (#[trigger] self.memos@[mi]).id
                && link_row_of(row, self.memos@[mi], LinkType::Backward, self.links@[li].id)
    }

    /// The row reports a memo two steps away: the queried memo links to
    /// an intermediate memo, other than itself, which links to the
    /// reported one; the row carries the forward edge from the origin.
    pub open spec fn two_hop_justified(&self, memo_id: i32, row: Link) -> bool {
        exists|l1: int, l2: int, mi: int|
            0 <= l1 < self.links@.len() && 0 <= l2 < self.links@.len() && 0 <= mi
                < self.memos@.len() && (#[trigger] self.links@[l1]).from_memo_id == memo_id && (
            #[trigger] self.links@[l2]).from_memo_id == self.links@[l1].to_memo_id
                && self.links@[l1].to_memo_id != memo_id && self.links@[l2].to_memo_id == (
            #[trigger] self.memos@[mi]).id && link_row_of(
                row,
                self.memos@[mi],
                LinkType::TwoHop,
                self.links@[l1].id,
            )
    }

    /// Some edge justifies the row, under its reported relation.
    pub open spec fn row_justified(&self, memo_id: i32, row: Link) -> bool {
        ||| self.forward_justified(memo_id, row)
        ||| self.backward_justified(memo_id, row)
        ||| self.two_hop_justified(memo_id, row)
    }

    /// Some memo of the named memo's workspace carries the slug, and
    /// its id is `to_id`.
    pub open spec fn resolves_link(&self, memo_id: i32, slug: Seq<char>, to_id: i32) -> bool {
        exists|fi: int, ti: int|
            0 <= fi < self.memos@.len() && 0 <= ti < self.memos@.len() && (#[trigger] self.memos@[fi]).id
                == memo_id && (#[trigger] self.memos@[ti]).workspace_id
                == self.memos@[fi].workspace_id && self.memos@[ti].slug_title@ == slug
                && self.memos@[ti].id == to_id
    }
}

/// Builds one listing row for the memo at `mi`.
fn push_row(rows: &mut Vec<Link>, s: &Store, mi: usize, t: LinkType, link_id: i32)
    requires
        mi < s.memos@.len(),
    ensures
        final(rows)@ == old(rows)@.push(final(rows)@.last()),
        final(rows)@.len() == old(rows)@.len() + 1,
        link_row_of(final(rows)@.last(), s.memos@[mi as int], t, link_id),
{
    let m = &s.memos[mi];
    rows.push(
        Link {
            id: m.id,
            slug_title: m.slug_title.clone(),
            title: m.title.clone(),
            description: clone_opt_string(&m.description),
            link_id,
            link_type: t,
        },
    );
}

/// How many edges leave the given memo.
pub open spec fn count_forward(links: Seq<LinkId>, memo_id: i32) -> nat
    decreases links.len(),
{
    if links.len() == 0 {
        0
    } else {
        count_forward(links.drop_last(), memo_id) + if links.last().from_memo_id == memo_id {
            1nat
        } else {
            0nat
        }
    }
}

/// How many edges enter the given memo.
pub open spec fn count_backward(links: Seq<LinkId>, memo_id: i32) -> nat
    decreases links.len(),
{
    if links.len() == 0 {
        0
    } else {
        count_backward(links.drop_last(), memo_id) + if links.last().to_memo_id == memo_id {
            1nat
        } else {
            0nat
        }
    }
}

/// How many two-hop pairs start with an edge of `prefix`: for each edge
/// of `prefix` out of the memo to an intermediate other than the memo,
/// one pair per edge of `links` out of that intermediate.
pub open spec fn count_two_hop(prefix: Seq<LinkId>, links: Seq<LinkId>, memo_id: i32) -> nat
    decreases prefix.len(),
{
    if prefix.len() == 0 {
        0
    } else {
        count_two_hop(prefix.drop_last(), links, memo_id) + if prefix.last().from_memo_id
            == memo_id && prefix.last().to_memo_id != memo_id {
            count_forward(links, prefix.last().to_memo_id)
        } else {
            0nat
        }
    }
}

/// What a link listing must hold: every row is justified by an edge of
/// its reported relation, a Forward row stands for every edge out of
/// the memo, a Backward row for every edge into it, and a TwoHop row
/// for every edge pair out of it over an intermediate memo other than
/// itself. The row count is exactly one per justifying edge or edge
/// pair, so no row is repeated beyond its justifications.
pub open spec fn list_rows_ok(s: Store, memo_id: i32, rows: Seq<Link>) -> bool {
    &&& rows.len() == count_forward(s.links@, memo_id) + count_backward(s.links@, memo_id)
        + count_two_hop(s.links@, s.links@, memo_id)
    &&& forall|k: int| 0 <= k < rows.len() ==> s.row_justified(memo_id, #[trigger] rows[k])
    &&& forall|li: int|
        0 <= li < s.links@.len() && (#[trigger] s.links@[li]).from_memo_id == memo_id
            ==> exists|k: int|
            0 <= k < rows.len() && (#[trigger] rows[k]).link_type == LinkType::Forward
                && rows[k].link_id == s.links@[li].id && rows[k].id == s.links@[li].to_memo_id
    &&& forall|li: int|
        0 <= li < s.links@.len() && (#[trigger] s.links@[li]).to_memo_id == memo_id
            ==> exists|k: int|
            0 <= k < rows.len() && (#[trigger] rows[k]).link_type == LinkType::Backward
                && rows[k].link_id == s.links@[li].id && rows[k].id == s.links@[li].from_memo_id
    &&& forall|l1: int, l2: int|
        #![trigger s.links@[l1], s.links@[l2]]
        0 <= l1 < s.links@.len() && 0 <= l2 < s.links@.len() && s.links@[l1].from_memo_id
            == memo_id && s.links@[l2].from_memo_id == s.links@[l1].to_memo_id
            && s.links@[l1].to_memo_id != memo_id ==> exists|k: int|
            0 <= k < rows.len() && (#[trigger] rows[k]).link_type == LinkType::TwoHop
                && rows[k].link_id == s.links@[l1].id && rows[k].id == s.links@[l2].to_memo_id
}

/// The operations on the link graph.
pub struct LinkRepository;

impl LinkRepository {
    /// All link rows of one memo: a Forward row for every edge out of
    /// it, a Backward row for every edge into it, and a TwoHop row for
    /// every pair of an edge out of it to an intermediate memo other
    /// than itself and an edge out of that intermediate memo. Every row
    /// is justified by such an edge, or pair of edges, and every such
    /// edge is reported; duplicate rows are possible where several
    /// edges justify them.
    #[verifier::rlimit(100)]
    pub fn list(s: &Store, memo_id: i32) -> (r: Result<Vec<Link>, StoreError>)
        requires
            s.wf(),
        ensures
            r is Ok,
            list_rows_ok(*s, memo_id, r->Ok_0@),
    {
        let n = s.links.len();
        let mut fwd: Vec<Link> = Vec::new();
        let mut li: usize = 0;
        while li < n
            invariant
                s.wf(),
                n == s.links@.len(),
                li <= n,
                forall|k: int|
                    0 <= k < fwd@.len() ==> s.forward_justified(memo_id, #[trigger] fwd@[k]),
                forall|lj: int|
                    0 <= lj < li && (#[trigger] s.links@[lj]).from_memo_id == memo_id
                        ==> exists|k: int|
                        0 <= k < fwd@.len() && (#[trigger] fwd@[k]).link_type == LinkType::Forward
                            && fwd@[k].link_id == s.links@[lj].id && fwd@[k].id
                            == s.links@[lj].to_memo_id,
                fwd@.len() == count_forward(s.links@.take(li as int), memo_id),
            decreases n - li,
        {
            proof {
                assert(s.links@.take(li as int + 1).drop_last() =~= s.links@.take(li as int));
                assert(s.links@.take(li as int + 1).last() == s.links@[li as int]);
            }
            let l = s.links[li];
            if l.from_memo_id == memo_id {
                let mi = match find_memo_index(s, l.to_memo_id) {
                    Some(i) => i,
                    None => {
                        proof {
                            assert(false);
                        }
                        vstd::pervasive::unreached()
                    },
                };
                let ghost before = fwd@;
                push_row(&mut fwd, s, mi, LinkType::Forward, l.id);
                proof {
                    assert(s.forward_justified(memo_id, fwd@.last()));
                    lemma_rows_grow(before, fwd@);
                    assert forall|lj: int|
                        0 <= lj < li + 1 && (#[trigger] s.links@[lj]).from_memo_id
                            == memo_id implies exists|k: int|
                        0 <= k < fwd@.len() && (#[trigger] fwd@[k]).link_type == LinkType::Forward
                            && fwd@[k].link_id == s.links@[lj].id && fwd@[k].id
                            == s.links@[lj].to_memo_id by {
                        if lj == li as int {
                            assert(fwd@[fwd@.len() - 1] == fwd@.last());
                        } else {
                            let k = choose|k: int|
                                0 <= k < before.len() && (#[trigger] before[k]).link_type
                                    == LinkType::Forward && before[k].link_id == s.links@[lj].id
                                    && before[k].id == s.links@[lj].to_memo_id;
                            assert(fwd@[k] == before[k]);
                        }
                    }
                }
            }
            li = li + 1;
        }
        let mut bwd: Vec<Link> = Vec::new();
        let mut li2: usize = 0;
        while li2 < n
            invariant
                s.wf(),
                n == s.links@.len(),
                li2 <= n,
                forall|k: int|
                    0 <= k < bwd@.len() ==> s.backward_justified(memo_id, #[trigger] bwd@[k]),
                forall|lj: int|
                    0 <= lj < li2 && (#[trigger] s.links@[lj]).to_memo_id == memo_id
                        ==> exists|k: int|
                        0 <= k < bwd@.len() && (#[trigger] bwd@[k]).link_type == LinkType::Backward
                            && bwd@[k].link_id == s.links@[lj].id && bwd@[k].id
                            == s.links@[lj].from_memo_id,
                bwd@.len() == count_backward(s.links@.take(li2 as int), memo_id),
            decreases n - li2,
        {
            proof {
                assert(s.links@.take(li2 as int + 1).drop_last() =~= s.links@.take(li2 as int));
                assert(s.links@.take(li2 as int + 1).last() == s.links@[li2 as int]);
            }
            let l = s.links[li2];
            if l.to_memo_id == memo_id {
                let mi = match find_memo_index(s, l.from_memo_id) {
                    Some(i) => i,
                    None => {
                        proof {
                            assert(false);
                        }
                        vstd::pervasive::unreached()
                    },
                };
                let ghost before = bwd@;
                push_row(&mut bwd, s, mi, LinkType::Backward, l.id);
                proof {
                    assert(s.backward_justified(memo_id, bwd@.last()));
                    lemma_rows_grow(before, bwd@);
                    assert forall|lj: int|
                        0 <= lj < li2 + 1 && (#[trigger] s.links@[lj]).to_memo_id
                            == memo_id implies exists|k: int|
                        0 <= k < bwd@.len() && (#[trigger] bwd@[k]).link_type == LinkType::Backward
                            && bwd@[k].link_id == s.links@[lj].id && bwd@[k].id
                            == s.links@[lj].from_memo_id by {
                        if lj == li2 as int {
                            assert(bwd@[bwd@.len() - 1] == bwd@.last());
                        } else {
                            let k = choose|k: int|
                                0 <= k < before.len() && (#[trigger] before[k]).link_type
                                    == LinkType::Backward && before[k].link_id == s.links@[lj].id
                                    && before[k].id == s.links@[lj].from_memo_id;
                            assert(bwd@[k] == before[k]);
                        }
                    }
                }
            }
            li2 = li2 + 1;
        }
        let mut two: Vec<Link> = Vec::new();
        let mut l1: usize = 0;
        while l1 < n
            invariant
                s.wf(),
                n == s.links@.len(),
                l1 <= n,
                forall|k: int|
                    0 <= k < two@.len() ==> s.two_hop_justified(memo_id, #[trigger] two@[k]),
                forall|la: int, lb: int|
                    #![trigger s.links@[la], s.links@[lb]]
                    0 <= la < l1 && 0 <= lb < n && s.links@[la].from_memo_id == memo_id
                        && s.links@[lb].from_memo_id == s.links@[la].to_memo_id
                        && s.links@[la].to_memo_id != memo_id ==> exists|k: int|
                        0 <= k < two@.len() && (#[trigger] two@[k]).link_type == LinkType::TwoHop
                            && two@[k].link_id == s.links@[la].id && two@[k].id
                            == s.links@[lb].to_memo_id,
                two@.len() == count_two_hop(s.links@.take(l1 as int), s.links@, memo_id),
            decreases n - l1,
        {
            proof {
                assert(s.links@.take(l1 as int + 1).drop_last() =~= s.links@.take(l1 as int));
                assert(s.links@.take(l1 as int + 1).last() == s.links@[l1 as int]);
            }
            let e1 = s.links[l1];
            if e1.from_memo_id == memo_id && e1.to_memo_id != memo_id {
                let mut l2: usize = 0;
                while l2 < n
                    invariant
                        s.wf(),
                        n == s.links@.len(),
                        l1 < n,
                        l2 <= n,
                        e1 == s.links@[l1 as int],
                        e1.from_memo_id == memo_id,
                        e1.to_memo_id != memo_id,
                        forall|k: int|
                            0 <= k < two@.len() ==> s.two_hop_justified(
                                memo_id,
                                #[trigger] two@[k],
                            ),
                        forall|la: int, lb: int|
                            #![trigger s.links@[la], s.links@[lb]]
                            0 <= la < l1 && 0 <= lb < n && s.links@[la].from_memo_id == memo_id
                                && s.links@[lb].from_memo_id == s.links@[la].to_memo_id
                                && s.links@[la].to_memo_id != memo_id ==> exists|k: int|
                                0 <= k < two@.len() && (#[trigger] two@[k]).link_type
                                    == LinkType::TwoHop && two@[k].link_id == s.links@[la].id
                                    && two@[k].id == s.links@[lb].to_memo_id,
                        forall|lb: int|
                            0 <= lb < l2 && (#[trigger] s.links@[lb]).from_memo_id
                                == e1.to_memo_id ==> exists|k: int|
                                0 <= k < two@.len() && (#[trigger] two@[k]).link_type
                                    == LinkType::TwoHop && two@[k].link_id == e1.id && two@[k].id
                                    == s.links@[lb].to_memo_id,
                        two@.len() == count_two_hop(s.links@.take(l1 as int), s.links@, memo_id)
                            + count_forward(s.links@.take(l2 as int), e1.to_memo_id),
                    decreases n - l2,
                {
                    proof {
                        assert(s.links@.take(l2 as int + 1).drop_last() =~= s.links@.take(
                            l2 as int,
                        ));
                        assert(s.links@.take(l2 as int + 1).last() == s.links@[l2 as int]);
                    }
                    let e2 = s.links[l2];
                    if e2.from_memo_id == e1.to_memo_id {
                        let mi = match find_memo_index(s, e2.to_memo_id) {
                            Some(i) => i,
                            None => {
                                proof {
                                    assert(false);
                                }
                                vstd::pervasive::unreached()
                            },
                        };
                        let ghost before = two@;
                        push_row(&mut two, s, mi, LinkType::TwoHop, e1.id);
                        proof {
                            assert(s.two_hop_justified(memo_id, two@.last()));
                            lemma_rows_grow(before, two@);
                            assert forall|la: int, lb: int|
                                #![trigger s.links@[la], s.links@[lb]]
                                0 <= la < l1 && 0 <= lb < n && s.links@[la].from_memo_id == memo_id
                                    && s.links@[lb].from_memo_id == s.links@[la].to_memo_id
                                    && s.links@[la].to_memo_id != memo_id implies exists|k: int|
                                0 <= k < two@.len() && (#[trigger] two@[k]).link_type
                                    == LinkType::TwoHop && two@[k].link_id == s.links@[la].id
                                    && two@[k].id == s.links@[lb].to_memo_id by {
                                let k = choose|k: int|
                                    0 <= k < before.len() && (#[trigger] before[k]).link_type
                                        == LinkType::TwoHop && before[k].link_id
                                        == s.links@[la].id && before[k].id
                                        == s.links@[lb].to_memo_id;
                                assert(two@[k] == before[k]);
                            }
                            assert forall|lb: int|
                                0 <= lb < l2 + 1 && (#[trigger] s.links@[lb]).from_memo_id
                                    == e1.to_memo_id implies exists|k: int|
                                0 <= k < two@.len() && (#[trigger] two@[k]).link_type
                                    == LinkType::TwoHop && two@[k].link_id == e1.id && two@[k].id
                                    == s.links@[lb].to_memo_id by {
                                if lb == l2 as int {
                                    assert(two@[two@.len() - 1] == two@.last());
                                } else {
                                    let k = choose|k: int|
                                        0 <= k < before.len() && (#[trigger] before[k]).link_type
                                            == LinkType::TwoHop && before[k].link_id == e1.id
                                            && before[k].id == s.links@[lb].to_memo_id;
                                    assert(two@[k] == before[k]);
                                }
                            }
                        }
                    }
                    l2 = l2 + 1;
                }
                proof {
                    assert(s.links@.take(n as int) =~= s.links@);
                    assert(count_forward(s.links@.take(n as int), e1.to_memo_id) == count_forward(
                        s.links@,
                        e1.to_memo_id,
                    ));
                    assert forall|la: int, lb: int|
                        #![trigger s.links@[la], s.links@[lb]]
                        0 <= la < l1 + 1 && 0 <= lb < n && s.links@[la].from_memo_id == memo_id
                            && s.links@[lb].from_memo_id == s.links@[la].to_memo_id
                            && s.links@[la].to_memo_id != memo_id implies exists|k: int|
                        0 <= k < two@.len() && (#[trigger] two@[k]).link_type == LinkType::TwoHop
                            && two@[k].link_id == s.links@[la].id && two@[k].id
                            == s.links@[lb].to_memo_id by {
                        if la == l1 as int {
                            assert(s.links@[lb].from_memo_id == e1.to_memo_id);
                        }
                    }
                }
            }
            l1 = l1 + 1;
        }
        let ghost fwd0 = fwd@;
        let ghost bwd0 = bwd@;
        let ghost two0 = two@;
        let mut rows = fwd;
        rows.append(&mut bwd);
        rows.append(&mut two);
        proof {
            lemma_list_concat(s, memo_id, fwd0, bwd0, two0, rows@);
            assert(rows@ == (fwd0 + bwd0) + two0);
            lemma_list_concat_two(s, memo_id, fwd0 + bwd0, two0, rows@);
            assert(s.links@.take(n as int) =~= s.links@);
            assert(fwd0.len() == count_forward(s.links@, memo_id));
            assert(bwd0.len() == count_backward(s.links@, memo_id));
            assert(two0.len() == count_two_hop(s.links@, s.links@, memo_id));
            assert(rows@.len() == fwd0.len() + bwd0.len() + two0.len());
            assert(list_rows_ok(*s, memo_id, rows@));
        }
        Ok(rows)
    }

    /// Adds an edge from the given memo to the memo of the same workspace
    /// with the given slug. Fails with `NotFound` exactly when the source
    /// memo is absent or the slug does not resolve inside its workspace,
    /// with `DuplicateConstraint` exactly when the ordered pair already has
    /// an edge, and with `StorageFailure` exactly when the edge id space is
    /// used up; on failure the store is unchanged.
    #[verifier::rlimit(50)]
    pub fn create(s: &mut Store, memo_id: i32, to_memo_slug_title: &String) -> (r: Result<
        LinkId,
        StoreError,
    >)
        requires
            old(s).wf(),
        ensures
            final(s).wf(),
            match r {
                Ok(l) => {
                    &&& old(s).resolves_link(memo_id, to_memo_slug_title@, l.to_memo_id)
                    &&& !old(s).has_edge(memo_id, l.to_memo_id)
                    &&& old(s).next_link_id < i32::MAX
                    &&& l.from_memo_id == memo_id
                    &&& l.id == old(s).next_link_id
                    &&& final(s).links@ == old(s).links@.push(l)
                    &&& final(s).memos@ == old(s).memos@
                    &&& final(s).workspaces@ == old(s).workspaces@
                    &&& final(s).next_link_id == old(s).next_link_id + 1
                    &&& final(s).next_workspace_id == old(s).next_workspace_id
                    &&& final(s).next_memo_id == old(s).next_memo_id
                },
                Err(e) => {
                    &&& *final(s) == *old(s)
                    &&& (e is NotFound <==> !(exists|t: i32|
                        old(s).resolves_link(memo_id, to_memo_slug_title@, t)))
                    &&& (e is DuplicateConstraint <==> exists|t: i32|
                        old(s).resolves_link(memo_id, to_memo_slug_title@, t) && old(s).has_edge(
                            memo_id,
                            t,
                        ))
                    &&& (e is StorageFailure <==> (exists|t: i32|
                        old(s).resolves_link(memo_id, to_memo_slug_title@, t) && !old(s).has_edge(
                            memo_id,
                            t,
                        )) && old(s).next_link_id == i32::MAX)
                    &&& (e is NotFound || e is DuplicateConstraint || e is StorageFailure)
                },
            },
    {
        let fi = match find_memo_index(s, memo_id) {
            Some(i) => i,
            None => {
                proof {
                    assert forall|t: i32|
                        !old(s).resolves_link(memo_id, to_memo_slug_title@, t) by {
                        if old(s).resolves_link(memo_id, to_memo_slug_title@, t) {
                            let (a, b) = choose|a: int, b: int|
                                0 <= a < s.memos@.len() && 0 <= b < s.memos@.len() && (
                                #[trigger] s.memos@[a]).id == memo_id && (#[trigger] s.memos@[b]).workspace_id
                                    == s.memos@[a].workspace_id && s.memos@[b].slug_title@
                                    == to_memo_slug_title@ && s.memos@[b].id == t;
                            assert(s.has_memo(memo_id));
                        }
                    }
                }
                return Err(StoreError::NotFound);
            },
        };
        let ws_id = s.memos[fi].workspace_id;
        let ti = match find_memo_by_slug(s, ws_id, to_memo_slug_title) {
            Some(i) => i,
            None => {
                proof {
                    assert forall|t: i32|
                        !old(s).resolves_link(memo_id, to_memo_slug_title@, t) by {
                        if old(s).resolves_link(memo_id, to_memo_slug_title@, t) {
                            let (a, b) = choose|a: int, b: int|
                                0 <= a < s.memos@.len() && 0 <= b < s.memos@.len() && (
                                #[trigger] s.memos@[a]).id == memo_id && (#[trigger] s.memos@[b]).workspace_id
                                    == s.memos@[a].workspace_id && s.memos@[b].slug_title@
                                    == to_memo_slug_title@ && s.memos@[b].id == t;
                            assert(s.memos@[a].id == s.memos@[fi as int].id);
                            assert(a == fi as int);
                            assert(s.has_memo_slug(ws_id, to_memo_slug_title@));
                        }
                    }
                }
                return Err(StoreError::NotFound);
            },
        };
        let to_id = s.memos[ti].id;
        proof {
            assert(old(s).resolves_link(memo_id, to_memo_slug_title@, to_id));
            assert forall|t: i32|
                old(s).resolves_link(memo_id, to_memo_slug_title@, t) implies t == to_id by {
                let (a, b) = choose|a: int, b: int|
                    0 <= a < s.memos@.len() && 0 <= b < s.memos@.len() && (#[trigger] s.memos@[a]).id
                        == memo_id && (#[trigger] s.memos@[b]).workspace_id
                        == s.memos@[a].workspace_id && s.memos@[b].slug_title@
                        == to_memo_slug_title@ && s.memos@[b].id == t;
                assert(a == fi as int);
                assert(b == ti as int);
            }
        }
        if find_edge_index(s, memo_id, to_id).is_some() {
            proof {
                assert(old(s).resolves_link(memo_id, to_memo_slug_title@, to_id) && old(
                    s,
                ).has_edge(memo_id, to_id));
            }
            return Err(StoreError::DuplicateConstraint);
        }
        if s.next_link_id == i32::MAX {
            proof {
                assert(old(s).resolves_link(memo_id, to_memo_slug_title@, to_id));
                assert forall|t: i32|
                    !(old(s).resolves_link(memo_id, to_memo_slug_title@, t) && old(s).has_edge(
                        memo_id,
                        t,
                    )) by {
                    if old(s).resolves_link(memo_id, to_memo_slug_title@, t) {
                        assert(t == to_id);
                    }
                }
            }
            return Err(StoreError::StorageFailure);
        }
        let l = LinkId { id: s.next_link_id, from_memo_id: memo_id, to_memo_id: to_id };
        s.links.push(l);
        s.next_link_id = s.next_link_id + 1;
        proof {
            let l2 = s.links@;
            let l1 = old(s).links@;
            assert forall|i: int, j: int|
                #![trigger l2[i].id, l2[j].id]
                0 <= i < j < l2.len() implies l2[i].id != l2[j].id by {
                if j == l2.len() - 1 {
                    assert(l2[i] == l1[i]);
                } else {
                    assert(l2[i] == l1[i] && l2[j] == l1[j]);
                }
            }
            assert forall|i: int, j: int|
                #![trigger l2[i], l2[j]]
                0 <= i < j < l2.len() implies !(l2[i].from_memo_id == l2[j].from_memo_id
                    && l2[i].to_memo_id == l2[j].to_memo_id) by {
                if j == l2.len() - 1 {
                    assert(l2[i] == l1[i]);
                    if l1[i].from_memo_id == memo_id && l1[i].to_memo_id == to_id {
                        assert(old(s).has_edge(memo_id, to_id));
                    }
                } else {
                    assert(l2[i] == l1[i] && l2[j] == l1[j]);
                }
            }
            assert forall|i: int|
                0 <= i < l2.len() implies 0 <= (#[trigger] l2[i]).id < s.next_link_id by {
                if i < l2.len() - 1 {
                    assert(l2[i] == l1[i]);
                }
            }
            assert forall|i: int|
                0 <= i < l2.len() implies s.has_memo((#[trigger] l2[i]).from_memo_id) && s.has_memo(
                l2[i].to_memo_id,
            ) by {
                if i < l2.len() - 1 {
                    assert(l2[i] == l1[i]);
                    assert(old(s).has_memo(l1[i].from_memo_id));
                    assert(old(s).has_memo(l1[i].to_memo_id));
                } else {
                    assert(s.memos@[fi as int].id == memo_id);
                    assert(s.memos@[ti as int].id == to_id);
                }
            }
        }
        Ok(l)
    }

    /// Removes the edge from `from_memo_id` to `to_memo_id`. Removing
    /// an absent edge is a no-op: of the two conventions in use for a
    /// missing edge this store keeps the idempotent, best-effort one.
    /// Afterwards the ordered pair has no edge; every other edge stays.
    pub fn delete(s: &mut Store, from_memo_id: i32, to_memo_id: i32) -> (r: Result<
        (),
        StoreError,
    >)
        requires
            old(s).wf(),
        ensures
            final(s).wf(),
            r is Ok,
            final(s).memos@ == old(s).memos@,
            final(s).workspaces@ == old(s).workspaces@,
            final(s).next_workspace_id == old(s).next_workspace_id,
            final(s).next_memo_id == old(s).next_memo_id,
            final(s).next_link_id == old(s).next_link_id,
            !final(s).has_edge(from_memo_id, to_memo_id),
            !old(s).has_edge(from_memo_id, to_memo_id) ==> final(s).links@ == old(s).links@,
            old(s).has_edge(from_memo_id, to_memo_id) ==> (forall|i: int|
                0 <= i < final(s).links@.len() ==> exists|a: int|
                    0 <= a < old(s).links@.len() && old(s).links@[a]
                        == #[trigger] final(s).links@[i]),
            old(s).has_edge(from_memo_id, to_memo_id) ==> (forall|a: int|
                0 <= a < old(s).links@.len() && !((#[trigger] old(s).links@[a]).from_memo_id
                    == from_memo_id && old(s).links@[a].to_memo_id == to_memo_id) ==> exists|i: int|
                    0 <= i < final(s).links@.len() && #[trigger] final(s).links@[i]
                        == old(s).links@[a]),
    {
        let di = match find_edge_index(s, from_memo_id, to_memo_id) {
            Some(i) => i,
            None => {
                return Ok(());
            },
        };
        let _ = s.links.remove(di);
        proof {
            lemma_link_delete_wf(*old(s), *s, di as int, from_memo_id, to_memo_id);
        }
        Ok(())
    }
}


/// A grown row list keeps every earlier row at its place.
pub proof fn lemma_rows_grow(before: Seq<Link>, after: Seq<Link>)
    requires
        after == before.push(after.last()),
    ensures
        after.len() == before.len() + 1,
        forall|k: int| 0 <= k < before.len() ==> #[trigger] after[k] == before[k],
{
}


/// Concatenating the three category row lists keeps every row justified
/// and keeps every category complete.
#[verifier::rlimit(100)]
#[verifier::spinoff_prover]
pub proof fn lemma_list_concat(
    s: &Store,
    memo_id: i32,
    fwd0: Seq<Link>,
    bwd0: Seq<Link>,
    two0: Seq<Link>,
    all: Seq<Link>,
)
    requires
        all == fwd0 + bwd0 + two0,
        forall|k: int| 0 <= k < fwd0.len() ==> s.forward_justified(memo_id, #[trigger] fwd0[k]),
        forall|k: int| 0 <= k < bwd0.len() ==> s.backward_justified(memo_id, #[trigger] bwd0[k]),
        forall|k: int| 0 <= k < two0.len() ==> s.two_hop_justified(memo_id, #[trigger] two0[k]),
        forall|lj: int|
            0 <= lj < s.links@.len() && (#[trigger] s.links@[lj]).from_memo_id == memo_id
                ==> exists|k: int|
                0 <= k < fwd0.len() && (#[trigger] fwd0[k]).link_type == LinkType::Forward
                    && fwd0[k].link_id == s.links@[lj].id && fwd0[k].id == s.links@[lj].to_memo_id,
        forall|lj: int|
            0 <= lj < s.links@.len() && (#[trigger] s.links@[lj]).to_memo_id == memo_id
                ==> exists|k: int|
                0 <= k < bwd0.len() && (#[trigger] bwd0[k]).link_type == LinkType::Backward
                    && bwd0[k].link_id == s.links@[lj].id && bwd0[k].id
                    == s.links@[lj].from_memo_id,
    ensures
        forall|k: int| 0 <= k < all.len() ==> s.row_justified(memo_id, #[trigger] all[k]),
        forall|lj: int|
            0 <= lj < s.links@.len() && (#[trigger] s.links@[lj]).from_memo_id == memo_id
                ==> exists|k: int|
                0 <= k < all.len() && (#[trigger] all[k]).link_type == LinkType::Forward
                    && all[k].link_id == s.links@[lj].id && all[k].id == s.links@[lj].to_memo_id,
        forall|lj: int|
            0 <= lj < s.links@.len() && (#[trigger] s.links@[lj]).to_memo_id == memo_id
                ==> exists|k: int|
                0 <= k < all.len() && (#[trigger] all[k]).link_type == LinkType::Backward
                    && all[k].link_id == s.links@[lj].id && all[k].id == s.links@[lj].from_memo_id,
{
    assert forall|k: int| 0 <= k < all.len() implies s.row_justified(memo_id, #[trigger] all[k]) by {
        if k < fwd0.len() {
            assert(all[k] == fwd0[k]);
        } else if k < fwd0.len() + bwd0.len() {
            assert(all[k] == bwd0[k - fwd0.len()]);
        } else {
            assert(all[k] == two0[k - fwd0.len() - bwd0.len()]);
        }
    }
    assert forall|lj: int|
        0 <= lj < s.links@.len() && (#[trigger] s.links@[lj]).from_memo_id == memo_id implies exists|
    k: int,
    |
        0 <= k < all.len() && (#[trigger] all[k]).link_type == LinkType::Forward && all[k].link_id
            == s.links@[lj].id && all[k].id == s.links@[lj].to_memo_id by {
        let k = choose|k: int|
            0 <= k < fwd0.len() && (#[trigger] fwd0[k]).link_type == LinkType::Forward
                && fwd0[k].link_id == s.links@[lj].id && fwd0[k].id == s.links@[lj].to_memo_id;
        assert(all[k] == fwd0[k]);
    }
    assert forall|lj: int|
        0 <= lj < s.links@.len() && (#[trigger] s.links@[lj]).to_memo_id == memo_id implies exists|
    k: int,
    |
        0 <= k < all.len() && (#[trigger] all[k]).link_type == LinkType::Backward && all[k].link_id
            == s.links@[lj].id && all[k].id == s.links@[lj].from_memo_id by {
        let k = choose|k: int|
            0 <= k < bwd0.len() && (#[trigger] bwd0[k]).link_type == LinkType::Backward
                && bwd0[k].link_id == s.links@[lj].id && bwd0[k].id == s.links@[lj].from_memo_id;
        assert(all[fwd0.len() + k] == bwd0[k]);
    }
}


/// Concatenating keeps the two-hop category complete.
#[verifier::rlimit(100)]
#[verifier::spinoff_prover]
pub proof fn lemma_list_concat_two(
    s: &Store,
    memo_id: i32,
    head: Seq<Link>,
    two0: Seq<Link>,
    all: Seq<Link>,
)
    requires
        all == head + two0,
        forall|la: int, lb: int|
            #![trigger s.links@[la], s.links@[lb]]
            0 <= la < s.links@.len() && 0 <= lb < s.links@.len() && s.links@[la].from_memo_id
                == memo_id && s.links@[lb].from_memo_id == s.links@[la].to_memo_id
                && s.links@[la].to_memo_id != memo_id ==> exists|k: int|
                0 <= k < two0.len() && (#[trigger] two0[k]).link_type == LinkType::TwoHop
                    && two0[k].link_id == s.links@[la].id && two0[k].id
                    == s.links@[lb].to_memo_id,
    ensures
        forall|la: int, lb: int|
            #![trigger s.links@[la], s.links@[lb]]
            0 <= la < s.links@.len() && 0 <= lb < s.links@.len() && s.links@[la].from_memo_id
                == memo_id && s.links@[lb].from_memo_id == s.links@[la].to_memo_id
                && s.links@[la].to_memo_id != memo_id ==> exists|k: int|
                0 <= k < all.len() && (#[trigger] all[k]).link_type == LinkType::TwoHop
                    && all[k].link_id == s.links@[la].id && all[k].id == s.links@[lb].to_memo_id,
{
    assert forall|la: int, lb: int|
        #![trigger s.links@[la], s.links@[lb]]
        0 <= la < s.links@.len() && 0 <= lb < s.links@.len() && s.links@[la].from_memo_id
            == memo_id && s.links@[lb].from_memo_id == s.links@[la].to_memo_id
            && s.links@[la].to_memo_id != memo_id implies exists|k: int|
        0 <= k < all.len() && (#[trigger] all[k]).link_type == LinkType::TwoHop && all[k].link_id
            == s.links@[la].id && all[k].id == s.links@[lb].to_memo_id by {
        let k = choose|k: int|
            0 <= k < two0.len() && (#[trigger] two0[k]).link_type == LinkType::TwoHop
                && two0[k].link_id == s.links@[la].id && two0[k].id == s.links@[lb].to_memo_id;
        assert(all[head.len() + k] == two0[k]);
    }
}


/// Removing the one edge of an ordered pair keeps the store well
/// formed, leaves the pair without an edge, and keeps every other edge.
#[verifier::rlimit(100)]
#[verifier::spinoff_prover]
pub proof fn lemma_link_delete_wf(s1: Store, s2: Store, d: int, from_memo_id: i32, to_memo_id: i32)
    requires
        s1.wf(),
        0 <= d < s1.links@.len(),
        s1.links@[d].from_memo_id == from_memo_id,
        s1.links@[d].to_memo_id == to_memo_id,
        s2.links@ == s1.links@.remove(d),
        s2.memos@ == s1.memos@,
        s2.workspaces@ == s1.workspaces@,
        s2.next_workspace_id == s1.next_workspace_id,
        s2.next_memo_id == s1.next_memo_id,
        s2.next_link_id == s1.next_link_id,
    ensures
        s2.wf(),
        !s2.has_edge(from_memo_id, to_memo_id),
        forall|i: int|
            0 <= i < s2.links@.len() ==> exists|a: int|
                0 <= a < s1.links@.len() && s1.links@[a] == #[trigger] s2.links@[i],
        forall|a: int|
            0 <= a < s1.links@.len() && !((#[trigger] s1.links@[a]).from_memo_id == from_memo_id
                && s1.links@[a].to_memo_id == to_memo_id) ==> exists|i: int|
                0 <= i < s2.links@.len() && #[trigger] s2.links@[i] == s1.links@[a],
{
    let l1 = s1.links@;
    let l2 = s2.links@;
    assert forall|k: int|
        0 <= k < l2.len() implies #[trigger] l2[k] == (if k < d {
        l1[k]
    } else {
        l1[k + 1]
    }) by {}
    assert forall|i: int, j: int|
        #![trigger l2[i].id, l2[j].id]
        0 <= i < j < l2.len() implies l2[i].id != l2[j].id by {
        let a = if i < d { i } else { i + 1 };
        let b = if j < d { j } else { j + 1 };
        assert(l1[a].id != l1[b].id);
    }
    assert forall|i: int, j: int|
        #![trigger l2[i], l2[j]]
        0 <= i < j < l2.len() implies !(l2[i].from_memo_id == l2[j].from_memo_id
            && l2[i].to_memo_id == l2[j].to_memo_id) by {
        let a = if i < d { i } else { i + 1 };
        let b = if j < d { j } else { j + 1 };
        assert(!(l1[a].from_memo_id == l1[b].from_memo_id && l1[a].to_memo_id
            == l1[b].to_memo_id));
    }
    assert forall|i: int| 0 <= i < l2.len() implies 0 <= (#[trigger] l2[i]).id
        < s2.next_link_id by {
        let a = if i < d { i } else { i + 1 };
        assert(l2[i] == l1[a]);
    }
    assert forall|i: int|
        0 <= i < l2.len() implies s2.has_memo((#[trigger] l2[i]).from_memo_id) && s2.has_memo(
        l2[i].to_memo_id,
    ) by {
        let a = if i < d { i } else { i + 1 };
        assert(l2[i] == l1[a]);
        assert(s1.has_memo(l1[a].from_memo_id));
        assert(s1.has_memo(l1[a].to_memo_id));
    }
    assert forall|i: int|
        0 <= i < l2.len() implies !((#[trigger] l2[i]).from_memo_id == from_memo_id
            && l2[i].to_memo_id == to_memo_id) by {
        let a = if i < d { i } else { i + 1 };
        assert(l2[i] == l1[a]);
        if a != d && l1[a].from_memo_id == from_memo_id && l1[a].to_memo_id == to_memo_id {
            if a < d {
                assert(!(l1[a].from_memo_id == l1[d].from_memo_id && l1[a].to_memo_id
                    == l1[d].to_memo_id));
            } else {
                assert(!(l1[d].from_memo_id == l1[a].from_memo_id && l1[d].to_memo_id
                    == l1[a].to_memo_id));
            }
        }
    }
    assert forall|i: int|
        0 <= i < l2.len() implies exists|a: int|
        0 <= a < l1.len() && l1[a] == #[trigger] l2[i] by {
        let a = if i < d { i } else { i + 1 };
        assert(0 <= a < l1.len() && l1[a] == l2[i]);
    }
    assert forall|a: int|
        0 <= a < l1.len() && !((#[trigger] l1[a]).from_memo_id == from_memo_id
            && l1[a].to_memo_id == to_memo_id) implies exists|i: int|
        0 <= i < l2.len() && #[trigger] l2[i] == l1[a] by {
        if a < d {
            assert(l2[a] == l1[a]);
        } else {
            assert(a != d);
            assert(l2[a - 1] == l1[a]);
        }
    }
}

} // verus!
