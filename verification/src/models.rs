//! The records that the store keeps and the rows its queries return.
//!
//! The in-memory store does not stamp times; the fields named `*_at`
//! are filled by the storage layer around the library and are carried
//! here as plain strings, empty when the store itself built the value.

use vstd::prelude::*;

use crate::doc::JsonValue;

verus! {

/// A workspace: the namespace inside which memo slugs are unique.
pub struct Workspace {
    pub id: i32,
    pub slug_name: String,
    pub name: String,
    pub created_at: String,
    pub updated_at: String,
}

/// One memo with its full document, as a query returns it.
pub struct MemoDetail {
    pub id: i32,
    pub slug_title: String,
    pub title: String,
    pub content: JsonValue,
    pub description: Option<String>,
    pub workspace_id: i32,
    pub created_at: String,
    pub updated_at: String,
    pub modified_at: String,
}

/// One memo as a listing row, without its document.
pub struct MemoIndexItem {
    pub id: i32,
    pub slug_title: String,
    pub title: String,
    pub description: Option<String>,
    pub created_at: String,
    pub updated_at: String,
    pub modified_at: String,
}

/// Which relation a link listing row reports.
#[derive(PartialEq, Eq, Structural, Clone, Copy, Debug)]
pub enum LinkType {
    /// The listed memo is linked to from the queried memo.
    Forward,
    /// The listed memo links to the queried memo.
    Backward,
    /// The listed memo is reached over one intermediate memo.
    TwoHop,
}

/// One row of a link listing: the referenced memo's data, the relation,
/// and the edge responsible for the row.
pub struct Link {
    pub id: i32,
    pub slug_title: String,
    pub title: String,
    pub description: Option<String>,
    pub link_id: i32,
    pub link_type: LinkType,
}

/// One directed edge of the link graph.
#[derive(PartialEq, Eq, Structural, Clone, Copy, Debug)]
pub struct LinkId {
    pub id: i32,
    pub from_memo_id: i32,
    pub to_memo_id: i32,
}

/// A memo pinned inside a workspace.
pub struct Bookmark {
    pub id: i32,
    pub workspace_id: i32,
    pub memo_id: i32,
    pub created_at: String,
}

/// A kanban board of a workspace.
pub struct Kanban {
    pub id: i32,
    pub workspace_id: i32,
    pub name: String,
    pub order_index: i32,
    pub created_at: String,
    pub updated_at: String,
}

/// A column of a kanban board.
pub struct KanbanStatus {
    pub id: i32,
    pub workspace_id: i32,
    pub kanban_id: i32,
    pub name: String,
    pub color: Option<String>,
    pub order_index: i32,
    pub created_at: String,
    pub updated_at: String,
}

/// A memo as it appears on a kanban board.
pub struct KanbanAssignmentItem {
    pub memo_id: i32,
    pub slug_title: String,
    pub title: String,
    pub description: Option<String>,
    pub kanban_status_id: Option<i32>,
    pub position: Option<i64>,
    pub modified_at: String,
    pub kanban_id: i32,
}

/// A memo's placement on one kanban board.
pub struct KanbanAssignmentEntry {
    pub kanban_id: i32,
    pub kanban_name: String,
    pub kanban_status_id: Option<i32>,
    pub kanban_status_name: Option<String>,
    pub kanban_status_color: Option<String>,
    pub position: Option<i64>,
}

} // verus!
