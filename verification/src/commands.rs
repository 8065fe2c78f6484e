//! The argument shapes of the application's command surface. Each
//! command hands the library plain values; the thin layer around the
//! library builds these from the wire and calls the store.

use vstd::prelude::*;

verus! {

pub struct SaveImageArgs {
    pub data: String,
    pub mime_type: String,
}

pub struct GetBookmarksArgs {
    pub workspace_slug_name: String,
}

pub struct CreateBookmarkArgs {
    pub workspace_slug_name: String,
    pub memo_slug_title: String,
}

pub struct DeleteBookmarkArgs {
    pub workspace_slug_name: String,
    pub memo_slug_title: String,
}

pub struct ConfigPayload {
    pub database_path: String,
    pub asset_dir_path: String,
    pub setup_complete: bool,
}

pub struct SaveConfigArgs {
    pub database_path: String,
    pub asset_dir_path: String,
    pub setup_complete: bool,
    pub create_missing: bool,
}

pub struct StorageCandidates {
    pub database_paths: Vec<String>,
    pub asset_dir_paths: Vec<String>,
}

pub struct DefaultStoragePaths {
    pub database_path: String,
    pub asset_dir_path: String,
}

pub struct AppConfig {
    pub database_path: String,
    pub asset_dir_path: String,
    pub setup_complete: bool,
}

pub struct ListKanbansArgs {
    pub workspace_slug_name: String,
}

pub struct CreateKanbanArgs {
    pub workspace_slug_name: String,
    pub kanban_name: String,
}

pub struct DeleteKanbanArgs {
    pub workspace_slug_name: String,
    pub kanban_id: i32,
}

pub struct ListKanbanAssignmentItemsArgs {
    pub workspace_slug_name: String,
    pub kanban_id: i32,
}

pub struct ListKanbanAssignmentEntriesArgs {
    pub workspace_slug_name: String,
    pub memo_slug_title: String,
}

pub struct UpsertKanbanAssignmentStatusArgs {
    pub workspace_slug_name: String,
    pub kanban_id: i32,
    pub memo_slug_title: String,
    pub kanban_status_id: Option<i32>,
    pub position: Option<i64>,
}

pub struct RemoveKanbanAssignmentArgs {
    pub workspace_slug_name: String,
    pub kanban_id: i32,
    pub memo_slug_title: String,
}

pub struct ListKanbanStatusesArgs {
    pub workspace_slug_name: String,
    pub kanban_id: i32,
}

pub struct CreateKanbanStatusArgs {
    pub workspace_slug_name: String,
    pub kanban_id: i32,
    pub name: String,
    pub color: Option<String>,
}

pub struct UpdateKanbanStatusArgs {
    pub workspace_slug_name: String,
    pub kanban_id: i32,
    pub status_id: i32,
    pub name: String,
    pub color: Option<String>,
}

pub struct DeleteKanbanStatusArgs {
    pub workspace_slug_name: String,
    pub kanban_id: i32,
    pub status_id: i32,
}

pub struct KanbanStatusOrderUpdate {
    pub status_id: i32,
    pub order_index: i32,
}

pub struct UpdateKanbanStatusOrdersArgs {
    pub workspace_slug_name: String,
    pub kanban_id: i32,
    pub orders: Vec<KanbanStatusOrderUpdate>,
}

pub struct GetLinksArgs {
    pub workspace_slug_name: String,
    pub memo_slug_title: String,
}

pub struct CreateLinkArgs {
    pub workspace_slug_name: String,
    pub memo_slug_title: String,
    pub to_memo_slug_title: String,
}

pub struct DeleteLinkArgs {
    pub workspace_slug_name: String,
    pub memo_slug_title: String,
    pub linked_workspace_slug_name: String,
    pub linked_memo_slug_title: String,
}

pub struct GetMemosArgs {
    pub workspace_slug_name: String,
}

pub struct GetMemoArgs {
    pub workspace_slug_name: String,
    pub memo_slug_title: String,
}

pub struct CreateMemoArgs {
    pub workspace_slug_name: String,
    pub slug_title: String,
    pub title: String,
    pub content: String,
}

pub struct SaveMemoArgs {
    pub workspace_slug_name: String,
    pub target_slug_title: String,
    pub new_slug_title: String,
    pub new_title: String,
    pub new_content: String,
    pub new_description: String,
}

pub struct DeleteMemoArgs {
    pub workspace_slug_name: String,
    pub memo_slug_title: String,
}

pub struct GetWorkspaceArgs {
    pub workspace_slug_name: String,
}

pub struct CreateWorkspaceArgs {
    pub workspace_slug_name: String,
    pub workspace_name: String,
}

pub struct SaveWorkspaceArgs {
    pub workspace_slug_name: String,
    pub workspace_name: String,
}

pub struct DeleteWorkspaceArgs {
    pub workspace_slug_name: String,
}

} // verus!
