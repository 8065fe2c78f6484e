use monobox::doc::{JsonValue, ObjEntry};
use monobox::models::LinkType;
use monobox::store::{
    initialize_database, LinkRepository, MemoRepository, Store, StoreError, WorkspaceRepository,
};

fn s(x: &str) -> String {
    x.to_string()
}

fn entry(key: &str, value: JsonValue) -> ObjEntry {
    ObjEntry { key: key.to_string(), value }
}

fn doc_with_link(href: &str, text: &str) -> JsonValue {
    JsonValue::Obj(vec![
        entry("type", JsonValue::Str(s("doc"))),
        entry(
            "content",
            JsonValue::Arr(vec![JsonValue::Obj(vec![
                entry("type", JsonValue::Str(s("text"))),
                entry(
                    "marks",
                    JsonValue::Arr(vec![JsonValue::Obj(vec![
                        entry("type", JsonValue::Str(s("link"))),
                        entry(
                            "attrs",
                            JsonValue::Obj(vec![entry("href", JsonValue::Str(s(href)))]),
                        ),
                    ])]),
                ),
                entry("text", JsonValue::Str(s(text))),
            ])]),
        ),
    ])
}

fn link_node_of(doc: &JsonValue) -> (&str, &str) {
    let top = match doc {
        JsonValue::Obj(es) => es,
        _ => panic!("not an object"),
    };
    let content = &top.iter().find(|e| e.key == "content").unwrap().value;
    let node = match content {
        JsonValue::Arr(a) => &a[0],
        _ => panic!("content must be a list"),
    };
    let node_es = match node {
        JsonValue::Obj(es) => es,
        _ => panic!("node must be an object"),
    };
    let text = match &node_es.iter().find(|e| e.key == "text").unwrap().value {
        JsonValue::Str(t) => t.as_str(),
        _ => panic!("text must be a string"),
    };
    let marks = &node_es.iter().find(|e| e.key == "marks").unwrap().value;
    let mark = match marks {
        JsonValue::Arr(a) => &a[0],
        _ => panic!("marks must be a list"),
    };
    let mark_es = match mark {
        JsonValue::Obj(es) => es,
        _ => panic!("mark must be an object"),
    };
    let attrs = match &mark_es.iter().find(|e| e.key == "attrs").unwrap().value {
        JsonValue::Obj(es) => es,
        _ => panic!("attrs must be an object"),
    };
    let href = match &attrs.iter().find(|e| e.key == "href").unwrap().value {
        JsonValue::Str(h) => h.as_str(),
        _ => panic!("href must be a string"),
    };
    (href, text)
}

fn sample_graph() -> (Store, i32, i32, i32, i32) {
    let mut st = initialize_database();
    let ws = WorkspaceRepository::create(&mut st, &s("sample-workspace"), &s("Sample")).unwrap();
    let a = MemoRepository::create(&mut st, ws.id, &s("a"), &s("A"), JsonValue::Null).unwrap();
    let b = MemoRepository::create(&mut st, ws.id, &s("b"), &s("B"), JsonValue::Null).unwrap();
    let c = MemoRepository::create(&mut st, ws.id, &s("c"), &s("C"), JsonValue::Null).unwrap();
    LinkRepository::create(&mut st, a.id, &s("b")).unwrap();
    LinkRepository::create(&mut st, b.id, &s("c")).unwrap();
    (st, ws.id, a.id, b.id, c.id)
}

#[test]
fn list_links_reports_forward_backward_and_two_hop() {
    let (st, _ws, a, b, c) = sample_graph();

    let rows_a = LinkRepository::list(&st, a).unwrap();
    assert!(rows_a
        .iter()
        .any(|r| r.id == b && r.link_type == LinkType::Forward));
    assert!(rows_a
        .iter()
        .any(|r| r.id == c && r.link_type == LinkType::TwoHop));

    let rows_b = LinkRepository::list(&st, b).unwrap();
    assert!(rows_b
        .iter()
        .any(|r| r.id == a && r.link_type == LinkType::Backward));
    assert!(rows_b
        .iter()
        .any(|r| r.id == c && r.link_type == LinkType::Forward));

    let rows_c = LinkRepository::list(&st, c).unwrap();
    assert!(rows_c
        .iter()
        .any(|r| r.id == b && r.link_type == LinkType::Backward));
}

#[test]
fn deleting_a_memo_removes_its_edges_on_both_sides() {
    let (mut st, _ws, a, b, c) = sample_graph();

    MemoRepository::delete(&mut st, b).unwrap();

    let rows_a = LinkRepository::list(&st, a).unwrap();
    assert!(rows_a.iter().all(|r| r.id != b));
    let rows_c = LinkRepository::list(&st, c).unwrap();
    assert!(rows_c.iter().all(|r| r.id != b));
    assert!(st.links.iter().all(|l| l.from_memo_id != b && l.to_memo_id != b));
}

#[test]
fn deleting_a_link_is_idempotent_and_removes_only_that_edge() {
    let (mut st, _ws, a, b, _c) = sample_graph();
    LinkRepository::delete(&mut st, a, b).unwrap();
    assert!(st.links.iter().all(|l| !(l.from_memo_id == a && l.to_memo_id == b)));
    assert_eq!(st.links.len(), 1);
    LinkRepository::delete(&mut st, a, b).unwrap();
    assert_eq!(st.links.len(), 1);
}

#[test]
fn creating_a_link_to_a_missing_slug_fails_with_not_found() {
    let (mut st, _ws, a, _b, _c) = sample_graph();
    let r = LinkRepository::create(&mut st, a, &s("missing"));
    assert!(matches!(r, Err(StoreError::NotFound)));
}

#[test]
fn creating_a_duplicate_ordered_edge_fails_with_duplicate_constraint() {
    let (mut st, _ws, a, _b, _c) = sample_graph();
    let r = LinkRepository::create(&mut st, a, &s("b"));
    assert!(matches!(r, Err(StoreError::DuplicateConstraint)));
}

#[test]
fn renaming_a_memo_rewrites_referrers_and_keeps_edited_text() {
    let mut st = initialize_database();
    let ws = WorkspaceRepository::create(&mut st, &s("sample-workspace"), &s("Sample")).unwrap();
    let target =
        MemoRepository::create(&mut st, ws.id, &s("test"), &s("test"), JsonValue::Null).unwrap();
    let r1 = MemoRepository::create(
        &mut st,
        ws.id,
        &s("r1"),
        &s("R1"),
        doc_with_link("/sample-workspace/test", "test"),
    )
    .unwrap();
    let r2 = MemoRepository::create(
        &mut st,
        ws.id,
        &s("r2"),
        &s("R2"),
        doc_with_link("/sample-workspace/test", "test edited"),
    )
    .unwrap();
    LinkRepository::create(&mut st, r1.id, &s("test")).unwrap();
    LinkRepository::create(&mut st, r2.id, &s("test")).unwrap();

    MemoRepository::save(
        &mut st,
        target.id,
        &s("sample-workspace"),
        &s("test"),
        &s("test"),
        &s("test_updated"),
        &s("test updated"),
        JsonValue::Null,
        &s(""),
    )
    .unwrap();

    let renamed = MemoRepository::find_by_slug(&st, ws.id, &s("test_updated")).unwrap();
    assert_eq!(renamed.id, target.id);
    assert_eq!(renamed.title, "test updated");

    let d1 = MemoRepository::find_by_slug(&st, ws.id, &s("r1")).unwrap();
    let (href1, text1) = link_node_of(&d1.content);
    assert_eq!(href1, "/sample-workspace/test_updated");
    assert_eq!(text1, "test updated");

    let d2 = MemoRepository::find_by_slug(&st, ws.id, &s("r2")).unwrap();
    let (href2, text2) = link_node_of(&d2.content);
    assert_eq!(href2, "/sample-workspace/test_updated");
    assert_eq!(text2, "test edited");
}

#[test]
fn renaming_a_missing_memo_fails_and_changes_nothing() {
    let (mut st, ws, _a, _b, _c) = sample_graph();
    let r = MemoRepository::save(
        &mut st,
        999,
        &s("sample-workspace"),
        &s("zzz"),
        &s("zzz"),
        &s("zzz2"),
        &s("Z"),
        JsonValue::Null,
        &s(""),
    );
    assert!(matches!(r, Err(StoreError::NotFound)));
    assert!(MemoRepository::find_by_slug(&st, ws, &s("a")).is_some());
    assert_eq!(st.links.len(), 2);
}

#[test]
fn renaming_onto_a_taken_slug_fails_and_changes_nothing() {
    let (mut st, ws, a, _b, _c) = sample_graph();
    let r = MemoRepository::save(
        &mut st,
        a,
        &s("sample-workspace"),
        &s("a"),
        &s("A"),
        &s("b"),
        &s("B2"),
        JsonValue::Null,
        &s(""),
    );
    assert!(matches!(r, Err(StoreError::DuplicateConstraint)));
    assert!(MemoRepository::find_by_slug(&st, ws, &s("a")).is_some());
}

#[test]
fn workspace_and_memo_slugs_are_unique() {
    let mut st = initialize_database();
    let ws = WorkspaceRepository::create(&mut st, &s("w"), &s("W")).unwrap();
    let dup_ws = WorkspaceRepository::create(&mut st, &s("w"), &s("W2"));
    assert!(matches!(dup_ws, Err(StoreError::DuplicateConstraint)));
    MemoRepository::create(&mut st, ws.id, &s("m"), &s("M"), JsonValue::Null).unwrap();
    let dup_memo = MemoRepository::create(&mut st, ws.id, &s("m"), &s("M2"), JsonValue::Null);
    assert!(matches!(dup_memo, Err(StoreError::DuplicateConstraint)));
    let orphan = MemoRepository::create(&mut st, 42, &s("x"), &s("X"), JsonValue::Null);
    assert!(matches!(orphan, Err(StoreError::NotFound)));
}

#[test]
fn exhausted_row_ids_fail_with_storage_failure() {
    let mut st = initialize_database();
    let ws = WorkspaceRepository::create(&mut st, &s("w"), &s("W")).unwrap();
    st.next_memo_id = i32::MAX;
    let r = MemoRepository::create(&mut st, ws.id, &s("m"), &s("M"), JsonValue::Null);
    assert!(matches!(r, Err(StoreError::StorageFailure)));
}

#[test]
fn memo_listing_reports_a_workspace_rows() {
    let (st, ws, a, b, c) = sample_graph();
    let rows = MemoRepository::list(&st, ws).unwrap();
    assert_eq!(rows.len(), 3);
    assert_eq!(rows[0].id, a);
    assert_eq!(rows[1].id, b);
    assert_eq!(rows[2].id, c);
    assert_eq!(rows[0].slug_title, "a");
}

#[test]
fn error_messages_name_each_failure() {
    assert_eq!(StoreError::NotFound.message(), "not found");
    assert_eq!(StoreError::DuplicateConstraint.message(), "duplicate constraint");
    assert_eq!(StoreError::MalformedDocument.message(), "malformed document");
    assert_eq!(StoreError::StorageFailure.message(), "storage failure");
}
