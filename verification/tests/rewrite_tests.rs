use monobox::doc::{JsonValue, ObjEntry};
use monobox::rewrite::{update_link_text, RenameDescriptor};

fn entry(key: &str, value: JsonValue) -> ObjEntry {
    ObjEntry { key: key.to_string(), value }
}

fn link_text_node(href: &str, text: &str) -> JsonValue {
    JsonValue::Obj(vec![
        entry("type", JsonValue::Str("text".to_string())),
        entry(
            "marks",
            JsonValue::Arr(vec![JsonValue::Obj(vec![
                entry("type", JsonValue::Str("link".to_string())),
                entry(
                    "attrs",
                    JsonValue::Obj(vec![
                        entry("href", JsonValue::Str(href.to_string())),
                        entry("target", JsonValue::Null),
                        entry(
                            "rel",
                            JsonValue::Str("noopener noreferrer nofollow".to_string()),
                        ),
                        entry("class", JsonValue::Null),
                    ]),
                ),
            ])]),
        ),
        entry("text", JsonValue::Str(text.to_string())),
    ])
}

fn container(node_type: &str, children: Vec<JsonValue>) -> JsonValue {
    JsonValue::Obj(vec![
        entry("type", JsonValue::Str(node_type.to_string())),
        entry("content", JsonValue::Arr(children)),
    ])
}

fn get<'a>(v: &'a JsonValue, key: &str) -> &'a JsonValue {
    match v {
        JsonValue::Obj(es) => &es.iter().find(|e| e.key == key).unwrap().value,
        _ => panic!("node must be an object"),
    }
}

fn as_str(v: &JsonValue) -> &str {
    match v {
        JsonValue::Str(s) => s,
        _ => panic!("value must be a string"),
    }
}

fn elems(v: &JsonValue) -> &Vec<JsonValue> {
    match v {
        JsonValue::Arr(a) => a,
        _ => panic!("value must be a list"),
    }
}

fn descriptor(ws: &str, old: &str, old_text: &str, new: &str, new_text: &str) -> RenameDescriptor {
    RenameDescriptor {
        workspace_slug: ws.to_string(),
        old_slug: old.to_string(),
        old_display_text: old_text.to_string(),
        new_slug: new.to_string(),
        new_display_text: new_text.to_string(),
    }
}

fn collect_link_text_nodes<'a>(node: &'a JsonValue, collection: &mut Vec<&'a JsonValue>) {
    if let JsonValue::Obj(es) = node {
        let is_text = es
            .iter()
            .find(|e| e.key == "type")
            .map_or(false, |e| matches!(&e.value, JsonValue::Str(s) if s == "text"));
        let has_link = es.iter().find(|e| e.key == "marks").map_or(false, |e| {
            if let JsonValue::Arr(ms) = &e.value {
                ms.iter().any(|m| {
                    if let JsonValue::Obj(mo) = m {
                        mo.iter()
                            .find(|a| a.key == "type")
                            .map_or(false, |a| matches!(&a.value, JsonValue::Str(s) if s == "link"))
                    } else {
                        false
                    }
                })
            } else {
                false
            }
        });
        if is_text && has_link {
            collection.push(node);
        }
        if let Some(e) = es.iter().find(|e| e.key == "content") {
            if let JsonValue::Arr(cs) = &e.value {
                for child in cs {
                    collect_link_text_nodes(child, collection);
                }
            }
        }
    } else if let JsonValue::Arr(a) = node {
        for child in a {
            collect_link_text_nodes(child, collection);
        }
    }
}

#[test]
fn update_link_and_text_if_text_unchanged_since_link_was_created() {
    let input = container(
        "doc",
        vec![container(
            "paragraph",
            vec![link_text_node("/sample-workspace/test", "test")],
        )],
    );

    let workspace_slug = "sample-workspace";
    let target_link_slug = "test";
    let new_link_slug = "test_updated";
    let unmodified_link_text = "test";
    let new_link_text = "test updated";

    let (updated, changed) = update_link_text(
        &input,
        &descriptor(
            workspace_slug,
            target_link_slug,
            unmodified_link_text,
            new_link_slug,
            new_link_text,
        ),
    );
    assert!(changed, "update_link_text should succeed");

    let target_node = &elems(get(&elems(get(&updated, "content"))[0], "content"))[0];

    let href = as_str(get(get(&elems(get(target_node, "marks"))[0], "attrs"), "href"));
    let expected_href = format!("/{}/{}", workspace_slug, new_link_slug);
    assert_eq!(href, expected_href);

    assert_eq!(as_str(get(target_node, "text")), new_link_text);
}

#[test]
fn update_link_only_if_text_has_changed_since_link_was_created() {
    let input = container(
        "doc",
        vec![container(
            "paragraph",
            vec![link_text_node("/sample-workspace/test", "test edited")],
        )],
    );

    let workspace_slug = "sample-workspace";

    let (updated, changed) = update_link_text(
        &input,
        &descriptor(workspace_slug, "test", "test", "test_updated", "test updated"),
    );
    assert!(changed, "update_link_text should succeed");

    let target_node = &elems(get(&elems(get(&updated, "content"))[0], "content"))[0];

    let href = as_str(get(get(&elems(get(target_node, "marks"))[0], "attrs"), "href"));
    let expected_href = format!("/{}/{}", workspace_slug, "test_updated");
    assert_eq!(href, expected_href);

    assert_eq!(as_str(get(target_node, "text")), "test edited");
}

#[test]
fn update_nested_links() {
    let input = container(
        "doc",
        vec![container(
            "bulletList",
            vec![container(
                "listItem",
                vec![
                    container(
                        "paragraph",
                        vec![link_text_node("/sample-workspace/test", "test")],
                    ),
                    container(
                        "bulletList",
                        vec![container(
                            "listItem",
                            vec![
                                container(
                                    "paragraph",
                                    vec![JsonValue::Obj(vec![
                                        entry("type", JsonValue::Str("text".to_string())),
                                        entry(
                                            "text",
                                            JsonValue::Str(
                                                "This is a raw text node.".to_string(),
                                            ),
                                        ),
                                    ])],
                                ),
                                container(
                                    "bulletList",
                                    vec![
                                        container(
                                            "listItem",
                                            vec![container(
                                                "paragraph",
                                                vec![link_text_node(
                                                    "/sample-workspace/test",
                                                    "test",
                                                )],
                                            )],
                                        ),
                                        container(
                                            "listItem",
                                            vec![container(
                                                "paragraph",
                                                vec![link_text_node(
                                                    "/sample-workspace/test",
                                                    "test edited",
                                                )],
                                            )],
                                        ),
                                    ],
                                ),
                            ],
                        )],
                    ),
                ],
            )],
        )],
    );

    let (updated, changed) = update_link_text(
        &input,
        &descriptor("sample-workspace", "test", "test", "new-test", "new test"),
    );
    assert!(changed, "update_link_text should succeed");

    let mut link_text_nodes = Vec::new();
    collect_link_text_nodes(&updated, &mut link_text_nodes);
    assert_eq!(link_text_nodes.len(), 3);

    for node in link_text_nodes {
        let text = as_str(get(node, "text"));

        for mark in elems(get(node, "marks")) {
            if let JsonValue::Obj(mo) = mark {
                let is_link = mo
                    .iter()
                    .find(|a| a.key == "type")
                    .map_or(false, |a| matches!(&a.value, JsonValue::Str(s) if s == "link"));
                if is_link {
                    let href = as_str(get(get(mark, "attrs"), "href"));
                    assert_eq!(
                        href, "/sample-workspace/new-test",
                        "Link href should be updated"
                    );
                }
            }
        }

        if text == "new test" {
            assert_eq!(text, "new test", "Text has been incorrectly updated");
        } else {
            assert_eq!(
                text, "test edited",
                "Text not matching update condition should remain unchanged"
            );
        }
    }
}

#[test]
fn rewrite_is_idempotent_on_a_sample_document() {
    let input = container(
        "doc",
        vec![
            container(
                "paragraph",
                vec![link_text_node("/sample-workspace/test", "test")],
            ),
            container(
                "paragraph",
                vec![link_text_node("/sample-workspace/other", "other")],
            ),
        ],
    );
    let desc = descriptor("sample-workspace", "test", "test", "test_updated", "test updated");
    let (once, _) = update_link_text(&input, &desc);
    let (twice, changed_again) = update_link_text(&once, &desc);
    assert!(!changed_again);
    let mut first = Vec::new();
    collect_link_text_nodes(&once, &mut first);
    let mut second = Vec::new();
    collect_link_text_nodes(&twice, &mut second);
    assert_eq!(first.len(), second.len());
    for (a, b) in first.iter().zip(second.iter()) {
        assert_eq!(as_str(get(a, "text")), as_str(get(b, "text")));
        let ha = as_str(get(get(&elems(get(a, "marks"))[0], "attrs"), "href"));
        let hb = as_str(get(get(&elems(get(b, "marks"))[0], "attrs"), "href"));
        assert_eq!(ha, hb);
    }
}

#[test]
fn nodes_without_link_marks_pass_through_unchanged() {
    let input = container(
        "doc",
        vec![container(
            "paragraph",
            vec![
                JsonValue::Obj(vec![
                    entry("type", JsonValue::Str("text".to_string())),
                    entry("text", JsonValue::Str("test".to_string())),
                ]),
                link_text_node("/sample-workspace/unrelated", "test"),
            ],
        )],
    );
    let desc = descriptor("sample-workspace", "test", "test", "test_updated", "test updated");
    let (updated, changed) = update_link_text(&input, &desc);
    assert!(!changed);
    let para = &elems(get(&updated, "content"))[0];
    let bare = &elems(get(para, "content"))[0];
    assert_eq!(as_str(get(bare, "text")), "test");
    let other = &elems(get(para, "content"))[1];
    let href = as_str(get(get(&elems(get(other, "marks"))[0], "attrs"), "href"));
    assert_eq!(href, "/sample-workspace/unrelated");
    assert_eq!(as_str(get(other, "text")), "test");
}
