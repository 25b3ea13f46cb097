use emx_txtar::{EditApplyError, EditBlock, EditOperation, EditRef};

#[test]
fn test_edit_apply_single_line_replace() {
    let content = "line 1\nline 2\nline 3";
    let edit_ref = EditRef {
        command_href: None,
        start_line: None,
        edits: vec![EditBlock {
            search: vec!["line 2".to_string()],
            replacement: vec!["modified line 2".to_string()],
            operation: EditOperation::Replace,
        }],
    };

    let result = edit_ref.apply(content).unwrap();
    assert_eq!(result, "line 1\nmodified line 2\nline 3");
}

#[test]
fn test_edit_apply_multi_line_replace() {
    let content = "line 1\nline 2\nline 3\nline 4";
    let edit_ref = EditRef {
        command_href: None,
        start_line: None,
        edits: vec![EditBlock {
            search: vec!["line 2".to_string(), "line 3".to_string()],
            replacement: vec!["new line 2".to_string(), "new line 3".to_string()],
            operation: EditOperation::Replace,
        }],
    };

    let result = edit_ref.apply(content).unwrap();
    assert_eq!(result, "line 1\nnew line 2\nnew line 3\nline 4");
}

#[test]
fn test_edit_apply_delete() {
    let content = "line 1\nline 2\nline 3";
    let edit_ref = EditRef {
        command_href: None,
        start_line: None,
        edits: vec![EditBlock {
            search: vec!["line 2".to_string()],
            replacement: vec![],
            operation: EditOperation::Delete,
        }],
    };

    let result = edit_ref.apply(content).unwrap();
    assert_eq!(result, "line 1\nline 3");
}

#[test]
fn test_edit_apply_insert_at_beginning() {
    let content = "line 1\nline 2";
    let edit_ref = EditRef {
        command_href: None,
        start_line: None,
        edits: vec![EditBlock {
            search: vec![],
            replacement: vec!["inserted line".to_string()],
            operation: EditOperation::Insert,
        }],
    };

    let result = edit_ref.apply(content).unwrap();
    assert_eq!(result, "inserted line\nline 1\nline 2");
}

#[test]
fn test_edit_apply_insert_to_empty() {
    let content = "";
    let edit_ref = EditRef {
        command_href: None,
        start_line: None,
        edits: vec![EditBlock {
            search: vec![],
            replacement: vec!["first line".to_string()],
            operation: EditOperation::Insert,
        }],
    };

    let result = edit_ref.apply(content).unwrap();
    assert_eq!(result, "first line");
}

#[test]
fn test_edit_apply_multiple_edits_sequential() {
    let content = "line 1\nline 2\nline 3";
    let edit_ref = EditRef {
        command_href: None,
        start_line: None,
        edits: vec![
            EditBlock {
                search: vec!["line 2".to_string()],
                replacement: vec!["modified 2".to_string()],
                operation: EditOperation::Replace,
            },
            EditBlock {
                search: vec!["line 3".to_string()],
                replacement: vec!["modified 3".to_string()],
                operation: EditOperation::Replace,
            },
        ],
    };

    let result = edit_ref.apply(content).unwrap();
    assert_eq!(result, "line 1\nmodified 2\nmodified 3");
}

#[test]
fn test_edit_apply_search_not_found() {
    let content = "line 1\nline 2\nline 3";
    let edit_ref = EditRef {
        command_href: None,
        start_line: None,
        edits: vec![EditBlock {
            search: vec!["nonexistent".to_string()],
            replacement: vec!["replacement".to_string()],
            operation: EditOperation::Replace,
        }],
    };

    let result = edit_ref.apply(content);
    assert!(result.is_err());
    assert!(matches!(result.unwrap_err(), EditApplyError::SearchNotFound { .. }));
}

#[test]
fn test_edit_apply_empty_content_error() {
    let content = "";
    let edit_ref = EditRef {
        command_href: None,
        start_line: None,
        edits: vec![EditBlock {
            search: vec!["line 1".to_string()],
            replacement: vec!["replacement".to_string()],
            operation: EditOperation::Replace,
        }],
    };

    let result = edit_ref.apply(content);
    assert!(matches!(result.unwrap_err(), EditApplyError::EmptyContent));
}
