use emx_txtar::{Decoder, EditOperation};

#[test]
fn test_decode_simple_text() {
    let input = "-- file1.txt --\nHello, world!";
    let decoder = Decoder::new();
    let archive = decoder.decode(input).unwrap();

    assert_eq!(archive.files.len(), 1);
    assert_eq!(archive.files[0].name, "file1.txt");
    assert_eq!(archive.files[0].data, b"Hello, world!");
    assert!(!archive.files[0].is_binary);
}

#[test]
fn test_decode_binary() {
    let input = "-- image.jpg[.base64] --\n/9j/";
    let decoder = Decoder::new();
    let archive = decoder.decode(input).unwrap();

    assert_eq!(archive.files.len(), 1);
    assert_eq!(archive.files[0].name, "image.jpg");
    assert_eq!(archive.files[0].data, vec![0xFF, 0xD8, 0xFF]);
    assert!(archive.files[0].is_binary);
}

#[test]
fn test_decode_multiple_files() {
    let input = "-- file1.txt --\nContent 1\n-- file2.txt --\nContent 2";
    let decoder = Decoder::new();
    let archive = decoder.decode(input).unwrap();

    assert_eq!(archive.files.len(), 2);
    assert_eq!(archive.files[0].name, "file1.txt");
    assert_eq!(archive.files[1].name, "file2.txt");
}

#[test]
fn test_decode_with_comment() {
    let input = "This is a comment\nAnother comment line\n\n-- file.txt --\nContent";
    let decoder = Decoder::new();
    let archive = decoder.decode(input).unwrap();

    assert!(archive.comment.contains("This is a comment"));
    assert_eq!(archive.files.len(), 1);
}

#[test]
fn test_decode_with_subdirectories() {
    let input = "-- dir/subdir/file.txt --\nContent";
    let decoder = Decoder::new();
    let archive = decoder.decode(input).unwrap();

    assert_eq!(archive.files[0].name, "dir/subdir/file.txt");
}

#[test]
fn test_decode_with_snippet_ref() {
    let input = "-- file.txt[.snippet:42] --\nContent of file";
    let decoder = Decoder::new();
    let archive = decoder.decode(input).unwrap();

    assert_eq!(archive.files[0].name, "file.txt");
    assert_eq!(archive.files[0].data, b"Content of file");
    assert!(archive.files[0].snippet_ref.is_some());
    let ref_obj = archive.files[0].snippet_ref.as_ref().unwrap();
    assert!(ref_obj.command_href.is_none());
    assert_eq!(ref_obj.line, 42);
}

#[test]
fn test_decode_with_command_ref_shorthand() {
    let input = "-- file.txt[.#search1:10] --\nContent of file";
    let decoder = Decoder::new();
    let archive = decoder.decode(input).unwrap();

    assert_eq!(archive.files[0].name, "file.txt");
    assert_eq!(archive.files[0].data, b"Content of file");
    assert!(archive.files[0].snippet_ref.is_some());
    let ref_obj = archive.files[0].snippet_ref.as_ref().unwrap();
    assert_eq!(ref_obj.command_href.as_deref(), Some("search1"));
    assert_eq!(ref_obj.line, 10);
}

#[test]
fn test_decode_with_command_ref_full() {
    let input = "-- file.txt[.snippet#search1:10] --\nContent of file";
    let decoder = Decoder::new();
    let archive = decoder.decode(input).unwrap();

    assert_eq!(archive.files[0].name, "file.txt");
    assert_eq!(archive.files[0].data, b"Content of file");
    assert!(archive.files[0].snippet_ref.is_some());
    let ref_obj = archive.files[0].snippet_ref.as_ref().unwrap();
    assert_eq!(ref_obj.command_href.as_deref(), Some("search1"));
    assert_eq!(ref_obj.line, 10);
}

#[test]
fn test_decode_with_commands_in_comment() {
    let input = "This is a commit block with command references:\n[command: rg](#search1)\n[command: git diff](#change1)\n\n-- file.txt[.#search1:10] --\nContent";
    let decoder = Decoder::new();
    let archive = decoder.decode(input).unwrap();

    assert_eq!(archive.commands.len(), 2);
    assert_eq!(archive.commands[0].name, "rg");
    assert_eq!(archive.commands[0].href, "search1");
    assert_eq!(archive.commands[1].name, "git diff");
    assert_eq!(archive.commands[1].href, "change1");

    assert_eq!(archive.files[0].name, "file.txt");
    assert!(archive.files[0].snippet_ref.is_some());
    let ref_obj = archive.files[0].snippet_ref.as_ref().unwrap();
    assert_eq!(ref_obj.command_href.as_deref(), Some("search1"));
}

#[test]
fn test_decode_binary_with_snippet_ref() {
    let input = "-- image.jpg[.base64][.snippet:100] --\n/9j/";
    let decoder = Decoder::new();
    let archive = decoder.decode(input).unwrap();

    assert_eq!(archive.files[0].name, "image.jpg");
    assert!(archive.files[0].is_binary);
    assert!(archive.files[0].snippet_ref.is_some());
    let ref_obj = archive.files[0].snippet_ref.as_ref().unwrap();
    assert!(ref_obj.command_href.is_none());
    assert_eq!(ref_obj.line, 100);
}

#[test]
fn test_decode_duplicate_snippet_files_allowed() {
    let input = "-- file.txt[.snippet:10] --\nFirst snippet\n\n-- file.txt[.snippet:42] --\nSecond snippet";
    let decoder = Decoder::new();
    let archive = decoder.decode(input).unwrap();

    assert_eq!(archive.files.len(), 2);
    assert_eq!(archive.files[0].name, "file.txt");
    assert_eq!(archive.files[1].name, "file.txt");
    assert!(archive.files[0].snippet_ref.is_some());
    assert!(archive.files[1].snippet_ref.is_some());
}

#[test]
fn test_decode_duplicate_normal_files_not_allowed() {
    let input = "-- file.txt --\nContent 1\n\n-- file.txt --\nContent 2";
    let decoder = Decoder::new();
    let result = decoder.decode(input);

    assert!(result.is_err());
    assert!(result.unwrap_err().message().contains("Duplicate file"));
}

#[test]
fn test_decode_invalid_command_reference_warning() {
    let input = "-- file.txt[.#nonexistent:10] --\nContent";
    let decoder = Decoder::new().with_verbose(1);
    let archive = decoder.decode(input).unwrap();

    assert_eq!(archive.files.len(), 1);
    assert!(archive.files[0].snippet_ref.is_some());
}

#[test]
fn test_decode_valid_command_reference() {
    let input = "[command: rg](#search1)\n\n-- file.txt[.#search1:10] --\nContent";
    let decoder = Decoder::new();
    let archive = decoder.decode(input).unwrap();

    assert_eq!(archive.commands.len(), 1);
    assert_eq!(archive.commands[0].href, "search1");
    assert_eq!(
        archive.files[0].snippet_ref.as_ref().unwrap().command_href.as_deref(),
        Some("search1")
    );

    assert!(archive.validate_snippet_refs().is_ok());
}

#[test]
fn test_validate_snippet_refs_missing_command() {
    let input = "[command: rg](#search1)\n\n-- file.txt[.#search2:10] --\nContent";
    let decoder = Decoder::new();
    let archive = decoder.decode(input).unwrap();

    let result = archive.validate_snippet_refs();
    assert!(result.is_err());

    let errors = result.unwrap_err();
    assert_eq!(errors.len(), 1);
    assert_eq!(errors[0].file, "file.txt");
    assert_eq!(errors[0].missing_command, "search2");
}

#[test]
fn test_decode_edit_file_without_href() {
    let input = "-- target.txt --\noriginal content\n\n-- target.txt[.edit] --\n<<<<<<< SEARCH\nold line\n=======\nnew line\n>>>>>>> REPLACE";
    let decoder = Decoder::new();
    let archive = decoder.decode(input).unwrap();

    assert_eq!(archive.files.len(), 2);
    assert_eq!(archive.files[1].name, "target.txt");
    assert!(archive.files[1].edit_ref.is_some());
    let edit_ref = archive.files[1].edit_ref.as_ref().unwrap();
    assert!(edit_ref.command_href.is_none());
    assert!(edit_ref.start_line.is_none());
    assert_eq!(edit_ref.edits.len(), 1);
    assert_eq!(edit_ref.edits[0].operation, EditOperation::Replace);
    assert_eq!(edit_ref.edits[0].search, vec!["old line"]);
    assert_eq!(edit_ref.edits[0].replacement, vec!["new line"]);
}

#[test]
fn test_decode_edit_file_with_href() {
    let input = "-- target.txt --\noriginal\n\n-- target.txt[.edit#cmd1:42] --\n<<<<<<< SEARCH\nold line\n=======\nnew line\n>>>>>>> REPLACE";
    let decoder = Decoder::new();
    let archive = decoder.decode(input).unwrap();

    assert_eq!(archive.files.len(), 2);
    assert_eq!(archive.files[1].name, "target.txt");
    assert!(archive.files[1].edit_ref.is_some());
    let edit_ref = archive.files[1].edit_ref.as_ref().unwrap();
    assert_eq!(edit_ref.command_href.as_deref(), Some("cmd1"));
    assert_eq!(edit_ref.start_line, Some(42));
    assert_eq!(edit_ref.edits.len(), 1);
}

#[test]
fn test_decode_edit_delete_operation() {
    let input = "-- target.txt --\noriginal\n\n-- target.txt[.edit] --\n<<<<<<< SEARCH\nline to delete\n>>>>>>> DELETE";
    let decoder = Decoder::new();
    let archive = decoder.decode(input).unwrap();

    assert_eq!(archive.files[1].edit_ref.as_ref().unwrap().edits[0].operation, EditOperation::Delete);
    assert_eq!(archive.files[1].edit_ref.as_ref().unwrap().edits[0].search, vec!["line to delete"]);
    assert!(archive.files[1].edit_ref.as_ref().unwrap().edits[0].replacement.is_empty());
}

#[test]
fn test_decode_edit_insert_operation() {
    let input = "-- target.txt --\noriginal\n\n-- target.txt[.edit] --\n<<<<<<< SEARCH\n=======\nnew line to insert\n>>>>>>> REPLACE";
    let decoder = Decoder::new();
    let archive = decoder.decode(input).unwrap();

    assert_eq!(archive.files[1].edit_ref.as_ref().unwrap().edits[0].operation, EditOperation::Insert);
    assert!(archive.files[1].edit_ref.as_ref().unwrap().edits[0].search.is_empty());
    assert_eq!(archive.files[1].edit_ref.as_ref().unwrap().edits[0].replacement, vec!["new line to insert"]);
}

#[test]
fn test_decode_edit_multiple_blocks() {
    let input = "-- target.txt --\noriginal\n\n-- target.txt[.edit] --\n<<<<<<< SEARCH\nfirst old\n=======\nfirst new\n>>>>>>> REPLACE\n<<<<<<< SEARCH\nsecond old\n=======\nsecond new\n>>>>>>> REPLACE";
    let decoder = Decoder::new();
    let archive = decoder.decode(input).unwrap();

    assert_eq!(archive.files[1].edit_ref.as_ref().unwrap().edits.len(), 2);
    assert_eq!(archive.files[1].edit_ref.as_ref().unwrap().edits[0].search, vec!["first old"]);
    assert_eq!(archive.files[1].edit_ref.as_ref().unwrap().edits[1].search, vec!["second old"]);
}

#[test]
fn test_decode_edit_trailing_whitespace_ignored() {
    let input = "-- target.txt --\noriginal\n\n-- target.txt[.edit] --\n<<<<<<< SEARCH\nline with spaces   \n=======\nline with spaces\t\n>>>>>>> REPLACE";
    let decoder = Decoder::new();
    let archive = decoder.decode(input).unwrap();

    assert_eq!(archive.files[1].edit_ref.as_ref().unwrap().edits[0].search, vec!["line with spaces"]);
    assert_eq!(archive.files[1].edit_ref.as_ref().unwrap().edits[0].replacement, vec!["line with spaces"]);
}

#[test]
fn test_decode_edit_multiline_blocks() {
    let input = "-- target.txt --\noriginal\n\n-- target.txt[.edit] --\n<<<<<<< SEARCH\nline 1\nline 2\nline 3\n=======\nnew line 1\nnew line 2\n>>>>>>> REPLACE";
    let decoder = Decoder::new();
    let archive = decoder.decode(input).unwrap();

    assert_eq!(archive.files[1].edit_ref.as_ref().unwrap().edits[0].search, vec!["line 1", "line 2", "line 3"]);
    assert_eq!(archive.files[1].edit_ref.as_ref().unwrap().edits[0].replacement, vec!["new line 1", "new line 2"]);
}

#[test]
fn test_decode_edit_target_exists_in_txtar() {
    let input = "-- target.txt --\noriginal content\n\n-- target.txt[.edit] --\n<<<<<<< SEARCH\noriginal\n=======\nmodified\n>>>>>>> REPLACE";
    let decoder = Decoder::new();
    let result = decoder.decode(input);

    assert!(result.is_ok());
    let archive = result.unwrap();
    assert_eq!(archive.files.len(), 2);
}

#[test]
fn test_decode_edit_target_missing_should_fail() {
    let input = "-- target.txt[.edit] --\n<<<<<<< SEARCH\nold\n=======\nnew\n>>>>>>> REPLACE";
    let decoder = Decoder::new();
    let result = decoder.decode(input);

    assert!(result.is_err());
    assert!(result.unwrap_err().message().contains("not found in archive or filesystem"));
}

#[test]
fn test_decode_edit_file_can_duplicate_normal_file() {
    let input = "-- target.txt --\nnormal content\n\n-- target.txt[.edit] --\n<<<<<<< SEARCH\nold\n=======\nnew\n>>>>>>> REPLACE";
    let decoder = Decoder::new();
    let result = decoder.decode(input);

    assert!(result.is_ok());
    let archive = result.unwrap();
    assert_eq!(archive.files.len(), 2);
    assert_eq!(archive.files[0].name, "target.txt");
    assert_eq!(archive.files[1].name, "target.txt");
    assert!(archive.files[0].edit_ref.is_none());
    assert!(archive.files[1].edit_ref.is_some());
}

#[test]
fn test_decode_edit_empty_search_with_replacement() {
    let input = "-- empty.txt --\n(empty file)\n\n-- empty.txt[.edit] --\n<<<<<<< SEARCH\n=======\ninserted content\n>>>>>>> REPLACE";
    let decoder = Decoder::new();
    let archive = decoder.decode(input).unwrap();

    assert_eq!(archive.files[1].edit_ref.as_ref().unwrap().edits[0].operation, EditOperation::Insert);
    assert!(archive.files[1].edit_ref.as_ref().unwrap().edits[0].search.is_empty());
    assert_eq!(archive.files[1].edit_ref.as_ref().unwrap().edits[0].replacement, vec!["inserted content"]);
}
