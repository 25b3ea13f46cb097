use emx_txtar::{Archive, Encoder, File};

#[test]
fn test_encode_simple_text() {
    let mut archive = Archive::with_comment("Test archive\nComment\n");
    archive.add_file(File::new("file1.txt", "Hello, world!".as_bytes())).unwrap();

    let encoder = Encoder::new();
    let result = encoder.encode(&archive).unwrap();

    assert!(result.contains("Test archive"));
    assert!(result.contains("Comment"));
    assert!(result.contains("-- file1.txt --"));
    assert!(result.contains("Hello, world!"));
}

#[test]
fn test_encode_binary() {
    let mut archive = Archive::new();
    archive.add_file(File::with_encoding("image.jpg", &[0xFF, 0xD8, 0xFF], true)).unwrap();

    let encoder = Encoder::new();
    let result = encoder.encode(&archive).unwrap();

    assert!(result.contains("-- image.jpg[.base64] --"));
    assert!(result.contains("/9j/"));
}

#[test]
fn test_encode_multiple_files() {
    let mut archive = Archive::new();
    archive.add_file(File::new("file1.txt", "Content 1".as_bytes())).unwrap();
    archive.add_file(File::new("file2.txt", "Content 2".as_bytes())).unwrap();

    let encoder = Encoder::new();
    let result = encoder.encode(&archive).unwrap();

    assert!(result.contains("-- file1.txt --"));
    assert!(result.contains("Content 1"));
    assert!(result.contains("-- file2.txt --"));
    assert!(result.contains("Content 2"));
}

#[test]
fn test_encode_with_subdirectories() {
    let mut archive = Archive::new();
    archive.add_file(File::new("dir/subdir/file.txt", "Content".as_bytes())).unwrap();

    let encoder = Encoder::new();
    let result = encoder.encode(&archive).unwrap();

    assert!(result.contains("-- dir/subdir/file.txt --"));
    assert!(result.contains("Content"));
}

#[test]
fn round_trip_text_and_binary() {
    let mut archive = Archive::new();
    archive.add_file(File::new("a.txt", "alpha\nbeta".as_bytes())).unwrap();
    archive.add_file(File::with_encoding("b.bin", &[0, 159, 146, 150], true)).unwrap();

    let encoded = Encoder::new().encode(&archive).unwrap();
    let decoded = Decoder::new().decode(&encoded).unwrap();

    assert_eq!(decoded.files.len(), 2);
    assert_eq!(decoded.files[0].name, "a.txt");
    assert!(!decoded.files[0].is_binary);
    assert_eq!(decoded.files[0].data, b"alpha\nbeta");
    assert_eq!(decoded.files[1].name, "b.bin");
    assert!(decoded.files[1].is_binary);
    assert_eq!(decoded.files[1].data, vec![0, 159, 146, 150]);
}

use emx_txtar::Decoder;
