use std::io::{Cursor, Write};

use nu_plugin_unzip::extract::{UnzipError, WriteOp};
use nu_plugin_unzip::UnzipCommand;

fn build_zip(files: &[(&str, &[u8])]) -> Vec<u8> {
    let mut zw = zip::ZipWriter::new(Cursor::new(Vec::new()));
    let opts = zip::write::SimpleFileOptions::default()
        .compression_method(zip::CompressionMethod::Deflated)
        .last_modified_time(zip::DateTime::from_date_and_time(2024, 5, 6, 7, 8, 10).unwrap());
    for (name, content) in files {
        zw.start_file(*name, opts).unwrap();
        zw.write_all(content).unwrap();
    }
    zw.finish().unwrap().into_inner()
}

fn open(data: Vec<u8>) -> zip::ZipArchive<Cursor<Vec<u8>>> {
    zip::ZipArchive::new(Cursor::new(data)).unwrap()
}

fn comps(parts: &[&str]) -> Vec<String> {
    parts.iter().map(|p| p.to_string()).collect()
}

fn file_op(path: &[&str], content: &[u8]) -> WriteOp {
    WriteOp::WriteFile { path: comps(path), content: content.to_vec() }
}

#[test]
fn test_unzip_empty_zip() {
    let mut archive = open(build_zip(&[]));
    let plan = UnzipCommand.unzip_file(&mut archive, false, &vec![]);
    assert_eq!(plan, Ok(vec![]));
}

#[test]
fn test_unzip_simple_zip() {
    let files: [(&str, &[u8]); 2] =
        [("file1.txt", b"content1"), ("file2.txt", b"hello content2")];
    let mut archive = open(build_zip(&files));
    let plan = UnzipCommand.unzip_file(&mut archive, false, &vec![]);
    assert_eq!(
        plan,
        Ok(vec![
            file_op(&["file1.txt"], b"content1"),
            file_op(&["file2.txt"], b"hello content2"),
        ]),
    );
}

#[test]
fn test_unzip_with_folder() {
    let files: [(&str, &[u8]); 2] =
        [("file1.txt", b"content1"), ("a_dir/file2.txt", b"hello content2")];
    let mut archive = open(build_zip(&files));
    let plan = UnzipCommand.unzip_file(&mut archive, false, &vec![]);
    assert_eq!(
        plan,
        Ok(vec![
            file_op(&["file1.txt"], b"content1"),
            file_op(&["a_dir", "file2.txt"], b"hello content2"),
        ]),
    );
}

#[test]
fn test_unzip_force() {
    let files: [(&str, &[u8]); 2] =
        [("file1.txt", b"content1"), ("file2.txt", b"hello content2")];
    let data = build_zip(&files);

    let existing = vec![comps(&["file1.txt"])];
    let mut archive = open(data.clone());
    let plan = UnzipCommand.unzip_file(&mut archive, false, &existing);
    assert_eq!(plan, Err(UnzipError::AlreadyExists { path: comps(&["file1.txt"]) }));

    let mut archive = open(data);
    let plan = UnzipCommand.unzip_file(&mut archive, true, &existing);
    assert_eq!(
        plan,
        Ok(vec![
            file_op(&["file1.txt"], b"content1"),
            file_op(&["file2.txt"], b"hello content2"),
        ]),
    );
}

#[test]
fn directory_entries_become_directory_operations() {
    let mut zw = zip::ZipWriter::new(Cursor::new(Vec::new()));
    let opts = zip::write::SimpleFileOptions::default();
    zw.add_directory("a_dir", opts).unwrap();
    zw.start_file("a_dir/inner.txt", opts).unwrap();
    zw.write_all(b"body").unwrap();
    let mut archive = open(zw.finish().unwrap().into_inner());

    let plan = UnzipCommand.unzip_file(&mut archive, false, &vec![]);
    assert_eq!(
        plan,
        Ok(vec![
            WriteOp::MakeDir { path: comps(&["a_dir"]) },
            file_op(&["a_dir", "inner.txt"], b"body"),
        ]),
    );
}

#[test]
fn a_planned_path_conflicts_with_a_later_equal_one() {
    let files: [(&str, &[u8]); 2] = [("same.txt", b"one"), ("./same.txt", b"two")];
    let mut archive = open(build_zip(&files));
    let plan = UnzipCommand.unzip_file(&mut archive, false, &vec![]);
    assert_eq!(plan, Err(UnzipError::AlreadyExists { path: comps(&["same.txt"]) }));
}

#[test]
fn traversal_entries_are_skipped_entirely() {
    let files: [(&str, &[u8]); 2] =
        [("../evil.txt", b"bad"), ("good.txt", b"fine")];
    let mut archive = open(build_zip(&files));

    let plan = UnzipCommand.unzip_file(&mut archive, false, &vec![]).unwrap();
    assert_eq!(plan, vec![file_op(&["good.txt"], b"fine")]);

    let mut archive = open(build_zip(&files));
    let plan = UnzipCommand.unzip_file(&mut archive, true, &vec![]).unwrap();
    assert_eq!(plan, vec![file_op(&["good.txt"], b"fine")]);
}

#[test]
fn opening_garbage_bytes_is_a_parse_failure() {
    let garbage = b"this is not a zip container".to_vec();
    assert!(zip::ZipArchive::new(Cursor::new(garbage)).is_err());
}
