use std::io::{Cursor, Write};

use nu_plugin_unzip::listing::ListingRow;
use nu_plugin_unzip::mtime::{DosStamp, ModTime};
use nu_plugin_unzip::UnzipCommand;

fn mod_time() -> zip::DateTime {
    zip::DateTime::from_date_and_time(2024, 5, 6, 7, 8, 10).unwrap()
}

fn build_zip(files: &[(&str, &[u8])]) -> Vec<u8> {
    let mut zw = zip::ZipWriter::new(Cursor::new(Vec::new()));
    let opts = zip::write::SimpleFileOptions::default()
        .compression_method(zip::CompressionMethod::Deflated)
        .last_modified_time(mod_time());
    for (name, content) in files {
        zw.start_file(*name, opts).unwrap();
        zw.write_all(content).unwrap();
    }
    zw.finish().unwrap().into_inner()
}

fn open(data: Vec<u8>) -> zip::ZipArchive<Cursor<Vec<u8>>> {
    zip::ZipArchive::new(Cursor::new(data)).unwrap()
}

fn civil_row(name: &str, size: u64) -> ListingRow {
    ListingRow {
        name: name.to_string(),
        size,
        modified: ModTime::Civil {
            stamp: DosStamp { year: 2024, month: 5, day: 6, hour: 7, minute: 8, second: 10 },
        },
    }
}

#[test]
fn test_list_empty_zip() {
    let mut archive = open(build_zip(&[]));
    let rows = UnzipCommand.list_files(&mut archive);
    assert_eq!(rows, Vec::<ListingRow>::new());
}

#[test]
fn test_list_simple_zip() {
    let files: [(&str, &[u8]); 2] =
        [("file1.txt", b"content1"), ("file2.txt", b"hello content2")];
    let mut archive = open(build_zip(&files));
    let rows = UnzipCommand.list_files(&mut archive);
    assert_eq!(rows, vec![civil_row("file1.txt", 8), civil_row("file2.txt", 14)]);
}

#[test]
fn row_size_equals_content_length_and_order_is_kept() {
    let files: [(&str, &[u8]); 3] =
        [("b.txt", b"xy"), ("a.txt", b"longer content here"), ("c.txt", b"z")];
    let mut archive = open(build_zip(&files));
    let rows = UnzipCommand.list_files(&mut archive);
    assert_eq!(rows.len(), 3);
    for (row, (name, content)) in rows.iter().zip(files.iter()) {
        assert_eq!(row.name, *name);
        assert_eq!(row.size, content.len() as u64);
    }
}

#[test]
fn extended_timestamp_field_wins_in_a_listing() {
    let secs: u32 = 1_700_000_000;
    let mut payload = vec![1u8];
    payload.extend_from_slice(&secs.to_le_bytes());
    let mut opts = zip::write::FileOptions::<zip::write::ExtendedFileOptions>::default()
        .compression_method(zip::CompressionMethod::Deflated)
        .last_modified_time(mod_time());
    opts.add_extra_data(0x5455, payload.as_slice(), false).unwrap();
    let mut zw = zip::ZipWriter::new(Cursor::new(Vec::new()));
    zw.start_file("stamped.txt", opts).unwrap();
    zw.write_all(b"data").unwrap();
    let data = zw.finish().unwrap().into_inner();

    let mut archive = open(data);
    let rows = UnzipCommand.list_files(&mut archive);
    assert_eq!(rows.len(), 1);
    assert_eq!(rows[0].modified, ModTime::Unix { secs });
}
