use novel::archive::{cache_missing, extract_paths, read_archive, ArchiveError};
use std::io::Write;

fn sample_zip() -> Vec<u8> {
    let mut buf = std::io::Cursor::new(Vec::new());
    {
        let mut w = zip::ZipWriter::new(&mut buf);
        let options = zip::write::SimpleFileOptions::default()
            .compression_method(zip::CompressionMethod::Stored)
            .unix_permissions(0o644);
        w.add_directory("Images/", options).unwrap();
        w.start_file("Images/1-0.jpg", options).unwrap();
        w.write_all(b"jpeg").unwrap();
        w.start_file("../evil", options).unwrap();
        w.write_all(b"x").unwrap();
        w.start_file("000-1.h", options).unwrap();
        w.write_all(b"<p>text</p>").unwrap();
        w.finish().unwrap();
    }
    buf.into_inner()
}

#[test]
fn archive_entries_are_read_in_order() {
    let entries = read_archive(&sample_zip()).unwrap();
    assert_eq!(entries.len(), 4);
    assert_eq!(entries[0].name.as_deref(), Some("Images"));
    assert!(entries[0].is_dir);
    assert_eq!(entries[1].name.as_deref(), Some("Images/1-0.jpg"));
    assert!(!entries[1].is_dir);
    assert_eq!(entries[1].data, b"jpeg".to_vec());
    assert_eq!(entries[1].unix_mode.map(|m| m & 0o777), Some(0o644));
    assert_eq!(entries[2].name, None);
    assert_eq!(entries[3].data, b"<p>text</p>".to_vec());
}

#[test]
fn unsafe_names_are_skipped_when_extracting() {
    let entries = read_archive(&sample_zip()).unwrap();
    let paths = extract_paths("temp/12", &entries);
    assert_eq!(
        paths,
        vec![
            (0, "temp/12/Images".to_string()),
            (1, "temp/12/Images/1-0.jpg".to_string()),
            (3, "temp/12/000-1.h".to_string()),
        ]
    );
}

#[test]
fn bytes_that_are_no_archive_are_refused() {
    assert!(matches!(read_archive(b"not a zip"), Err(ArchiveError::Unreadable)));
    assert!(matches!(read_archive(&[]), Err(ArchiveError::Unreadable)));
}

#[test]
fn only_404_means_no_cache() {
    assert!(cache_missing(404));
    assert!(!cache_missing(403));
    assert!(!cache_missing(500));
}
