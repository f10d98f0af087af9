use std::io::{Cursor, Read};

use procsnap::binset::BinarySet;
use procsnap::logbuf::LogBuffer;
use procsnap::run::{write_snapshot, ReadItem};

fn open_archive(bytes: Vec<u8>) -> zip::ZipArchive<Cursor<Vec<u8>>> {
    zip::ZipArchive::new(Cursor::new(bytes)).expect("the produced bytes must form an archive")
}

fn entry_bytes(archive: &mut zip::ZipArchive<Cursor<Vec<u8>>>, name: &str) -> Vec<u8> {
    let mut file = archive.by_name(name).expect("entry must exist");
    let mut out = Vec::new();
    file.read_to_end(&mut out).expect("entry must be readable");
    out
}

#[test]
fn empty_run_keeps_log_and_ledger_entries() {
    let items: Vec<ReadItem> = Vec::new();
    let mut log = LogBuffer::new();
    log.append_line("scan finished");
    let bytes = write_snapshot(&items, &mut log).expect("an empty run still yields an archive");
    let mut archive = open_archive(bytes);
    assert_eq!(archive.len(), 2);
    assert_eq!(entry_bytes(&mut archive, "messages.log"), b"scan finished\n");
    assert_eq!(entry_bytes(&mut archive, "sha1_hashes.csv"), b"");
}

#[test]
fn single_binary_round_trip() {
    let items: Vec<ReadItem> = vec![(String::from("/bin/abc"), Ok(b"ABC".to_vec()))];
    let mut log = LogBuffer::new();
    let bytes = write_snapshot(&items, &mut log).expect("one readable binary must archive");
    let mut archive = open_archive(bytes);
    assert_eq!(archive.len(), 3);
    assert_eq!(entry_bytes(&mut archive, "/bin/abc"), b"ABC");
    assert_eq!(
        entry_bytes(&mut archive, "sha1_hashes.csv"),
        b"3c01bdbb26f358bab27f267924aa2c9a03fcfdb8;/bin/abc\n"
    );
    let log_text = String::from_utf8(entry_bytes(&mut archive, "messages.log")).unwrap();
    assert_eq!(log_text, "adding /bin/abc\n");
}

#[test]
fn binary_entries_are_stored_and_executable() {
    let items: Vec<ReadItem> = vec![(String::from("/bin/abc"), Ok(b"ABC".to_vec()))];
    let mut log = LogBuffer::new();
    let bytes = write_snapshot(&items, &mut log).unwrap();
    let mut archive = open_archive(bytes);
    let file = archive.by_name("/bin/abc").unwrap();
    assert_eq!(file.compression(), zip::CompressionMethod::Stored);
    assert_eq!(file.unix_mode().map(|m| m & 0o777), Some(0o755));
}

#[test]
fn failed_read_is_logged_and_skipped() {
    let items: Vec<ReadItem> = vec![
        (String::from("/gone/tool"), Err(String::from("permission denied"))),
    ];
    let mut log = LogBuffer::new();
    let bytes = write_snapshot(&items, &mut log).expect("a failed read must not end the run");
    let mut archive = open_archive(bytes);
    assert_eq!(archive.len(), 2);
    let log_text = String::from_utf8(entry_bytes(&mut archive, "messages.log")).unwrap();
    assert_eq!(log_text, "error while opening '/gone/tool': permission denied\n");
    assert_eq!(entry_bytes(&mut archive, "sha1_hashes.csv"), b"");
}

#[test]
fn entry_count_is_successful_reads_plus_two() {
    let items: Vec<ReadItem> = vec![
        (String::from("/bin/one"), Ok(b"first".to_vec())),
        (String::from("/gone"), Err(String::from("no such file"))),
        (String::from("/bin/two"), Ok(b"second".to_vec())),
    ];
    let mut log = LogBuffer::new();
    let bytes = write_snapshot(&items, &mut log).unwrap();
    let archive = open_archive(bytes);
    assert_eq!(archive.len(), 2 + 2);
}

#[test]
fn ledger_paths_match_entry_names_exactly() {
    let items: Vec<ReadItem> = vec![
        (String::from("C:\\tools\\run.exe"), Ok(b"win".to_vec())),
        (String::from("/usr/bin/b"), Ok(b"nix".to_vec())),
    ];
    let mut log = LogBuffer::new();
    let bytes = write_snapshot(&items, &mut log).unwrap();
    let mut archive = open_archive(bytes);
    let csv = String::from_utf8(entry_bytes(&mut archive, "sha1_hashes.csv")).unwrap();
    let names: Vec<String> = archive
        .file_names()
        .filter(|n| *n != "messages.log" && *n != "sha1_hashes.csv")
        .map(|n| n.to_string())
        .collect();
    assert_eq!(names.len(), 2);
    assert!(names.contains(&String::from("C/tools/run.exe")));
    assert!(names.contains(&String::from("/usr/bin/b")));
    for name in names {
        let matching: Vec<&str> = csv
            .lines()
            .filter(|line| line.splitn(2, ';').nth(1) == Some(name.as_str()))
            .collect();
        assert_eq!(matching.len(), 1, "exactly one ledger line for {name}");
    }
}

#[test]
fn colliding_entry_names_are_fatal() {
    let items: Vec<ReadItem> = vec![
        (String::from("C:/bin/a"), Ok(b"one".to_vec())),
        (String::from("C/bin/a"), Ok(b"two".to_vec())),
    ];
    let mut log = LogBuffer::new();
    assert!(write_snapshot(&items, &mut log).is_err());
}

#[test]
fn vanished_process_leaves_a_warning_and_two_entries() {
    let mut set = BinarySet::new();
    let mut log = LogBuffer::new();
    set.record_process(&mut log, "ghost", 7, String::from("/proc/7/exe"), false);
    assert_eq!(set.len(), 0);
    let items: Vec<ReadItem> = Vec::new();
    let bytes = write_snapshot(&items, &mut log).unwrap();
    let mut archive = open_archive(bytes);
    assert_eq!(archive.len(), 2);
    let log_text = String::from_utf8(entry_bytes(&mut archive, "messages.log")).unwrap();
    assert_eq!(log_text, "process ghost(7) refers to invalid program name, omitting...\n");
}

#[test]
fn digest_in_ledger_depends_on_bytes_alone() {
    let items_a: Vec<ReadItem> = vec![(String::from("/bin/x"), Ok(b"payload".to_vec()))];
    let items_b: Vec<ReadItem> = vec![(String::from("/bin/x"), Ok(b"payload".to_vec()))];
    let mut log_a = LogBuffer::new();
    let mut log_b = LogBuffer::new();
    let mut archive_a = open_archive(write_snapshot(&items_a, &mut log_a).unwrap());
    let mut archive_b = open_archive(write_snapshot(&items_b, &mut log_b).unwrap());
    assert_eq!(
        entry_bytes(&mut archive_a, "sha1_hashes.csv"),
        entry_bytes(&mut archive_b, "sha1_hashes.csv")
    );
}
