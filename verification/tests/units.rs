use sha1::Digest;

use procsnap::binset::BinarySet;
use procsnap::digest::digest_hex;
use procsnap::ledger::HashLedger;
use procsnap::logbuf::LogBuffer;
use procsnap::numfmt::decimal_string;
use procsnap::paths::entry_name;

#[test]
fn entry_name_strips_drive_prefix() {
    assert_eq!(entry_name("C:\\Windows\\notepad.exe"), "C/Windows/notepad.exe");
    assert_eq!(entry_name("c:/tools/a.exe"), "c/tools/a.exe");
}

#[test]
fn entry_name_keeps_plain_paths() {
    assert_eq!(entry_name("/usr/bin/ls"), "/usr/bin/ls");
    assert_eq!(entry_name(""), "");
    assert_eq!(entry_name("relative/path"), "relative/path");
}

#[test]
fn entry_name_is_idempotent_on_samples() {
    for p in ["C:\\Windows\\cmd.exe", "/usr/bin/env", "D:/x", "xyz", "7:/odd"] {
        let once = entry_name(p);
        let twice = entry_name(&once);
        assert_eq!(once, twice);
    }
}

#[test]
fn entry_name_double_colon_normalizes_twice() {
    // A second colon right after the drive prefix is the one shape where a
    // single normalization pass manufactures a new drive prefix.
    assert_eq!(entry_name("A::b"), "A:b");
    assert_eq!(entry_name(&entry_name("A::b")), "Ab");
}

#[test]
fn entry_name_slashes_without_prefix() {
    assert_eq!(entry_name("\\\\server\\share\\tool.exe"), "//server/share/tool.exe");
}

#[test]
fn digest_hex_known_values() {
    assert_eq!(digest_hex(b"ABC"), "3c01bdbb26f358bab27f267924aa2c9a03fcfdb8");
    assert_eq!(digest_hex(b""), "da39a3ee5e6b4b0d3255bfef95601890afd80709");
    assert_eq!(digest_hex(b"hello"), "aaf4c61ddcc5e8a2dabede0f3b482cd9aea9434d");
}

#[test]
fn digest_hex_matches_the_crates_it_relies_on() {
    let direct = hex::encode(sha1::Sha1::digest(b"some binary bytes\x00\x01\x02"));
    assert_eq!(digest_hex(b"some binary bytes\x00\x01\x02"), direct);
}

#[test]
fn digest_is_a_pure_function_of_content() {
    let a = digest_hex(b"same bytes");
    let b = digest_hex(b"same bytes");
    assert_eq!(a, b);
    assert_ne!(digest_hex(b"same bytes"), digest_hex(b"other bytes"));
}

#[test]
fn ledger_renders_lines_in_insertion_order() {
    let mut ledger = HashLedger::new();
    assert_eq!(ledger.render(), "");
    ledger.record(b"ABC", "C/bin/abc");
    ledger.record(b"", "/bin/empty");
    let text = ledger.render();
    assert_eq!(
        text,
        "3c01bdbb26f358bab27f267924aa2c9a03fcfdb8;C/bin/abc\n\
         da39a3ee5e6b4b0d3255bfef95601890afd80709;/bin/empty\n"
    );
}

#[test]
fn log_buffer_collects_lines() {
    let mut log = LogBuffer::new();
    assert!(log.as_bytes().is_empty());
    log.append_line("first line");
    log.append_line("second line");
    assert_eq!(log.as_bytes().as_slice(), b"first line\nsecond line\n");
}

#[test]
fn decimal_string_renders_numbers() {
    assert_eq!(decimal_string(0), "0");
    assert_eq!(decimal_string(7), "7");
    assert_eq!(decimal_string(12345), "12345");
    assert_eq!(decimal_string(u64::MAX), "18446744073709551615");
}

#[test]
fn binary_set_holds_each_path_once() {
    let mut set = BinarySet::new();
    set.insert(String::from("/usr/bin/ls"));
    set.insert(String::from("/usr/bin/ls"));
    set.insert(String::from("/usr/bin/cat"));
    set.insert(String::from("/usr/bin/ls"));
    assert_eq!(set.len(), 2);
    let paths = set.paths();
    assert_eq!(paths[0], "/usr/bin/ls");
    assert_eq!(paths[1], "/usr/bin/cat");
}

#[test]
fn record_process_adds_existing_paths_once() {
    let mut set = BinarySet::new();
    let mut log = LogBuffer::new();
    set.record_process(&mut log, "sshd", 100, String::from("/usr/sbin/sshd"), true);
    set.record_process(&mut log, "sshd", 101, String::from("/usr/sbin/sshd"), true);
    assert_eq!(set.len(), 1);
    assert!(log.as_bytes().is_empty());
}

#[test]
fn record_process_warns_and_skips_a_vanished_path() {
    let mut set = BinarySet::new();
    let mut log = LogBuffer::new();
    set.record_process(&mut log, "ghost", 42, String::from("/proc/42/exe"), false);
    assert_eq!(set.len(), 0);
    assert_eq!(
        log.as_bytes().as_slice(),
        b"process ghost(42) refers to invalid program name, omitting...\n"
    );
}
