//! Assembly of the snapshot archive.
//!
//! The archive is built in memory: one store-only entry per binary, named by
//! the binary's normalized path and carrying executable permissions, then the
//! run's log and the rendered hash ledger as the two trailing entries. The
//! zip container itself comes from the zip crate, behind trusted wrappers
//! whose contracts speak of the sequence of entries written so far; writing
//! the finished bytes to disk is the caller's.

use vstd::prelude::*;
use vstd::string::StringExecFns;
use crate::digest::spec_digest_hex;
use crate::ledger::{render_spec, HashLedger};
use crate::logbuf::{line_bytes, LogBuffer};
use crate::paths::{entry_name, spec_entry_name};

verus! {

#[verifier::external_type_specification]
#[verifier::external_body]
pub struct ExZipError(zip::result::ZipError);

#[verifier::external_type_specification]
#[verifier::external_body]
pub struct ExIoError(std::io::Error);

/// The zip crate's archive writer over an in-memory buffer. The generic
/// writer's bounds name traits outside what can be stated here, so the
/// concrete instantiation is held opaquely in this struct; all that is known
/// of it is what the wrappers below state over `zip_entries` and `zip_clean`.
#[verifier::external_body]
pub struct MemZipWriter {
    inner: zip::write::ZipWriter<std::io::Cursor<Vec<u8>>>,
}

/// The entries an archive writer holds so far: each a name and a payload, in
/// the order they were started.
pub uninterp spec fn zip_entries(w: MemZipWriter) -> Seq<(Seq<char>, Seq<u8>)>;

/// Whether the writer has seen only successful calls of the wrappers below.
/// A failed call may leave residue behind (the writer aborts the entry in
/// progress but its bytes stay in the buffer), and only a clean writer's
/// finished bytes are a function of its entries.
pub uninterp spec fn zip_clean(w: MemZipWriter) -> bool;

/// The finished archive's bytes for a sequence of entries, written
/// store-only with permissions 0o755 and the writer's fixed default
/// timestamp: with the zip crate built here (no clock feature) they are a
/// function of the entries alone.
pub uninterp spec fn zip_encoding(entries: Seq<(Seq<char>, Seq<u8>)>) -> Seq<u8>;

/// A bound on the bytes one entry takes in the archive: its payload, its
/// name in the local and the central header, and a margin for the fixed
/// header fields.
pub open spec fn entry_cost(e: (Seq<char>, Seq<u8>)) -> nat {
    e.1.len() + 2 * vstd::utf8::encode_utf8(e.0).len() + 256
}

/// The bound summed over a sequence of entries.
pub open spec fn entries_cost(entries: Seq<(Seq<char>, Seq<u8>)>) -> nat
    decreases entries.len(),
{
    if entries.len() == 0 {
        0
    } else {
        entry_cost(entries[0]) + entries_cost(entries.drop_first())
    }
}

/// Whether the archive stays within the budget under which every write is
/// known to succeed: each entry below the format's plain size field and the
/// whole file, headers and trailing records included, far from any counter
/// or allocation limit.
pub open spec fn within_budget(entries: Seq<(Seq<char>, Seq<u8>)>) -> bool {
    entries_cost(entries) + 1024 <= 0xFFFF_FFFF
}

/// Whether an entry name fits the format's name-length field.
pub open spec fn name_fits(name: Seq<char>) -> bool {
    vstd::utf8::encode_utf8(name).len() <= 0xFFFF
}

/// Law: a UTF-8 encoding takes at most four bytes per character.
pub proof fn lemma_encode_utf8_len(chars: Seq<char>)
    ensures
        vstd::utf8::encode_utf8(chars).len() <= 4 * chars.len(),
    decreases chars.len(),
{
    if chars.len() > 0 {
        assert(vstd::utf8::encode_scalar(chars[0] as u32).len() <= 4);
        lemma_encode_utf8_len(chars.drop_first());
    }
}

/// Whether no entry already carries this name.
pub open spec fn fresh_name(entries: Seq<(Seq<char>, Seq<u8>)>, name: Seq<char>) -> bool {
    forall|i: int| 0 <= i < entries.len() ==> #[trigger] entries[i].0 != name
}

/// The condition under which adding one entry is known to succeed: the name
/// is new and fits, and the archive stays within budget.
pub open spec fn can_add_entry(
    entries: Seq<(Seq<char>, Seq<u8>)>,
    name: Seq<char>,
    data: Seq<u8>,
) -> bool {
    fresh_name(entries, name) && name_fits(name) && within_budget(entries.push((name, data)))
}

/// Law: the cost of concatenated entries is the sum of the parts' costs.
pub proof fn lemma_entries_cost_concat(a: Seq<(Seq<char>, Seq<u8>)>, b: Seq<(Seq<char>, Seq<u8>)>)
    ensures
        entries_cost(a + b) == entries_cost(a) + entries_cost(b),
    decreases a.len(),
{
    if a.len() == 0 {
        assert(a + b =~= b);
    } else {
        assert((a + b)[0] == a[0]);
        assert((a + b).drop_first() =~= a.drop_first() + b);
        lemma_entries_cost_concat(a.drop_first(), b);
    }
}

/// Law: appending one entry raises the cost by that entry's cost.
pub proof fn lemma_entries_cost_push(a: Seq<(Seq<char>, Seq<u8>)>, e: (Seq<char>, Seq<u8>))
    ensures
        entries_cost(a.push(e)) == entries_cost(a) + entry_cost(e),
{
    assert(a.push(e) =~= a + seq![e]);
    lemma_entries_cost_concat(a, seq![e]);
    assert(seq![e].drop_first() =~= Seq::<(Seq<char>, Seq<u8>)>::empty());
    assert(entries_cost(seq![e].drop_first()) == 0);
    assert(entries_cost(seq![e]) == entry_cost(e));
}

/// Relies on zip's ZipWriter::new over an in-memory cursor: a fresh archive
/// holds no entries and carries no residue.
#[verifier::external_body]
fn zip_new() -> (w: MemZipWriter)
    ensures
        zip_entries(w) == Seq::<(Seq<char>, Seq<u8>)>::empty(),
        zip_clean(w),
{
    MemZipWriter { inner: zip::write::ZipWriter::new(std::io::Cursor::new(Vec::new())) }
}

/// Relies on zip's ZipWriter::start_file: on success it has begun one new,
/// still empty entry under the given name, stored without compression and
/// with unix permissions 0o755, after refusing a name the archive already
/// holds. On a clean writer the call succeeds whenever the name is new and
/// fits the format's name field and the headers stay within budget: writing
/// to memory, the source has no other failure path.
#[verifier::external_body]
fn zip_start_entry(w: &mut MemZipWriter, name: &str) -> (r: Result<(), zip::result::ZipError>)
    ensures
        r is Ok ==> zip_entries(*final(w)) == zip_entries(*old(w)).push(
            (name@, Seq::<u8>::empty()),
        ),
        r is Ok ==> forall|i: int|
            0 <= i < zip_entries(*old(w)).len() ==> #[trigger] zip_entries(*old(w))[i].0 != name@,
        r is Ok && zip_clean(*old(w)) ==> zip_clean(*final(w)),
        zip_clean(*old(w)) && can_add_entry(zip_entries(*old(w)), name@, Seq::<u8>::empty())
            ==> r is Ok,
{
    let options = zip::write::SimpleFileOptions::default()
        .compression_method(zip::CompressionMethod::Stored)
        .unix_permissions(0o755);
    w.inner.start_file(name, options)
}

/// Relies on the std::io::Write impl of zip's ZipWriter: write_all appends
/// the given bytes to the entry started last, and fails when none has been
/// started and the bytes are not empty. On a clean writer with an entry
/// started the call succeeds whenever the archive stays within budget: in
/// memory, the source fails a write only past the plain-size threshold.
#[verifier::external_body]
fn zip_write(w: &mut MemZipWriter, data: &[u8]) -> (r: Result<(), std::io::Error>)
    ensures
        data@.len() == 0 ==> r is Ok && zip_entries(*final(w)) == zip_entries(*old(w)),
        r is Ok && data@.len() > 0 ==> zip_entries(*old(w)).len() > 0 && zip_entries(*final(w))
            == zip_entries(*old(w)).update(
            zip_entries(*old(w)).len() - 1,
            (
                zip_entries(*old(w)).last().0,
                zip_entries(*old(w)).last().1 + data@,
            ),
        ),
        r is Ok && zip_clean(*old(w)) ==> zip_clean(*final(w)),
        zip_clean(*old(w)) && zip_entries(*old(w)).len() > 0 && entries_cost(
            zip_entries(*old(w)),
        ) + data@.len() + 1024 <= 0xFFFF_FFFF ==> r is Ok,
{
    std::io::Write::write_all(&mut w.inner, data)
}

/// Relies on zip's ZipWriter::finish and std's Cursor::into_inner: on success
/// the archive's central directory has been written and the backing byte
/// buffer is handed back. On a clean writer within budget the call succeeds,
/// and the bytes are the fixed encoding of the entries: nothing else varies
/// in this build (constant timestamp, fixed options, no residue).
#[verifier::external_body]
fn zip_finish(w: MemZipWriter) -> (r: Result<Vec<u8>, zip::result::ZipError>)
    ensures
        zip_clean(w) && within_budget(zip_entries(w)) ==> r is Ok,
        r is Ok && zip_clean(w) ==> r->Ok_0@ == zip_encoding(zip_entries(w)),
{
    match w.inner.finish() {
        Ok(c) => Ok(c.into_inner()),
        Err(e) => Err(e),
    }
}

/// A fatal archive failure: an entry that could not be started or closed, or
/// entry bytes that could not be written.
#[derive(Debug)]
pub enum ArchiveError {
    Entry(zip::result::ZipError),
    Data(std::io::Error),
}

/// The log line written as a binary's entry is added.
pub open spec fn info_line(name: Seq<char>) -> Seq<char> {
    "adding "@ + name
}

/// The condition under which appending the two trailing entries is known to
/// succeed: each of the two fixed names is still free, and the archive stays
/// within budget with both bodies.
pub open spec fn can_finalize(
    entries: Seq<(Seq<char>, Seq<u8>)>,
    log_bytes: Seq<u8>,
    ledger: Seq<(Seq<char>, Seq<char>)>,
) -> bool {
    &&& can_add_entry(entries, "messages.log"@, log_bytes)
    &&& can_add_entry(
        entries.push(("messages.log"@, log_bytes)),
        "sha1_hashes.csv"@,
        vstd::utf8::encode_utf8(render_spec(ledger)),
    )
}

/// The archive under construction, with the ledger that mirrors its binary
/// entries.
pub struct Archive {
    writer: MemZipWriter,
    ledger: HashLedger,
}

impl Archive {
    /// The entries written so far: name and payload, in order.
    pub closed spec fn entries(&self) -> Seq<(Seq<char>, Seq<u8>)> {
        zip_entries(self.writer)
    }

    /// The ledger records so far: digest and name, in order.
    pub closed spec fn ledger_view(&self) -> Seq<(Seq<char>, Seq<char>)> {
        self.ledger@
    }

    /// Whether the writer has seen only successful calls.
    pub closed spec fn clean(&self) -> bool {
        zip_clean(self.writer)
    }

    /// Before the trailing entries are added, ledger and entries run in
    /// step: one record per entry, under the entry's own name, with the
    /// digest of the entry's bytes, no entry name occurs twice, and the
    /// writer has seen no failed call.
    pub open spec fn wf(&self) -> bool {
        &&& self.clean()
        &&& self.ledger_view().len() == self.entries().len()
        &&& forall|i: int|
            0 <= i < self.entries().len() ==> #[trigger] self.ledger_view()[i] == (
            spec_digest_hex(self.entries()[i].1),
            self.entries()[i].0,
        )
        &&& forall|i: int, j: int|
            0 <= i < j < self.entries().len() ==> self.entries()[i].0 != self.entries()[j].0
    }

    /// A new, empty archive.
    pub fn new() -> (r: Archive)
        ensures
            r.wf(),
            r.entries() == Seq::<(Seq<char>, Seq<u8>)>::empty(),
            r.ledger_view() == Seq::<(Seq<char>, Seq<char>)>::empty(),
    {
        Archive { writer: zip_new(), ledger: HashLedger::new() }
    }

    /// Adds one binary: records its digest in the ledger under its
    /// normalized name, logs the addition, and writes the entry with the
    /// binary's bytes. The ledger record and the log line are written in any
    /// case; the entry write succeeds whenever the normalized name is new,
    /// fits, and the archive stays within budget, and a failure past that
    /// budget is fatal to the run and leaves the archive behind as it
    /// stands.
    pub fn add_binary(&mut self, log: &mut LogBuffer, path: &str, data: &[u8]) -> (r: Result<
        (),
        ArchiveError,
    >)
        requires
            old(self).wf(),
        ensures
            final(self).ledger_view() == old(self).ledger_view().push(
                (spec_digest_hex(data@), spec_entry_name(path@)),
            ),
            final(log)@ == old(log)@ + line_bytes(info_line(spec_entry_name(path@))),
            r is Ok ==> final(self).wf(),
            r is Ok ==> final(self).entries() == old(self).entries().push(
                (spec_entry_name(path@), data@),
            ),
            can_add_entry(old(self).entries(), spec_entry_name(path@), data@) ==> r is Ok,
    {
        let name = entry_name(path);
        self.ledger.record(data, name.as_str());
        let mut line = String::from_str("adding ");
        line.append(name.as_str());
        proof {
            assert(line@ =~= info_line(spec_entry_name(path@)));
        }
        log.append_line(line.as_str());
        proof {
            if can_add_entry(old(self).entries(), name@, data@) {
                lemma_entries_cost_push(old(self).entries(), (name@, data@));
                lemma_entries_cost_push(old(self).entries(), (name@, Seq::<u8>::empty()));
                assert(can_add_entry(old(self).entries(), name@, Seq::<u8>::empty()));
            }
        }
        match zip_start_entry(&mut self.writer, name.as_str()) {
            Ok(()) => {},
            Err(e) => {
                return Err(ArchiveError::Entry(e));
            },
        }
        let ghost started = self.entries();
        proof {
            if can_add_entry(old(self).entries(), name@, data@) {
                lemma_entries_cost_push(old(self).entries(), (name@, data@));
                lemma_entries_cost_push(old(self).entries(), (name@, Seq::<u8>::empty()));
            }
        }
        match zip_write(&mut self.writer, data) {
            Ok(()) => {},
            Err(e) => {
                return Err(ArchiveError::Data(e));
            },
        }
        proof {
            if data@.len() == 0 {
                assert(data@ =~= Seq::<u8>::empty());
                assert(self.entries() =~= old(self).entries().push(
                    (spec_entry_name(path@), data@),
                ));
            } else {
                assert(started.last() == (spec_entry_name(path@), Seq::<u8>::empty()));
                assert(Seq::<u8>::empty() + data@ =~= data@);
                assert(self.entries() =~= old(self).entries().push(
                    (spec_entry_name(path@), data@),
                ));
            }
        }
        Ok(())
    }

    /// Writes the two trailing entries: the run's log under `messages.log`
    /// and the rendered ledger under `sha1_hashes.csv`. The writes succeed
    /// whenever the two fixed names are still free and the archive stays
    /// within budget.
    pub fn finalize(&mut self, log_bytes: &[u8]) -> (r: Result<(), ArchiveError>)
        requires
            old(self).wf(),
        ensures
            r is Ok ==> final(self).entries() == old(self).entries().push(
                ("messages.log"@, log_bytes@),
            ).push(
                ("sha1_hashes.csv"@, vstd::utf8::encode_utf8(render_spec(old(self).ledger_view()))),
            ),
            r is Ok ==> final(self).clean(),
            can_finalize(old(self).entries(), log_bytes@, old(self).ledger_view()) ==> r is Ok,
    {
        let ghost csv_bytes = vstd::utf8::encode_utf8(render_spec(old(self).ledger_view()));
        proof {
            if can_finalize(old(self).entries(), log_bytes@, old(self).ledger_view()) {
                lemma_entries_cost_push(old(self).entries(), ("messages.log"@, log_bytes@));
                lemma_entries_cost_push(
                    old(self).entries(),
                    ("messages.log"@, Seq::<u8>::empty()),
                );
                assert(can_add_entry(old(self).entries(), "messages.log"@, Seq::<u8>::empty()));
            }
        }
        match zip_start_entry(&mut self.writer, "messages.log") {
            Ok(()) => {},
            Err(e) => {
                return Err(ArchiveError::Entry(e));
            },
        }
        let ghost after_log_start = self.entries();
        proof {
            if can_finalize(old(self).entries(), log_bytes@, old(self).ledger_view()) {
                lemma_entries_cost_push(old(self).entries(), ("messages.log"@, log_bytes@));
                lemma_entries_cost_push(
                    old(self).entries(),
                    ("messages.log"@, Seq::<u8>::empty()),
                );
            }
        }
        match zip_write(&mut self.writer, log_bytes) {
            Ok(()) => {},
            Err(e) => {
                return Err(ArchiveError::Data(e));
            },
        }
        proof {
            if log_bytes@.len() > 0 {
                assert(after_log_start.last() == ("messages.log"@, Seq::<u8>::empty()));
                assert(Seq::<u8>::empty() + log_bytes@ =~= log_bytes@);
            } else {
                assert(log_bytes@ =~= Seq::<u8>::empty());
            }
            assert(self.entries() =~= old(self).entries().push(("messages.log"@, log_bytes@)));
        }
        let text = self.ledger.render();
        let ghost with_log = old(self).entries().push(("messages.log"@, log_bytes@));
        proof {
            if can_finalize(old(self).entries(), log_bytes@, old(self).ledger_view()) {
                lemma_entries_cost_push(with_log, ("sha1_hashes.csv"@, csv_bytes));
                lemma_entries_cost_push(with_log, ("sha1_hashes.csv"@, Seq::<u8>::empty()));
                assert(can_add_entry(with_log, "sha1_hashes.csv"@, Seq::<u8>::empty()));
            }
        }
        match zip_start_entry(&mut self.writer, "sha1_hashes.csv") {
            Ok(()) => {},
            Err(e) => {
                return Err(ArchiveError::Entry(e));
            },
        }
        let ghost after_csv_start = self.entries();
        proof {
            if can_finalize(old(self).entries(), log_bytes@, old(self).ledger_view()) {
                lemma_entries_cost_push(with_log, ("sha1_hashes.csv"@, csv_bytes));
                lemma_entries_cost_push(with_log, ("sha1_hashes.csv"@, Seq::<u8>::empty()));
            }
        }
        match zip_write(&mut self.writer, text.as_str().as_bytes()) {
            Ok(()) => {},
            Err(e) => {
                return Err(ArchiveError::Data(e));
            },
        }
        proof {
            if csv_bytes.len() > 0 {
                assert(after_csv_start.last() == ("sha1_hashes.csv"@, Seq::<u8>::empty()));
                assert(Seq::<u8>::empty() + csv_bytes =~= csv_bytes);
            } else {
                assert(csv_bytes =~= Seq::<u8>::empty());
            }
            assert(self.entries() =~= old(self).entries().push(("messages.log"@, log_bytes@)).push(
                ("sha1_hashes.csv"@, csv_bytes),
            ));
        }
        Ok(())
    }

    /// Closes the archive and hands back its bytes: the fixed encoding of
    /// the entries written, whenever only successful calls came before. The
    /// close succeeds whenever the archive is within budget.
    pub fn into_bytes(self) -> (r: Result<Vec<u8>, ArchiveError>)
        ensures
            self.clean() && within_budget(self.entries()) ==> r is Ok,
            r is Ok && self.clean() ==> r->Ok_0@ == zip_encoding(self.entries()),
    {
        let Archive { writer, ledger: _ } = self;
        match zip_finish(writer) {
            Ok(bytes) => Ok(bytes),
            Err(e) => Err(ArchiveError::Entry(e)),
        }
    }
}

/// How many ledger records carry the given name in their path field.
pub open spec fn count_matching(ledger: Seq<(Seq<char>, Seq<char>)>, name: Seq<char>) -> nat
    decreases ledger.len(),
{
    if ledger.len() == 0 {
        0
    } else {
        (if ledger[0].1 == name {
            1nat
        } else {
            0nat
        }) + count_matching(ledger.drop_first(), name)
    }
}

proof fn lemma_count_none(ledger: Seq<(Seq<char>, Seq<char>)>, name: Seq<char>)
    requires
        forall|j: int| 0 <= j < ledger.len() ==> #[trigger] ledger[j].1 != name,
    ensures
        count_matching(ledger, name) == 0,
    decreases ledger.len(),
{
    if ledger.len() > 0 {
        lemma_count_none(ledger.drop_first(), name);
    }
}

proof fn lemma_count_single(ledger: Seq<(Seq<char>, Seq<char>)>, name: Seq<char>, i: int)
    requires
        0 <= i < ledger.len(),
        ledger[i].1 == name,
        forall|j: int| 0 <= j < ledger.len() && j != i ==> #[trigger] ledger[j].1 != name,
    ensures
        count_matching(ledger, name) == 1,
    decreases ledger.len(),
{
    if i == 0 {
        assert(forall|j: int|
            0 <= j < ledger.drop_first().len() ==> #[trigger] ledger.drop_first()[j].1 != name);
        lemma_count_none(ledger.drop_first(), name);
    } else {
        assert(ledger.drop_first()[i - 1].1 == name);
        lemma_count_single(ledger.drop_first(), name, i - 1);
    }
}

/// Law: for each binary entry of a well-formed archive, the ledger holds
/// exactly one record whose path field equals that entry's name, character
/// for character: the record written alongside the entry itself.
pub proof fn lemma_ledger_matches_entries(a: &Archive, i: int)
    requires
        a.wf(),
        0 <= i < a.entries().len(),
    ensures
        a.ledger_view()[i].1 == a.entries()[i].0,
        a.ledger_view()[i].0 == spec_digest_hex(a.entries()[i].1),
        count_matching(a.ledger_view(), a.entries()[i].0) == 1,
{
    let ls = a.ledger_view();
    let es = a.entries();
    let name = es[i].0;
    assert forall|j: int| 0 <= j < ls.len() && j != i implies #[trigger] ls[j].1 != name by {
        assert(ls[j] == (spec_digest_hex(es[j].1), es[j].0));
        if j < i {
            assert(es[j].0 != es[i].0);
        } else {
            assert(es[i].0 != es[j].0);
        }
    }
    lemma_count_single(ls, name, i);
}

} // verus!
