//! One snapshot run over the binaries the caller read.
//!
//! The caller enumerates processes and reads each distinct binary once; this
//! module holds the verified loop that turns those read outcomes into the
//! finished archive: a logged, skipped read failure per unreadable binary, an
//! entry and a ledger record per readable one, and the log and ledger as the
//! archive's two trailing entries.

use vstd::prelude::*;
use vstd::string::StringExecFns;
use crate::archive::{
    can_add_entry, can_finalize, entries_cost, info_line, lemma_entries_cost_concat,
    lemma_entries_cost_push, name_fits, within_budget, zip_encoding, Archive, ArchiveError,
};
use crate::digest::spec_digest_hex;
use crate::ledger::render_spec;
use crate::logbuf::{line_bytes, LogBuffer};
use crate::paths::spec_entry_name;

verus! {

/// The outcome of reading one binary: its path as the process table gave it,
/// and its bytes, or the text of the error that reading produced.
pub type ReadItem = (String, Result<Vec<u8>, String>);

/// A read outcome at the specification level.
pub type SnapItem = (Seq<char>, Result<Seq<u8>, Seq<char>>);

/// The specification-level value of one read outcome.
pub open spec fn item_view(it: ReadItem) -> SnapItem {
    (
        it.0@,
        match it.1 {
            Ok(d) => Ok(d@),
            Err(w) => Err(w@),
        },
    )
}

/// The specification-level values of a run's read outcomes.
pub open spec fn items_view(items: Seq<ReadItem>) -> Seq<SnapItem> {
    items.map_values(|it: ReadItem| item_view(it))
}

/// The log line for a binary that could not be opened or read.
pub open spec fn read_error_line(path: Seq<char>, why: Seq<char>) -> Seq<char> {
    "error while opening '"@ + path + "': "@ + why
}

/// The archive entries one read outcome contributes: one for a readable
/// binary, none for a failed read.
pub open spec fn entries_of_item(x: SnapItem) -> Seq<(Seq<char>, Seq<u8>)> {
    match x.1 {
        Ok(d) => seq![(spec_entry_name(x.0), d)],
        Err(_) => Seq::<(Seq<char>, Seq<u8>)>::empty(),
    }
}

/// The ledger records one read outcome contributes.
pub open spec fn ledger_of_item(x: SnapItem) -> Seq<(Seq<char>, Seq<char>)> {
    match x.1 {
        Ok(d) => seq![(spec_digest_hex(d), spec_entry_name(x.0))],
        Err(_) => Seq::<(Seq<char>, Seq<char>)>::empty(),
    }
}

/// The log bytes one read outcome contributes.
pub open spec fn log_of_item(x: SnapItem) -> Seq<u8> {
    match x.1 {
        Ok(_) => line_bytes(info_line(spec_entry_name(x.0))),
        Err(w) => line_bytes(read_error_line(x.0, w)),
    }
}

/// The binary entries of a whole run, in the order the binaries were read.
pub open spec fn snap_entries(xs: Seq<SnapItem>) -> Seq<(Seq<char>, Seq<u8>)>
    decreases xs.len(),
{
    if xs.len() == 0 {
        Seq::<(Seq<char>, Seq<u8>)>::empty()
    } else {
        entries_of_item(xs[0]) + snap_entries(xs.drop_first())
    }
}

/// The ledger records of a whole run, in the same order.
pub open spec fn snap_ledger(xs: Seq<SnapItem>) -> Seq<(Seq<char>, Seq<char>)>
    decreases xs.len(),
{
    if xs.len() == 0 {
        Seq::<(Seq<char>, Seq<char>)>::empty()
    } else {
        ledger_of_item(xs[0]) + snap_ledger(xs.drop_first())
    }
}

/// The log bytes of a whole run.
pub open spec fn snap_log(xs: Seq<SnapItem>) -> Seq<u8>
    decreases xs.len(),
{
    if xs.len() == 0 {
        Seq::<u8>::empty()
    } else {
        log_of_item(xs[0]) + snap_log(xs.drop_first())
    }
}

/// How many binaries were successfully read.
pub open spec fn ok_count(xs: Seq<SnapItem>) -> nat
    decreases xs.len(),
{
    if xs.len() == 0 {
        0
    } else {
        (if xs[0].1 is Ok {
            1nat
        } else {
            0nat
        }) + ok_count(xs.drop_first())
    }
}

/// The run's log as the archive closes: what the caller had collected
/// before, then one line per read outcome.
pub open spec fn run_log(xs: Seq<SnapItem>, base: Seq<u8>) -> Seq<u8> {
    base + snap_log(xs)
}

/// Every entry of the finished archive: the binaries in read order, then the
/// log and the rendered ledger.
pub open spec fn run_entries(xs: Seq<SnapItem>, base: Seq<u8>) -> Seq<(Seq<char>, Seq<u8>)> {
    snap_entries(xs).push(("messages.log"@, run_log(xs, base))).push(
        ("sha1_hashes.csv"@, vstd::utf8::encode_utf8(render_spec(snap_ledger(xs)))),
    )
}

/// The condition under which a whole run is known to succeed: all entry
/// names of the finished archive, the two fixed trailing names included, are
/// pairwise distinct and fit the format's name field, and the archive stays
/// within the byte budget.
pub open spec fn snapshot_fits(xs: Seq<SnapItem>, base: Seq<u8>) -> bool {
    &&& forall|i: int, j: int|
        0 <= i < j < run_entries(xs, base).len() ==> run_entries(xs, base)[i].0 != run_entries(
            xs,
            base,
        )[j].0
    &&& forall|i: int|
        0 <= i < run_entries(xs, base).len() ==> name_fits(#[trigger] run_entries(xs, base)[i].0)
    &&& within_budget(run_entries(xs, base))
}

/// The part of the condition the per-binary loop needs: the binary entries
/// alone are distinct, fitting and within budget.
pub open spec fn items_fit(xs: Seq<SnapItem>) -> bool {
    &&& forall|i: int, j: int|
        0 <= i < j < snap_entries(xs).len() ==> snap_entries(xs)[i].0 != snap_entries(xs)[j].0
    &&& forall|i: int|
        0 <= i < snap_entries(xs).len() ==> name_fits(#[trigger] snap_entries(xs)[i].0)
    &&& within_budget(snap_entries(xs))
}

proof fn lemma_snap_push(xs: Seq<SnapItem>, x: SnapItem)
    ensures
        snap_entries(xs.push(x)) == snap_entries(xs) + entries_of_item(x),
        snap_ledger(xs.push(x)) == snap_ledger(xs) + ledger_of_item(x),
        snap_log(xs.push(x)) == snap_log(xs) + log_of_item(x),
        ok_count(xs.push(x)) == ok_count(xs) + (if x.1 is Ok {
            1nat
        } else {
            0nat
        }),
    decreases xs.len(),
{
    if xs.len() == 0 {
        assert(xs.push(x)[0] == x);
        assert(xs.push(x).drop_first() =~= xs);
        assert(snap_entries(xs.push(x)) =~= snap_entries(xs) + entries_of_item(x));
        assert(snap_ledger(xs.push(x)) =~= snap_ledger(xs) + ledger_of_item(x));
        assert(snap_log(xs.push(x)) =~= snap_log(xs) + log_of_item(x));
    } else {
        assert(xs.push(x)[0] == xs[0]);
        assert(xs.push(x).drop_first() =~= xs.drop_first().push(x));
        lemma_snap_push(xs.drop_first(), x);
        assert(snap_entries(xs.push(x)) =~= snap_entries(xs) + entries_of_item(x));
        assert(snap_ledger(xs.push(x)) =~= snap_ledger(xs) + ledger_of_item(x));
        assert(snap_log(xs.push(x)) =~= snap_log(xs) + log_of_item(x));
    }
}

proof fn lemma_snap_decompose(xs: Seq<SnapItem>, k: int)
    requires
        0 <= k <= xs.len(),
    ensures
        snap_entries(xs) == snap_entries(xs.take(k)) + snap_entries(xs.skip(k)),
    decreases k,
{
    if k == 0 {
        assert(xs.take(0) =~= Seq::<SnapItem>::empty());
        assert(xs.skip(0) =~= xs);
        assert(snap_entries(xs.take(0)) + snap_entries(xs.skip(0)) =~= snap_entries(xs));
    } else {
        assert(xs.take(k)[0] == xs[0]);
        assert(xs.take(k).drop_first() =~= xs.drop_first().take(k - 1));
        assert(xs.skip(k) =~= xs.drop_first().skip(k - 1));
        lemma_snap_decompose(xs.drop_first(), k - 1);
        assert(snap_entries(xs) =~= snap_entries(xs.take(k)) + snap_entries(xs.skip(k)));
    }
}

/// Law: a run yields exactly one binary entry and one ledger record per
/// successfully read binary.
pub proof fn lemma_snap_lens(xs: Seq<SnapItem>)
    ensures
        snap_entries(xs).len() == ok_count(xs),
        snap_ledger(xs).len() == ok_count(xs),
    decreases xs.len(),
{
    if xs.len() > 0 {
        lemma_snap_lens(xs.drop_first());
    }
}

/// Law: the finished archive holds exactly two entries more than the run had
/// successfully read binaries; the run with no binaries included, which
/// keeps exactly the two.
pub proof fn lemma_entry_count(xs: Seq<SnapItem>, base: Seq<u8>)
    ensures
        run_entries(xs, base).len() == ok_count(xs) + 2,
{
    lemma_snap_lens(xs);
}

proof fn lemma_item_can_add(xs: Seq<SnapItem>, i: int)
    requires
        items_fit(xs),
        0 <= i < xs.len(),
        xs[i].1 is Ok,
    ensures
        can_add_entry(snap_entries(xs.take(i)), spec_entry_name(xs[i].0), xs[i].1->Ok_0),
    decreases 0int,
{
    let pre = snap_entries(xs.take(i));
    let e = (spec_entry_name(xs[i].0), xs[i].1->Ok_0);
    lemma_snap_push(xs.take(i), xs[i]);
    assert(xs.take(i).push(xs[i]) =~= xs.take(i + 1));
    assert(entries_of_item(xs[i]) =~= seq![e]);
    assert(snap_entries(xs.take(i + 1)) =~= pre.push(e));
    lemma_snap_decompose(xs, i + 1);
    let m = pre.len() as int;
    let whole = snap_entries(xs);
    assert(whole == pre.push(e) + snap_entries(xs.skip(i + 1)));
    assert forall|j: int| 0 <= j <= m implies whole[j] == pre.push(e)[j] by {
        assert(whole[j] == (pre.push(e) + snap_entries(xs.skip(i + 1)))[j]);
    }
    assert(whole[m] == e);
    assert forall|j: int| 0 <= j < m implies #[trigger] pre[j].0 != e.0 by {
        assert(whole[j] == pre[j]);
        assert(whole[j].0 != whole[m].0);
    }
    assert(name_fits(whole[m].0));
    lemma_entries_cost_concat(pre.push(e), snap_entries(xs.skip(i + 1)));
    lemma_entries_cost_push(pre, e);
    assert(within_budget(pre.push(e)));
}

proof fn lemma_snapshot_fits_parts(xs: Seq<SnapItem>, base: Seq<u8>)
    requires
        snapshot_fits(xs, base),
    ensures
        items_fit(xs),
        can_finalize(snap_entries(xs), run_log(xs, base), snap_ledger(xs)),
{
    let run = run_entries(xs, base);
    let snap = snap_entries(xs);
    let n = snap.len() as int;
    let m_entry = ("messages.log"@, run_log(xs, base));
    let c_entry = ("sha1_hashes.csv"@, vstd::utf8::encode_utf8(render_spec(snap_ledger(xs))));
    assert(run == snap.push(m_entry).push(c_entry));
    assert(run.len() == n + 2);
    assert forall|j: int| 0 <= j < n implies run[j] == snap[j] by {}
    assert(run[n] == m_entry);
    assert(run[n + 1] == c_entry);
    lemma_entries_cost_push(snap.push(m_entry), c_entry);
    lemma_entries_cost_push(snap, m_entry);
    lemma_entries_cost_push(snap, (m_entry.0, Seq::<u8>::empty()));
    assert(items_fit(xs)) by {
        assert forall|i: int, j: int| 0 <= i < j < n implies snap[i].0 != snap[j].0 by {
            assert(run[i].0 != run[j].0);
        }
        assert forall|i: int| 0 <= i < n implies name_fits(#[trigger] snap[i].0) by {
            assert(name_fits(run[i].0));
        }
    }
    assert(can_add_entry(snap, m_entry.0, m_entry.1)) by {
        assert forall|i: int| 0 <= i < n implies #[trigger] snap[i].0 != m_entry.0 by {
            assert(run[i].0 != run[n].0);
        }
        assert(name_fits(run[n].0));
    }
    assert(can_add_entry(snap.push(m_entry), c_entry.0, c_entry.1)) by {
        assert forall|i: int| 0 <= i < n + 1 implies #[trigger] snap.push(m_entry)[i].0
            != c_entry.0 by {
            assert(run[i].0 != run[n + 1].0);
        }
        assert(name_fits(run[n + 1].0));
        assert(snap.push(m_entry).push(c_entry) == run);
    }
}

/// Law: the run over no binaries always fits, as long as the log collected
/// before it leaves room in the archive's byte budget; with the success
/// condition of write_snapshot this gives the zero-binary run its archive of
/// exactly the two trailing entries, the log and the empty ledger.
pub proof fn lemma_empty_run_fits(base: Seq<u8>)
    requires
        base.len() <= 0xFFFF_0000,
    ensures
        snapshot_fits(Seq::<SnapItem>::empty(), base),
        run_entries(Seq::<SnapItem>::empty(), base).len() == 2,
{
    reveal_strlit("messages.log");
    reveal_strlit("sha1_hashes.csv");
    let xs = Seq::<SnapItem>::empty();
    let run = run_entries(xs, base);
    let m_entry = ("messages.log"@, run_log(xs, base));
    let c_entry = ("sha1_hashes.csv"@, vstd::utf8::encode_utf8(render_spec(snap_ledger(xs))));
    assert(vstd::utf8::encode_utf8(render_spec(snap_ledger(xs))) =~= Seq::<u8>::empty());
    assert(run == snap_entries(xs).push(m_entry).push(c_entry));
    assert(snap_entries(xs) =~= Seq::<(Seq<char>, Seq<u8>)>::empty());
    assert(run.len() == 2);
    crate::archive::lemma_encode_utf8_len("messages.log"@);
    crate::archive::lemma_encode_utf8_len("sha1_hashes.csv"@);
    assert("messages.log"@.len() == 12);
    assert("sha1_hashes.csv"@.len() == 15);
    assert(run[0].0 == "messages.log"@);
    assert(run[1].0 == "sha1_hashes.csv"@);
    assert(run[0].0 != run[1].0);
    assert(name_fits(run[0].0));
    assert(name_fits(run[1].0));
    lemma_entries_cost_push(snap_entries(xs).push(m_entry), c_entry);
    lemma_entries_cost_push(snap_entries(xs), m_entry);
    assert(entries_cost(snap_entries(xs)) == 0);
    assert(run_log(xs, base) =~= base);
    assert(entries_cost(run) <= base.len() + 96 + 120 + 512);
    assert(within_budget(run));
}

/// Builds the archive of one run: every readable binary becomes an entry and
/// a ledger record, every failed read a logged skip. The log only ever
/// grows; the whole loop succeeds whenever the binaries' normalized names
/// are distinct, fit, and stay within the archive's byte budget, and an
/// archive failure past that ends the run.
pub fn build_archive(items: &Vec<ReadItem>, log: &mut LogBuffer) -> (r: Result<
    Archive,
    ArchiveError,
>)
    ensures
        old(log)@.is_prefix_of(final(log)@),
        items_fit(items_view(items@)) ==> r is Ok,
        r is Ok ==> r->Ok_0.wf(),
        r is Ok ==> r->Ok_0.entries() == snap_entries(items_view(items@)),
        r is Ok ==> r->Ok_0.ledger_view() == snap_ledger(items_view(items@)),
        r is Ok ==> final(log)@ == old(log)@ + snap_log(items_view(items@)),
{
    let ghost xs = items_view(items@);
    let mut archive = Archive::new();
    let n = items.len();
    let mut i: usize = 0;
    while i < n
        invariant
            n == items@.len(),
            xs == items_view(items@),
            xs.len() == n,
            0 <= i <= n,
            archive.wf(),
            archive.entries() == snap_entries(xs.take(i as int)),
            archive.ledger_view() == snap_ledger(xs.take(i as int)),
            log@ == old(log)@ + snap_log(xs.take(i as int)),
        decreases n - i,
    {
        proof {
            assert(xs.take(i + 1) =~= xs.take(i as int).push(xs[i as int]));
            lemma_snap_push(xs.take(i as int), xs[i as int]);
            assert(xs[i as int] == item_view(items@[i as int]));
        }
        let ghost log_before = log@;
        match &items[i].1 {
            Ok(d) => {
                proof {
                    if items_fit(xs) {
                        lemma_item_can_add(xs, i as int);
                    }
                }
                let added = archive.add_binary(log, items[i].0.as_str(), d.as_slice());
                match added {
                    Ok(()) => {},
                    Err(e) => {
                        proof {
                            assert(!items_fit(xs));
                            assert(log_before.is_prefix_of(log@)) by {
                                assert(log_before =~= log@.subrange(0, log_before.len() as int));
                            }
                            assert(old(log)@.is_prefix_of(log@)) by {
                                assert(old(log)@ =~= log@.subrange(0, old(log)@.len() as int));
                            }
                        }
                        return Err(e);
                    },
                }
                proof {
                    assert(archive.entries() =~= snap_entries(xs.take(i as int)) + entries_of_item(
                        xs[i as int],
                    ));
                    assert(archive.ledger_view() =~= snap_ledger(xs.take(i as int))
                        + ledger_of_item(xs[i as int]));
                    assert(log@ =~= log_before + log_of_item(xs[i as int]));
                }
            },
            Err(w) => {
                let mut line = String::from_str("error while opening '");
                line.append(items[i].0.as_str());
                line.append("': ");
                line.append(w.as_str());
                proof {
                    assert(line@ =~= read_error_line(items@[i as int].0@, w@));
                }
                log.append_line(line.as_str());
                proof {
                    assert(log@ =~= log_before + log_of_item(xs[i as int]));
                }
            },
        }
        proof {
            assert(log@ =~= old(log)@ + snap_log(xs.take(i + 1)));
        }
        i = i + 1;
    }
    proof {
        assert(xs.take(n as int) == xs);
        assert(old(log)@.is_prefix_of(log@)) by {
            assert(old(log)@ =~= log@.subrange(0, old(log)@.len() as int));
        }
    }
    Ok(archive)
}

/// One whole run after the reads: builds the archive, appends the log and
/// the ledger as its trailing entries, and hands back the archive's bytes,
/// the fixed encoding of the run's entries, for the caller to write out. The
/// log only ever grows; the run succeeds whenever its entry names are
/// distinct and everything fits the archive's budget, and any failure past
/// that is fatal and yields the error instead.
pub fn write_snapshot(items: &Vec<ReadItem>, log: &mut LogBuffer) -> (r: Result<
    Vec<u8>,
    ArchiveError,
>)
    ensures
        old(log)@.is_prefix_of(final(log)@),
        snapshot_fits(items_view(items@), old(log)@) ==> r is Ok,
        r is Ok ==> final(log)@ == old(log)@ + snap_log(items_view(items@)),
        r is Ok ==> r->Ok_0@ == zip_encoding(run_entries(items_view(items@), old(log)@)),
{
    let ghost xs = items_view(items@);
    let ghost base = old(log)@;
    proof {
        if snapshot_fits(xs, base) {
            lemma_snapshot_fits_parts(xs, base);
        }
    }
    let mut archive = match build_archive(items, log) {
        Ok(a) => a,
        Err(e) => {
            proof {
                assert(!snapshot_fits(xs, base));
            }
            return Err(e);
        },
    };
    let sealed = archive.finalize(log.as_bytes().as_slice());
    match sealed {
        Ok(()) => {},
        Err(e) => {
            proof {
                assert(!snapshot_fits(xs, base));
            }
            return Err(e);
        },
    }
    proof {
        assert(archive.entries() == run_entries(xs, base));
    }
    match archive.into_bytes() {
        Ok(bytes) => Ok(bytes),
        Err(e) => {
            proof {
                if snapshot_fits(xs, base) {
                    assert(within_budget(run_entries(xs, base)));
                    assert(false);
                }
            }
            Err(e)
        },
    }
}

} // verus!
