//! The set of executable paths backing the running processes.
//!
//! A path enters the set at most once, however many processes share the
//! executable; a process whose executable path does not exist on disk is
//! skipped with a warning in the run's log.

use vstd::prelude::*;
use vstd::string::StringExecFns;
use crate::logbuf::{line_bytes, LogBuffer};
use crate::numfmt::{decimal_string, spec_decimal};

verus! {

/// The warning logged for a process whose executable path does not exist.
pub open spec fn warn_line(name: Seq<char>, pid: u64) -> Seq<char> {
    "process "@ + name + "("@ + spec_decimal(pid as nat)
        + ") refers to invalid program name, omitting..."@
}

/// Insertion into a duplicate-free sequence: a present path changes nothing.
pub open spec fn spec_insert(s: Seq<Seq<char>>, p: Seq<char>) -> Seq<Seq<char>> {
    if s.contains(p) {
        s
    } else {
        s.push(p)
    }
}

/// The unique executable paths found for a run, in first-seen order.
pub struct BinarySet {
    paths: Vec<String>,
}

impl View for BinarySet {
    type V = Seq<Seq<char>>;

    closed spec fn view(&self) -> Seq<Seq<char>> {
        Seq::new(self.paths@.len(), |i: int| self.paths@[i]@)
    }
}

impl BinarySet {
    /// No path occurs twice.
    pub open spec fn wf(&self) -> bool {
        forall|i: int, j: int| 0 <= i < j < self@.len() ==> self@[i] != self@[j]
    }

    /// An empty set.
    pub fn new() -> (r: BinarySet)
        ensures
            r@ == Seq::<Seq<char>>::empty(),
            r.wf(),
    {
        let r = BinarySet { paths: Vec::new() };
        proof {
            assert(r@ =~= Seq::<Seq<char>>::empty());
        }
        r
    }

    /// Whether the set already holds this exact path.
    pub fn contains(&self, p: &String) -> (r: bool)
        ensures
            r == self@.contains(p@),
    {
        let n = self.paths.len();
        let mut i: usize = 0;
        while i < n
            invariant
                n == self.paths@.len(),
                self@.len() == n,
                0 <= i <= n,
                forall|k: int| 0 <= k < i ==> self@[k] != p@,
            decreases n - i,
        {
            if self.paths[i].eq(p) {
                proof {
                    assert(self@[i as int] == p@);
                }
                return true;
            }
            i = i + 1;
        }
        proof {
            assert(!self@.contains(p@));
        }
        false
    }

    /// Adds a path; a path already present is left as it stands.
    pub fn insert(&mut self, p: String)
        requires
            old(self).wf(),
        ensures
            final(self).wf(),
            final(self)@ == spec_insert(old(self)@, p@),
    {
        if !self.contains(&p) {
            self.paths.push(p);
            proof {
                assert(self@ =~= old(self)@.push(p@));
            }
        }
    }

    /// The decision made for one running process: a path that exists on disk
    /// joins the set (at most once), one that does not is skipped and a
    /// warning naming the process and its identifier is logged.
    pub fn record_process(
        &mut self,
        log: &mut LogBuffer,
        name: &str,
        pid: u64,
        path: String,
        path_exists: bool,
    )
        requires
            old(self).wf(),
        ensures
            final(self).wf(),
            path_exists ==> final(self)@ == spec_insert(old(self)@, path@) && final(log)@ == old(
                log,
            )@,
            !path_exists ==> final(self)@ == old(self)@ && final(log)@ == old(log)@ + line_bytes(
                warn_line(name@, pid),
            ),
    {
        if path_exists {
            self.insert(path);
        } else {
            let mut line = String::from_str("process ");
            line.append(name);
            line.append("(");
            let p = decimal_string(pid);
            line.append(p.as_str());
            line.append(") refers to invalid program name, omitting...");
            proof {
                assert(line@ =~= warn_line(name@, pid));
            }
            log.append_line(line.as_str());
        }
    }

    /// The paths, for the caller that reads each binary.
    pub fn paths(&self) -> (r: &Vec<String>)
        ensures
            r@.len() == self@.len(),
            forall|i: int| 0 <= i < r@.len() ==> r@[i]@ == self@[i],
    {
        &self.paths
    }

    /// How many distinct binaries were found.
    pub fn len(&self) -> (r: usize)
        ensures
            r == self@.len(),
    {
        self.paths.len()
    }
}

/// Law: however many processes name one executable, the set holds no path
/// twice.
pub proof fn lemma_no_duplicate_paths(s: &BinarySet)
    requires
        s.wf(),
    ensures
        forall|i: int, j: int| 0 <= i < s@.len() && 0 <= j < s@.len() && i != j ==> s@[i] != s@[j],
{
    assert forall|i: int, j: int|
        0 <= i < s@.len() && 0 <= j < s@.len() && i != j implies s@[i] != s@[j] by {
        if i < j {
            assert(s@[i] != s@[j]);
        } else {
            assert(s@[j] != s@[i]);
        }
    }
}

} // verus!
