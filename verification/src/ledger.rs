//! The hash ledger: one `digest;name` line per binary written to the archive.

use vstd::prelude::*;
use vstd::string::StringExecFns;
use crate::digest::{digest_hex, spec_digest_hex};

verus! {

/// One ledger line: the digest, a semicolon, the entry name, a newline.
pub open spec fn spec_line(digest: Seq<char>, name: Seq<char>) -> Seq<char> {
    digest + ";"@ + name + "\n"@
}

/// The ledger's rendered text: its lines concatenated in insertion order.
pub open spec fn render_spec(pairs: Seq<(Seq<char>, Seq<char>)>) -> Seq<char>
    decreases pairs.len(),
{
    if pairs.len() == 0 {
        Seq::<char>::empty()
    } else {
        spec_line(pairs[0].0, pairs[0].1) + render_spec(pairs.drop_first())
    }
}

/// Law: appending a record extends the rendered text by that record's line.
pub proof fn lemma_render_push(pairs: Seq<(Seq<char>, Seq<char>)>, p: (Seq<char>, Seq<char>))
    ensures
        render_spec(pairs.push(p)) == render_spec(pairs) + spec_line(p.0, p.1),
    decreases pairs.len(),
{
    if pairs.len() == 0 {
        assert(pairs.push(p).drop_first() =~= pairs);
        assert(render_spec(pairs.push(p)) =~= render_spec(pairs) + spec_line(p.0, p.1));
    } else {
        assert(pairs.push(p).drop_first() =~= pairs.drop_first().push(p));
        lemma_render_push(pairs.drop_first(), p);
        assert(render_spec(pairs.push(p)) =~= render_spec(pairs) + spec_line(p.0, p.1));
    }
}

/// The accumulated digest-to-name records of one run, in insertion order.
pub struct HashLedger {
    records: Vec<(String, String)>,
}

impl View for HashLedger {
    type V = Seq<(Seq<char>, Seq<char>)>;

    closed spec fn view(&self) -> Seq<(Seq<char>, Seq<char>)> {
        Seq::new(self.records@.len(), |i: int| (self.records@[i].0@, self.records@[i].1@))
    }
}

impl HashLedger {
    /// An empty ledger.
    pub fn new() -> (r: HashLedger)
        ensures
            r@ == Seq::<(Seq<char>, Seq<char>)>::empty(),
    {
        let l = HashLedger { records: Vec::new() };
        proof {
            assert(l@ =~= Seq::<(Seq<char>, Seq<char>)>::empty());
        }
        l
    }

    /// Digests a binary's bytes and appends one record under the given
    /// display name.
    pub fn record(&mut self, data: &[u8], name: &str)
        ensures
            final(self)@ == old(self)@.push((spec_digest_hex(data@), name@)),
    {
        let d = digest_hex(data);
        self.records.push((d, name.to_owned()));
        proof {
            assert(self@ =~= old(self)@.push((spec_digest_hex(data@), name@)));
        }
    }

    /// Renders the ledger: every line, in insertion order.
    pub fn render(&self) -> (r: String)
        ensures
            r@ == render_spec(self@),
    {
        let n = self.records.len();
        let mut out = String::new();
        let mut i: usize = 0;
        while i < n
            invariant
                n == self.records@.len(),
                self@.len() == n,
                0 <= i <= n,
                out@ == render_spec(self@.take(i as int)),
            decreases n - i,
        {
            out.append(self.records[i].0.as_str());
            out.append(";");
            out.append(self.records[i].1.as_str());
            out.append("\n");
            proof {
                assert(self@.take(i + 1) =~= self@.take(i as int).push(self@[i as int]));
                lemma_render_push(self@.take(i as int), self@[i as int]);
                assert(out@ =~= render_spec(self@.take(i as int)) + spec_line(
                    self@[i as int].0,
                    self@[i as int].1,
                ));
            }
            i = i + 1;
        }
        proof {
            assert(self@.take(n as int) == self@);
        }
        out
    }
}

} // verus!
