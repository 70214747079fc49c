//! The side table of hosts that failed before giving any JSON result.

use vstd::prelude::*;

verus! {

/// Entries `(host, reason)`, in the order in which hosts were first named.
pub type TableView = Seq<(Seq<char>, Seq<char>)>;

/// The index of the entry for `host`, if any.
pub open spec fn index_of(t: TableView, host: Seq<char>) -> Option<int>
    decreases t.len(),
{
    if t.len() == 0 {
        None
    } else if t.last().0 == host {
        Some(t.len() - 1)
    } else {
        index_of(t.drop_last(), host)
    }
}

/// `t` with `host` mapped to `reason`: an entry that names the host gets the
/// new reason in place, else the entry is added at the end.
pub open spec fn table_insert(t: TableView, host: Seq<char>, reason: Seq<char>) -> TableView {
    match index_of(t, host) {
        Some(i) => t.update(i, (host, reason)),
        None => t.push((host, reason)),
    }
}

/// No host is named twice.
pub open spec fn hosts_distinct(t: TableView) -> bool {
    forall|i: int, j: int| 0 <= i < j < t.len() ==> t[i].0 != t[j].0
}

/// Hosts that gave no JSON result, each with the reason why; a later reason
/// for a host replaces the earlier one.
pub struct FailureTable {
    entries: Vec<(String, String)>,
}

impl View for FailureTable {
    type V = TableView;

    closed spec fn view(&self) -> TableView {
        self.entries@.map_values(|e: (String, String)| (e.0@, e.1@))
    }
}

proof fn lemma_index_of(t: TableView, host: Seq<char>)
    ensures
        match index_of(t, host) {
            Some(i) => 0 <= i < t.len() && t[i].0 == host,
            None => forall|j: int| 0 <= j < t.len() ==> t[j].0 != host,
        },
    decreases t.len(),
{
    if t.len() > 0 && t.last().0 != host {
        lemma_index_of(t.drop_last(), host);
        assert(forall|j: int| 0 <= j < t.len() - 1 ==> t.drop_last()[j] == t[j]);
    }
}

impl FailureTable {
    pub closed spec fn wf(&self) -> bool {
        hosts_distinct(self@)
    }

    /// An empty table.
    pub fn new() -> (r: FailureTable)
        ensures
            r.wf(),
            r@ == Seq::<(Seq<char>, Seq<char>)>::empty(),
    {
        let r = FailureTable { entries: Vec::new() };
        assert(r@ =~= Seq::<(Seq<char>, Seq<char>)>::empty());
        r
    }

    /// The number of hosts in the table.
    pub fn len(&self) -> (r: usize)
        ensures
            r == self@.len(),
    {
        self.entries.len()
    }

    /// The host and reason of entry `i`.
    pub fn entry(&self, i: usize) -> (r: (&String, &String))
        requires
            i < self@.len(),
        ensures
            (r.0@, r.1@) == self@[i as int],
    {
        (&self.entries[i].0, &self.entries[i].1)
    }

    /// Maps `host` to `reason`, replacing a reason given before.
    pub fn insert(&mut self, host: String, reason: String)
        requires
            old(self).wf(),
        ensures
            final(self).wf(),
            final(self)@ == table_insert(old(self)@, host@, reason@),
    {
        proof {
            lemma_index_of(self@, host@);
        }
        let mut i: usize = self.entries.len();
        assert(self@.take(i as int) =~= self@);
        while i > 0
            invariant
                i <= self.entries@.len(),
                self@ == old(self)@,
                hosts_distinct(self@),
                index_of(self@, host@) == index_of(self@.take(i as int), host@),
            decreases i,
        {
            let ghost t = self@.take(i as int);
            assert(t.drop_last() =~= self@.take(i - 1));
            if self.entries[i - 1].0.eq(&host) {
                let ghost before = self@;
                self.entries.set(i - 1, (host, reason));
                proof {
                    assert(self@ =~= before.update(i - 1, (host@, reason@)));
                }
                return;
            }
            i = i - 1;
        }
        assert(self@.take(0) =~= Seq::<(Seq<char>, Seq<char>)>::empty());
        let ghost before = self@;
        self.entries.push((host, reason));
        assert(self@ =~= before.push((host@, reason@)));
    }
}

} // verus!
