//! The history of executed queries, oldest first, capped in length.

use vstd::prelude::*;

verus! {

/// One executed query.
#[derive(Debug, Clone)]
pub struct HistoryEntry {
    pub sql: String,
    pub timestamp: i64,
    pub execution_time_ms: u64,
    pub success: bool,
}

/// Executed queries, oldest first.
pub struct QueryHistory {
    entries: Vec<HistoryEntry>,
    max_entries: usize,
}

/// The cap a history is created with.
pub const DEFAULT_MAX_ENTRIES: usize = 500;

/// The entries after adding `e`: appended last, and the oldest dropped when the
/// list then exceeds the cap.
pub open spec fn entries_after_add(entries: Seq<HistoryEntry>, max: nat, e: HistoryEntry) -> Seq<HistoryEntry> {
    let pushed = entries.push(e);
    if pushed.len() > max {
        pushed.drop_first()
    } else {
        pushed
    }
}

/// Seconds since the Unix epoch: calls `chrono::Utc::now().timestamp()`. The clock
/// is read, so nothing is stated of the value.
#[verifier::external_body]
fn now_timestamp() -> (t: i64) {
    chrono::Utc::now().timestamp()
}

impl QueryHistory {
    /// Every history is capped at the default cap.
    #[verifier::type_invariant]
    spec fn cap_is_default(self) -> bool {
        self.max_entries == DEFAULT_MAX_ENTRIES
    }

    /// The entries, oldest first.
    pub closed spec fn entries_spec(&self) -> Seq<HistoryEntry> {
        self.entries@
    }

    /// The number of entries beyond which the oldest is dropped.
    pub closed spec fn max_spec(&self) -> nat {
        self.max_entries as nat
    }

    /// An empty history with the default cap.
    pub fn new() -> (r: QueryHistory)
        ensures
            r.entries_spec() == Seq::<HistoryEntry>::empty(),
            r.max_spec() == DEFAULT_MAX_ENTRIES,
    {
        QueryHistory { entries: Vec::new(), max_entries: DEFAULT_MAX_ENTRIES }
    }

    /// A history holding previously saved entries, with the default cap.
    pub fn from_entries(entries: Vec<HistoryEntry>) -> (r: QueryHistory)
        ensures
            r.entries_spec() == entries@,
            r.max_spec() == DEFAULT_MAX_ENTRIES,
    {
        QueryHistory { entries, max_entries: DEFAULT_MAX_ENTRIES }
    }

    /// The entries, oldest first.
    pub fn entries(&self) -> (r: &[HistoryEntry])
        ensures
            r@ == self.entries_spec(),
            self.max_spec() == DEFAULT_MAX_ENTRIES,
    {
        proof {
            use_type_invariant(self);
        }
        self.entries.as_slice()
    }

    /// Records a query run at `timestamp`: the entry goes last, and the oldest entry
    /// is dropped when the history then holds more than its cap.
    pub fn add_at(&mut self, sql: String, timestamp: i64, execution_time_ms: u64, success: bool)
        ensures
            final(self).max_spec() == old(self).max_spec(),
            final(self).max_spec() == DEFAULT_MAX_ENTRIES,
            old(self).entries_spec().len() <= DEFAULT_MAX_ENTRIES
                ==> 1 <= final(self).entries_spec().len() <= DEFAULT_MAX_ENTRIES,
            final(self).entries_spec() == entries_after_add(
                old(self).entries_spec(),
                old(self).max_spec(),
                HistoryEntry { sql, timestamp, execution_time_ms, success },
            ),
    {
        proof {
            use_type_invariant(&*self);
        }
        let entry = HistoryEntry { sql, timestamp, execution_time_ms, success };
        let mut es: Vec<HistoryEntry> = Vec::new();
        std::mem::swap(&mut es, &mut self.entries);
        es.push(entry);
        if es.len() > self.max_entries {
            es.remove(0);
        }
        proof {
            assert(es@ =~= entries_after_add(old(self).entries@, old(self).max_entries as nat, entry));
        }
        self.entries = es;
    }

    /// Records a query that ran just now, stamped with the current time.
    pub fn add(&mut self, sql: String, execution_time_ms: u64, success: bool)
        ensures
            final(self).max_spec() == old(self).max_spec(),
            final(self).max_spec() == DEFAULT_MAX_ENTRIES,
            old(self).entries_spec().len() <= DEFAULT_MAX_ENTRIES
                ==> 1 <= final(self).entries_spec().len() <= DEFAULT_MAX_ENTRIES,
            exists|t: i64| final(self).entries_spec() == entries_after_add(
                old(self).entries_spec(),
                old(self).max_spec(),
                HistoryEntry { sql, timestamp: t, execution_time_ms, success },
            ),
    {
        let t = now_timestamp();
        self.add_at(sql, t, execution_time_ms, success);
    }
}

/// Adding to a history within its cap keeps it within its cap, and the added
/// entry is the newest.
pub proof fn lemma_add_keeps_cap(entries: Seq<HistoryEntry>, max: nat, e: HistoryEntry)
    requires
        entries.len() <= max,
        max > 0,
    ensures
        entries_after_add(entries, max, e).len() <= max,
        entries_after_add(entries, max, e).last() == e,
{
}

} // verus!
