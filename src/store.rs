use vstd::prelude::*;
use crate::format::{entries, entry_of, sort_desc, copy_participant, sort_by_score, Participant};

verus! {

/// A row of the table: handle (the key), external handle, score.
pub type Row = (Seq<char>, Seq<char>, int);

/// One registration: the participant's handle, the external handle linked to
/// it, and the participant's score.
pub struct Record {
    pub handle: String,
    pub external_handle: String,
    pub score: i32,
}

pub open spec fn row_of(r: Record) -> Row {
    (r.handle@, r.external_handle@, r.score as int)
}

pub open spec fn rows(s: Seq<Record>) -> Seq<Row> {
    s.map_values(|r: Record| row_of(r))
}

/// No two rows share a handle.
pub open spec fn unique_handles(s: Seq<Row>) -> bool {
    forall|i: int, j: int| 0 <= i < j < s.len() ==> s[i].0 != s[j].0
}

pub open spec fn has_handle(s: Seq<Row>, h: Seq<char>) -> bool {
    exists|i: int| 0 <= i < s.len() && s[i].0 == h
}

/// The index of the row with handle `h`, where there is one.
pub open spec fn index_of(s: Seq<Row>, h: Seq<char>) -> int {
    choose|i: int| 0 <= i < s.len() && s[i].0 == h
}

/// Registration of `x` for handle `h`: an existing row gets `x` as its external
/// handle and keeps its score; otherwise a row `(h, x, 0)` is appended.
pub open spec fn upsert_rows(s: Seq<Row>, h: Seq<char>, x: Seq<char>) -> Seq<Row> {
    if has_handle(s, h) {
        let i = index_of(s, h);
        s.update(i, (h, x, s[i].2))
    } else {
        s.push((h, x, 0))
    }
}

/// Handle and score of each row, in table order.
pub open spec fn standings(s: Seq<Row>) -> Seq<(Seq<char>, int)> {
    s.map_values(|r: Row| (r.0, r.2))
}

/// The rows ranked by descending score, cut to `limit` entries when one is given.
pub open spec fn top(s: Seq<Row>, limit: Option<usize>) -> Seq<(Seq<char>, int)> {
    let ranked = sort_desc(standings(s));
    match limit {
        Some(n) => if n < ranked.len() { ranked.take(n as int) } else { ranked },
        None => ranked,
    }
}

/// The participants' table, keyed by handle.
pub struct Store {
    records: Vec<Record>,
}

impl View for Store {
    type V = Seq<Row>;

    closed spec fn view(&self) -> Seq<Row> {
        rows(self.records@)
    }
}

fn copy_record(r: &Record) -> (c: Record)
    ensures
        row_of(c) == row_of(*r),
{
    Record { handle: r.handle.clone(), external_handle: r.external_handle.clone(), score: r.score }
}

impl Store {
    /// Handles are unique.
    pub open spec fn wf(&self) -> bool {
        unique_handles(self@)
    }

    /// An empty table.
    pub fn new() -> (r: Store)
        ensures
            r@ == Seq::<Row>::empty(),
            r.wf(),
    {
        let r = Store { records: Vec::new() };
        assert(r@ =~= Seq::<Row>::empty());
        r
    }

    /// A table holding `recs` in that order; `None` when two of them share a handle.
    pub fn from_records(recs: Vec<Record>) -> (r: Option<Store>)
        ensures
            match r {
                Some(st) => st@ == rows(recs@) && st.wf(),
                None => !unique_handles(rows(recs@)),
            },
    {
        let ghost rs = rows(recs@);
        let mut i: usize = 0;
        while i < recs.len()
            invariant
                i <= recs@.len(),
                rs == rows(recs@),
                forall|a: int, b: int| 0 <= a < b < rs.len() && a < i ==> rs[a].0 != rs[b].0,
            decreases recs@.len() - i,
        {
            let mut j: usize = i + 1;
            while j < recs.len()
                invariant
                    i < recs@.len(),
                    i < j <= recs@.len(),
                    rs == rows(recs@),
                    forall|a: int, b: int| 0 <= a < b < rs.len() && a < i ==> rs[a].0 != rs[b].0,
                    forall|b: int| i < b < j ==> rs[i as int].0 != rs[b].0,
                decreases recs@.len() - j,
            {
                if recs[i].handle == recs[j].handle {
                    assert(rs[i as int].0 == rs[j as int].0);
                    return None;
                }
                j = j + 1;
            }
            i = i + 1;
        }
        Some(Store { records: recs })
    }

    /// Number of rows.
    pub fn len(&self) -> (n: usize)
        ensures
            n == self@.len(),
    {
        self.records.len()
    }

    fn find(&self, h: &String) -> (r: Option<usize>)
        ensures
            match r {
                Some(i) => i < self@.len() && self@[i as int].0 == h@,
                None => !has_handle(self@, h@),
            },
    {
        let mut i: usize = 0;
        while i < self.records.len()
            invariant
                i <= self@.len(),
                forall|k: int| 0 <= k < i ==> self@[k].0 != h@,
            decreases self@.len() - i,
        {
            if self.records[i].handle == *h {
                return Some(i);
            }
            i = i + 1;
        }
        None
    }

    /// The row of `handle`, if the table has one.
    pub fn lookup(&self, handle: &str) -> (r: Option<Record>)
        requires
            self.wf(),
        ensures
            match r {
                Some(rec) => has_handle(self@, handle@) && row_of(rec) == self@[index_of(self@, handle@)],
                None => !has_handle(self@, handle@),
            },
    {
        let h = String::from_str(handle);
        match self.find(&h) {
            Some(i) => {
                let ghost c = index_of(self@, handle@);
                assert(i == c);
                Some(copy_record(&self.records[i]))
            },
            None => None,
        }
    }

    /// Registers `external` for `handle`: overwrites the external handle of an
    /// existing row, leaving its score, or appends a new row with score 0.
    pub fn upsert(&mut self, handle: &str, external: &str)
        requires
            old(self).wf(),
        ensures
            final(self)@ == upsert_rows(old(self)@, handle@, external@),
            final(self).wf(),
    {
        let h = String::from_str(handle);
        let x = String::from_str(external);
        let ghost s = self@;
        match self.find(&h) {
            Some(i) => {
                let ghost c = index_of(s, handle@);
                assert(i == c);
                let score = self.records[i].score;
                self.records.set(i, Record { handle: h, external_handle: x, score });
                assert(self@ =~= upsert_rows(s, handle@, external@));
            },
            None => {
                self.records.push(Record { handle: h, external_handle: x, score: 0 });
                assert(self@ =~= upsert_rows(s, handle@, external@));
            },
        }
    }

    /// Handles and scores by descending score, at most `limit` of them when a
    /// limit is given; equal scores keep table order.
    pub fn top_n(&self, limit: Option<usize>) -> (r: Vec<Participant>)
        ensures
            entries(r@) == top(self@, limit),
    {
        let mut all: Vec<Participant> = Vec::new();
        let mut i: usize = 0;
        while i < self.records.len()
            invariant
                i <= self@.len(),
                entries(all@) == standings(self@).take(i as int),
            decreases self@.len() - i,
        {
            let p = Participant { handle: self.records[i].handle.clone(), score: self.records[i].score };
            assert(entry_of(p) == standings(self@)[i as int]);
            let ghost prev = all@;
            all.push(p);
            assert(all@ == prev.push(p));
            assert(entries(all@) =~= entries(prev).push(entry_of(p)));
            i = i + 1;
            assert(entries(all@) =~= standings(self@).take(i as int));
        }
        assert(standings(self@).take(i as int) =~= standings(self@));
        let ranked = sort_by_score(&all);
        let ghost full = entries(ranked@);
        match limit {
            Some(n) => {
                if n < ranked.len() {
                    let mut out: Vec<Participant> = Vec::new();
                    let mut k: usize = 0;
                    while k < n
                        invariant
                            k <= n < ranked@.len(),
                            full == entries(ranked@),
                            entries(out@) == full.take(k as int),
                        decreases n - k,
                    {
                        let p = copy_participant(&ranked[k]);
                        assert(entry_of(p) == full[k as int]);
                        let ghost prev = out@;
                        out.push(p);
                        assert(entries(out@) =~= entries(prev).push(entry_of(p)));
                        k = k + 1;
                        assert(entries(out@) =~= full.take(k as int));
                    }
                    out
                } else {
                    ranked
                }
            },
            None => ranked,
        }
    }
}

/// External handle and score of the row with handle `h`, if any.
pub open spec fn record_of(s: Seq<Row>, h: Seq<char>) -> Option<(Seq<char>, int)> {
    if has_handle(s, h) {
        let r = s[index_of(s, h)];
        Some((r.1, r.2))
    } else {
        None
    }
}

/// Score that the row of `h` has in `s`: 0 when there is none yet.
pub open spec fn score_of(s: Seq<Row>, h: Seq<char>) -> int {
    match record_of(s, h) {
        Some(r) => r.1,
        None => 0,
    }
}

proof fn lemma_index_unique(s: Seq<Row>, h: Seq<char>, i: int)
    requires
        unique_handles(s),
        0 <= i < s.len(),
        s[i].0 == h,
    ensures
        has_handle(s, h),
        index_of(s, h) == i,
{
    let c = index_of(s, h);
    assert(0 <= c < s.len() && s[c].0 == h);
    if c != i {
        if c < i {
            assert(s[c].0 != s[i].0);
        } else {
            assert(s[i].0 != s[c].0);
        }
    }
}

/// What one registration does: the table keeps unique handles, the row of `h`
/// holds `x` with its earlier score (0 for a new row), and every other handle's
/// row is as before.
pub proof fn lemma_upsert_effect(s: Seq<Row>, h: Seq<char>, x: Seq<char>)
    requires
        unique_handles(s),
    ensures
        unique_handles(upsert_rows(s, h, x)),
        record_of(upsert_rows(s, h, x), h) == Some((x, score_of(s, h))),
        forall|g: Seq<char>| g != h ==> record_of(#[trigger] upsert_rows(s, h, x), g) == record_of(s, g),
{
    let t = upsert_rows(s, h, x);
    let i = if has_handle(s, h) { index_of(s, h) } else { s.len() as int };
    assert(t[i] == (h, x, score_of(s, h)));
    assert forall|a: int, b: int| 0 <= a < b < t.len() implies t[a].0 != t[b].0 by {
        if b == i {
            if has_handle(s, h) {
                assert(s[a].0 != s[i].0);
            } else {
                assert(!(0 <= a < s.len() && s[a].0 == h));
            }
        } else if a == i {
            assert(s[a].0 != s[b].0);
        } else {
            assert(t[a] == s[a] && t[b] == s[b]);
        }
    }
    lemma_index_unique(t, h, i);
    assert forall|g: Seq<char>| g != h implies record_of(#[trigger] upsert_rows(s, h, x), g) == record_of(s, g) by {
        if has_handle(s, g) {
            let j = index_of(s, g);
            assert(t[j] == s[j]);
            lemma_index_unique(t, g, j);
        } else if has_handle(t, g) {
            let j = index_of(t, g);
            assert(j != i);
            assert(s[j] == t[j]);
        }
    }
}

/// Registering the same external handle twice leaves the table as one
/// registration does.
pub proof fn lemma_upsert_idempotent(s: Seq<Row>, h: Seq<char>, x: Seq<char>)
    requires
        unique_handles(s),
    ensures
        upsert_rows(upsert_rows(s, h, x), h, x) == upsert_rows(s, h, x),
        record_of(upsert_rows(upsert_rows(s, h, x), h, x), h) == Some((x, score_of(s, h))),
{
    lemma_upsert_effect(s, h, x);
    let t = upsert_rows(s, h, x);
    let i = index_of(t, h);
    assert(t.update(i, (h, x, t[i].2)) =~= t);
}

/// Of two registrations for one handle, the later one's external handle is what
/// the table keeps: the result is that of the later registration alone, with a
/// single row for `h` and the score it had before both.
pub proof fn lemma_upsert_last_write_wins(s: Seq<Row>, h: Seq<char>, x1: Seq<char>, x2: Seq<char>)
    requires
        unique_handles(s),
    ensures
        upsert_rows(upsert_rows(s, h, x1), h, x2) == upsert_rows(s, h, x2),
        record_of(upsert_rows(upsert_rows(s, h, x1), h, x2), h) == Some((x2, score_of(s, h))),
        unique_handles(upsert_rows(upsert_rows(s, h, x1), h, x2)),
{
    lemma_upsert_effect(s, h, x1);
    lemma_upsert_effect(s, h, x2);
    let t = upsert_rows(s, h, x1);
    let i = index_of(t, h);
    if has_handle(s, h) {
        lemma_index_unique(t, h, index_of(s, h));
        assert(t.update(i, (h, x2, t[i].2)) =~= upsert_rows(s, h, x2));
    } else {
        lemma_index_unique(t, h, s.len() as int);
        assert(t.update(i, (h, x2, t[i].2)) =~= upsert_rows(s, h, x2));
    }
}

} // verus!
