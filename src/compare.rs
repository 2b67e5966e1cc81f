use crate::fingerprint::{fingerprints_view, FileFingerprint, FingerprintView};
use vstd::prelude::*;
use vstd::string::StringExecFns;

verus! {

/// How a path differs between the baseline and the current state.
#[derive(PartialEq, Eq, Structural, Clone, Copy, Debug)]
pub enum DriftKind {
    New,
    Changed,
    Deleted,
}

/// One detected discrepancy.
pub struct DriftRecord {
    pub kind: DriftKind,
    pub path: String,
}

pub type DriftView = (DriftKind, Seq<char>);

impl View for DriftRecord {
    type V = DriftView;

    open spec fn view(&self) -> DriftView {
        (self.kind, self.path@)
    }
}

pub open spec fn drifts_view(s: Seq<DriftRecord>) -> Seq<DriftView> {
    s.map_values(|d: DriftRecord| d@)
}

pub open spec fn kind_label(k: DriftKind) -> Seq<char> {
    match k {
        DriftKind::New => "New: "@,
        DriftKind::Changed => "Changed: "@,
        DriftKind::Deleted => "Deleted: "@,
    }
}

impl DriftRecord {
    /// The line that reports this record, such as `Changed: a.txt`.
    pub fn describe(&self) -> (r: String)
        ensures
            r@ == kind_label(self.kind) + self.path@,
    {
        let label = match self.kind {
            DriftKind::New => "New: ",
            DriftKind::Changed => "Changed: ",
            DriftKind::Deleted => "Deleted: ",
        };
        let mut r = String::from_str(label);
        r.append(self.path.as_str());
        r
    }
}

/// The path occurs in the collection.
pub open spec fn has_path(s: Seq<FingerprintView>, p: Seq<char>) -> bool {
    exists|i: int| 0 <= i < s.len() && (#[trigger] s[i]).0 == p
}

/// `i` is the first position of the path in the collection.
pub open spec fn is_first(s: Seq<FingerprintView>, p: Seq<char>, i: int) -> bool {
    &&& 0 <= i < s.len()
    &&& s[i].0 == p
    &&& forall|j: int| 0 <= j < i ==> (#[trigger] s[j]).0 != p
}

/// The digest that the collection records for a path: that of its first entry.
pub open spec fn digest_in(s: Seq<FingerprintView>, p: Seq<char>) -> Seq<char> {
    s[choose|i: int| is_first(s, p, i)].1
}

/// The record, if any, that one current entry gives against the baseline.
pub open spec fn current_record(baseline: Seq<FingerprintView>, f: FingerprintView) -> Seq<
    DriftView,
> {
    if !has_path(baseline, f.0) {
        seq![(DriftKind::New, f.0)]
    } else if digest_in(baseline, f.0) != f.1 {
        seq![(DriftKind::Changed, f.0)]
    } else {
        seq![]
    }
}

/// New and changed records, in the current collection's order.
pub open spec fn additions(baseline: Seq<FingerprintView>, current: Seq<FingerprintView>) -> Seq<
    DriftView,
>
    decreases current.len(),
{
    if current.len() == 0 {
        seq![]
    } else {
        additions(baseline, current.drop_last()) + current_record(baseline, current.last())
    }
}

/// Deleted records, in the baseline's order.
pub open spec fn deletions(baseline: Seq<FingerprintView>, current: Seq<FingerprintView>) -> Seq<
    DriftView,
>
    decreases baseline.len(),
{
    if baseline.len() == 0 {
        seq![]
    } else {
        let p = baseline.last().0;
        deletions(baseline.drop_last(), current) + if has_path(current, p) {
            seq![]
        } else {
            seq![(DriftKind::Deleted, p)]
        }
    }
}

/// The drift report of a current collection against a baseline.
pub open spec fn drift(baseline: Seq<FingerprintView>, current: Seq<FingerprintView>) -> Seq<
    DriftView,
> {
    additions(baseline, current) + deletions(baseline, current)
}

/// Searches the collection for the path; returns the first position holding it.
fn find_path(s: &Vec<FileFingerprint>, p: &String) -> (r: Option<usize>)
    ensures
        r is None ==> !has_path(fingerprints_view(s@), p@),
        r matches Some(i) ==> is_first(fingerprints_view(s@), p@, i as int),
{
    let ghost v = fingerprints_view(s@);
    let mut i: usize = 0;
    while i < s.len()
        invariant
            i <= s@.len(),
            v == fingerprints_view(s@),
            forall|j: int| 0 <= j < i ==> (#[trigger] v[j]).0 != p@,
        decreases s.len() - i,
    {
        if s[i].path == *p {
            return Some(i);
        }
        i = i + 1;
    }
    None
}


/// Searches the collection, from position `start` on, for the path.
pub fn find_path_from(s: &Vec<FileFingerprint>, p: &String, start: usize) -> (r: Option<usize>)
    ensures
        r is None ==> forall|j: int|
            start <= j < s@.len() ==> (#[trigger] fingerprints_view(s@)[j]).0 != p@,
        r matches Some(i) ==> start <= i < s@.len() && fingerprints_view(s@)[i as int].0 == p@,
{
    let ghost v = fingerprints_view(s@);
    let mut i: usize = start;
    while i < s.len()
        invariant
            v == fingerprints_view(s@),
            start <= i,
            forall|j: int| start <= j < i && j < s@.len() ==> (#[trigger] v[j]).0 != p@,
        decreases s.len() - i,
    {
        if s[i].path == *p {
            return Some(i);
        }
        i = i + 1;
    }
    None
}

proof fn lemma_first_unique(s: Seq<FingerprintView>, p: Seq<char>, i: int)
    requires
        is_first(s, p, i),
    ensures
        has_path(s, p),
        digest_in(s, p) == s[i].1,
{
    let k = choose|k: int| is_first(s, p, k);
    assert(is_first(s, p, k));
    if k < i {
        assert(s[k].0 != p);
    } else if k > i {
        assert(s[i].0 != p);
    }
}

/// Classifies every path of the two collections: new and changed paths in the
/// current collection's order, then deleted paths in the baseline's order.
/// Unchanged paths give no record.
pub fn compare(baseline: &Vec<FileFingerprint>, current: &Vec<FileFingerprint>) -> (r: Vec<
    DriftRecord,
>)
    ensures
        drifts_view(r@) == drift(fingerprints_view(baseline@), fingerprints_view(current@)),
{
    let ghost b = fingerprints_view(baseline@);
    let ghost c = fingerprints_view(current@);
    let mut out: Vec<DriftRecord> = Vec::new();
    let mut i: usize = 0;
    while i < current.len()
        invariant
            i <= current@.len(),
            b == fingerprints_view(baseline@),
            c == fingerprints_view(current@),
            drifts_view(out@) == additions(b, c.subrange(0, i as int)),
        decreases current.len() - i,
    {
        let ghost before = drifts_view(out@);
        assert(c.subrange(0, i + 1).drop_last() == c.subrange(0, i as int));
        assert(c.subrange(0, i + 1).last() == c[i as int]);
        let entry = &current[i];
        match find_path(baseline, &entry.path) {
            None => {
                out.push(DriftRecord { kind: DriftKind::New, path: entry.path.clone() });
            },
            Some(k) => {
                proof {
                    lemma_first_unique(b, entry.path@, k as int);
                }
                if baseline[k].digest != entry.digest {
                    out.push(DriftRecord { kind: DriftKind::Changed, path: entry.path.clone() });
                }
            },
        }
        assert(drifts_view(out@) =~= before + current_record(b, c[i as int]));
        i = i + 1;
    }
    assert(c.subrange(0, i as int) == c);
    let ghost added = drifts_view(out@);
    let mut j: usize = 0;
    while j < baseline.len()
        invariant
            j <= baseline@.len(),
            b == fingerprints_view(baseline@),
            c == fingerprints_view(current@),
            drifts_view(out@) == added + deletions(b.subrange(0, j as int), c),
        decreases baseline.len() - j,
    {
        let ghost before = drifts_view(out@);
        assert(b.subrange(0, j + 1).drop_last() == b.subrange(0, j as int));
        assert(b.subrange(0, j + 1).last() == b[j as int]);
        let entry = &baseline[j];
        if find_path(current, &entry.path).is_none() {
            out.push(DriftRecord { kind: DriftKind::Deleted, path: entry.path.clone() });
            assert(drifts_view(out@) =~= before + seq![(DriftKind::Deleted, b[j as int].0)]);
        } else {
            assert(drifts_view(out@) =~= before + seq![]);
        }
        j = j + 1;
    }
    assert(b.subrange(0, j as int) == b);
    out
}


/// No two entries of the collection share a path.
pub open spec fn unique_paths(s: Seq<FingerprintView>) -> bool {
    forall|i: int, j: int| 0 <= i < s.len() && 0 <= j < s.len() && i != j ==> (#[trigger] s[i]).0
        != (#[trigger] s[j]).0
}

pub open spec fn about(p: Seq<char>) -> spec_fn(DriftView) -> bool {
    |r: DriftView| r.1 == p
}

/// The records of a report that concern one path, in order.
pub open spec fn records_about(d: Seq<DriftView>, p: Seq<char>) -> Seq<DriftView> {
    d.filter(about(p))
}

proof fn lemma_additions_unchanged(b: Seq<FingerprintView>, c: Seq<FingerprintView>)
    requires
        forall|k: int|
            0 <= k < c.len() ==> has_path(b, (#[trigger] c[k]).0) && digest_in(b, c[k].0)
                == c[k].1,
    ensures
        additions(b, c) == Seq::<DriftView>::empty(),
    decreases c.len(),
{
    if c.len() > 0 {
        let d = c.drop_last();
        assert forall|k: int| 0 <= k < d.len() implies has_path(b, (#[trigger] d[k]).0)
            && digest_in(b, d[k].0) == d[k].1 by {
            assert(d[k] == c[k]);
        }
        lemma_additions_unchanged(b, d);
        assert(c.last() == c[c.len() - 1]);
    }
}

proof fn lemma_deletions_none(b: Seq<FingerprintView>, c: Seq<FingerprintView>)
    requires
        forall|k: int| 0 <= k < b.len() ==> has_path(c, (#[trigger] b[k]).0),
    ensures
        deletions(b, c) == Seq::<DriftView>::empty(),
    decreases b.len(),
{
    if b.len() > 0 {
        let d = b.drop_last();
        assert forall|k: int| 0 <= k < d.len() implies has_path(c, (#[trigger] d[k]).0) by {
            assert(d[k] == b[k]);
        }
        lemma_deletions_none(d, c);
        assert(b.last() == b[b.len() - 1]);
    }
}

/// Comparing a collection with unique paths against itself reports no drift.
pub proof fn lemma_compare_self_no_drift(x: Seq<FingerprintView>)
    requires
        unique_paths(x),
    ensures
        drift(x, x) == Seq::<DriftView>::empty(),
{
    assert forall|k: int| 0 <= k < x.len() implies has_path(x, (#[trigger] x[k]).0) && digest_in(
        x,
        x[k].0,
    ) == x[k].1 by {
        assert(is_first(x, x[k].0, k));
        lemma_first_unique(x, x[k].0, k);
    }
    lemma_additions_unchanged(x, x);
    lemma_deletions_none(x, x);
    assert(drift(x, x) =~= Seq::<DriftView>::empty());
}

proof fn lemma_single_about(r: DriftView, p: Seq<char>)
    ensures
        records_about(seq![r], p) == (if r.1 == p {
            seq![r]
        } else {
            Seq::<DriftView>::empty()
        }),
{
    reveal_with_fuel(Seq::<_>::filter, 2);
    let s = seq![r];
    assert(s.drop_last() =~= Seq::<DriftView>::empty());
    assert(Seq::<DriftView>::empty().push(r) =~= seq![r]);
}

proof fn lemma_record_about(b: Seq<FingerprintView>, f: FingerprintView, p: Seq<char>)
    ensures
        records_about(current_record(b, f), p) == (if f.0 == p {
            current_record(b, f)
        } else {
            Seq::<DriftView>::empty()
        }),
{
    if !has_path(b, f.0) {
        lemma_single_about((DriftKind::New, f.0), p);
    } else if digest_in(b, f.0) != f.1 {
        lemma_single_about((DriftKind::Changed, f.0), p);
    } else {
        reveal(Seq::filter);
        assert(Seq::<DriftView>::empty().filter(about(p)) =~= Seq::<DriftView>::empty());
    }
}

/// Under unique paths, any position of a path is its first.
proof fn lemma_unique_first(s: Seq<FingerprintView>, p: Seq<char>, i: int)
    requires
        unique_paths(s),
        0 <= i < s.len(),
        s[i].0 == p,
    ensures
        is_first(s, p, i),
        has_path(s, p),
        digest_in(s, p) == s[i].1,
{
    assert forall|j: int| 0 <= j < i implies (#[trigger] s[j]).0 != p by {
        assert(s[j].0 != s[i].0);
    }
    lemma_first_unique(s, p, i);
}

proof fn lemma_additions_about(b: Seq<FingerprintView>, c: Seq<FingerprintView>, p: Seq<char>)
    requires
        unique_paths(c),
    ensures
        records_about(additions(b, c), p) == (if has_path(c, p) {
            current_record(b, (p, digest_in(c, p)))
        } else {
            Seq::<DriftView>::empty()
        }),
    decreases c.len(),
{
    if c.len() == 0 {
        reveal(Seq::filter);
        assert(Seq::<DriftView>::empty().filter(about(p)) =~= Seq::<DriftView>::empty());
    } else {
        let d = c.drop_last();
        let n = c.len() - 1;
        assert(c.last() == c[n]);
        assert(unique_paths(d)) by {
            assert forall|i: int, j: int|
                0 <= i < d.len() && 0 <= j < d.len() && i != j implies (#[trigger] d[i]).0
                != (#[trigger] d[j]).0 by {
                assert(d[i] == c[i] && d[j] == c[j]);
            }
        }
        lemma_additions_about(b, d, p);
        Seq::filter_distributes_over_add(additions(b, d), current_record(b, c[n]), about(p));
        lemma_record_about(b, c[n], p);
        if c[n].0 == p {
            lemma_unique_first(c, p, n);
            assert(!has_path(d, p)) by {
                if has_path(d, p) {
                    let i = choose|i: int| 0 <= i < d.len() && (#[trigger] d[i]).0 == p;
                    assert(d[i] == c[i]);
                    assert(c[i].0 != c[n].0);
                }
            }
            assert(records_about(additions(b, c), p) =~= current_record(b, c[n]));
        } else {
            if has_path(d, p) {
                let i = choose|i: int| 0 <= i < d.len() && (#[trigger] d[i]).0 == p;
                assert(d[i] == c[i]);
                lemma_unique_first(d, p, i);
                lemma_unique_first(c, p, i);
            } else {
                assert(!has_path(c, p)) by {
                    if has_path(c, p) {
                        let i = choose|i: int| 0 <= i < c.len() && (#[trigger] c[i]).0 == p;
                        assert(i != n);
                        assert(d[i] == c[i]);
                    }
                }
            }
            assert(records_about(additions(b, c), p) =~= records_about(additions(b, d), p));
        }
    }
}

proof fn lemma_deletions_about(b: Seq<FingerprintView>, c: Seq<FingerprintView>, p: Seq<char>)
    requires
        unique_paths(b),
    ensures
        records_about(deletions(b, c), p) == (if has_path(b, p) && !has_path(c, p) {
            seq![(DriftKind::Deleted, p)]
        } else {
            Seq::<DriftView>::empty()
        }),
    decreases b.len(),
{
    if b.len() == 0 {
        reveal(Seq::filter);
        assert(Seq::<DriftView>::empty().filter(about(p)) =~= Seq::<DriftView>::empty());
    } else {
        let d = b.drop_last();
        let n = b.len() - 1;
        assert(b.last() == b[n]);
        assert(unique_paths(d)) by {
            assert forall|i: int, j: int|
                0 <= i < d.len() && 0 <= j < d.len() && i != j implies (#[trigger] d[i]).0
                != (#[trigger] d[j]).0 by {
                assert(d[i] == b[i] && d[j] == b[j]);
            }
        }
        lemma_deletions_about(d, c, p);
        let tail: Seq<DriftView> = if has_path(c, b[n].0) {
            seq![]
        } else {
            seq![(DriftKind::Deleted, b[n].0)]
        };
        Seq::filter_distributes_over_add(deletions(d, c), tail, about(p));
        if has_path(c, b[n].0) {
            reveal(Seq::filter);
            assert(tail.filter(about(p)) =~= Seq::<DriftView>::empty());
        } else {
            lemma_single_about((DriftKind::Deleted, b[n].0), p);
        }
        if b[n].0 == p {
            assert(has_path(b, p));
            assert(!has_path(d, p)) by {
                if has_path(d, p) {
                    let i = choose|i: int| 0 <= i < d.len() && (#[trigger] d[i]).0 == p;
                    assert(d[i] == b[i]);
                    assert(b[i].0 != b[n].0);
                }
            }
        } else {
            assert(has_path(b, p) == has_path(d, p)) by {
                if has_path(b, p) {
                    let i = choose|i: int| 0 <= i < b.len() && (#[trigger] b[i]).0 == p;
                    assert(i != n);
                    assert(d[i] == b[i]);
                }
                if has_path(d, p) {
                    let i = choose|i: int| 0 <= i < d.len() && (#[trigger] d[i]).0 == p;
                    assert(d[i] == b[i]);
                }
            }
        }
        assert(records_about(deletions(b, c), p) =~= records_about(deletions(d, c), p)
            + tail.filter(about(p)));
    }
}

/// Every path of two collections with unique paths gets the right records: none
/// where both sides hold it with the same digest, exactly one `Changed` where the
/// digests differ, exactly one `New` where only the current collection holds it,
/// and exactly one `Deleted` where only the baseline does.
pub proof fn lemma_compare_complete(
    baseline: Seq<FingerprintView>,
    current: Seq<FingerprintView>,
    p: Seq<char>,
)
    requires
        unique_paths(baseline),
        unique_paths(current),
    ensures
        has_path(baseline, p) && has_path(current, p) && digest_in(baseline, p) == digest_in(
            current,
            p,
        ) ==> records_about(drift(baseline, current), p) == Seq::<DriftView>::empty(),
        has_path(baseline, p) && has_path(current, p) && digest_in(baseline, p) != digest_in(
            current,
            p,
        ) ==> records_about(drift(baseline, current), p) == seq![(DriftKind::Changed, p)],
        !has_path(baseline, p) && has_path(current, p) ==> records_about(
            drift(baseline, current),
            p,
        ) == seq![(DriftKind::New, p)],
        has_path(baseline, p) && !has_path(current, p) ==> records_about(
            drift(baseline, current),
            p,
        ) == seq![(DriftKind::Deleted, p)],
        !has_path(baseline, p) && !has_path(current, p) ==> records_about(
            drift(baseline, current),
            p,
        ) == Seq::<DriftView>::empty(),
{
    lemma_additions_about(baseline, current, p);
    lemma_deletions_about(baseline, current, p);
    Seq::filter_distributes_over_add(
        additions(baseline, current),
        deletions(baseline, current),
        about(p),
    );
    let a = records_about(additions(baseline, current), p);
    let d = records_about(deletions(baseline, current), p);
    assert(records_about(drift(baseline, current), p) == a + d);
    assert(a + Seq::<DriftView>::empty() =~= a);
    assert(Seq::<DriftView>::empty() + d =~= d);
}

} // verus!
