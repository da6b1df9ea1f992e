//! Counters and a gauge for the workspace lifecycle: per-label counter
//! families (pinned, stranded, resumed, abandoned) and the number of
//! stranded workspaces not yet abandoned.

use vstd::prelude::*;
use dashmap::DashMap;

verus! {

/// Counts by label.
pub type LabelCounts = DashMap<String, u64>;

pub type CountsByLabel = Map<Seq<char>, u64>;

/// The counts a label map holds, by label.
pub uninterp spec fn label_counts(m: LabelCounts) -> CountsByLabel;

#[verifier::external_body]
fn labels_new() -> (m: LabelCounts)
    ensures
        label_counts(m) == CountsByLabel::empty(),
{
    DashMap::new()
}

/// `DashMap::get`, the count copied out of the read guard.
#[verifier::external_body]
fn labels_get(m: &LabelCounts, label: &str) -> (r: Option<u64>)
    ensures
        r == (if label_counts(*m).dom().contains(label@) { Some(label_counts(*m)[label@]) } else { None }),
{
    match m.get(label) {
        Some(entry) => Some(*entry.value()),
        None => None,
    }
}

/// `DashMap::insert`.
#[verifier::external_body]
fn labels_insert(m: &mut LabelCounts, label: String, n: u64)
    ensures
        label_counts(*final(m)) == label_counts(*old(m)).insert(label@, n),
{
    m.insert(label, n);
}

/// `DashMap::iter`, each entry's label and count: every label exactly once,
/// in an order the map's hashing decides.
#[verifier::external_body]
fn labels_entries(m: &LabelCounts) -> (r: Vec<(String, u64)>)
    ensures
        label_list(r@).no_duplicates(),
        label_list(r@).to_set() == label_counts(*m).dom(),
        forall|i: int| 0 <= i < r@.len() ==> label_counts(*m)[(#[trigger] r@[i]).0@] == r@[i].1,
{
    m.iter().map(|entry| (entry.key().clone(), *entry.value())).collect()
}

pub open spec fn label_list(v: Seq<(String, u64)>) -> Seq<Seq<char>> {
    v.map_values(|p: (String, u64)| p.0@)
}

/// The count of a label, 0 when it was never counted.
pub open spec fn count_of(m: CountsByLabel, label: Seq<char>) -> u64 {
    if m.dom().contains(label) { m[label] } else { 0 }
}

/// The counts after one more event under `label` (wrapping at the top of
/// the range, as an atomic counter does).
pub open spec fn bumped(m: CountsByLabel, label: Seq<char>) -> CountsByLabel {
    m.insert(label, if count_of(m, label) == u64::MAX { 0 } else { (count_of(m, label) + 1) as u64 })
}

/// The sum of some counts.
pub open spec fn sum_of(v: Seq<u64>) -> int
    decreases v.len(),
{
    if v.len() == 0 { 0 } else { sum_of(v.drop_last()) + v.last() }
}

/// Every way of listing the counts of `m` sums to at most `u64::MAX`.
pub open spec fn total_fits(m: CountsByLabel) -> bool {
    forall|ls: Seq<Seq<char>>| ls.no_duplicates() && ls.to_set() == m.dom()
        ==> #[trigger] total_over(m, ls) <= u64::MAX
}

/// `ls` lists the labels of `m`, each once.
pub open spec fn is_listing(ls: Seq<Seq<char>>, m: CountsByLabel) -> bool {
    ls.no_duplicates() && ls.to_set() == m.dom()
}

/// The sum of the counts of `m`, listed by labels `ls`.
pub open spec fn total_over(m: CountsByLabel, ls: Seq<Seq<char>>) -> int {
    sum_of(ls.map_values(|l: Seq<char>| m[l]))
}

/// The workspace lifecycle counters.
pub struct WorkspaceMetrics {
    pinned: LabelCounts,
    stranded: LabelCounts,
    resumed: LabelCounts,
    abandoned: LabelCounts,
    stranded_active: i64,
}

impl WorkspaceMetrics {
    pub closed spec fn pinned(&self) -> CountsByLabel {
        label_counts(self.pinned)
    }

    pub closed spec fn stranded(&self) -> CountsByLabel {
        label_counts(self.stranded)
    }

    pub closed spec fn resumed(&self) -> CountsByLabel {
        label_counts(self.resumed)
    }

    pub closed spec fn abandoned(&self) -> CountsByLabel {
        label_counts(self.abandoned)
    }

    pub closed spec fn gauge(&self) -> i64 {
        self.stranded_active
    }

    /// Metrics with nothing counted and the gauge at zero.
    pub fn new() -> (m: Self)
        ensures
            m.pinned() == CountsByLabel::empty(),
            m.stranded() == CountsByLabel::empty(),
            m.resumed() == CountsByLabel::empty(),
            m.abandoned() == CountsByLabel::empty(),
            m.gauge() == 0,
    {
        WorkspaceMetrics {
            pinned: labels_new(),
            stranded: labels_new(),
            resumed: labels_new(),
            abandoned: labels_new(),
            stranded_active: 0,
        }
    }
}

fn bump(m: &mut LabelCounts, label: &str)
    ensures
        label_counts(*final(m)) == bumped(label_counts(*old(m)), label@),
{
    let n: u64 = match labels_get(m, label) {
        Some(n) => n,
        None => 0,
    };
    labels_insert(m, String::from_str(label), n.wrapping_add(1));
}

fn total(m: &LabelCounts) -> (r: u64)
    requires
        total_fits(label_counts(*m)),
    ensures
        exists|ls: Seq<Seq<char>>| ls.no_duplicates() && ls.to_set() == label_counts(*m).dom()
            && r == total_over(label_counts(*m), ls),
        forall|ls: Seq<Seq<char>>| #[trigger] is_listing(ls, label_counts(*m)) ==> r == total_over(label_counts(*m), ls),
{
    let entries = labels_entries(m);
    let ghost h = label_counts(*m);
    let ghost ls = label_list(entries@);
    let ghost values = ls.map_values(|l: Seq<char>| h[l]);
    assert(total_over(h, ls) <= u64::MAX);
    let mut sum: u64 = 0;
    let mut i: usize = 0;
    while i < entries.len()
        invariant
            i <= entries@.len(),
            ls == label_list(entries@),
            values == ls.map_values(|l: Seq<char>| h[l]),
            forall|j: int| 0 <= j < entries@.len() ==> h[(#[trigger] entries@[j]).0@] == entries@[j].1,
            sum_of(values) <= u64::MAX,
            sum == sum_of(values.take(i as int)),
        decreases entries@.len() - i,
    {
        assert(values.take(i as int + 1).drop_last() =~= values.take(i as int));
        assert(values[i as int] == entries@[i as int].1);
        proof {
            lemma_sum_prefix(values, i as int + 1);
        }
        sum = sum + entries[i].1;
        i = i + 1;
    }
    assert(values.take(entries@.len() as int) =~= values);
    proof {
        assert forall|l2: Seq<Seq<char>>| #[trigger] is_listing(l2, h) implies sum == total_over(h, l2) by {
            lemma_total_any_listing(h, ls, l2);
        }
    }
    sum
}

proof fn lemma_sum_prefix(v: Seq<u64>, n: int)
    requires
        0 <= n <= v.len(),
    ensures
        sum_of(v.take(n)) <= sum_of(v),
    decreases v.len(),
{
    if n < v.len() {
        assert(v.drop_last().take(n) =~= v.take(n));
        lemma_sum_prefix(v.drop_last(), n);
    } else {
        assert(v.take(n) =~= v);
    }
}

/// Counts a workspace skipped by garbage collection because it is pinned.
pub fn incr_workspace_pinned(metrics: &mut WorkspaceMetrics, reason: &str)
    ensures
        final(metrics).pinned() == bumped(old(metrics).pinned(), reason@),
        final(metrics).stranded() == old(metrics).stranded(),
        final(metrics).resumed() == old(metrics).resumed(),
        final(metrics).abandoned() == old(metrics).abandoned(),
        final(metrics).gauge() == old(metrics).gauge(),
{
    bump(&mut metrics.pinned, reason);
}

/// Counts a workspace stranded for `reason`.
pub fn incr_workspace_stranded(metrics: &mut WorkspaceMetrics, reason: &str)
    ensures
        final(metrics).stranded() == bumped(old(metrics).stranded(), reason@),
        final(metrics).pinned() == old(metrics).pinned(),
        final(metrics).resumed() == old(metrics).resumed(),
        final(metrics).abandoned() == old(metrics).abandoned(),
        final(metrics).gauge() == old(metrics).gauge(),
{
    bump(&mut metrics.stranded, reason);
}

/// Counts a resume attempt with outcome `outcome`.
pub fn incr_workspace_resumed(metrics: &mut WorkspaceMetrics, outcome: &str)
    ensures
        final(metrics).resumed() == bumped(old(metrics).resumed(), outcome@),
        final(metrics).pinned() == old(metrics).pinned(),
        final(metrics).stranded() == old(metrics).stranded(),
        final(metrics).abandoned() == old(metrics).abandoned(),
        final(metrics).gauge() == old(metrics).gauge(),
{
    bump(&mut metrics.resumed, outcome);
}

/// Counts a workspace abandoned for `reason`.
pub fn incr_workspace_abandoned(metrics: &mut WorkspaceMetrics, reason: &str)
    ensures
        final(metrics).abandoned() == bumped(old(metrics).abandoned(), reason@),
        final(metrics).pinned() == old(metrics).pinned(),
        final(metrics).stranded() == old(metrics).stranded(),
        final(metrics).resumed() == old(metrics).resumed(),
        final(metrics).gauge() == old(metrics).gauge(),
{
    bump(&mut metrics.abandoned, reason);
}

/// Sets the stranded-active gauge.
pub fn set_workspace_stranded_active(metrics: &mut WorkspaceMetrics, n: i64)
    ensures
        final(metrics).gauge() == n,
        final(metrics).pinned() == old(metrics).pinned(),
        final(metrics).stranded() == old(metrics).stranded(),
        final(metrics).resumed() == old(metrics).resumed(),
        final(metrics).abandoned() == old(metrics).abandoned(),
{
    metrics.stranded_active = n;
}

/// Pinned events over all reason labels.
pub fn workspace_pinned_total(metrics: &WorkspaceMetrics) -> (r: u64)
    requires
        total_fits(metrics.pinned()),
    ensures
        exists|ls: Seq<Seq<char>>| ls.no_duplicates() && ls.to_set() == metrics.pinned().dom()
            && r == total_over(metrics.pinned(), ls),
        forall|ls: Seq<Seq<char>>| #[trigger] is_listing(ls, metrics.pinned()) ==> r == total_over(metrics.pinned(), ls),
{
    total(&metrics.pinned)
}

/// Stranded events over all reason labels.
pub fn workspace_stranded_total(metrics: &WorkspaceMetrics) -> (r: u64)
    requires
        total_fits(metrics.stranded()),
    ensures
        exists|ls: Seq<Seq<char>>| ls.no_duplicates() && ls.to_set() == metrics.stranded().dom()
            && r == total_over(metrics.stranded(), ls),
        forall|ls: Seq<Seq<char>>| #[trigger] is_listing(ls, metrics.stranded()) ==> r == total_over(metrics.stranded(), ls),
{
    total(&metrics.stranded)
}

/// Resume attempts over all outcome labels.
pub fn workspace_resumed_total(metrics: &WorkspaceMetrics) -> (r: u64)
    requires
        total_fits(metrics.resumed()),
    ensures
        exists|ls: Seq<Seq<char>>| ls.no_duplicates() && ls.to_set() == metrics.resumed().dom()
            && r == total_over(metrics.resumed(), ls),
        forall|ls: Seq<Seq<char>>| #[trigger] is_listing(ls, metrics.resumed()) ==> r == total_over(metrics.resumed(), ls),
{
    total(&metrics.resumed)
}

/// Abandoned events over all reason labels.
pub fn workspace_abandoned_total(metrics: &WorkspaceMetrics) -> (r: u64)
    requires
        total_fits(metrics.abandoned()),
    ensures
        exists|ls: Seq<Seq<char>>| ls.no_duplicates() && ls.to_set() == metrics.abandoned().dom()
            && r == total_over(metrics.abandoned(), ls),
        forall|ls: Seq<Seq<char>>| #[trigger] is_listing(ls, metrics.abandoned()) ==> r == total_over(metrics.abandoned(), ls),
{
    total(&metrics.abandoned)
}

/// The stranded-active gauge.
pub fn workspace_stranded_active(metrics: &WorkspaceMetrics) -> (r: i64)
    ensures
        r == metrics.gauge(),
{
    metrics.stranded_active
}

/// Counting one event raises the total by one: the label's count goes up
/// by one and every other label keeps its count.
pub proof fn lemma_bump_counts_one(m: CountsByLabel, label: Seq<char>, other: Seq<char>)
    requires
        count_of(m, label) < u64::MAX,
    ensures
        count_of(bumped(m, label), label) == count_of(m, label) + 1,
        other != label ==> count_of(bumped(m, label), other) == count_of(m, other),
{
}

/// The sum of the counts of labels `ls`, a label never counted adding 0.
pub open spec fn count_total(m: CountsByLabel, ls: Seq<Seq<char>>) -> int
    decreases ls.len(),
{
    if ls.len() == 0 { 0 } else { count_total(m, ls.drop_last()) + count_of(m, ls.last()) }
}

proof fn lemma_count_total_other(m: CountsByLabel, label: Seq<char>, ls: Seq<Seq<char>>)
    requires
        !ls.contains(label),
    ensures
        count_total(bumped(m, label), ls) == count_total(m, ls),
    decreases ls.len(),
{
    if ls.len() > 0 {
        assert(ls.drop_last().contains(label) ==> ls.contains(label));
        lemma_count_total_other(m, label, ls.drop_last());
        assert(ls[ls.len() - 1] == ls.last());
        assert(ls.last() != label);
    }
}

proof fn lemma_total_over_counts(m: CountsByLabel, ls: Seq<Seq<char>>)
    requires
        forall|i: int| 0 <= i < ls.len() ==> m.dom().contains(#[trigger] ls[i]),
    ensures
        total_over(m, ls) == count_total(m, ls),
    decreases ls.len(),
{
    if ls.len() > 0 {
        let p = ls.drop_last();
        assert(ls.map_values(|l: Seq<char>| m[l]).drop_last() =~= p.map_values(|l: Seq<char>| m[l]));
        lemma_total_over_counts(m, p);
        assert(m.dom().contains(ls[ls.len() - 1]));
    }
}

/// Each counted event adds exactly one to a counter's total: summed over
/// any list of distinct labels that holds the event's label, the counts
/// after the event exceed those before it by one; and over a listing of the
/// counter's labels after the event, its total is the sum before it plus one.
pub proof fn lemma_bump_total_one(m: CountsByLabel, label: Seq<char>, ls: Seq<Seq<char>>)
    requires
        count_of(m, label) < u64::MAX,
        ls.no_duplicates(),
        ls.contains(label),
    ensures
        count_total(bumped(m, label), ls) == count_total(m, ls) + 1,
        ls.to_set() == bumped(m, label).dom() ==> total_over(bumped(m, label), ls) == count_total(m, ls) + 1,
    decreases ls.len(),
{
    let p = ls.drop_last();
    if ls.last() == label {
        assert(!p.contains(label)) by {
            if p.contains(label) {
                let j = choose|j: int| 0 <= j < p.len() && p[j] == label;
                assert(ls[j] == ls[ls.len() - 1]);
            }
        }
        lemma_count_total_other(m, label, p);
    } else {
        assert(p.contains(label)) by {
            let j = choose|j: int| 0 <= j < ls.len() && ls[j] == label;
            assert(j != ls.len() - 1);
            assert(p[j] == label);
        }
        assert(p.no_duplicates()) by {
            assert forall|i: int, j: int| 0 <= i < p.len() && 0 <= j < p.len() && i != j implies p[i] != p[j] by {
                assert(ls[i] != ls[j]);
            }
        }
        lemma_bump_total_one(m, label, p);
    }
    if ls.to_set() == bumped(m, label).dom() {
        assert forall|i: int| 0 <= i < ls.len() implies bumped(m, label).dom().contains(#[trigger] ls[i]) by {
            assert(ls.to_set().contains(ls[i]));
        }
        lemma_total_over_counts(bumped(m, label), ls);
    }
}

proof fn lemma_remove_one(s: Seq<Seq<char>>, j: int)
    requires
        0 <= j < s.len(),
        s.no_duplicates(),
    ensures
        s.remove(j).no_duplicates(),
        forall|x: Seq<char>| #[trigger] s.remove(j).contains(x) <==> (s.contains(x) && x != s[j]),
{
    let r = s.remove(j);
    assert forall|a: int, b: int| 0 <= a < r.len() && 0 <= b < r.len() && a != b implies r[a] != r[b] by {
        let a2 = if a < j { a } else { a + 1 };
        let b2 = if b < j { b } else { b + 1 };
        assert(r[a] == s[a2] && r[b] == s[b2]);
    }
    assert forall|x: Seq<char>| #[trigger] r.contains(x) <==> (s.contains(x) && x != s[j]) by {
        if r.contains(x) {
            let a = choose|a: int| 0 <= a < r.len() && r[a] == x;
            let a2 = if a < j { a } else { a + 1 };
            assert(s[a2] == x);
        }
        if s.contains(x) && x != s[j] {
            let a = choose|a: int| 0 <= a < s.len() && s[a] == x;
            if a < j {
                assert(r[a] == x);
            } else {
                assert(r[a - 1] == x);
            }
        }
    }
}

proof fn lemma_count_total_remove(m: CountsByLabel, ls: Seq<Seq<char>>, j: int)
    requires
        0 <= j < ls.len(),
    ensures
        count_total(m, ls) == count_total(m, ls.remove(j)) + count_of(m, ls[j]),
    decreases ls.len(),
{
    if j == ls.len() - 1 {
        assert(ls.remove(j) =~= ls.drop_last());
    } else {
        lemma_count_total_remove(m, ls.drop_last(), j);
        assert(ls.remove(j).drop_last() =~= ls.drop_last().remove(j));
        assert(ls.remove(j).last() == ls.last());
    }
}

/// Summing the counts of the same labels in any order gives one total.
pub proof fn lemma_count_total_any_order(m: CountsByLabel, a: Seq<Seq<char>>, b: Seq<Seq<char>>)
    requires
        a.no_duplicates(),
        b.no_duplicates(),
        a.to_set() == b.to_set(),
    ensures
        count_total(m, a) == count_total(m, b),
    decreases a.len(),
{
    broadcast use vstd::seq_lib::group_seq_properties;
    if a.len() == 0 {
        if b.len() > 0 {
            assert(b.to_set().contains(b[0]));
        }
    } else {
        let x = a.last();
        assert(a.to_set().contains(x)) by {
            assert(a.contains(x)) by {
                assert(a[a.len() - 1] == x);
            }
        }
        assert(b.contains(x));
        let j = choose|j: int| 0 <= j < b.len() && b[j] == x;
        lemma_count_total_remove(m, b, j);
        lemma_remove_one(b, j);
        lemma_remove_one(a, a.len() - 1);
        assert(a.remove(a.len() - 1) =~= a.drop_last());
        assert(a.drop_last().to_set() =~= b.remove(j).to_set()) by {
            assert forall|y: Seq<char>| a.drop_last().to_set().contains(y) <==> b.remove(j).to_set().contains(y) by {
                assert(a.to_set().contains(y) <==> a.contains(y));
                assert(b.to_set().contains(y) <==> b.contains(y));
            }
        }
        lemma_count_total_any_order(m, a.drop_last(), b.remove(j));
    }
}

/// A counter's total is the same over every listing of its labels.
pub proof fn lemma_total_any_listing(m: CountsByLabel, a: Seq<Seq<char>>, b: Seq<Seq<char>>)
    requires
        is_listing(a, m),
        is_listing(b, m),
    ensures
        total_over(m, a) == total_over(m, b),
{
    broadcast use vstd::seq_lib::group_seq_properties;
    assert forall|i: int| 0 <= i < a.len() implies m.dom().contains(#[trigger] a[i]) by {
        assert(a.to_set().contains(a[i]));
    }
    assert forall|i: int| 0 <= i < b.len() implies m.dom().contains(#[trigger] b[i]) by {
        assert(b.to_set().contains(b[i]));
    }
    lemma_total_over_counts(m, a);
    lemma_total_over_counts(m, b);
    lemma_count_total_any_order(m, a, b);
}

/// Counting one event raises a counter's total by exactly one, whatever
/// listing of its labels the totals are taken over.
pub proof fn lemma_bump_raises_total(m: CountsByLabel, label: Seq<char>, before: Seq<Seq<char>>, after: Seq<Seq<char>>)
    requires
        count_of(m, label) < u64::MAX,
        is_listing(before, m),
        is_listing(after, bumped(m, label)),
    ensures
        total_over(bumped(m, label), after) == total_over(m, before) + 1,
{
    broadcast use vstd::seq_lib::group_seq_properties;
    let m1 = bumped(m, label);
    assert(m1.dom().contains(label));
    assert(after.to_set().contains(label));
    assert(after.contains(label));
    lemma_bump_total_one(m, label, after);
    assert forall|i: int| 0 <= i < before.len() implies m.dom().contains(#[trigger] before[i]) by {
        assert(before.to_set().contains(before[i]));
    }
    lemma_total_over_counts(m, before);
    if m.dom().contains(label) {
        assert(after.to_set() =~= before.to_set());
        lemma_count_total_any_order(m, after, before);
    } else {
        let j = choose|j: int| 0 <= j < after.len() && after[j] == label;
        lemma_count_total_remove(m, after, j);
        lemma_remove_one(after, j);
        assert(after.remove(j).to_set() =~= before.to_set()) by {
            assert forall|y: Seq<char>| after.remove(j).to_set().contains(y) <==> before.to_set().contains(y) by {
                assert(after.to_set().contains(y) <==> after.contains(y));
            }
        }
        lemma_count_total_any_order(m, after.remove(j), before);
    }
}

} // verus!
