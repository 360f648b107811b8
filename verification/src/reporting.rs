//! Report tallies over processed batches: request and fraud counts, how often
//! each reason was given, the categories of the reasons, the most frequent
//! reasons, and per-batch counts.
//!
//! Rates, confidence statistics and timestamps are floating-point or clock
//! values and are added by the application layer.
use vstd::prelude::*;

verus! {

/// The outcome of fraud detection on one request, as far as the tallies read it.
#[derive(Debug, Clone)]
pub struct ScoredOutcome {
    /// Whether the request was flagged as fraudulent.
    pub is_fraudulent: bool,
    /// The reasons given.
    pub reasons: Vec<String>,
}

/// A label and how many times it was counted.
#[derive(Debug, Clone)]
pub struct LabelCount {
    /// The label (a reason or a category).
    pub label: String,
    /// Its count.
    pub count: u64,
}

/// The counts of one batch.
#[derive(Debug, Clone, Copy, PartialEq, Eq)]
pub struct BatchCounts {
    /// Batch index.
    pub batch_index: usize,
    /// Number of requests in the batch.
    pub count: usize,
    /// Number of fraudulent requests in the batch.
    pub fraudulent: usize,
}

/// The tallies of a report.
#[derive(Debug, Clone)]
pub struct ReportCounts {
    /// Total number of requests.
    pub total_requests: u64,
    /// Number of fraudulent requests.
    pub fraudulent_requests: u64,
    /// Each distinct reason with its number of occurrences, in order of first occurrence.
    pub reason_counts: Vec<LabelCount>,
    /// At most 20 reasons, most frequent first (ties in order of first occurrence).
    pub top_reasons: Vec<LabelCount>,
    /// Each category (the part of a reason before its first ':') with the number
    /// of requests that have at least one reason in it, in order of first occurrence.
    pub category_breakdown: Vec<LabelCount>,
    /// Per-batch counts, in batch order.
    pub batches: Vec<BatchCounts>,
}

/// A label count as a (label, count) pair.
pub open spec fn label_count_view(c: LabelCount) -> (Seq<char>, nat) {
    (c.label@, c.count as nat)
}

/// Label counts as (label, count) pairs.
pub open spec fn label_counts_view(cs: Seq<LabelCount>) -> Seq<(Seq<char>, nat)> {
    cs.map_values(|c: LabelCount| label_count_view(c))
}

/// The reasons of an outcome.
pub open spec fn outcome_reasons(o: ScoredOutcome) -> Seq<Seq<char>> {
    o.reasons@.map_values(|s: String| s@)
}

/// The reasons of the outcomes, in order.
pub open spec fn reasons_in(outs: Seq<ScoredOutcome>) -> Seq<Seq<char>>
    decreases outs.len(),
{
    if outs.len() == 0 {
        Seq::empty()
    } else {
        reasons_in(outs.drop_last()) + outcome_reasons(outs.last())
    }
}

/// The number of fraudulent outcomes.
pub open spec fn fraudulent_in(outs: Seq<ScoredOutcome>) -> nat
    decreases outs.len(),
{
    if outs.len() == 0 {
        0
    } else {
        fraudulent_in(outs.drop_last()) + if outs.last().is_fraudulent {
            1nat
        } else {
            0nat
        }
    }
}

/// The number of outcomes in all batches.
pub open spec fn total_in(batches: Seq<Vec<ScoredOutcome>>) -> nat
    decreases batches.len(),
{
    if batches.len() == 0 {
        0
    } else {
        total_in(batches.drop_last()) + batches.last()@.len()
    }
}

/// The number of fraudulent outcomes in all batches.
pub open spec fn fraudulent_total(batches: Seq<Vec<ScoredOutcome>>) -> nat
    decreases batches.len(),
{
    if batches.len() == 0 {
        0
    } else {
        fraudulent_total(batches.drop_last()) + fraudulent_in(batches.last()@)
    }
}

/// The reasons of all batches, in order.
pub open spec fn all_reasons(batches: Seq<Vec<ScoredOutcome>>) -> Seq<Seq<char>>
    decreases batches.len(),
{
    if batches.len() == 0 {
        Seq::empty()
    } else {
        all_reasons(batches.drop_last()) + reasons_in(batches.last()@)
    }
}

/// `t` has an entry for `r`.
pub open spec fn has_label(t: Seq<(Seq<char>, nat)>, r: Seq<char>) -> bool {
    exists|k: int| 0 <= k < t.len() && #[trigger] t[k].0 == r
}

/// The entry of `t` for `r`.
pub open spec fn label_index(t: Seq<(Seq<char>, nat)>, r: Seq<char>) -> int {
    choose|k: int| 0 <= k < t.len() && #[trigger] t[k].0 == r
}

/// No label occurs twice in `t`.
pub open spec fn distinct_labels(t: Seq<(Seq<char>, nat)>) -> bool {
    forall|i: int, j: int| 0 <= i < j < t.len() ==> t[i].0 != t[j].0
}

/// `t` with one more count for `r`: its entry incremented, or a new entry at the end.
pub open spec fn bump(t: Seq<(Seq<char>, nat)>, r: Seq<char>) -> Seq<(Seq<char>, nat)> {
    if has_label(t, r) {
        let k = label_index(t, r);
        t.update(k, (r, t[k].1 + 1))
    } else {
        t.push((r, 1nat))
    }
}

/// Each distinct label of `rs` with its number of occurrences, in order of first occurrence.
pub open spec fn tally(rs: Seq<Seq<char>>) -> Seq<(Seq<char>, nat)>
    decreases rs.len(),
{
    if rs.len() == 0 {
        Seq::empty()
    } else {
        bump(tally(rs.drop_last()), rs.last())
    }
}

/// The part of a reason before its first ':' (all of it when it has none).
pub open spec fn category_of(r: Seq<char>) -> Seq<char>
    decreases r.len(),
{
    if r.len() == 0 {
        r
    } else if r[0] == ':' {
        Seq::empty()
    } else {
        seq![r[0]] + category_of(r.drop_first())
    }
}

/// The position at which an entry with count `c` goes among entries sorted
/// most frequent first: after every entry with at least that count.
pub open spec fn insert_pos(sorted: Seq<(Seq<char>, nat)>, c: nat) -> nat
    decreases sorted.len(),
{
    if sorted.len() == 0 {
        0
    } else if sorted[0].1 < c {
        0
    } else {
        1 + insert_pos(sorted.drop_first(), c)
    }
}

/// The entries sorted most frequent first, entries with equal counts keeping their order.
pub open spec fn sort_by_count(t: Seq<(Seq<char>, nat)>) -> Seq<(Seq<char>, nat)>
    decreases t.len(),
{
    if t.len() == 0 {
        Seq::empty()
    } else {
        let s = sort_by_count(t.drop_last());
        s.insert(insert_pos(s, t.last().1) as int, t.last())
    }
}

/// The first `n` entries, or all of them when there are fewer.
pub open spec fn first_n<A>(s: Seq<A>, n: nat) -> Seq<A> {
    if s.len() <= n {
        s
    } else {
        s.take(n as int)
    }
}

/// The counts of each batch, in order.
pub open spec fn batch_counts_spec(batches: Seq<Vec<ScoredOutcome>>) -> Seq<BatchCounts> {
    Seq::new(
        batches.len(),
        |i: int|
            BatchCounts {
                batch_index: i as usize,
                count: batches[i]@.len() as usize,
                fraudulent: fraudulent_in(batches[i]@) as usize,
            },
    )
}

/// The labels of `s`, each once, in order of first occurrence.
pub open spec fn distinct_in(s: Seq<Seq<char>>) -> Seq<Seq<char>>
    decreases s.len(),
{
    if s.len() == 0 {
        Seq::empty()
    } else {
        let d = distinct_in(s.drop_last());
        if d.contains(s.last()) {
            d
        } else {
            d.push(s.last())
        }
    }
}

/// The categories of the reasons of an outcome, in order.
pub open spec fn reason_categories(o: ScoredOutcome) -> Seq<Seq<char>> {
    outcome_reasons(o).map_values(|r: Seq<char>| category_of(r))
}

/// The categories of an outcome, each once, in order of first occurrence.
pub open spec fn outcome_categories(o: ScoredOutcome) -> Seq<Seq<char>> {
    distinct_in(reason_categories(o))
}

/// The categories of each outcome of `outs`, in order.
pub open spec fn categories_in(outs: Seq<ScoredOutcome>) -> Seq<Seq<char>>
    decreases outs.len(),
{
    if outs.len() == 0 {
        Seq::empty()
    } else {
        categories_in(outs.drop_last()) + outcome_categories(outs.last())
    }
}

/// The categories of each outcome of all batches, in order.
pub open spec fn all_categories(batches: Seq<Vec<ScoredOutcome>>) -> Seq<Seq<char>>
    decreases batches.len(),
{
    if batches.len() == 0 {
        Seq::empty()
    } else {
        all_categories(batches.drop_last()) + categories_in(batches.last()@)
    }
}

/// The number of outcomes of `outs` with at least one reason in category `c`.
pub open spec fn outcomes_in_category(outs: Seq<ScoredOutcome>, c: Seq<char>) -> nat
    decreases outs.len(),
{
    if outs.len() == 0 {
        0
    } else {
        outcomes_in_category(outs.drop_last(), c) + if reason_categories(outs.last()).contains(c) {
            1nat
        } else {
            0nat
        }
    }
}

/// The number of requests of all batches with at least one reason in category `c`.
pub open spec fn requests_in_category(batches: Seq<Vec<ScoredOutcome>>, c: Seq<char>) -> nat
    decreases batches.len(),
{
    if batches.len() == 0 {
        0
    } else {
        requests_in_category(batches.drop_last(), c) + outcomes_in_category(batches.last()@, c)
    }
}

/// Generates report tallies from processed batches.
#[derive(Clone, Copy)]
pub struct ReportGenerator;

/// Tests whether `v` holds a string with the characters of `t`.
fn holds_label(v: &Vec<String>, t: &String) -> (r: bool)
    ensures
        r == v@.map_values(|s: String| s@).contains(t@),
{
    let ghost vv = v@.map_values(|s: String| s@);
    let mut i: usize = 0;
    while i < v.len()
        invariant
            i <= v@.len() == vv.len(),
            vv == v@.map_values(|s: String| s@),
            forall|k: int| 0 <= k < i ==> vv[k] != t@,
        decreases v@.len() - i,
    {
        if v[i] == *t {
            assert(vv[i as int] == t@);
            return true;
        }
        i = i + 1;
    }
    false
}

/// The categories of an outcome, each once, in order of first occurrence.
fn outcome_categories_exec(o: &ScoredOutcome) -> (r: Vec<String>)
    ensures
        r@.map_values(|s: String| s@) == outcome_categories(*o),
{
    let ghost cats = reason_categories(*o);
    let mut r: Vec<String> = Vec::new();
    let m = o.reasons.len();
    let mut k: usize = 0;
    assert(cats.take(0) =~= Seq::<Seq<char>>::empty());
    assert(r@.map_values(|s: String| s@) =~= Seq::<Seq<char>>::empty());
    while k < m
        invariant
            k <= m == o.reasons@.len() == cats.len(),
            cats == reason_categories(*o),
            r@.map_values(|s: String| s@) == distinct_in(cats.take(k as int)),
        decreases m - k,
    {
        assert(cats.take(k + 1).drop_last() =~= cats.take(k as int));
        let c = category_exec(&o.reasons[k]);
        assert(cats.take(k + 1).last() == c@);
        if !holds_label(&r, &c) {
            let ghost before = r@.map_values(|s: String| s@);
            r.push(c);
            assert(r@.map_values(|s: String| s@) =~= before.push(c@));
        }
        k = k + 1;
    }
    assert(cats.take(m as int) =~= cats);
    r
}

/// The reasons of `outs` appended to `flat` and their categories to `cats`,
/// with the fraudulent outcomes counted.
fn collect_batch(outs: &Vec<ScoredOutcome>, flat: &mut Vec<String>, cats: &mut Vec<String>) -> (fraudulent: usize)
    ensures
        final(flat)@.map_values(|s: String| s@) == old(flat)@.map_values(|s: String| s@)
            + reasons_in(outs@),
        final(cats)@.map_values(|s: String| s@) == old(cats)@.map_values(|s: String| s@)
            + categories_in(outs@),
        fraudulent == fraudulent_in(outs@),
{
    let ghost cstart = old(cats)@.map_values(|s: String| s@);
    assert(cstart + categories_in(Seq::<ScoredOutcome>::empty()) =~= cstart);
    let n = outs.len();
    let mut fraudulent: usize = 0;
    let mut i: usize = 0;
    let ghost start = old(flat)@.map_values(|s: String| s@);
    assert(outs@.take(0) =~= Seq::<ScoredOutcome>::empty());
    assert(start + reasons_in(Seq::<ScoredOutcome>::empty()) =~= start);
    while i < n
        invariant
            i <= n == outs@.len(),
            flat@.map_values(|s: String| s@) == start + reasons_in(outs@.take(i as int)),
            cats@.map_values(|s: String| s@) == cstart + categories_in(outs@.take(i as int)),
            fraudulent == fraudulent_in(outs@.take(i as int)),
            fraudulent <= i,
        decreases n - i,
    {
        assert(outs@.take(i + 1).drop_last() =~= outs@.take(i as int));
        let o = &outs[i];
        let ghost before = flat@.map_values(|s: String| s@);
        let m = o.reasons.len();
        let mut k: usize = 0;
        while k < m
            invariant
                k <= m == o.reasons@.len(),
                flat@.map_values(|s: String| s@) == before + outcome_reasons(*o).take(k as int),
            decreases m - k,
        {
            let ghost b2 = flat@.map_values(|s: String| s@);
            flat.push(o.reasons[k].clone());
            assert(flat@.map_values(|s: String| s@) =~= b2.push(o.reasons@[k as int]@));
            assert(outcome_reasons(*o).take(k + 1) =~= outcome_reasons(*o).take(k as int).push(
                o.reasons@[k as int]@,
            ));
            k = k + 1;
        }
        assert(outcome_reasons(*o).take(m as int) =~= outcome_reasons(*o));
        if o.is_fraudulent {
            fraudulent = fraudulent + 1;
        }
        assert(start + reasons_in(outs@.take(i + 1)) =~= before + outcome_reasons(*o));
        let oc = outcome_categories_exec(o);
        let ghost cbefore = cats@.map_values(|s: String| s@);
        let nc = oc.len();
        let mut q: usize = 0;
        while q < nc
            invariant
                q <= nc == oc@.len(),
                cats@.map_values(|s: String| s@) == cbefore + oc@.map_values(|s: String| s@).take(q as int),
            decreases nc - q,
        {
            let ghost b3 = cats@.map_values(|s: String| s@);
            cats.push(oc[q].clone());
            assert(cats@.map_values(|s: String| s@) =~= b3.push(oc@[q as int]@));
            assert(oc@.map_values(|s: String| s@).take(q + 1) =~= oc@.map_values(|s: String| s@).take(
                q as int,
            ).push(oc@[q as int]@));
            q = q + 1;
        }
        assert(oc@.map_values(|s: String| s@).take(nc as int) =~= oc@.map_values(|s: String| s@));
        assert(cstart + categories_in(outs@.take(i + 1)) =~= cbefore + outcome_categories(*o));
        i = i + 1;
    }
    assert(outs@.take(n as int) =~= outs@);
    fraudulent
}

/// The entries of `t` with one more count for `r`.
fn bump_exec(t: &mut Vec<LabelCount>, r: &String, bound: Ghost<nat>)
    requires
        distinct_labels(label_counts_view(old(t)@)),
        forall|k: int| 0 <= k < old(t)@.len() ==> #[trigger] old(t)@[k].count < bound@,
        1 <= bound@ <= u64::MAX,
    ensures
        label_counts_view(final(t)@) == bump(label_counts_view(old(t)@), r@),
        distinct_labels(label_counts_view(final(t)@)),
        forall|k: int| 0 <= k < final(t)@.len() ==> #[trigger] final(t)@[k].count <= bound@,
{
    let ghost tv = label_counts_view(old(t)@);
    let n = t.len();
    let mut k: usize = 0;
    while k < n
        invariant
            k <= n == t@.len(),
            t@ == old(t)@,
            tv == label_counts_view(t@),
            distinct_labels(tv),
            forall|j: int| 0 <= j < t@.len() ==> #[trigger] t@[j].count < bound@,
            bound@ <= u64::MAX,
            forall|j: int| 0 <= j < k ==> tv[j].0 != r@,
        decreases n - k,
    {
        if t[k].label == *r {
            assert(tv[k as int].0 == r@);
            assert(has_label(tv, r@));
            proof {
                let li = label_index(tv, r@);
                assert(0 <= li < tv.len() && tv[li].0 == r@);
                if li < k {
                    assert(tv[li].0 != tv[k as int].0);
                } else if li > k {
                    assert(tv[k as int].0 != tv[li].0);
                }
            }
            assert(t@[k as int].count < bound@);
            let c = t[k].count + 1;
            let entry = LabelCount { label: r.clone(), count: c };
            t.set(k, entry);
            assert(label_counts_view(t@) =~= bump(tv, r@));
            assert(distinct_labels(label_counts_view(t@)));
            return;
        }
        k = k + 1;
    }
    assert(!has_label(tv, r@));
    t.push(LabelCount { label: r.clone(), count: 1 });
    assert(label_counts_view(t@) =~= bump(tv, r@));
    assert forall|i: int, j: int| 0 <= i < j < label_counts_view(t@).len() implies label_counts_view(
        t@,
    )[i].0 != label_counts_view(t@)[j].0 by {
        if j == n {
            assert(tv[i].0 != r@);
        }
    }
}

/// Each distinct string of `rs` with its number of occurrences, in order of first occurrence.
fn tally_exec(rs: &Vec<String>) -> (t: Vec<LabelCount>)
    requires
        rs@.len() <= u64::MAX,
    ensures
        label_counts_view(t@) == tally(rs@.map_values(|s: String| s@)),
        distinct_labels(label_counts_view(t@)),
{
    let ghost rv = rs@.map_values(|s: String| s@);
    let mut t: Vec<LabelCount> = Vec::new();
    let n = rs.len();
    let mut i: usize = 0;
    assert(rv.take(0) =~= Seq::<Seq<char>>::empty());
    while i < n
        invariant
            i <= n == rs@.len() <= u64::MAX,
            rv == rs@.map_values(|s: String| s@),
            label_counts_view(t@) == tally(rv.take(i as int)),
            distinct_labels(label_counts_view(t@)),
            forall|k: int| 0 <= k < t@.len() ==> #[trigger] t@[k].count <= i,
        decreases n - i,
    {
        assert(rv.take(i + 1).drop_last() =~= rv.take(i as int));
        bump_exec(&mut t, &rs[i], Ghost((i + 1) as nat));
        i = i + 1;
    }
    assert(rv.take(n as int) =~= rv);
    t
}

/// The part of a reason before its first ':'.
fn category_exec(r: &String) -> (c: String)
    ensures
        c@ == category_of(r@),
{
    let chars = crate::text::chars_of(r.as_str());
    let n = chars.len();
    let mut i: usize = 0;
    assert(chars@.skip(0) =~= chars@);
    assert(chars@.take(0) + category_of(chars@.skip(0)) =~= category_of(chars@));
    while i < n && chars[i] != ':'
        invariant
            i <= n == chars@.len(),
            category_of(chars@) == chars@.take(i as int) + category_of(chars@.skip(i as int)),
        decreases n - i,
    {
        assert(chars@.skip(i as int).drop_first() =~= chars@.skip(i + 1));
        assert(chars@.take(i + 1) =~= chars@.take(i as int).push(chars@[i as int]));
        assert(chars@.take(i as int) + (seq![chars@[i as int]] + category_of(chars@.skip(i + 1)))
            =~= chars@.take(i + 1) + category_of(chars@.skip(i + 1)));
        i = i + 1;
    }
    assert(category_of(chars@.skip(i as int)) =~= Seq::<char>::empty());
    let prefix = crate::text::sub_chars(&chars, 0, i);
    assert(prefix@ =~= chars@.take(i as int));
    crate::text::string_from_chars(prefix.as_slice())
}

/// The entries sorted most frequent first, equal counts keeping their order.
fn sort_exec(t: &Vec<LabelCount>) -> (s: Vec<LabelCount>)
    ensures
        label_counts_view(s@) == sort_by_count(label_counts_view(t@)),
{
    let ghost tv = label_counts_view(t@);
    let mut s: Vec<LabelCount> = Vec::new();
    let n = t.len();
    let mut i: usize = 0;
    assert(tv.take(0) =~= Seq::<(Seq<char>, nat)>::empty());
    while i < n
        invariant
            i <= n == t@.len(),
            tv == label_counts_view(t@),
            label_counts_view(s@) == sort_by_count(tv.take(i as int)),
            s@.len() == i,
        decreases n - i,
    {
        assert(tv.take(i + 1).drop_last() =~= tv.take(i as int));
        let ghost sv = label_counts_view(s@);
        let c = t[i].count;
        let m = s.len();
        let mut p: usize = 0;
        assert(sv.skip(0) =~= sv);
        while p < m && s[p].count >= c
            invariant
                p <= m == s@.len(),
                sv == label_counts_view(s@),
                insert_pos(sv, c as nat) == p + insert_pos(sv.skip(p as int), c as nat),
            decreases m - p,
        {
            assert(sv.skip(p as int).drop_first() =~= sv.skip(p + 1));
            p = p + 1;
        }
        let entry = t[i].clone_entry();
        s.insert(p, entry);
        assert(label_counts_view(s@) =~= sv.insert(p as int, tv[i as int]));
        i = i + 1;
    }
    assert(tv.take(n as int) =~= tv);
    s
}

impl LabelCount {
    /// A copy of this entry.
    pub fn clone_entry(&self) -> (r: LabelCount)
        ensures
            label_count_view(r) == label_count_view(*self),
    {
        LabelCount { label: self.label.clone(), count: self.count }
    }
}

impl ReportGenerator {
    /// Creates a new `ReportGenerator`.
    pub fn new() -> (r: Self) {
        ReportGenerator
    }

    /// Tallies processed batches: totals, reason counts, the number of requests
    /// in each category, the 20 most frequent reasons and per-batch counts.
    pub fn tally(&self, batches: &Vec<Vec<ScoredOutcome>>) -> (r: ReportCounts)
        requires
            total_in(batches@) <= u64::MAX,
            all_reasons(batches@).len() <= u64::MAX,
        ensures
            r.total_requests == total_in(batches@),
            r.fraudulent_requests == fraudulent_total(batches@),
            label_counts_view(r.reason_counts@) == tally(all_reasons(batches@)),
            label_counts_view(r.top_reasons@) == first_n(
                sort_by_count(tally(all_reasons(batches@))),
                20,
            ),
            label_counts_view(r.category_breakdown@) == tally(all_categories(batches@)),
            r.batches@ == batch_counts_spec(batches@),
    {
        let nb = batches.len();
        let mut flat: Vec<String> = Vec::new();
        let mut cat_flat: Vec<String> = Vec::new();
        let mut total: u64 = 0;
        let mut fraudulent: u64 = 0;
        let mut summaries: Vec<BatchCounts> = Vec::new();
        let mut b: usize = 0;
        assert(batches@.take(0) =~= Seq::<Vec<ScoredOutcome>>::empty());
        while b < nb
            invariant
                b <= nb == batches@.len(),
                total_in(batches@) <= u64::MAX,
                flat@.map_values(|s: String| s@) == all_reasons(batches@.take(b as int)),
                cat_flat@.map_values(|s: String| s@) == all_categories(batches@.take(b as int)),
                total == total_in(batches@.take(b as int)),
                fraudulent == fraudulent_total(batches@.take(b as int)),
                fraudulent <= total,
                summaries@ == batch_counts_spec(batches@).take(b as int),
            decreases nb - b,
        {
            assert(batches@.take(b + 1).drop_last() =~= batches@.take(b as int));
            proof {
                lemma_total_prefix(batches@, b + 1);
            }
            let batch = &batches[b];
            let f = collect_batch(batch, &mut flat, &mut cat_flat);
            assert(fraudulent_in(batch@) <= batch@.len()) by {
                lemma_fraudulent_bounded(batch@);
            }
            total = total + batch.len() as u64;
            fraudulent = fraudulent + f as u64;
            summaries.push(BatchCounts { batch_index: b, count: batch.len(), fraudulent: f });
            assert(summaries@ =~= batch_counts_spec(batches@).take(b + 1));
            b = b + 1;
        }
        assert(batches@.take(nb as int) =~= batches@);
        let reason_counts = tally_exec(&flat);
        assert(cat_flat@.len() == cat_flat.len());
        assert(usize::MAX <= u64::MAX);
        let category_breakdown = tally_exec(&cat_flat);
        let sorted = sort_exec(&reason_counts);
        let mut top: Vec<LabelCount> = Vec::new();
        let ns = sorted.len();
        let limit: usize = if ns < 20 {
            ns
        } else {
            20
        };
        let mut j: usize = 0;
        while j < limit
            invariant
                j <= limit <= sorted@.len(),
                top@.len() == j,
                forall|k: int| 0 <= k < j ==> #[trigger] label_count_view(top@[k]) == label_count_view(sorted@[k]),
            decreases limit - j,
        {
            top.push(sorted[j].clone_entry());
            j = j + 1;
        }
        assert(label_counts_view(top@) =~= first_n(label_counts_view(sorted@), 20));
        ReportCounts {
            total_requests: total,
            fraudulent_requests: fraudulent,
            reason_counts,
            top_reasons: top,
            category_breakdown,
            batches: summaries,
        }
    }
}

impl Default for ReportGenerator {
    fn default() -> (r: Self) {
        Self::new()
    }
}

/// The counts of a prefix of the batches never exceed the counts of all of them.
proof fn lemma_total_prefix(batches: Seq<Vec<ScoredOutcome>>, k: int)
    requires
        0 <= k <= batches.len(),
    ensures
        total_in(batches.take(k)) <= total_in(batches),
    decreases batches.len() - k,
{
    if k < batches.len() {
        lemma_total_prefix(batches, k + 1);
        assert(batches.take(k + 1).drop_last() =~= batches.take(k));
    } else {
        assert(batches.take(k) =~= batches);
    }
}

/// No more outcomes are fraudulent than there are outcomes.
proof fn lemma_fraudulent_bounded(outs: Seq<ScoredOutcome>)
    ensures
        fraudulent_in(outs) <= outs.len(),
    decreases outs.len(),
{
    if outs.len() > 0 {
        lemma_fraudulent_bounded(outs.drop_last());
    }
}

/// The sum of the counts.
pub open spec fn label_sum(t: Seq<(Seq<char>, nat)>) -> nat
    decreases t.len(),
{
    if t.len() == 0 {
        0
    } else {
        label_sum(t.drop_last()) + t.last().1
    }
}

/// How many times `r` occurs in `rs`.
pub open spec fn occurrences(rs: Seq<Seq<char>>, r: Seq<char>) -> nat
    decreases rs.len(),
{
    if rs.len() == 0 {
        0
    } else {
        occurrences(rs.drop_last(), r) + if rs.last() == r {
            1nat
        } else {
            0nat
        }
    }
}

/// The sum of the counts of a category breakdown, over which each category's share is taken.
pub fn flagged_total(counts: &Vec<LabelCount>) -> (r: u64)
    requires
        label_sum(label_counts_view(counts@)) <= u64::MAX,
    ensures
        r == label_sum(label_counts_view(counts@)),
{
    let ghost cv = label_counts_view(counts@);
    let n = counts.len();
    let mut total: u64 = 0;
    let mut i: usize = 0;
    assert(cv.take(0) =~= Seq::<(Seq<char>, nat)>::empty());
    while i < n
        invariant
            i <= n == counts@.len() == cv.len(),
            cv == label_counts_view(counts@),
            label_sum(cv) <= u64::MAX,
            total == label_sum(cv.take(i as int)),
        decreases n - i,
    {
        assert(cv.take(i + 1).drop_last() =~= cv.take(i as int));
        proof {
            lemma_label_sum_prefix(cv, i + 1);
        }
        total = total + counts[i].count;
        i = i + 1;
    }
    assert(cv.take(n as int) =~= cv);
    total
}

/// The counts of a prefix never exceed the counts of the whole.
proof fn lemma_label_sum_prefix(t: Seq<(Seq<char>, nat)>, k: int)
    requires
        0 <= k <= t.len(),
    ensures
        label_sum(t.take(k)) <= label_sum(t),
    decreases t.len() - k,
{
    if k < t.len() {
        lemma_label_sum_prefix(t, k + 1);
        assert(t.take(k + 1).drop_last() =~= t.take(k));
    } else {
        assert(t.take(k) =~= t);
    }
}

/// Raising one count by one raises the sum by one.
proof fn lemma_label_sum_bump(t: Seq<(Seq<char>, nat)>, k: int, r: Seq<char>)
    requires
        0 <= k < t.len(),
    ensures
        label_sum(t.update(k, (r, t[k].1 + 1))) == label_sum(t) + 1,
    decreases t.len(),
{
    if k < t.len() - 1 {
        lemma_label_sum_bump(t.drop_last(), k, r);
        assert(t.update(k, (r, t[k].1 + 1)).drop_last() =~= t.drop_last().update(k, (r, t[k].1 + 1)));
    } else {
        assert(t.update(k, (r, t[k].1 + 1)).drop_last() =~= t.drop_last());
    }
}

/// A tally accounts for every label exactly: its labels are distinct, each
/// entry's count is the number of occurrences of its label, a label without an
/// entry does not occur, and the counts add up to the number of labels counted.
pub proof fn lemma_tally_counts_occurrences(rs: Seq<Seq<char>>)
    ensures
        distinct_labels(tally(rs)),
        forall|k: int| 0 <= k < tally(rs).len() ==> #[trigger] tally(rs)[k].1 == occurrences(rs, tally(rs)[k].0),
        forall|r: Seq<char>| !has_label(tally(rs), r) ==> occurrences(rs, r) == 0,
        label_sum(tally(rs)) == rs.len(),
    decreases rs.len(),
{
    if rs.len() > 0 {
        let prev = rs.drop_last();
        let x = rs.last();
        lemma_tally_counts_occurrences(prev);
        let t = tally(prev);
        if has_label(t, x) {
            let k = label_index(t, x);
            lemma_label_sum_bump(t, k, x);
            let u = t.update(k, (x, t[k].1 + 1));
            assert(t[k].0 == x);
            assert(u[k].0 == x);
            assert(tally(rs) == u);
            assert forall|j: int| 0 <= j < u.len() implies #[trigger] u[j].1 == occurrences(rs, u[j].0) by {
                if j != k {
                    assert(t[j].0 != t[k].0);
                }
            }
            assert forall|r: Seq<char>| !has_label(u, r) implies occurrences(rs, r) == 0 by {
                if r == x {
                    assert(u[k].0 == r);
                    assert(has_label(u, r));
                }
                if has_label(t, r) {
                    let j = label_index(t, r);
                    assert(t[j].0 == r);
                    assert(u[j] == t[j]);
                    assert(u[j].0 == r);
                    assert(has_label(u, r));
                }
                assert(occurrences(prev, r) == 0);
            }
        } else {
            let u = t.push((x, 1nat));
            assert(tally(rs) == u);
            assert(u.drop_last() =~= t);
            assert(occurrences(prev, x) == 0);
            assert forall|j: int| 0 <= j < u.len() implies #[trigger] u[j].1 == occurrences(rs, u[j].0) by {
                if j < t.len() {
                    assert(u[j] == t[j]);
                    assert(t[j].1 == occurrences(prev, t[j].0));
                    if t[j].0 == x {
                        assert(has_label(t, x));
                    }
                }
            }
            assert forall|r: Seq<char>| !has_label(u, r) implies occurrences(rs, r) == 0 by {
                if has_label(t, r) {
                    let j = label_index(t, r);
                    assert(t[j].0 == r);
                    assert(u[j] == t[j]);
                    assert(has_label(u, r));
                }
                assert(u[t.len() as int].0 == x);
                if r == x {
                    assert(has_label(u, r));
                }
                assert(occurrences(prev, r) == 0);
            }
        }
    }
}

/// The position at which an entry goes: after every entry with at least its
/// count, before the first entry with fewer.
proof fn lemma_insert_pos(s: Seq<(Seq<char>, nat)>, c: nat)
    ensures
        insert_pos(s, c) <= s.len(),
        forall|i: int| 0 <= i < insert_pos(s, c) ==> #[trigger] s[i].1 >= c,
        insert_pos(s, c) < s.len() ==> s[insert_pos(s, c) as int].1 < c,
    decreases s.len(),
{
    if s.len() > 0 && s[0].1 >= c {
        lemma_insert_pos(s.drop_first(), c);
        assert forall|i: int| 0 <= i < insert_pos(s, c) implies #[trigger] s[i].1 >= c by {
            if i > 0 {
                assert(s[i] == s.drop_first()[i - 1]);
            }
        }
    }
}

/// Sorting by count yields the same entries, most frequent first.
pub proof fn lemma_sort_by_count_sorted(t: Seq<(Seq<char>, nat)>)
    ensures
        sort_by_count(t).len() == t.len(),
        sort_by_count(t).to_multiset() == t.to_multiset(),
        forall|i: int, j: int| 0 <= i < j < t.len() ==> sort_by_count(t)[i].1 >= sort_by_count(t)[j].1,
    decreases t.len(),
{
    broadcast use vstd::seq_lib::to_multiset_insert, vstd::seq_lib::to_multiset_build;

    if t.len() > 0 {
        let prev = t.drop_last();
        lemma_sort_by_count_sorted(prev);
        let s = sort_by_count(prev);
        let x = t.last();
        let p = insert_pos(s, x.1);
        lemma_insert_pos(s, x.1);
        let u = s.insert(p as int, x);
        assert(sort_by_count(t) == u);
        assert(prev.push(x) =~= t);
        assert(u.to_multiset() == s.to_multiset().insert(x));
        assert(prev.push(x).to_multiset() == prev.to_multiset().insert(x));
        assert forall|i: int, j: int| 0 <= i < j < u.len() implies u[i].1 >= u[j].1 by {
            if j < p {
            } else if j == p {
                assert(u[i] == s[i]);
            } else if i < p {
                assert(u[j] == s[j - 1]);
                if p < s.len() {
                    assert(s[p as int].1 >= s[j - 1].1 || j - 1 == p);
                }
            } else if i == p {
                assert(u[j] == s[j - 1]);
                assert(s[p as int].1 < x.1);
                assert(s[p as int].1 >= s[j - 1].1 || j - 1 == p);
            } else {
                assert(u[i] == s[i - 1]);
                assert(u[j] == s[j - 1]);
            }
        }
    } else {
        assert(t =~= Seq::<(Seq<char>, nat)>::empty());
    }
}

/// Counting in two sequences laid end to end adds the counts.
proof fn lemma_occurrences_append(a: Seq<Seq<char>>, b: Seq<Seq<char>>, c: Seq<char>)
    ensures
        occurrences(a + b, c) == occurrences(a, c) + occurrences(b, c),
    decreases b.len(),
{
    if b.len() > 0 {
        lemma_occurrences_append(a, b.drop_last(), c);
        assert((a + b).drop_last() =~= a + b.drop_last());
    } else {
        assert(a + b =~= a);
    }
}

/// Keeping the first occurrence of each label keeps every label once.
proof fn lemma_distinct_in(s: Seq<Seq<char>>, c: Seq<char>)
    ensures
        distinct_in(s).contains(c) <==> s.contains(c),
        occurrences(distinct_in(s), c) == if s.contains(c) {
            1nat
        } else {
            0nat
        },
    decreases s.len(),
{
    if s.len() > 0 {
        let prev = s.drop_last();
        let x = s.last();
        let d = distinct_in(prev);
        lemma_distinct_in(prev, c);
        lemma_distinct_in(prev, x);
        assert(s =~= prev.push(x));
        assert(s.contains(c) <==> (prev.contains(c) || x == c)) by {
            if prev.contains(c) {
                let k = choose|k: int| 0 <= k < prev.len() && prev[k] == c;
                assert(s[k] == c);
            }
            if x == c {
                assert(s[s.len() - 1] == c);
            }
            if s.contains(c) && x != c {
                let k = choose|k: int| 0 <= k < s.len() && s[k] == c;
                assert(prev[k] == c);
            }
        }
        if !d.contains(x) {
            let e = d.push(x);
            assert(e.drop_last() =~= d);
            assert(e.contains(c) <==> (d.contains(c) || x == c)) by {
                if d.contains(c) {
                    let k = choose|k: int| 0 <= k < d.len() && d[k] == c;
                    assert(e[k] == c);
                }
                if x == c {
                    assert(e[e.len() - 1] == c);
                }
                if e.contains(c) && x != c {
                    let k = choose|k: int| 0 <= k < e.len() && e[k] == c;
                    assert(d[k] == c);
                }
            }
        }
    }
}

/// The categories listed for the outcomes count, for each category, the
/// outcomes with at least one reason in it.
proof fn lemma_categories_in_count(outs: Seq<ScoredOutcome>, c: Seq<char>)
    ensures
        occurrences(categories_in(outs), c) == outcomes_in_category(outs, c),
    decreases outs.len(),
{
    if outs.len() > 0 {
        lemma_categories_in_count(outs.drop_last(), c);
        lemma_occurrences_append(categories_in(outs.drop_last()), outcome_categories(outs.last()), c);
        lemma_distinct_in(reason_categories(outs.last()), c);
    }
}

/// The categories listed for all batches count, for each category, the
/// requests with at least one reason in it.
proof fn lemma_all_categories_count(batches: Seq<Vec<ScoredOutcome>>, c: Seq<char>)
    ensures
        occurrences(all_categories(batches), c) == requests_in_category(batches, c),
    decreases batches.len(),
{
    if batches.len() > 0 {
        lemma_all_categories_count(batches.drop_last(), c);
        lemma_occurrences_append(all_categories(batches.drop_last()), categories_in(batches.last()@), c);
        lemma_categories_in_count(batches.last()@, c);
    }
}

/// Each category of the breakdown counts the requests that have at least one
/// reason in it, and a category left out of the breakdown has no such request.
pub proof fn lemma_category_counts_requests(batches: Seq<Vec<ScoredOutcome>>)
    ensures
        forall|k: int|
            0 <= k < tally(all_categories(batches)).len() ==> #[trigger] tally(
                all_categories(batches),
            )[k].1 == requests_in_category(batches, tally(all_categories(batches))[k].0),
        forall|c: Seq<char>|
            !has_label(tally(all_categories(batches)), c) ==> requests_in_category(batches, c) == 0,
{
    let cs = all_categories(batches);
    lemma_tally_counts_occurrences(cs);
    assert forall|k: int| 0 <= k < tally(cs).len() implies #[trigger] tally(cs)[k].1
        == requests_in_category(batches, tally(cs)[k].0) by {
        lemma_all_categories_count(batches, tally(cs)[k].0);
    }
    assert forall|c: Seq<char>| !has_label(tally(cs), c) implies requests_in_category(batches, c)
        == 0 by {
        lemma_all_categories_count(batches, c);
    }
}

/// A report never counts more fraudulent requests than requests.
pub proof fn lemma_fraudulent_within_total(batches: Seq<Vec<ScoredOutcome>>)
    ensures
        fraudulent_total(batches) <= total_in(batches),
    decreases batches.len(),
{
    if batches.len() > 0 {
        lemma_fraudulent_within_total(batches.drop_last());
        lemma_fraudulent_bounded(batches.last()@);
    }
}

} // verus!
