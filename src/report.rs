use vstd::prelude::*;

use crate::classifier::{classify_all, find_test_lines};
use crate::outcome::{TestOutcome, TestRecord, RecordView, records_view};
use crate::text::chars_of;

verus! {

/// Where the last `::` of `s` begins, when `s` is split on `::` from the left and
/// the scan stands at `i`; `acc` is the last one found before `i`, or -1.
pub open spec fn last_split(s: Seq<char>, i: int, acc: int) -> int
    decreases s.len() - i,
{
    if i < 0 || i + 1 >= s.len() {
        acc
    } else if s[i] == ':' && s[i + 1] == ':' {
        last_split(s, i + 2, i)
    } else {
        last_split(s, i + 1, acc)
    }
}

/// The suite of a qualified name: all its `::`-separated segments but the last,
/// joined again by `::`; the empty name when there is a single segment.
pub open spec fn suite_key(name: Seq<char>) -> Seq<char> {
    let p = last_split(name, 0, -1);
    if p < 0 {
        Seq::empty()
    } else {
        name.take(p)
    }
}

pub open spec fn key_of(r: RecordView) -> Seq<char> {
    suite_key(r.0)
}

/// The suites of `recs`, each once, in the order in which a record of each first comes.
pub open spec fn suite_keys(recs: Seq<RecordView>) -> Seq<Seq<char>>
    decreases recs.len(),
{
    if recs.len() == 0 {
        Seq::empty()
    } else {
        let ks = suite_keys(recs.drop_last());
        let k = key_of(recs.last());
        if ks.contains(k) {
            ks
        } else {
            ks.push(k)
        }
    }
}

/// The records of `recs` that belong to suite `k`, in their order.
pub open spec fn members(recs: Seq<RecordView>, k: Seq<char>) -> Seq<RecordView>
    decreases recs.len(),
{
    if recs.len() == 0 {
        Seq::empty()
    } else {
        let m = members(recs.drop_last(), k);
        if key_of(recs.last()) == k {
            m.push(recs.last())
        } else {
            m
        }
    }
}

/// How many records of `recs` have outcome `o`.
pub open spec fn count_of(recs: Seq<RecordView>, o: TestOutcome) -> nat
    decreases recs.len(),
{
    if recs.len() == 0 {
        0
    } else {
        count_of(recs.drop_last(), o) + if recs.last().1 == o {
            1nat
        } else {
            0nat
        }
    }
}

/// Where the first record of suite `k` stands in `recs`, or -1 when there is none.
pub open spec fn first_index(recs: Seq<RecordView>, k: Seq<char>) -> int
    decreases recs.len(),
{
    if recs.len() == 0 {
        -1
    } else {
        let f = first_index(recs.drop_last(), k);
        if f >= 0 {
            f
        } else if key_of(recs.last()) == k {
            recs.len() - 1
        } else {
            -1
        }
    }
}

/// The three outcome counts of any sequence of records add up to its length.
pub proof fn lemma_counts_sum_to_len(recs: Seq<RecordView>)
    ensures
        count_of(recs, TestOutcome::Passed) + count_of(recs, TestOutcome::Failed) + count_of(
            recs,
            TestOutcome::Ignored,
        ) == recs.len(),
    decreases recs.len(),
{
    if recs.len() > 0 {
        lemma_counts_sum_to_len(recs.drop_last());
    }
}

/// The totals of a report add up to the number of records it was built from, and
/// the outcome counts of each suite add up to that suite's number of records.
pub proof fn lemma_totals_count_every_record(recs: Seq<RecordView>)
    ensures
        aggregate_spec(recs).1.0 + aggregate_spec(recs).1.1 + aggregate_spec(recs).1.2
            == recs.len(),
        forall|j: int|
            0 <= j < aggregate_spec(recs).0.len() ==> count_of(
                #[trigger] aggregate_spec(recs).0[j].1,
                TestOutcome::Passed,
            ) + count_of(aggregate_spec(recs).0[j].1, TestOutcome::Failed) + count_of(
                aggregate_spec(recs).0[j].1,
                TestOutcome::Ignored,
            ) == aggregate_spec(recs).0[j].1.len(),
{
    lemma_counts_sum_to_len(recs);
    assert forall|j: int| 0 <= j < aggregate_spec(recs).0.len() implies count_of(
        #[trigger] aggregate_spec(recs).0[j].1,
        TestOutcome::Passed,
    ) + count_of(aggregate_spec(recs).0[j].1, TestOutcome::Failed) + count_of(
        aggregate_spec(recs).0[j].1,
        TestOutcome::Ignored,
    ) == aggregate_spec(recs).0[j].1.len() by {
        lemma_counts_sum_to_len(aggregate_spec(recs).0[j].1);
    }
}

/// Aggregating the same records twice gives the same report: the same suites in
/// the same order, the same records in each, and the same totals.
pub proof fn lemma_aggregation_is_deterministic(
    recs: Seq<RecordView>,
    first: ReportView,
    second: ReportView,
)
    requires
        first == aggregate_spec(recs),
        second == aggregate_spec(recs),
    ensures
        first.0.len() == second.0.len(),
        forall|j: int| 0 <= j < first.0.len() ==> #[trigger] first.0[j] == second.0[j],
        first.1 == second.1,
        first == second,
{
}

/// Each record belongs to the suite of its own name and to no other: it stands
/// among the members of that suite, and every member of a suite has that suite's
/// name.
pub proof fn lemma_each_record_in_its_suite(recs: Seq<RecordView>, k: Seq<char>)
    ensures
        forall|i: int| 0 <= i < recs.len() ==> members(recs, key_of(recs[i])).contains(#[trigger] recs[i]),
        forall|x: RecordView| #[trigger] members(recs, k).contains(x) ==> key_of(x) == k,
    decreases recs.len(),
{
    if recs.len() > 0 {
        let prefix = recs.drop_last();
        lemma_each_record_in_its_suite(prefix, k);
        assert forall|i: int| 0 <= i < recs.len() implies members(recs, key_of(recs[i])).contains(
            #[trigger] recs[i],
        ) by {
            let ki = key_of(recs[i]);
            lemma_each_record_in_its_suite(prefix, ki);
            let m = members(prefix, ki);
            if i < prefix.len() {
                assert(recs[i] == prefix[i]);
                assert(m.contains(prefix[i]));
                let l = choose|l: int| 0 <= l < m.len() && m[l] == prefix[i];
                if key_of(recs.last()) == ki {
                    assert(m.push(recs.last())[l] == recs[i]);
                }
            } else {
                assert(m.push(recs.last())[m.len() as int] == recs[i]);
            }
        }
        assert forall|x: RecordView| #[trigger] members(recs, k).contains(x) implies key_of(x) == k by {
            let m = members(prefix, k);
            if key_of(recs.last()) == k {
                let l = choose|l: int| 0 <= l < m.len() + 1 && m.push(recs.last())[l] == x;
                if l < m.len() {
                    assert(m.contains(m[l]));
                }
            }
        }
    }
}

proof fn lemma_first_index_bounds(recs: Seq<RecordView>, k: Seq<char>)
    ensures
        -1 <= first_index(recs, k) < recs.len(),
        first_index(recs, k) >= 0 <==> suite_keys(recs).contains(k),
        first_index(recs, k) >= 0 ==> key_of(recs[first_index(recs, k)]) == k,
    decreases recs.len(),
{
    if recs.len() > 0 {
        let prefix = recs.drop_last();
        lemma_first_index_bounds(prefix, k);
        let ks = suite_keys(prefix);
        if !ks.contains(key_of(recs.last())) {
            assert(ks.push(key_of(recs.last())).contains(k) <==> (ks.contains(k) || key_of(
                recs.last(),
            ) == k)) by {
                if ks.push(key_of(recs.last())).contains(k) && !ks.contains(k) {
                    let l = choose|l: int|
                        0 <= l < ks.len() + 1 && ks.push(key_of(recs.last()))[l] == k;
                    assert(l == ks.len());
                }
                if ks.contains(k) {
                    let l = choose|l: int| 0 <= l < ks.len() && ks[l] == k;
                    assert(ks.push(key_of(recs.last()))[l] == k);
                }
                if key_of(recs.last()) == k {
                    assert(ks.push(key_of(recs.last()))[ks.len() as int] == k);
                }
            }
        }
    }
}

/// Suites come in the order in which a record of each first appears, not in the
/// order of their names: each suite has a first record, a suite listed earlier has
/// its first record earlier, no suite is listed twice, and every record's suite is
/// listed.
pub proof fn lemma_suites_in_order_of_first_appearance(recs: Seq<RecordView>)
    ensures
        forall|j: int|
            0 <= j < suite_keys(recs).len() ==> 0 <= #[trigger] first_index(
                recs,
                suite_keys(recs)[j],
            ),
        forall|j: int, l: int|
            0 <= j < l < suite_keys(recs).len() ==> #[trigger] first_index(
                recs,
                suite_keys(recs)[j],
            ) < #[trigger] first_index(recs, suite_keys(recs)[l]),
        suite_keys(recs).no_duplicates(),
        forall|i: int| 0 <= i < recs.len() ==> suite_keys(recs).contains(#[trigger] key_of(recs[i])),
    decreases recs.len(),
{
    if recs.len() > 0 {
        let prefix = recs.drop_last();
        let r = recs.last();
        let ks = suite_keys(prefix);
        let n = prefix.len() as int;
        lemma_suites_in_order_of_first_appearance(prefix);
        assert forall|j: int| 0 <= j < ks.len() implies #[trigger] first_index(recs, ks[j])
            == first_index(prefix, ks[j]) && first_index(prefix, ks[j]) < n by {
            lemma_first_index_bounds(prefix, ks[j]);
        }
        lemma_first_index_bounds(prefix, key_of(r));
        if ks.contains(key_of(r)) {
            assert forall|i: int| 0 <= i < recs.len() implies suite_keys(recs).contains(
                #[trigger] key_of(recs[i]),
            ) by {
                if i < n {
                    assert(recs[i] == prefix[i]);
                }
            }
        } else {
            let ks2 = ks.push(key_of(r));
            assert(first_index(recs, key_of(r)) == n);
            assert forall|j: int| 0 <= j < ks2.len() implies 0 <= #[trigger] first_index(
                recs,
                ks2[j],
            ) by {
                if j < ks.len() {
                    assert(ks2[j] == ks[j]);
                }
            }
            assert forall|j: int, l: int| 0 <= j < l < ks2.len() implies #[trigger] first_index(
                recs,
                ks2[j],
            ) < #[trigger] first_index(recs, ks2[l]) by {
                assert(ks2[j] == ks[j]);
                if l < ks.len() {
                    assert(ks2[l] == ks[l]);
                }
            }
            assert forall|j: int, l: int| 0 <= j < l < ks2.len() implies ks2[j] != ks2[l] by {
                assert(ks2[j] == ks[j]);
                if l < ks.len() {
                    assert(ks2[l] == ks[l]);
                } else {
                    assert(ks.contains(ks2[j]));
                }
            }
            assert forall|i: int| 0 <= i < recs.len() implies ks2.contains(
                #[trigger] key_of(recs[i]),
            ) by {
                if i < n {
                    assert(recs[i] == prefix[i]);
                    assert(ks.contains(key_of(prefix[i])));
                    let l = choose|l: int| 0 <= l < ks.len() && ks[l] == key_of(prefix[i]);
                    assert(ks2[l] == key_of(recs[i]));
                } else {
                    assert(ks2[ks.len() as int] == key_of(recs[i]));
                }
            }
        }
    }
}

/// A suite: its name and its records.
pub type SuiteView = (Seq<char>, Seq<RecordView>);

/// Counts of passed, failed and ignored tests.
pub type TotalsView = (nat, nat, nat);

/// The report: suites in order, and the totals.
pub type ReportView = (Seq<SuiteView>, TotalsView);

pub open spec fn totals_of(recs: Seq<RecordView>) -> TotalsView {
    (
        count_of(recs, TestOutcome::Passed),
        count_of(recs, TestOutcome::Failed),
        count_of(recs, TestOutcome::Ignored),
    )
}

/// The report that `recs` gives: one suite per suite name, in order of first
/// appearance, each with its records in order, and the counts of all records.
pub open spec fn aggregate_spec(recs: Seq<RecordView>) -> ReportView {
    (grouped(recs), totals_of(recs))
}

/// Each suite of `recs`, in order, with its records.
pub open spec fn grouped(recs: Seq<RecordView>) -> Seq<SuiteView> {
    suite_keys(recs).map_values(|k: Seq<char>| (k, members(recs, k)))
}

pub open spec fn suites_view(v: Seq<Suite>) -> Seq<SuiteView> {
    v.map_values(|s: Suite| s@)
}

pub open spec fn strings_view(v: Seq<String>) -> Seq<Seq<char>> {
    v.map_values(|s: String| s@)
}

/// The records of one suite.
#[derive(Clone, Debug)]
pub struct Suite {
    pub name: String,
    pub records: Vec<TestRecord>,
}

impl View for Suite {
    type V = SuiteView;

    open spec fn view(&self) -> SuiteView {
        (self.name@, records_view(self.records@))
    }
}

/// Counts of passed, failed and ignored tests.
#[derive(Clone, Copy, Debug, PartialEq, Eq, Structural)]
pub struct Totals {
    pub passed: usize,
    pub failed: usize,
    pub ignored: usize,
}

impl View for Totals {
    type V = TotalsView;

    open spec fn view(&self) -> TotalsView {
        (self.passed as nat, self.failed as nat, self.ignored as nat)
    }
}

/// The grouped summary of a run: suites in the order in which they first appear,
/// and the totals over all of them.
#[derive(Clone, Debug)]
pub struct OrganizedResults {
    pub suites: Vec<Suite>,
    pub totals: Totals,
}

impl View for OrganizedResults {
    type V = ReportView;

    open spec fn view(&self) -> ReportView {
        (suites_view(self.suites@), self.totals@)
    }
}

impl Suite {
    /// How many of this suite's records have outcome `o`.
    pub fn count(&self, o: TestOutcome) -> (r: usize)
        ensures
            r == count_of(self@.1, o),
    {
        let ghost recs = records_view(self.records@);
        let mut n: usize = 0;
        let mut i: usize = 0;
        while i < self.records.len()
            invariant
                i <= self.records@.len(),
                recs == records_view(self.records@),
                n == count_of(recs.take(i as int), o),
                n <= i,
            decreases self.records@.len() - i,
        {
            assert(recs.take(i + 1).drop_last() =~= recs.take(i as int));
            assert(recs.take(i + 1).last() == self.records@[i as int]@);
            if self.records[i].outcome == o {
                n = n + 1;
            }
            i = i + 1;
        }
        assert(recs.take(i as int) =~= recs);
        n
    }

    pub fn name(&self) -> (r: &str)
        ensures
            r@ == self.name@,
    {
        self.name.as_str()
    }

    pub fn records(&self) -> (r: &Vec<TestRecord>)
        ensures
            r@ == self.records@,
    {
        &self.records
    }
}

impl Totals {
    /// Passed, failed and ignored together.
    pub fn total(&self) -> (r: usize)
        requires
            self.passed + self.failed + self.ignored <= usize::MAX,
        ensures
            r == self.passed + self.failed + self.ignored,
    {
        self.passed + self.failed + self.ignored
    }
}

impl OrganizedResults {
    pub fn suites(&self) -> (r: &Vec<Suite>)
        ensures
            r@ == self.suites@,
    {
        &self.suites
    }

    pub fn totals(&self) -> (r: Totals)
        ensures
            r == self.totals,
    {
        self.totals
    }
}

/// The suite that a qualified name belongs to.
pub fn suite_name_of(name: &str) -> (r: String)
    ensures
        r@ == suite_key(name@),
{
    let v = chars_of(name);
    let n = v.len();
    let mut i: usize = 0;
    let mut found = false;
    let mut acc: usize = 0;
    while i < n && i + 1 < n
        invariant
            i <= n == v@.len(),
            n == name@.len(),
            found ==> acc + 2 <= i,
            last_split(v@, 0, -1) == last_split(v@, i as int, if found { acc as int } else { -1 }),
        decreases n - i,
    {
        if v[i] == ':' && v[i + 1] == ':' {
            found = true;
            acc = i;
            i = i + 2;
        } else {
            i = i + 1;
        }
    }
    if found {
        name.substring_char(0, acc).to_owned()
    } else {
        String::new()
    }
}

/// Where `k` stands among `keys`, if it does.
fn position_of(keys: &Vec<String>, k: &String) -> (r: Option<usize>)
    ensures
        match r {
            Some(j) => j < keys@.len() && keys@[j as int]@ == k@,
            None => !strings_view(keys@).contains(k@),
        },
{
    let mut j: usize = 0;
    while j < keys.len()
        invariant
            j <= keys@.len(),
            forall|l: int| 0 <= l < j ==> keys@[l]@ != k@,
        decreases keys@.len() - j,
    {
        if keys[j] == *k {
            return Some(j);
        }
        j = j + 1;
    }
    assert forall|l: int| 0 <= l < keys@.len() implies strings_view(keys@)[l] != k@ by {}
    None
}

/// The records of `records` whose suite, listed one for one in `keys_of`, is `k`.
fn members_of(records: &Vec<TestRecord>, keys_of: &Vec<String>, k: &String) -> (r: Vec<TestRecord>)
    requires
        keys_of@.len() == records@.len(),
        forall|i: int| 0 <= i < records@.len() ==> keys_of@[i]@ == key_of(#[trigger] records@[i]@),
    ensures
        records_view(r@) == members(records_view(records@), k@),
{
    let ghost recs = records_view(records@);
    let mut r: Vec<TestRecord> = Vec::new();
    let mut i: usize = 0;
    while i < records.len()
        invariant
            i <= records@.len() == keys_of@.len(),
            recs == records_view(records@),
            forall|i: int| 0 <= i < records@.len() ==> keys_of@[i]@ == key_of(#[trigger] records@[i]@),
            records_view(r@) == members(recs.take(i as int), k@),
        decreases records@.len() - i,
    {
        let ghost before = r@;
        assert(recs.take(i + 1).drop_last() =~= recs.take(i as int));
        assert(recs.take(i + 1).last() == records@[i as int]@);
        if keys_of[i] == *k {
            let rec = records[i].duplicate();
            r.push(rec);
            assert(records_view(r@) =~= records_view(before).push(rec@));
        }
        i = i + 1;
    }
    assert(recs.take(i as int) =~= recs);
    r
}

/// Groups `records` into suites by the prefix of their qualified names, keeping the
/// order in which each suite first appears and the order of records within each, and
/// counts the outcomes.
pub fn group_test_results(records: &Vec<TestRecord>) -> (r: OrganizedResults)
    ensures
        r@ == aggregate_spec(records_view(records@)),
{
    let ghost recs = records_view(records@);
    let mut keys: Vec<String> = Vec::new();
    let mut keys_of: Vec<String> = Vec::new();
    let mut passed: usize = 0;
    let mut failed: usize = 0;
    let mut ignored: usize = 0;
    let mut i: usize = 0;
    while i < records.len()
        invariant
            i <= records@.len(),
            recs == records_view(records@),
            keys_of@.len() == i,
            forall|l: int| 0 <= l < i ==> keys_of@[l]@ == key_of(#[trigger] records@[l]@),
            strings_view(keys@) == suite_keys(recs.take(i as int)),
            passed == count_of(recs.take(i as int), TestOutcome::Passed),
            failed == count_of(recs.take(i as int), TestOutcome::Failed),
            ignored == count_of(recs.take(i as int), TestOutcome::Ignored),
            passed + failed + ignored == i,
        decreases records@.len() - i,
    {
        assert(recs.take(i + 1).drop_last() =~= recs.take(i as int));
        assert(recs.take(i + 1).last() == records@[i as int]@);
        let k = suite_name_of(records[i].qualified_name.as_str());
        let ghost keys_before = keys@;
        match position_of(&keys, &k) {
            Some(j) => {
                assert(strings_view(keys@)[j as int] == k@);
            },
            None => {
                keys.push(k.clone());
                assert(strings_view(keys@) =~= strings_view(keys_before).push(k@));
            },
        }
        keys_of.push(k);
        match records[i].outcome {
            TestOutcome::Passed => {
                passed = passed + 1;
            },
            TestOutcome::Failed => {
                failed = failed + 1;
            },
            TestOutcome::Ignored => {
                ignored = ignored + 1;
            },
        }
        i = i + 1;
    }
    assert(recs.take(i as int) =~= recs);
    let ghost ks = strings_view(keys@);
    let mut suites: Vec<Suite> = Vec::new();
    let mut j: usize = 0;
    while j < keys.len()
        invariant
            j <= keys@.len(),
            recs == records_view(records@),
            ks == strings_view(keys@),
            ks == suite_keys(recs),
            keys_of@.len() == records@.len(),
            forall|l: int| 0 <= l < records@.len() ==> keys_of@[l]@ == key_of(#[trigger] records@[l]@),
            suites_view(suites@) == grouped(recs).take(j as int),
        decreases keys@.len() - j,
    {
        let ghost before = suites@;
        let m = members_of(records, &keys_of, &keys[j]);
        let s = Suite { name: keys[j].clone(), records: m };
        assert(ks[j as int] == keys@[j as int]@);
        assert(s@ == (ks[j as int], members(recs, ks[j as int])));
        suites.push(s);
        assert(suites_view(suites@) =~= suites_view(before).push(s@));
        assert(grouped(recs).take(j + 1) =~= grouped(recs).take(j as int).push(s@));
        j = j + 1;
    }
    assert(grouped(recs).take(j as int) =~= grouped(recs));
    OrganizedResults { suites, totals: Totals { passed, failed, ignored } }
}

/// The report for a run's output: each line classified, the records grouped.
pub fn organize(lines: &Vec<String>) -> (r: OrganizedResults)
    ensures
        r@ == aggregate_spec(classify_all(lines.deep_view())),
{
    let records = find_test_lines(lines);
    group_test_results(&records)
}

} // verus!
