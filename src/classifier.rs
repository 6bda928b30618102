use vstd::prelude::*;

use crate::outcome::{TestOutcome, TestRecord, RecordView, records_view};
use crate::text::chars_of;

verus! {

/// Characters that are not significant at either end of a line.
pub open spec fn is_blank(c: char) -> bool {
    c == ' ' || c == '\t' || c == '\n' || c == '\r' || c == '\u{b}' || c == '\u{c}'
}

pub open spec fn trim_start(s: Seq<char>) -> Seq<char>
    decreases s.len(),
{
    if s.len() > 0 && is_blank(s[0]) {
        trim_start(s.drop_first())
    } else {
        s
    }
}

pub open spec fn trim_end(s: Seq<char>) -> Seq<char>
    decreases s.len(),
{
    if s.len() > 0 && is_blank(s.last()) {
        trim_end(s.drop_last())
    } else {
        s
    }
}

/// The line without its leading and trailing blanks.
pub open spec fn trim(s: Seq<char>) -> Seq<char> {
    trim_end(trim_start(s))
}

/// The word that opens a result line.
pub open spec fn marker() -> Seq<char> {
    seq!['t', 'e', 's', 't', ' ']
}

/// What stands between the test's name and its status token.
pub open spec fn separator() -> Seq<char> {
    seq![' ', '.', '.', '.', ' ']
}

/// The status token that the runner prints for each outcome.
pub open spec fn token(o: TestOutcome) -> Seq<char> {
    match o {
        TestOutcome::Passed => seq!['o', 'k'],
        TestOutcome::Failed => seq!['F', 'A', 'I', 'L', 'E', 'D'],
        TestOutcome::Ignored => seq!['i', 'g', 'n', 'o', 'r', 'e', 'd'],
    }
}

/// What ends a result line with outcome `o`.
pub open spec fn ending(o: TestOutcome) -> Seq<char> {
    separator() + token(o)
}

/// A qualified test name: not empty, and no blank inside.
pub open spec fn valid_name(name: Seq<char>) -> bool {
    name.len() > 0 && forall|i: int| 0 <= i < name.len() ==> !is_blank(#[trigger] name[i])
}

/// The result line that reports `name` with outcome `o`.
pub open spec fn result_line(name: Seq<char>, o: TestOutcome) -> Seq<char> {
    marker() + name + ending(o)
}

/// What stands between the marker and the ending of `o` in `t`.
pub open spec fn name_in(t: Seq<char>, o: TestOutcome) -> Seq<char> {
    t.subrange(marker().len() as int, t.len() - ending(o).len())
}

/// Whether the trimmed line `t` is a result line with outcome `o`.
pub open spec fn shaped_as(t: Seq<char>, o: TestOutcome) -> bool {
    &&& t.len() >= marker().len() + ending(o).len()
    &&& t.take(marker().len() as int) == marker()
    &&& t.skip(t.len() - ending(o).len()) == ending(o)
    &&& valid_name(name_in(t, o))
}

/// The record that a line reports, if it is a result line.
pub open spec fn classify_spec(line: Seq<char>) -> Option<RecordView> {
    let t = trim(line);
    if shaped_as(t, TestOutcome::Passed) {
        Some((name_in(t, TestOutcome::Passed), TestOutcome::Passed))
    } else if shaped_as(t, TestOutcome::Failed) {
        Some((name_in(t, TestOutcome::Failed), TestOutcome::Failed))
    } else if shaped_as(t, TestOutcome::Ignored) {
        Some((name_in(t, TestOutcome::Ignored), TestOutcome::Ignored))
    } else {
        None
    }
}

/// The records of the result lines among `lines`, in order.
pub open spec fn classify_all(lines: Seq<Seq<char>>) -> Seq<RecordView>
    decreases lines.len(),
{
    if lines.len() == 0 {
        Seq::empty()
    } else {
        let rest = classify_all(lines.drop_last());
        match classify_spec(lines.last()) {
            Some(r) => rest.push(r),
            None => rest,
        }
    }
}

/// Whether every character of `s` is a blank.
pub open spec fn all_blank(s: Seq<char>) -> bool {
    forall|i: int| 0 <= i < s.len() ==> is_blank(#[trigger] s[i])
}

proof fn lemma_trim_start_skips_blanks(lead: Seq<char>, x: Seq<char>)
    requires
        all_blank(lead),
        x.len() > 0,
        !is_blank(x[0]),
    ensures
        trim_start(lead + x) == x,
    decreases lead.len(),
{
    if lead.len() == 0 {
        assert(lead + x =~= x);
    } else {
        assert((lead + x).drop_first() =~= lead.drop_first() + x);
        assert(is_blank(lead[0]));
        lemma_trim_start_skips_blanks(lead.drop_first(), x);
    }
}

proof fn lemma_trim_end_skips_blanks(x: Seq<char>, trail: Seq<char>)
    requires
        all_blank(trail),
        x.len() > 0,
        !is_blank(x.last()),
    ensures
        trim_end(x + trail) == x,
    decreases trail.len(),
{
    if trail.len() == 0 {
        assert(x + trail =~= x);
    } else {
        assert((x + trail).drop_last() =~= x + trail.drop_last());
        assert(is_blank(trail[trail.len() - 1]));
        lemma_trim_end_skips_blanks(x, trail.drop_last());
    }
}

/// A result line, with any blanks before and after it, is classified as the record
/// of the name it carries, verbatim, and of the outcome its token stands for: `ok`
/// gives `Passed`, `FAILED` gives `Failed`, `ignored` gives `Ignored`.
pub proof fn lemma_result_line_recognized(
    lead: Seq<char>,
    name: Seq<char>,
    o: TestOutcome,
    trail: Seq<char>,
)
    requires
        all_blank(lead),
        all_blank(trail),
        valid_name(name),
    ensures
        classify_spec(lead + result_line(name, o) + trail) == Some((name, o)),
{
    let core = result_line(name, o);
    let m = marker().len() as int;
    let e = ending(o).len() as int;
    assert(core.len() == m + name.len() + e);
    assert(core[0] == 't');
    assert(core.last() == ending(o).last());
    assert(!is_blank(core.last()));
    assert(lead + core + trail =~= lead + (core + trail));
    lemma_trim_start_skips_blanks(lead, core + trail);
    lemma_trim_end_skips_blanks(core, trail);
    assert(trim(lead + core + trail) == core);
    assert(core.take(m) =~= marker());
    assert(core.skip(core.len() - e) =~= ending(o));
    assert(name_in(core, o) =~= name);
    assert(shaped_as(core, o));
    assert forall|p: TestOutcome| p != o implies !shaped_as(core, p) by {
        let ep = ending(p).len() as int;
        if core.len() >= m + ep && core.skip(core.len() - ep) == ending(p) {
            assert(core.skip(core.len() - ep)[ep - 1] == core.last());
            assert(ending(p)[ep - 1] != ending(o).last());
        }
    }
}

/// A record is only ever given for a result line: its name is a valid name, and the
/// trimmed line is exactly the result line of that name and outcome.
pub proof fn lemma_record_is_result_line(line: Seq<char>)
    ensures
        match classify_spec(line) {
            Some(r) => valid_name(r.0) && trim(line) == result_line(r.0, r.1),
            None => true,
        },
{
    let t = trim(line);
    match classify_spec(line) {
        Some(r) => {
            let o = r.1;
            let m = marker().len() as int;
            let e = ending(o).len() as int;
            assert(shaped_as(t, o));
            assert(t =~= t.take(m) + name_in(t, o) + t.skip(t.len() - e));
        },
        None => {},
    }
}

/// A line that is not a result line of any valid name and outcome, once its blanks
/// at either end are dropped, gives no record.
pub proof fn lemma_other_lines_dropped(line: Seq<char>)
    requires
        forall|name: Seq<char>, o: TestOutcome|
            valid_name(name) ==> trim(line) != #[trigger] result_line(name, o),
    ensures
        classify_spec(line) is None,
{
    lemma_record_is_result_line(line);
    match classify_spec(line) {
        Some(r) => {
            assert(trim(line) == result_line(r.0, r.1));
        },
        None => {},
    }
}

fn is_blank_char(c: char) -> (r: bool)
    ensures
        r == is_blank(c),
{
    c == ' ' || c == '\t' || c == '\n' || c == '\r' || c == '\u{b}' || c == '\u{c}'
}

fn marker_chars() -> (r: Vec<char>)
    ensures
        r@ == marker(),
{
    let r = vec!['t', 'e', 's', 't', ' '];
    assert(r@ =~= marker());
    r
}

fn ending_chars(o: TestOutcome) -> (r: Vec<char>)
    ensures
        r@ == ending(o),
{
    let r = match o {
        TestOutcome::Passed => vec![' ', '.', '.', '.', ' ', 'o', 'k'],
        TestOutcome::Failed => vec![' ', '.', '.', '.', ' ', 'F', 'A', 'I', 'L', 'E', 'D'],
        TestOutcome::Ignored => vec![' ', '.', '.', '.', ' ', 'i', 'g', 'n', 'o', 'r', 'e', 'd'],
    };
    assert(r@ =~= ending(o));
    r
}

/// Whether `pat` stands in `v` from index `start` on.
fn occurs_at(v: &Vec<char>, start: usize, pat: &Vec<char>) -> (r: bool)
    requires
        start + pat@.len() <= v@.len(),
    ensures
        r == (v@.subrange(start as int, start + pat@.len()) == pat@),
{
    let n = v.len();
    let mut i: usize = 0;
    while i < pat.len()
        invariant
            i <= pat@.len(),
            n == v@.len(),
            start + pat@.len() <= v@.len(),
            forall|j: int| 0 <= j < i ==> v@[start + j] == pat@[j],
        decreases pat@.len() - i,
    {
        if v[start + i] != pat[i] {
            assert(v@.subrange(start as int, start + pat@.len())[i as int] != pat@[i as int]);
            return false;
        }
        i = i + 1;
    }
    assert(v@.subrange(start as int, start + pat@.len()) =~= pat@);
    true
}

/// Whether `v[from..to]` is a valid name.
fn is_name(v: &Vec<char>, from: usize, to: usize) -> (r: bool)
    requires
        from <= to <= v@.len(),
    ensures
        r == valid_name(v@.subrange(from as int, to as int)),
{
    if from == to {
        return false;
    }
    let mut i: usize = from;
    while i < to
        invariant
            from <= i <= to <= v@.len(),
            forall|j: int| from <= j < i ==> !is_blank(#[trigger] v@[j]),
        decreases to - i,
    {
        if is_blank_char(v[i]) {
            assert(v@.subrange(from as int, to as int)[i - from] == v@[i as int]);
            return false;
        }
        i = i + 1;
    }
    assert forall|j: int| 0 <= j < to - from implies !is_blank(
        #[trigger] v@.subrange(from as int, to as int)[j],
    ) by {
        assert(v@.subrange(from as int, to as int)[j] == v@[from + j]);
    }
    true
}

/// Where the line's significant part begins and ends.
fn trimmed_bounds(v: &Vec<char>) -> (r: (usize, usize))
    ensures
        r.0 <= r.1 <= v@.len(),
        trim(v@) == v@.subrange(r.0 as int, r.1 as int),
{
    let n = v.len();
    let mut a: usize = 0;
    assert(v@.subrange(0, n as int) =~= v@);
    while a < n && is_blank_char(v[a])
        invariant
            a <= n == v@.len(),
            trim_start(v@) == trim_start(v@.subrange(a as int, n as int)),
        decreases n - a,
    {
        assert(v@.subrange(a as int, n as int).drop_first() =~= v@.subrange(a + 1, n as int));
        a = a + 1;
    }
    assert(trim_start(v@) == v@.subrange(a as int, n as int));
    let mut b: usize = n;
    while b > a && is_blank_char(v[b - 1])
        invariant
            a <= b <= n == v@.len(),
            trim(v@) == trim_end(v@.subrange(a as int, b as int)),
        decreases b - a,
    {
        assert(v@.subrange(a as int, b as int).drop_last() =~= v@.subrange(a as int, b - 1));
        b = b - 1;
    }
    (a, b)
}

/// The name that the trimmed line `v[a..b]` reports with outcome `o`, if it has that shape.
fn name_with(line: &str, v: &Vec<char>, a: usize, b: usize, o: TestOutcome) -> (r: Option<String>)
    requires
        v@ == line@,
        a <= b <= v@.len(),
    ensures
        ({
            let t = v@.subrange(a as int, b as int);
            match r {
                Some(name) => shaped_as(t, o) && name@ == name_in(t, o),
                None => !shaped_as(t, o),
            }
        }),
{
    let ghost t = v@.subrange(a as int, b as int);
    let mk = marker_chars();
    let en = ending_chars(o);
    if b - a < mk.len() + en.len() {
        return None;
    }
    let hit_start = occurs_at(v, a, &mk);
    let hit_end = occurs_at(v, b - en.len(), &en);
    assert(t.take(marker().len() as int) =~= v@.subrange(a as int, a + mk@.len()));
    assert(t.skip(t.len() - ending(o).len()) =~= v@.subrange(b - en@.len(), b as int));
    if !hit_start || !hit_end {
        return None;
    }
    let from = a + mk.len();
    let to = b - en.len();
    assert(name_in(t, o) =~= v@.subrange(from as int, to as int));
    if !is_name(v, from, to) {
        return None;
    }
    let name = line.substring_char(from, to).to_owned();
    Some(name)
}

/// The record that `line` reports, if it is a test result line: after leading and
/// trailing blanks are dropped, the word `test`, the qualified name, ` ... ` and one
/// of the tokens `ok`, `FAILED` or `ignored`. Any other line gives `None`.
pub fn classify_line(line: &str) -> (r: Option<TestRecord>)
    ensures
        match r {
            Some(rec) => classify_spec(line@) == Some(rec@),
            None => classify_spec(line@) is None,
        },
{
    let v = chars_of(line);
    let (a, b) = trimmed_bounds(&v);
    match name_with(line, &v, a, b, TestOutcome::Passed) {
        Some(name) => {
            return Some(TestRecord::new(name, TestOutcome::Passed));
        },
        None => {},
    }
    match name_with(line, &v, a, b, TestOutcome::Failed) {
        Some(name) => {
            return Some(TestRecord::new(name, TestOutcome::Failed));
        },
        None => {},
    }
    match name_with(line, &v, a, b, TestOutcome::Ignored) {
        Some(name) => Some(TestRecord::new(name, TestOutcome::Ignored)),
        None => None,
    }
}

/// The records of all result lines among `lines`, in the order of the lines; every
/// other line is dropped.
pub fn find_test_lines(lines: &Vec<String>) -> (r: Vec<TestRecord>)
    ensures
        records_view(r@) == classify_all(lines.deep_view()),
{
    let mut r: Vec<TestRecord> = Vec::new();
    let mut i: usize = 0;
    while i < lines.len()
        invariant
            i <= lines@.len(),
            records_view(r@) == classify_all(lines.deep_view().take(i as int)),
        decreases lines@.len() - i,
    {
        let ghost before = r@;
        assert(lines.deep_view().take(i + 1).drop_last() =~= lines.deep_view().take(i as int));
        assert(lines.deep_view()[i as int] == lines@[i as int]@);
        match classify_line(lines[i].as_str()) {
            Some(rec) => {
                r.push(rec);
                assert(records_view(r@) =~= records_view(before).push(rec@));
            },
            None => {},
        }
        i = i + 1;
    }
    assert(lines.deep_view().take(i as int) =~= lines.deep_view());
    r
}

} // verus!
