use vstd::prelude::*;

verus! {

/// The result status of a single test.
#[derive(Clone, Copy, Debug, PartialEq, Eq, Structural)]
pub enum TestOutcome {
    Passed,
    Failed,
    Ignored,
}

/// What a record is about: its qualified name and its outcome.
pub type RecordView = (Seq<char>, TestOutcome);

/// One recognized result line: the test's qualified name and its outcome.
#[derive(Clone, Debug)]
pub struct TestRecord {
    pub qualified_name: String,
    pub outcome: TestOutcome,
}

impl View for TestRecord {
    type V = RecordView;

    open spec fn view(&self) -> RecordView {
        (self.qualified_name@, self.outcome)
    }
}

/// The views of a sequence of records, one for one.
pub open spec fn records_view(v: Seq<TestRecord>) -> Seq<RecordView> {
    v.map_values(|r: TestRecord| r@)
}

impl TestRecord {
    pub fn new(qualified_name: String, outcome: TestOutcome) -> (r: TestRecord)
        ensures
            r@ == (qualified_name@, outcome),
    {
        TestRecord { qualified_name, outcome }
    }

    /// A copy of this record with the same name and outcome.
    pub fn duplicate(&self) -> (r: TestRecord)
        ensures
            r@ == self@,
    {
        TestRecord { qualified_name: self.qualified_name.clone(), outcome: self.outcome }
    }

    pub fn qualified_name(&self) -> (r: &str)
        ensures
            r@ == self.qualified_name@,
    {
        self.qualified_name.as_str()
    }

    pub fn outcome(&self) -> (r: TestOutcome)
        ensures
            r == self.outcome,
    {
        self.outcome
    }
}

} // verus!
