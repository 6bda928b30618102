//! Turns the console output of a test run into a summary of test outcomes grouped
//! by test module: each line is classified as a result line or noise, and the
//! records of the result lines are grouped into suites with counts.

use vstd::prelude::*;

pub mod classifier;
pub mod input;
pub mod outcome;
pub mod report;
pub mod text;

pub use classifier::{classify_line, find_test_lines};
pub use input::{Environment, FileReader, InputFactory, InputTypes, StdReader};
pub use outcome::{TestOutcome, TestRecord};
pub use report::{group_test_results, organize, suite_name_of, OrganizedResults, Suite, Totals};

verus! {

} // verus!
