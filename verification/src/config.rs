//! Per-detector configuration: whether the detector is enabled, its
//! option (a column name, a database path, a tag prefix), its working
//! list, and the state it reports back — a status line, the records
//! it flagged, and a working flag.

use vstd::prelude::*;
use crate::removal::RemovalSet;

verus! {

/// One detector's configuration and reported state.
#[derive(Clone, Debug)]
pub struct Config {
    /// The detector is enabled.
    pub search: bool,
    /// The detector's option: a grouping column, a database path, or
    /// a tag prefix, depending on the detector.
    pub option: Option<String>,
    /// The detector's list: tie-break rules as text, or tags.
    pub list: Vec<String>,
    /// The last status line the detector reported.
    pub status: String,
    /// The records the detector flagged.
    pub records: RemovalSet,
    /// A scan of this detector is outstanding.
    pub working: bool,
}

impl Config {
    /// A detector with no option set.
    pub fn new(on: bool) -> (c: Config)
        ensures
            c.search == on,
            c.option is None,
            c.list@.len() == 0,
            c.status@.len() == 0,
            c.records.models().len() == 0,
            c.records.wf(),
            !c.working,
    {
        Config {
            search: on,
            option: None,
            list: Vec::new(),
            status: String::new(),
            records: RemovalSet::new(),
            working: false,
        }
    }

    /// A detector whose option starts out as `o`.
    pub fn new_option(on: bool, o: &str) -> (c: Config)
        ensures
            c.search == on,
            match c.option {
                Some(s) => s@ == o@,
                None => false,
            },
            c.list@.len() == 0,
            c.status@.len() == 0,
            c.records.models().len() == 0,
            c.records.wf(),
            !c.working,
    {
        Config {
            search: on,
            list: Vec::new(),
            option: Some(String::from_str(o)),
            status: String::new(),
            records: RemovalSet::new(),
            working: false,
        }
    }
}

} // verus!
