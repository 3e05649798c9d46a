//! Which tasks are shown: all, the unresolved ones, or the done ones.

use vstd::prelude::*;

use crate::text::same_text;

verus! {

/// The three ways to filter the tasks of a collection.
#[derive(Clone, Copy, Debug, PartialEq, Eq, Structural)]
pub enum FilterMode {
    All,
    Unresolved,
    Done,
}

impl Default for FilterMode {
    fn default() -> (mode: Self)
        ensures
            mode == FilterMode::All,
    {
        FilterMode::All
    }
}

impl FilterMode {
    /// The name of the mode, as the actions of the window spell it.
    pub open spec fn label(self) -> Seq<char> {
        match self {
            FilterMode::All => "all"@,
            FilterMode::Unresolved => "unresolved"@,
            FilterMode::Done => "done"@,
        }
    }

    /// `value` is the name of a mode.
    pub open spec fn is_label(value: Seq<char>) -> bool {
        value == "all"@ || value == "unresolved"@ || value == "done"@
    }

    /// The mode of that name, if it is the name of one.
    pub open spec fn of_label(value: Seq<char>) -> Option<FilterMode> {
        if value == "all"@ {
            Some(FilterMode::All)
        } else if value == "unresolved"@ {
            Some(FilterMode::Unresolved)
        } else if value == "done"@ {
            Some(FilterMode::Done)
        } else {
            None
        }
    }

    /// The three names differ, so each names its own mode.
    pub proof fn lemma_labels(mode: FilterMode)
        ensures
            FilterMode::of_label(mode.label()) == Some(mode),
            FilterMode::is_label(mode.label()),
    {
        reveal_strlit("all");
        reveal_strlit("unresolved");
        reveal_strlit("done");
        assert("all"@.len() == 3);
        assert("unresolved"@.len() == 10);
        assert("done"@.len() == 4);
    }

    /// The mode of that name, or `None` where `value` names no mode.
    pub fn parse(value: &str) -> (r: Option<FilterMode>)
        ensures
            r == FilterMode::of_label(value@),
            r is Some <==> FilterMode::is_label(value@),
    {
        if same_text(value, "all") {
            Some(FilterMode::All)
        } else if same_text(value, "unresolved") {
            Some(FilterMode::Unresolved)
        } else if same_text(value, "done") {
            Some(FilterMode::Done)
        } else {
            None
        }
    }

    /// The mode of that name.
    pub fn from(value: &str) -> (mode: FilterMode)
        requires
            FilterMode::is_label(value@),
        ensures
            Some(mode) == FilterMode::of_label(value@),
    {
        if same_text(value, "all") {
            FilterMode::All
        } else if same_text(value, "unresolved") {
            FilterMode::Unresolved
        } else {
            FilterMode::Done
        }
    }

    /// The name of the mode.
    pub fn into(self) -> (name: &'static str)
        ensures
            name@ == self.label(),
    {
        match self {
            FilterMode::All => "all",
            FilterMode::Unresolved => "unresolved",
            FilterMode::Done => "done",
        }
    }

    /// Whether a task is shown under the mode, by whether it is done.
    pub open spec fn shows(self, checked: bool) -> bool {
        match self {
            FilterMode::All => true,
            FilterMode::Unresolved => !checked,
            FilterMode::Done => checked,
        }
    }

    /// Whether a task is shown under the mode, by whether it is done.
    pub fn admits(self, checked: bool) -> (shown: bool)
        ensures
            shown == self.shows(checked),
    {
        match self {
            FilterMode::All => true,
            FilterMode::Unresolved => !checked,
            FilterMode::Done => checked,
        }
    }

    /// The line that tells the user of the filter; none where all tasks are
    /// shown.
    pub fn banner(self) -> (title: Option<&'static str>)
        ensures
            match self {
                FilterMode::All => title is None,
                FilterMode::Unresolved => title matches Some(t) && t@
                    == "Filter: Displaying unresolved tasks"@,
                FilterMode::Done => title matches Some(t) && t@
                    == "Filter: Displaying done tasks"@,
            },
    {
        match self {
            FilterMode::All => None,
            FilterMode::Unresolved => Some("Filter: Displaying unresolved tasks"),
            FilterMode::Done => Some("Filter: Displaying done tasks"),
        }
    }
}

} // verus!
