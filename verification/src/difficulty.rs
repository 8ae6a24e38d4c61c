use vstd::prelude::*;
use vstd::string::StringExecFns;
use crate::text::str_eq;

verus! {

/// The closed set of difficulty labels a Steps element may carry.
#[derive(Copy, Clone, Debug, PartialEq, Eq, Structural)]
pub enum Difficulty {
    Beginner,
    Easy,
    Medium,
    Hard,
    Challenge,
    Edit,
}

/// The difficulty a label names, if any label of the closed set matches.
pub open spec fn difficulty_of(s: Seq<char>) -> Option<Difficulty> {
    if s == "Beginner"@ {
        Some(Difficulty::Beginner)
    } else if s == "Easy"@ {
        Some(Difficulty::Easy)
    } else if s == "Medium"@ {
        Some(Difficulty::Medium)
    } else if s == "Hard"@ {
        Some(Difficulty::Hard)
    } else if s == "Challenge"@ {
        Some(Difficulty::Challenge)
    } else if s == "Edit"@ {
        Some(Difficulty::Edit)
    } else {
        None
    }
}

impl Difficulty {
    /// Parses one of the six labels; any other label is an error whose
    /// message names the offending value.
    pub fn from_str(s: &str) -> (r: Result<Difficulty, String>)
        ensures
            match r {
                Ok(d) => difficulty_of(s@) == Some(d),
                Err(e) => difficulty_of(s@) is None && e@ == s@ + " is not supported"@,
            },
    {
        if str_eq(s, "Beginner") {
            Ok(Difficulty::Beginner)
        } else if str_eq(s, "Easy") {
            Ok(Difficulty::Easy)
        } else if str_eq(s, "Medium") {
            Ok(Difficulty::Medium)
        } else if str_eq(s, "Hard") {
            Ok(Difficulty::Hard)
        } else if str_eq(s, "Challenge") {
            Ok(Difficulty::Challenge)
        } else if str_eq(s, "Edit") {
            Ok(Difficulty::Edit)
        } else {
            Err(s.to_owned().concat(" is not supported"))
        }
    }
}

} // verus!
