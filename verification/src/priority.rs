use vstd::prelude::*;
use crate::chars::{chars_to_string, str_eq, str_to_chars};

verus! {

/// Urgency level of a task. The three levels have no ordering semantics
/// beyond their display labels.
#[derive(Clone, Copy, PartialEq, Eq, Structural, Debug)]
pub enum Priority {
    Low,
    Medium,
    High,
}

impl Priority {
    /// The exact display label of this level.
    pub open spec fn label(self) -> Seq<char> {
        match self {
            Priority::Low => "Low"@,
            Priority::Medium => "Medium"@,
            Priority::High => "High"@,
        }
    }

    /// Display label, one of "Low", "Medium", "High".
    pub fn to_string(&self) -> (r: String)
        ensures
            r@ == self.label(),
    {
        match self {
            Priority::Low => "Low".to_owned(),
            Priority::Medium => "Medium".to_owned(),
            Priority::High => "High".to_owned(),
        }
    }
}

/// The level whose display label is exactly `s`, if any.
pub open spec fn priority_of_label(s: Seq<char>) -> Option<Priority> {
    if s == "Low"@ {
        Some(Priority::Low)
    } else if s == "Medium"@ {
        Some(Priority::Medium)
    } else if s == "High"@ {
        Some(Priority::High)
    } else {
        None
    }
}

/// Reading a level's label back gives that level.
pub proof fn lemma_priority_label_round_trip(p: Priority)
    ensures
        priority_of_label(p.label()) == Some(p),
{
    broadcast use vstd::string::group_string_axioms;

    reveal_strlit("Low");
    reveal_strlit("Medium");
    reveal_strlit("High");
    assert("Low"@.len() == 3);
    assert("Medium"@.len() == 6);
    assert("High"@.len() == 4);
}

/// An ASCII upper-case letter folded to lower case; other characters stay.
pub open spec fn fold_char(c: char) -> char {
    if 65 <= c as u32 <= 90 {
        (((c as u32) + 32) as u8) as char
    } else {
        c
    }
}

/// The level named by a free-form input, matched without regard to ASCII
/// case: `None` when the text names no level (callers default to `Low`).
pub open spec fn priority_of_input(s: Seq<char>) -> Option<Priority> {
    let folded = s.map_values(|c: char| fold_char(c));
    if folded == "low"@ {
        Some(Priority::Low)
    } else if folded == "medium"@ {
        Some(Priority::Medium)
    } else if folded == "high"@ {
        Some(Priority::High)
    } else {
        None
    }
}

impl Priority {
    /// Parses a user-supplied priority text, without regard to ASCII case.
    /// Unrecognized text falls back to `Low`; the flag reports whether the
    /// text was recognized.
    pub fn from_input(s: &str) -> (r: (Priority, bool))
        ensures
            match priority_of_input(s@) {
                Some(p) => r == (p, true),
                None => r == (Priority::Low, false),
            },
    {
        let raw = str_to_chars(s);
        let mut folded: Vec<char> = Vec::new();
        let n = raw.len();
        let mut i: usize = 0;
        while i < n
            invariant
                n == raw@.len(),
                raw@ == s@,
                i <= n,
                folded@.len() == i,
                forall|j: int| 0 <= j < i ==> folded@[j] == fold_char(s@[j]),
            decreases n - i,
        {
            let c = raw[i];
            let cv = c as u32;
            if 65 <= cv && cv <= 90 {
                folded.push(((cv + 32) as u8) as char);
            } else {
                folded.push(c);
            }
            i = i + 1;
        }
        proof {
            assert(folded@ =~= s@.map_values(|c: char| fold_char(c)));
        }
        let f = chars_to_string(&folded);
        if str_eq(f.as_str(), "low") {
            (Priority::Low, true)
        } else if str_eq(f.as_str(), "medium") {
            (Priority::Medium, true)
        } else if str_eq(f.as_str(), "high") {
            (Priority::High, true)
        } else {
            (Priority::Low, false)
        }
    }
}

} // verus!
