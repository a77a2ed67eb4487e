use vstd::prelude::*;
use crate::chars::str_eq;

verus! {

/// One menu action of the console front end.
#[derive(Clone, Copy, PartialEq, Eq, Structural, Debug)]
pub enum Command {
    AddTask,
    FindTask,
    EditTask,
    RemoveTask,
    PrintTasks,
    StoreToFile,
    ReadFromFile,
}

/// The action named by a typed menu index, `None` for anything else.
pub open spec fn command_of_input(s: Seq<char>) -> Option<Command> {
    if s == "1"@ {
        Some(Command::AddTask)
    } else if s == "2"@ {
        Some(Command::FindTask)
    } else if s == "3"@ {
        Some(Command::EditTask)
    } else if s == "4"@ {
        Some(Command::RemoveTask)
    } else if s == "5"@ {
        Some(Command::PrintTasks)
    } else if s == "6"@ {
        Some(Command::StoreToFile)
    } else if s == "7"@ {
        Some(Command::ReadFromFile)
    } else {
        None
    }
}

impl Command {
    /// Parses the menu index the user typed.
    pub fn from_input(s: &str) -> (r: Option<Command>)
        ensures
            r == command_of_input(s@),
    {
        if str_eq(s, "1") {
            Some(Command::AddTask)
        } else if str_eq(s, "2") {
            Some(Command::FindTask)
        } else if str_eq(s, "3") {
            Some(Command::EditTask)
        } else if str_eq(s, "4") {
            Some(Command::RemoveTask)
        } else if str_eq(s, "5") {
            Some(Command::PrintTasks)
        } else if str_eq(s, "6") {
            Some(Command::StoreToFile)
        } else if str_eq(s, "7") {
            Some(Command::ReadFromFile)
        } else {
            None
        }
    }
}

} // verus!
