//! The choices of the interactive repair tool: which action a menu answer
//! selects, and whether an answer confirms the repair.
use vstd::prelude::*;

use crate::storage::{ascii_lowered, is_ascii_text, lowercase, lowercase_text};
use crate::text::{same_text, trim_text, trimmed};

verus! {

/// An action of the repair tool's menu.
#[derive(Debug, PartialEq, Eq, Structural)]
pub enum RepairAction {
    /// Check the database and its store files.
    Diagnose,
    /// Write the database out as SQL statements.
    ExportSql,
    /// Rebuild every stored file from its chunks.
    ExportSourceFiles,
    /// Check, then repair what can be repaired.
    DiagnoseAndRepair,
    /// Leave the tool.
    Quit,
    /// An answer that names no action.
    Unknown,
}

/// The action a trimmed menu answer names.
pub open spec fn action_named(choice: Seq<char>) -> RepairAction {
    if choice == seq!['1'] {
        RepairAction::Diagnose
    } else if choice == seq!['2'] {
        RepairAction::ExportSql
    } else if choice == seq!['3'] {
        RepairAction::ExportSourceFiles
    } else if choice == seq!['4'] {
        RepairAction::DiagnoseAndRepair
    } else if choice == seq!['0'] {
        RepairAction::Quit
    } else {
        RepairAction::Unknown
    }
}

/// The action that a line typed at the menu selects: the line without its
/// surrounding whitespace must be `1`, `2`, `3`, `4` or `0`.
pub fn repair_action(input: &str) -> (r: RepairAction)
    ensures
        r == action_named(trimmed(input@)),
{
    proof {
        reveal_strlit("1");
        reveal_strlit("2");
        reveal_strlit("3");
        reveal_strlit("4");
        reveal_strlit("0");
        assert("1"@ =~= seq!['1']);
        assert("2"@ =~= seq!['2']);
        assert("3"@ =~= seq!['3']);
        assert("4"@ =~= seq!['4']);
        assert("0"@ =~= seq!['0']);
    }
    let choice = trim_text(input);
    let c = choice.as_str();
    if same_text(c, "1") {
        RepairAction::Diagnose
    } else if same_text(c, "2") {
        RepairAction::ExportSql
    } else if same_text(c, "3") {
        RepairAction::ExportSourceFiles
    } else if same_text(c, "4") {
        RepairAction::DiagnoseAndRepair
    } else if same_text(c, "0") {
        RepairAction::Quit
    } else {
        RepairAction::Unknown
    }
}

/// Whether a line typed at the repair prompt confirms the repair: without
/// its surrounding whitespace and in lowercase it must read `y`.
pub fn confirms_repair(input: &str) -> (r: bool)
    ensures
        r == (lowercase(trimmed(input@)) == seq!['y']),
        is_ascii_text(trimmed(input@)) ==> (r == (ascii_lowered(trimmed(input@)) == seq!['y'])),
{
    proof {
        reveal_strlit("y");
        assert("y"@ =~= seq!['y']);
    }
    let choice = trim_text(input);
    let lower = lowercase_text(choice.as_str());
    same_text(lower.as_str(), "y")
}

} // verus!
