//! Choosing the editor that opens the selected file.

use vstd::prelude::*;

verus! {

/// The editor that is used where none is named anywhere.
pub open spec fn default_editor() -> Seq<char> {
    "hx"@
}

/// The editor for a run: the one given on the command line, else the one
/// that the environment names, else the default one.
pub open spec fn chosen_editor(editor: Option<&str>, from_env: Option<&str>) -> Seq<char> {
    match editor {
        Some(e) => e@,
        None => match from_env {
            Some(e) => e@,
            None => default_editor(),
        },
    }
}

/// The command that opens the selected file.
pub fn editor_command(editor: Option<&str>, from_env: Option<&str>) -> (r: String)
    ensures
        r@ == chosen_editor(editor, from_env),
{
    match editor {
        Some(e) => e.to_owned(),
        None => match from_env {
            Some(e) => e.to_owned(),
            None => "hx".to_owned(),
        },
    }
}

} // verus!
