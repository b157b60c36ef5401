//! A file picker for files and folders alike.
//!
//! A native picker that picks folders hides files. So the picker stays in file mode and gets a
//! button of its own that selects the folder it shows.

use vstd::prelude::*;

verus! {

/// The button that selects the current folder.
pub const SELECT_CURRENT_FOLDER: u32 = 1;

/// What the button says.
pub fn select_current_folder_label() -> (label: &'static str)
    ensures
        label@ == "Select current folder"@,
{
    "Select current folder"
}

/// A picker with the button, and what the button has selected.
#[derive(Debug)]
pub struct MixedPathDialog {
    /// What ends the picker's reports of events.
    pub cookie: u32,
    pub selected: Option<String>,
}

impl MixedPathDialog {
    /// The folder selected with the button.
    pub open spec fn selection(&self) -> Option<Seq<char>> {
        match self.selected {
            Some(path) => Some(path@),
            None => None,
        }
    }

    pub fn new(cookie: u32) -> (dialog: Self)
        ensures
            dialog.cookie == cookie,
            dialog.selection() is None,
    {
        MixedPathDialog { cookie, selected: None }
    }

    /// A button was clicked: whether the path of the folder that the picker shows is wanted.
    pub fn on_button_clicked(&self, id: u32) -> (wants_folder: bool)
        ensures
            wants_folder <==> id == SELECT_CURRENT_FOLDER,
    {
        id == SELECT_CURRENT_FOLDER
    }

    /// The folder's path was read, or could not be. A path that was read is selected, in place of
    /// any other, and the picker is to close; without one nothing changes.
    pub fn on_folder_read(&mut self, path: Option<String>) -> (close: bool)
        ensures
            final(self).cookie == old(self).cookie,
            close <==> path is Some,
            final(self).selection() == selection_step(
                old(self).selection(),
                match path {
                    Some(path) => Some(path@),
                    None => None,
                },
            ),
    {
        match path {
            Some(path) => {
                self.selected = Some(path);
                true
            },
            None => false,
        }
    }

    /// The picker is done and reports no more events: what was selected with the button, if
    /// anything was.
    pub fn finish(self) -> (selected: Option<String>)
        ensures
            selected == self.selected,
    {
        self.selected
    }
}

/// The selection after the folder's path was read, or could not be.
pub open spec fn selection_step(
    before: Option<Seq<char>>,
    read: Option<Seq<char>>,
) -> Option<Seq<char>> {
    if read is Some {
        read
    } else {
        before
    }
}

/// The selection after the folder's path was read several times, in order.
pub open spec fn selection_after(
    before: Option<Seq<char>>,
    reads: Seq<Option<Seq<char>>>,
) -> Option<Seq<char>>
    decreases reads.len(),
{
    if reads.len() == 0 {
        before
    } else {
        selection_step(selection_after(before, reads.drop_last()), reads.last())
    }
}

/// The folder that was read last is the one selected: paths read before it, and failures to read
/// one after it, do not matter.
pub proof fn law_last_folder_is_selected(
    before: Option<Seq<char>>,
    reads: Seq<Option<Seq<char>>>,
    last: int,
)
    requires
        0 <= last < reads.len(),
        reads[last] is Some,
        forall|i: int| last < i < reads.len() ==> #[trigger] reads[i] is None,
    ensures
        selection_after(before, reads) == reads[last],
    decreases reads.len(),
{
    if last < reads.len() - 1 {
        law_last_folder_is_selected(before, reads.drop_last(), last);
    }
}

/// A folder that was read takes the place of whatever was selected; one that could not be read
/// leaves it. The button's number is one.
pub proof fn law_read_folder_replaces_the_selection(
    before: Option<Seq<char>>,
    path: Seq<char>,
)
    ensures
        selection_step(before, Some(path)) == Some(path),
        selection_step(before, None) == before,
        selection_after(before, Seq::empty()) == before,
        SELECT_CURRENT_FOLDER == 1,
{
}

/// What a picker has selected is the path it holds, and nothing where it holds none.
pub proof fn law_selection_is_the_path_held(dialog: MixedPathDialog)
    ensures
        dialog.selected is Some ==> dialog.selection() == Some(dialog.selected->0@),
        dialog.selected is None ==> dialog.selection() is None,
{
}

} // verus!
