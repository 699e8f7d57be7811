//! What holds of the picker as a modal or a popover.
use crate::delegate::RecentProjectsDelegate;
use crate::model::EntryView;
use crate::picker;
use crate::picker::{DefaultOpenBehavior, MenuState};
use vstd::prelude::*;

verus! {

/// A new window is wanted where one was asked for; where nothing was asked for, as the settings
/// say.
pub proof fn what_is_asked_for_decides_the_window(
    asked: Option<bool>,
    behavior: DefaultOpenBehavior,
)
    ensures
        asked == Some(true) ==> picker::new_window(asked, behavior),
        asked == Some(false) ==> !picker::new_window(asked, behavior),
        asked is None ==> (picker::new_window(asked, behavior) <==> behavior is NewWindow),
{
}

/// Nothing above the picker is in use exactly where no menu has the focus or is open, and the name
/// editor does not have the focus.
pub proof fn menus_are_in_use_one_by_one(menus: MenuState)
    ensures
        !menus.busy() <==> !menus.actions_focused && !menus.actions_deployed
            && !menus.move_to_folder_focused && !menus.move_to_folder_deployed
            && !menus.footer_move_to_folder_focused && !menus.footer_move_to_folder_deployed
            && !menus.name_editor_focused,
{
}

/// The selected row is that of a local recent project exactly where it stands for a stored
/// workspace whose location is local.
pub proof fn local_projects_are_those_without_a_host(d: &RecentProjectsDelegate)
    ensures
        d.local_recent_selected() <==> {
            &&& d.selected() is Some
            &&& d.selected()->0 is RecentProject
            &&& d.selected()->0->RecentProject_0.candidate_id < d.workspaces@.len()
            &&& d.workspaces@[d.selected()->0->RecentProject_0.candidate_id as int].location
                is Local
        },
{
}

} // verus!
