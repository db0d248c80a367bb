//! Constructors of the ways a component reacts to the player.
use vstd::prelude::*;

use crate::component::{
    empty_interactions, ClickEvent, ClickEventModel, HoverEvent, HoverEventModel, Interactivity,
    RawTextComponent,
};

verus! {

impl Interactivity {
    /// Interactions in which nothing is set.
    pub fn new() -> (r: Interactivity)
        ensures
            r@ == empty_interactions(),
    {
        Interactivity { insertion: None, click: None, hover: None }
    }
}

impl ClickEvent {
    /// Opens the given url.
    pub fn open_url(url: String) -> (r: ClickEvent)
        ensures
            r@ == (ClickEventModel::OpenUrl { url: url@ }),
    {
        ClickEvent::OpenUrl { url }
    }

    /// Runs the given command.
    pub fn run_command(command: String) -> (r: ClickEvent)
        ensures
            r@ == (ClickEventModel::RunCommand { command: command@ }),
    {
        ClickEvent::RunCommand { command }
    }

    /// Writes the given command into the chat box.
    pub fn suggest_command(command: String) -> (r: ClickEvent)
        ensures
            r@ == (ClickEventModel::SuggestCommand { command: command@ }),
    {
        ClickEvent::SuggestCommand { command }
    }

    /// Turns a book to the given page.
    pub fn change_page(page: i32) -> (r: ClickEvent)
        ensures
            r@ == (ClickEventModel::ChangePage { page }),
    {
        ClickEvent::ChangePage { page }
    }

    /// Copies the given text to the clipboard.
    pub fn copy_to_clipboard(value: String) -> (r: ClickEvent)
        ensures
            r@ == (ClickEventModel::CopyToClipboard { value: value@ }),
    {
        ClickEvent::CopyToClipboard { value }
    }

    /// Shows the given dialog.
    pub fn show_dialog(dialog: String) -> (r: ClickEvent)
        ensures
            r@ == (ClickEventModel::ShowDialog { dialog: dialog@ }),
    {
        ClickEvent::ShowDialog { dialog }
    }
}

impl HoverEvent {
    /// Shows the given component as a tooltip.
    pub fn show_text(text: RawTextComponent) -> (r: HoverEvent)
        ensures
            r@ == (HoverEventModel::ShowText { value: Box::new(text@) }),
    {
        HoverEvent::ShowText { value: Box::new(text) }
    }

    /// Shows an item.
    pub fn show_item(id: String, count: Option<i32>, components: Option<String>) -> (r: HoverEvent)
        ensures
            r@ == (HoverEventModel::ShowItem {
                id: id@,
                count,
                components: crate::component::opt_text(&components),
            }),
    {
        HoverEvent::ShowItem { id, count, components }
    }
}

} // verus!
