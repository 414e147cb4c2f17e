//! The compositor's windows as the overlay reads them.

use vstd::prelude::*;
use crate::window_list::WindowInfo;

verus! {

/// What the overlay reads of a window that the compositor reports.
#[derive(Debug)]
pub struct WindowRecord {
    /// Unique id of the window, constant while the window is open.
    pub id: u64,
    /// Title, if set.
    pub title: Option<String>,
    /// Application ID, if set.
    pub app_id: Option<String>,
}

/// What the desktop's application database knows of an application.
#[derive(Debug)]
pub struct AppEntry {
    /// The application's name for display.
    pub display_name: String,
    /// The application's icon in its textual form, if it has one.
    pub icon: Option<String>,
}

/// The text of an optional string, empty when there is none.
pub open spec fn text_or_empty(text: Option<String>) -> Seq<char> {
    match text {
        Some(t) => t@,
        None => Seq::empty(),
    }
}

fn string_or_empty(text: &Option<String>) -> (r: String)
    ensures
        r@ == text_or_empty(*text),
{
    match text {
        Some(t) => t.clone(),
        None => String::new(),
    }
}

/// The application ID under which the application database is searched for
/// a window: the window's application ID, or the empty string.
pub fn app_lookup_key(window: &WindowRecord) -> (key: String)
    ensures
        key@ == text_or_empty(window.app_id),
{
    string_or_empty(&window.app_id)
}

/// What the overlay shows for `window`, given what the application database
/// holds for its application ID: the application's display name and icon
/// when the database knows it, else the bare application ID and no icon.
pub fn window_info_for(window: &WindowRecord, app: Option<AppEntry>) -> (info: WindowInfo)
    ensures
        info.id == window.id,
        info.title@ == text_or_empty(window.title),
        match app {
            Some(entry) => info.app_name@ == entry.display_name@ && info.icon == entry.icon,
            None => info.app_name@ == text_or_empty(window.app_id) && info.icon is None,
        },
{
    let title = string_or_empty(&window.title);
    match app {
        Some(entry) => WindowInfo { id: window.id, title, app_name: entry.display_name, icon: entry.icon },
        None => WindowInfo { id: window.id, title, app_name: string_or_empty(&window.app_id), icon: None },
    }
}

} // verus!
