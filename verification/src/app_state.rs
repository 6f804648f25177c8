//! The interactive state of the tool.
//!
//! The surrounding shell owns the event loop and the widgets; this
//! type holds what they display and decide on: the selected paths,
//! the status line, and whether the binary is installed system-wide.

use vstd::prelude::*;
use crate::appname;
use crate::descriptor;

verus! {

/// The state behind the interactive shell.
pub struct DeskImageApp {
    /// The selected source AppImage path, if any.
    pub appimage_path: Option<String>,
    /// The selected custom icon path, if any.
    pub icon_path: Option<String>,
    /// The status line shown to the user.
    pub status_message: String,
    /// Whether the binary counts as installed system-wide.
    pub is_installed: bool,
    /// Whether the status line is currently highlighted.
    pub status_visible: bool,
}

impl Default for DeskImageApp {
    /// A fresh state: nothing selected, the initial prompt shown,
    /// installation state still unknown.
    fn default() -> (r: Self)
        ensures
            r.appimage_path is None,
            r.icon_path is None,
            r.status_message@ == "Select an AppImage file to create a desktop entry"@,
            r.is_installed == false,
            r.status_visible == true,
    {
        DeskImageApp {
            appimage_path: None,
            icon_path: None,
            status_message: "Select an AppImage file to create a desktop entry".to_owned(),
            is_installed: false,
            status_visible: true,
        }
    }
}

impl DeskImageApp {
    /// Replace the status line and make it visible again; everything
    /// else is untouched.
    pub fn update_status(&mut self, message: String)
        ensures
            final(self).status_message == message,
            final(self).status_visible == true,
            final(self).appimage_path == old(self).appimage_path,
            final(self).icon_path == old(self).icon_path,
            final(self).is_installed == old(self).is_installed,
    {
        self.status_message = message;
        self.status_visible = true;
    }

    /// The application name derived from a file name.
    pub fn clean_app_name(&self, filename: &str) -> (result: String)
        ensures
            result@ == appname::clean_app_name_spec(filename@),
    {
        appname::clean_app_name(filename)
    }

    /// The `key=value` entries of a descriptor text, in line order.
    pub fn parse_desktop_file(&self, content: &str) -> (entries: Vec<(String, String)>)
        ensures
            descriptor::entries_view(entries@) == descriptor::parse_entries_spec(content@),
    {
        descriptor::parse_desktop_file(content)
    }
}

} // verus!
