//! The views of the terminal interface: help, main and message views.

use vstd::prelude::*;
use crate::tui::components::{HeaderView, FileList, StatusBar};
use crate::tui::state::MessageType;

verus! {

/// What `Duration::from_secs` returns: the duration of `secs` whole
/// seconds. It depends on `secs` alone.
pub uninterp spec fn duration_of_secs(secs: u64) -> std::time::Duration;

/// `Duration::from_secs`: the duration of `secs` whole seconds, named by
/// `duration_of_secs`; nothing more of it is stated.
#[verifier::external_body]
fn duration_from_secs(secs: u64) -> (r: std::time::Duration)
    ensures
        r == duration_of_secs(secs),
{
    std::time::Duration::from_secs(secs)
}

/// The help view.
pub struct HelpView;

impl HelpView {
    /// The help view.
    pub fn new() -> Self {
        HelpView
    }
}

/// The label shown before a message of each kind.
pub open spec fn message_label(t: MessageType) -> Seq<char> {
    match t {
        MessageType::Info => "INFO: "@,
        MessageType::Success => "SUCCESS: "@,
        MessageType::Warning => "WARNING: "@,
        MessageType::Error => "ERROR: "@,
    }
}

/// The view that shows a message for a while.
pub struct MessageView {
    message_duration: std::time::Duration,
}

impl MessageView {
    /// How long a message stays on screen.
    pub closed spec fn duration(&self) -> std::time::Duration {
        self.message_duration
    }

    /// A message view showing messages for three seconds.
    pub fn new() -> (r: Self)
        ensures
            r.duration() == duration_of_secs(3),
    {
        MessageView { message_duration: duration_from_secs(3) }
    }

    /// The label shown before a message of the kind `t`.
    pub fn label(t: &MessageType) -> (r: &'static str)
        ensures
            r@ == message_label(*t),
    {
        proof {
            reveal_strlit("INFO: ");
            reveal_strlit("SUCCESS: ");
            reveal_strlit("WARNING: ");
            reveal_strlit("ERROR: ");
        }
        match t {
            MessageType::Info => "INFO: ",
            MessageType::Success => "SUCCESS: ",
            MessageType::Warning => "WARNING: ",
            MessageType::Error => "ERROR: ",
        }
    }

    /// Sets how long a message stays on screen.
    pub fn set_message_duration(&mut self, duration: std::time::Duration)
        ensures
            final(self).duration() == duration,
    {
        self.message_duration = duration;
    }
}

/// The main view, made of the header, the file list, the status bar, the
/// help view and the message view.
pub struct MainView {
    pub header_view: HeaderView,
    pub file_list: FileList,
    pub status_bar: StatusBar,
    pub help_view: HelpView,
    pub message_view: MessageView,
}

impl MainView {
    /// The main view with all its parts; its message view shows messages
    /// for three seconds.
    pub fn new() -> (r: Self)
        ensures
            r.message_view.duration() == duration_of_secs(3),
    {
        MainView {
            header_view: HeaderView::new(),
            file_list: FileList::new(),
            status_bar: StatusBar::new(),
            help_view: HelpView::new(),
            message_view: MessageView::new(),
        }
    }
}

} // verus!
