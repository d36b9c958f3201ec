//! Control mode notification types.
use vstd::prelude::*;

verus! {

/// A notification emitted by tmux in control mode.
///
/// Each variant corresponds to a `%`-prefixed line in the control mode stream.
/// See `tmux(1)` CONTROL MODE section for the full protocol reference.
#[derive(Debug, Clone, PartialEq, Eq)]
pub enum Notification {
    // Session lifecycle
    SessionChanged { session_id: u64, name: String },
    SessionRenamed { session_id: u64, name: String },
    SessionWindowChanged { session_id: u64, window_id: u64 },
    SessionsChanged,
    // Window lifecycle
    WindowAdd { window_id: u64 },
    WindowClose { window_id: u64 },
    WindowRenamed { window_id: u64, name: String },
    WindowPaneChanged { window_id: u64, pane_id: u64 },
    // Pane lifecycle
    PaneModeChanged { pane_id: u64, mode: u8 },
    // Output: raw terminal bytes for a pane
    Output { pane_id: u64, data: Vec<u8> },
    // Layout
    LayoutChange { window_id: u64, layout: String },
    // Command response framing
    Begin { command_number: u64, flags: u32 },
    End { command_number: u64, flags: u32 },
    Error { command_number: u64, message: String },
    // Connection lifecycle
    Exit { reason: Option<String> },
    // Forward compatibility for unknown notification types
    Unknown { name: String, args: String },
}

/// The mathematical value of a [`Notification`]: its strings as character
/// sequences and its output as a byte sequence.
pub enum NotificationView {
    SessionChanged { session_id: u64, name: Seq<char> },
    SessionRenamed { session_id: u64, name: Seq<char> },
    SessionWindowChanged { session_id: u64, window_id: u64 },
    SessionsChanged,
    WindowAdd { window_id: u64 },
    WindowClose { window_id: u64 },
    WindowRenamed { window_id: u64, name: Seq<char> },
    WindowPaneChanged { window_id: u64, pane_id: u64 },
    PaneModeChanged { pane_id: u64, mode: u8 },
    Output { pane_id: u64, data: Seq<u8> },
    LayoutChange { window_id: u64, layout: Seq<char> },
    Begin { command_number: u64, flags: u32 },
    End { command_number: u64, flags: u32 },
    Error { command_number: u64, message: Seq<char> },
    Exit { reason: Option<Seq<char>> },
    Unknown { name: Seq<char>, args: Seq<char> },
}

impl View for Notification {
    type V = NotificationView;

    open spec fn view(&self) -> NotificationView {
        match self {
            Notification::SessionChanged { session_id, name } => NotificationView::SessionChanged {
                session_id: *session_id,
                name: name@,
            },
            Notification::SessionRenamed { session_id, name } => NotificationView::SessionRenamed {
                session_id: *session_id,
                name: name@,
            },
            Notification::SessionWindowChanged { session_id, window_id } =>
                NotificationView::SessionWindowChanged {
                session_id: *session_id,
                window_id: *window_id,
            },
            Notification::SessionsChanged => NotificationView::SessionsChanged,
            Notification::WindowAdd { window_id } => NotificationView::WindowAdd {
                window_id: *window_id,
            },
            Notification::WindowClose { window_id } => NotificationView::WindowClose {
                window_id: *window_id,
            },
            Notification::WindowRenamed { window_id, name } => NotificationView::WindowRenamed {
                window_id: *window_id,
                name: name@,
            },
            Notification::WindowPaneChanged { window_id, pane_id } =>
                NotificationView::WindowPaneChanged { window_id: *window_id, pane_id: *pane_id },
            Notification::PaneModeChanged { pane_id, mode } => NotificationView::PaneModeChanged {
                pane_id: *pane_id,
                mode: *mode,
            },
            Notification::Output { pane_id, data } => NotificationView::Output {
                pane_id: *pane_id,
                data: data@,
            },
            Notification::LayoutChange { window_id, layout } => NotificationView::LayoutChange {
                window_id: *window_id,
                layout: layout@,
            },
            Notification::Begin { command_number, flags } => NotificationView::Begin {
                command_number: *command_number,
                flags: *flags,
            },
            Notification::End { command_number, flags } => NotificationView::End {
                command_number: *command_number,
                flags: *flags,
            },
            Notification::Error { command_number, message } => NotificationView::Error {
                command_number: *command_number,
                message: message@,
            },
            Notification::Exit { reason } => NotificationView::Exit {
                reason: match reason {
                    Some(r) => Some(r@),
                    None => None,
                },
            },
            Notification::Unknown { name, args } => NotificationView::Unknown {
                name: name@,
                args: args@,
            },
        }
    }
}

/// A complete command response collected between %begin and %end.
#[derive(Debug, Clone, PartialEq, Eq)]
pub struct CommandResponse {
    pub command_number: u64,
    pub lines: Vec<String>,
    pub success: bool,
    pub error_message: Option<String>,
}

} // verus!
