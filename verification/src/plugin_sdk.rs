//! The data that plugins and the host exchange: plugin kinds, handles, and
//! the supporting types of the declarative widget tree and its events.
use vstd::prelude::*;

verus! {

/// Whether a plugin contributes actions only or a panel.
#[derive(Debug, Clone, Copy, PartialEq, Eq)]
pub enum PluginType {
    Action,
    Panel,
}

/// Where a panel plugin's panel is shown.
#[derive(Debug, Clone, Copy, PartialEq, Eq, Hash)]
pub enum PanelLocation {
    /// No panel (the original's `None` variant; that name is taken by `Option`).
    NoPanel,
    Left,
    Right,
    Bottom,
}

/// A session opened by a plugin.
#[derive(Debug, Clone, Copy, PartialEq, Eq, Hash)]
pub struct SessionHandle(pub u64);

/// A panel registered by a plugin.
#[derive(Debug, Clone, Copy, PartialEq, Eq, Hash)]
pub struct PanelHandle(pub u64);

/// The connection state of a plugin session.
#[derive(Debug, Clone, Copy, PartialEq, Eq)]
pub enum SessionStatus {
    Connecting,
    Connected,
    Error,
}

/// The direction in which a split pane divides its area.
#[derive(Debug, Clone)]
pub enum SplitDirection {
    Horizontal,
    Vertical,
}

/// The emphasis of a text widget.
#[derive(Debug, Clone)]
pub enum TextStyle {
    Normal,
    Secondary,
    Muted,
    Accent,
    Warn,
    Error,
}

/// The color scheme of a badge.
#[derive(Debug, Clone)]
pub enum BadgeVariant {
    Info,
    Success,
    Warn,
    Error,
}

/// One choice of a combo box.
#[derive(Debug, Clone)]
pub struct ComboBoxOption {
    pub value: String,
    pub label: String,
}

/// An item of a toolbar.
#[derive(Debug, Clone)]
pub enum ToolbarItem {
    Button {
        id: String,
        icon: Option<String>,
        label: Option<String>,
        tooltip: Option<String>,
        enabled: Option<bool>,
    },
    Separator,
    Spacer,
    TextInput { id: String, value: String, hint: Option<String> },
}

/// An entry of a context menu.
#[derive(Debug, Clone)]
pub struct ContextMenuItem {
    pub id: String,
    pub label: String,
    pub icon: Option<String>,
    pub enabled: Option<bool>,
    pub shortcut: Option<String>,
}

/// A node of a tree view, with its children.
#[derive(Debug)]
pub struct TreeNode {
    pub id: String,
    pub label: String,
    pub icon: Option<String>,
    pub icon_color: Option<String>,
    pub bold: Option<bool>,
    pub badge: Option<String>,
    pub expanded: Option<bool>,
    pub children: Vec<TreeNode>,
    pub context_menu: Option<Vec<ContextMenuItem>>,
}

/// A cell of a table row: plain text, or text with an icon and a badge.
#[derive(Debug, Clone)]
pub enum TableCell {
    Text(String),
    Rich { text: String, icon: Option<String>, badge: Option<String> },
}

/// A row of a table.
#[derive(Debug, Clone)]
pub struct TableRow {
    pub id: String,
    pub cells: Vec<TableCell>,
    pub context_menu: Option<Vec<ContextMenuItem>>,
}

/// An interaction with a widget, reported to the plugin that owns it.
#[derive(Debug, Clone)]
pub enum WidgetEvent {
    ButtonClick { id: String },
    TreeSelect { id: String, node_id: String },
    TreeActivate { id: String, node_id: String },
    TreeToggle { id: String, node_id: String, expanded: bool },
    TreeContextMenu { id: String, node_id: String, action: String },
    TextInputChanged { id: String, value: String },
    TextInputSubmit { id: String, value: String },
    TextEditChanged { id: String, value: String },
    TableSelect { id: String, row_id: String },
    TableActivate { id: String, row_id: String },
    TableSort { id: String, column: String, ascending: bool },
    TableContextMenu { id: String, row_id: String, action: String },
    TableHeaderContextMenu { id: String, column: String },
    TabChanged { id: String, active: usize },
    CheckboxChanged { id: String, checked: bool },
    ComboBoxChanged { id: String, value: String },
    PathBarNavigate { id: String, segment_index: usize },
    Drop { id: String, source: Option<String>, items: Vec<String> },
    ContextMenuAction { action: String },
    ToolbarInputSubmit { id: String, value: String },
    ToolbarInputChanged { id: String, value: String },
}

} // verus!
