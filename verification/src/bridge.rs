//! Plain data records exchanged with the surrounding application: what
//! the session-orchestration backend reports and what the UI event
//! layer carries. They hold values only; the cache engine is
//! independent of them, and the I/O that fills them lives outside the
//! library.

use vstd::prelude::*;

verus! {

/// A UI notification that a session's state changed.
#[derive(Debug, Clone)]
pub struct SessionUpdatePayload {
    pub session: String,
    pub status: String,
    pub controller_status: String,
}

/// One orchestrated session as the backend reports it.
#[derive(Debug, Clone)]
pub struct SessionInfo {
    pub session_name: String,
    pub project_name: String,
    pub status: String,
    pub template: String,
    pub windows: Vec<WindowInfo>,
}

/// One window of a session.
#[derive(Debug, Clone)]
pub struct WindowInfo {
    pub index: i32,
    pub name: String,
    pub panes: Vec<PaneInfo>,
}

/// One pane of a window.
#[derive(Debug, Clone)]
pub struct PaneInfo {
    pub command: String,
    pub is_claude: bool,
    pub is_controller: bool,
}

/// A problem the diagnosis pass found.
#[derive(Debug)]
pub struct TroubleshootingIssue {
    pub id: String,
    pub title: String,
    pub description: String,
    pub severity: String,
    pub category: String,
    pub auto_fixable: bool,
}

/// One step of a troubleshooting guide.
#[derive(Debug)]
pub struct TroubleshootingStep {
    pub id: String,
    pub title: String,
    pub description: String,
    pub command: Option<String>,
    pub safety_level: String,
    pub estimated_time: i32,
}

/// One step of the guided setup.
#[derive(Debug)]
pub struct SetupStep {
    pub id: String,
    pub name: String,
    pub description: String,
    pub safety_level: String,
    pub estimated_time: i32,
    pub dependencies: Vec<String>,
}

/// The outcome of one setup step.
#[derive(Debug)]
pub struct SetupResult {
    pub success: bool,
    pub message: String,
    pub details: String,
}

} // verus!
