//! The plain data records of the surrounding application carry their
//! values faithfully.

use typed_cache::bridge::{
    PaneInfo, SessionInfo, SessionUpdatePayload, SetupResult, SetupStep, TroubleshootingIssue,
    TroubleshootingStep, WindowInfo,
};

#[test]
fn session_info_nests_windows_and_panes() {
    let session = SessionInfo {
        session_name: "alpha".to_string(),
        project_name: "demo".to_string(),
        status: "running".to_string(),
        template: "default".to_string(),
        windows: vec![WindowInfo {
            index: 0,
            name: "main".to_string(),
            panes: vec![PaneInfo {
                command: "vim".to_string(),
                is_claude: false,
                is_controller: true,
            }],
        }],
    };
    assert_eq!(session.windows.len(), 1);
    assert_eq!(session.windows[0].panes[0].command, "vim");
    assert!(session.windows[0].panes[0].is_controller);
    let copy = session.clone();
    assert_eq!(copy.session_name, "alpha");
}

#[test]
fn session_update_payload_holds_both_statuses() {
    let payload = SessionUpdatePayload {
        session: "alpha".to_string(),
        status: "running".to_string(),
        controller_status: "Ready".to_string(),
    };
    assert_eq!(payload.status, "running");
    assert_eq!(payload.controller_status, "Ready");
}

#[test]
fn troubleshooting_records_hold_their_fields() {
    let issue = TroubleshootingIssue {
        id: "disk-full".to_string(),
        title: "Disk almost full".to_string(),
        description: "Less than 1 GiB left".to_string(),
        severity: "high".to_string(),
        category: "storage".to_string(),
        auto_fixable: false,
    };
    let step = TroubleshootingStep {
        id: "prune".to_string(),
        title: "Prune old logs".to_string(),
        description: "Remove logs older than a week".to_string(),
        command: None,
        safety_level: "safe".to_string(),
        estimated_time: 30,
    };
    assert_eq!(issue.severity, "high");
    assert!(!issue.auto_fixable);
    assert!(step.command.is_none());
    assert_eq!(step.estimated_time, 30);
}

#[test]
fn setup_records_hold_their_fields() {
    let step = SetupStep {
        id: "install".to_string(),
        name: "Install dependencies".to_string(),
        description: "Fetch what the project needs".to_string(),
        safety_level: "safe".to_string(),
        estimated_time: 60,
        dependencies: vec!["network".to_string()],
    };
    let result = SetupResult {
        success: true,
        message: "done".to_string(),
        details: "all dependencies present".to_string(),
    };
    assert_eq!(step.dependencies, vec!["network".to_string()]);
    assert!(result.success);
    assert_eq!(result.message, "done");
}
