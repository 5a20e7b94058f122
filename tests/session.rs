use insen_client::{ControllerState, InsenController, InsenError, MonitorPlan};

const EXAMPLE: &str = ">>> INPUT|2|100,-200|0,0|255,0|0x41|3|87";

#[test]
fn example_is_retrievable_from_the_store() {
    let mut c = InsenController::new();
    assert_eq!(c.controller_state(2), None);
    let st = c.parse_controller_input(EXAMPLE, 11).unwrap();
    assert_eq!(c.controller_state(2), Some(st));
    assert_eq!(c.controller_state(3), None);
}

#[test]
fn later_frame_overwrites_the_entry() {
    let mut c = InsenController::new();
    c.parse_controller_input(EXAMPLE, 1).unwrap();
    let st = c
        .parse_controller_input(">>> INPUT|2|1,1|0,0|0,0|0x0|0|50", 2)
        .unwrap();
    assert_eq!(c.controller_state(2), Some(st));
    assert_eq!(c.controller_state(2).unwrap().battery, 50);
}

#[test]
fn failed_parse_leaves_store_alone() {
    let mut c = InsenController::new();
    assert_eq!(
        c.parse_controller_input(">>> INPUT|2|1|0,0|0,0|0x0|0|50", 2),
        Err(InsenError::ParseError)
    );
    assert_eq!(c.controller_state(2), None);
}

#[test]
fn commands_need_a_connection() {
    let mut c = InsenController::new();
    assert_eq!(c.send_command("INFO"), Err(InsenError::NotConnected));
    assert_eq!(c.get_status(), Err(InsenError::NotConnected));
    assert_eq!(c.input_request(0), Err(InsenError::NotConnected));
    assert_eq!(c.connect(false), Err(InsenError::ConnectionError));
    assert!(!c.is_connected());
    assert_eq!(c.connect(true), Ok("INFO\r\n".to_string()));
    assert!(c.is_connected());
    assert_eq!(c.get_device_info(), Ok("INFO\r\n".to_string()));
    assert_eq!(c.get_status(), Ok("STATUS\r\n".to_string()));
    assert_eq!(c.list_controllers(), Ok("LIST\r\n".to_string()));
    assert_eq!(c.input_request(7), Ok("GET 7\r\n".to_string()));
}

#[test]
fn unparsable_input_reply_is_absence() {
    let mut c = InsenController::new();
    assert_eq!(c.get_controller_input(">>> nothing here", 0), None);
    let st: Option<ControllerState> = c.get_controller_input(EXAMPLE, 3);
    assert_eq!(st.map(|s| s.id), Some(2));
    assert_eq!(c.controller_state(2), st);
}

#[test]
fn stop_when_idle_changes_nothing() {
    let mut c = InsenController::new();
    c.stop_monitoring();
    assert_eq!(c.monitor_plan(), None);
    assert_eq!(c.poll_request(), None);
}

#[test]
fn second_start_launches_nothing() {
    let mut c = InsenController::new();
    let plan = c.start_monitoring(1, 60);
    assert_eq!(plan, Some(MonitorPlan { controller_id: 1, interval_ms: 16 }));
    assert_eq!(c.start_monitoring(4, 10), None);
    assert_eq!(c.monitor_plan(), plan);
    c.stop_monitoring();
    assert_eq!(c.monitor_plan(), None);
    assert_eq!(
        c.start_monitoring(4, 10),
        Some(MonitorPlan { controller_id: 4, interval_ms: 100 })
    );
}

#[test]
fn poll_request_follows_the_plan() {
    let mut c = InsenController::new();
    c.start_monitoring(3, 1000);
    assert_eq!(c.poll_request(), Some(Err(InsenError::NotConnected)));
    c.connect(true).unwrap();
    assert_eq!(c.poll_request(), Some(Ok("GET 3\r\n".to_string())));
}

#[test]
fn disconnect_twice_releases_once() {
    let mut c = InsenController::new();
    c.connect(true).unwrap();
    c.start_monitoring(0, 30);
    assert!(c.disconnect());
    assert!(!c.is_connected());
    assert_eq!(c.monitor_plan(), None);
    assert!(!c.disconnect());
    assert!(!c.is_connected());
}
