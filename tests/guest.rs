use vm_provisioner::guest_agent::{application_events, has_unique_ids, GuestAgent, WindowMessage};
use vm_provisioner::snapshot::WindowRecord;
use vm_provisioner::window_proxy::WindowProxy;

fn rec(id: u32, title: &str, width: u32, height: u32, x: i32, y: i32) -> WindowRecord {
    WindowRecord {
        id,
        title: title.to_string(),
        width,
        height,
        x,
        y,
        app_name: "unknown".to_string(),
        pid: 0,
    }
}

fn created(r: &WindowRecord) -> WindowMessage {
    WindowMessage::WindowCreated {
        id: r.id,
        title: r.title.clone(),
        width: r.width,
        height: r.height,
        x: r.x,
        y: r.y,
        app_name: r.app_name.clone(),
    }
}

#[test]
fn first_snapshot_creates_every_window() {
    let mut agent = GuestAgent::new();
    let a = vec![rec(1, "Browser", 800, 600, 0, 0), rec(2, "Editor", 640, 480, 10, 10)];
    let ev = agent.diff_snapshot(&a);
    assert_eq!(ev, vec![created(&a[0]), created(&a[1])]);
    assert_eq!(agent.windows(), &a);
}

#[test]
fn resize_scenario_emits_one_resize() {
    let mut agent = GuestAgent::new();
    agent.diff_snapshot(&vec![rec(1, "Browser", 800, 600, 0, 0)]);
    let ev = agent.diff_snapshot(&vec![rec(1, "Browser", 1024, 768, 0, 0)]);
    assert_eq!(ev, vec![WindowMessage::WindowResized { id: 1, width: 1024, height: 768 }]);
    assert_eq!(agent.windows(), &vec![rec(1, "Browser", 1024, 768, 0, 0)]);
}

#[test]
fn closed_window_scenario_emits_one_destroy() {
    let mut agent = GuestAgent::new();
    agent.diff_snapshot(&vec![rec(1, "Browser", 800, 600, 0, 0)]);
    let ev = agent.diff_snapshot(&vec![]);
    assert_eq!(ev, vec![WindowMessage::WindowDestroyed { id: 1 }]);
    assert!(agent.windows().is_empty());
}

#[test]
fn unchanged_snapshot_emits_nothing() {
    let mut agent = GuestAgent::new();
    let a = vec![rec(1, "Browser", 800, 600, 0, 0), rec(2, "Editor", 640, 480, 10, 10)];
    agent.diff_snapshot(&a);
    let before = agent.windows().clone();
    let ev = agent.diff_snapshot(&a);
    assert!(ev.is_empty());
    assert_eq!(agent.windows(), &before);
}

#[test]
fn events_come_in_creation_destruction_change_order() {
    let mut agent = GuestAgent::new();
    agent.diff_snapshot(&vec![rec(1, "Old", 10, 10, 0, 0), rec(2, "Two", 20, 20, 0, 0)]);
    let ev = agent.diff_snapshot(&vec![rec(2, "Two!", 20, 20, 5, 6), rec(3, "Three", 30, 30, 1, 1)]);
    assert_eq!(
        ev,
        vec![
            created(&rec(3, "Three", 30, 30, 1, 1)),
            WindowMessage::WindowDestroyed { id: 1 },
            WindowMessage::WindowTitleChanged { id: 2, title: "Two!".to_string() },
            WindowMessage::WindowMoved { id: 2, x: 5, y: 6 },
        ]
    );
}

#[test]
fn all_three_change_groups_in_order() {
    let mut agent = GuestAgent::new();
    agent.diff_snapshot(&vec![rec(4, "a", 1, 1, 1, 1)]);
    let ev = agent.diff_snapshot(&vec![rec(4, "b", 2, 2, 2, 2)]);
    assert_eq!(
        ev,
        vec![
            WindowMessage::WindowTitleChanged { id: 4, title: "b".to_string() },
            WindowMessage::WindowResized { id: 4, width: 2, height: 2 },
            WindowMessage::WindowMoved { id: 4, x: 2, y: 2 },
        ]
    );
}

#[test]
fn unchanged_shape_keeps_registered_record() {
    let mut agent = GuestAgent::new();
    let mut first = rec(5, "t", 1, 1, 0, 0);
    first.pid = 77;
    agent.diff_snapshot(&vec![first.clone()]);
    let ev = agent.diff_snapshot(&vec![rec(5, "t", 1, 1, 0, 0)]);
    assert!(ev.is_empty());
    assert_eq!(agent.windows()[0].pid, 77);
}

#[test]
fn repeated_id_snapshot_is_refused() {
    let mut agent = GuestAgent::new();
    agent.diff_snapshot(&vec![rec(1, "x", 1, 1, 0, 0)]);
    let dup = vec![rec(2, "a", 1, 1, 0, 0), rec(2, "b", 1, 1, 0, 0)];
    assert!(!has_unique_ids(&dup));
    assert!(agent.scan_windows(&dup).is_none());
    assert_eq!(agent.windows(), &vec![rec(1, "x", 1, 1, 0, 0)]);
    let ok = agent.scan_windows(&vec![]).unwrap();
    assert_eq!(ok, vec![WindowMessage::WindowDestroyed { id: 1 }]);
}

#[test]
fn replayed_events_reproduce_snapshot_on_host() {
    let mut agent = GuestAgent::new();
    let mut host = WindowProxy::new();
    let a = vec![rec(1, "Browser", 800, 600, 0, 0), rec(2, "Editor", 640, 480, 10, 10)];
    let b = vec![rec(2, "Editor*", 640, 500, 10, 12), rec(3, "Term", 300, 200, -4, 9)];
    for snap in [&a, &b] {
        for m in agent.diff_snapshot(snap) {
            host.handle_vm_message(m);
        }
    }
    assert_eq!(host.len(), 2);
    assert!(host.get(1).is_none());
    for r in &b {
        let w = host.get(r.id).unwrap();
        assert_eq!((&w.title, w.width, w.height, w.x, w.y), (&r.title, r.width, r.height, r.x, r.y));
    }
}

#[test]
fn process_listing_gives_start_events() {
    let ev = application_events("123\n456\r\nabc\n\n");
    assert_eq!(
        ev,
        vec![
            WindowMessage::ApplicationStarted { app_name: "detected".to_string(), pid: 123 },
            WindowMessage::ApplicationStarted { app_name: "detected".to_string(), pid: 456 },
        ]
    );
    assert!(application_events("").is_empty());
}
