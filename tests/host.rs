use vm_provisioner::codec::{decode, encode_frame, FrameReader};
use vm_provisioner::message::Message;
use vm_provisioner::window_proxy::{
    ClipboardAction, ClipboardMessage, ClipboardProxy, SurfaceRequest, WindowMessage, WindowProxy,
};

fn create(id: u32, title: &str) -> WindowMessage {
    WindowMessage::WindowCreated {
        id,
        title: title.to_string(),
        width: 800,
        height: 600,
        x: 1,
        y: 2,
        app_name: "firefox".to_string(),
    }
}

#[test]
fn unknown_id_resize_is_ignored() {
    let mut host = WindowProxy::new();
    host.handle_vm_message(create(1, "a"));
    let before = host.get(1).unwrap().clone();
    let req = host.handle_vm_message(WindowMessage::WindowResized { id: 999, width: 5, height: 5 });
    assert!(req.is_empty());
    assert_eq!(host.len(), 1);
    assert!(host.get(999).is_none());
    assert_eq!(host.get(1).unwrap(), &before);
}

#[test]
fn unknown_id_updates_are_ignored() {
    let mut host = WindowProxy::new();
    assert!(host.handle_vm_message(WindowMessage::WindowMoved { id: 9, x: 1, y: 1 }).is_empty());
    assert!(host
        .handle_vm_message(WindowMessage::WindowTitleChanged { id: 9, title: "t".to_string() })
        .is_empty());
    assert!(host.handle_vm_message(WindowMessage::WindowFocusChanged { id: 9, focused: true }).is_empty());
    assert!(host.handle_vm_message(WindowMessage::WindowDestroyed { id: 9 }).is_empty());
    assert_eq!(host.len(), 0);
}

#[test]
fn window_lifecycle_requests() {
    let mut host = WindowProxy::new();
    let req = host.handle_vm_message(create(1, "Firefox"));
    assert_eq!(
        req,
        vec![SurfaceRequest::Create { id: 1, title: "Firefox".to_string(), width: 800, height: 600 }]
    );
    let w = host.get(1).unwrap();
    assert_eq!((w.vm_window_id, w.x, w.y, w.focused), (1, 1, 2, false));
    assert_eq!(w.app_name, "firefox");

    let req = host.handle_vm_message(WindowMessage::WindowResized { id: 1, width: 10, height: 20 });
    assert_eq!(req, vec![SurfaceRequest::Resize { id: 1, width: 10, height: 20 }]);
    assert_eq!((host.get(1).unwrap().width, host.get(1).unwrap().height), (10, 20));

    let req = host.handle_vm_message(WindowMessage::WindowTitleChanged { id: 1, title: "New".to_string() });
    assert_eq!(req, vec![SurfaceRequest::Retitle { id: 1, title: "New".to_string() }]);
    assert_eq!(host.get(1).unwrap().title, "New");

    let req = host.handle_vm_message(WindowMessage::WindowMoved { id: 1, x: -3, y: 4 });
    assert!(req.is_empty());
    assert_eq!((host.get(1).unwrap().x, host.get(1).unwrap().y), (-3, 4));

    let req = host.handle_vm_message(WindowMessage::WindowFocusChanged { id: 1, focused: true });
    assert!(req.is_empty());
    assert!(host.get(1).unwrap().focused);

    let req = host.handle_vm_message(WindowMessage::ApplicationStarted {
        app_name: "detected".to_string(),
        pid: 5,
    });
    assert!(req.is_empty());
    assert_eq!(host.len(), 1);

    let req = host.handle_vm_message(WindowMessage::WindowDestroyed { id: 1 });
    assert_eq!(req, vec![SurfaceRequest::Destroy { id: 1 }]);
    assert_eq!(host.len(), 0);
}

#[test]
fn repeated_create_replaces_window() {
    let mut host = WindowProxy::new();
    host.handle_vm_message(create(3, "first"));
    let req = host.handle_vm_message(create(3, "second"));
    assert_eq!(
        req,
        vec![
            SurfaceRequest::Destroy { id: 3 },
            SurfaceRequest::Create { id: 3, title: "second".to_string(), width: 800, height: 600 },
        ]
    );
    assert_eq!(host.len(), 1);
    assert_eq!(host.get(3).unwrap().title, "second");
}

#[test]
fn clipboard_set_then_get_replies_with_value() {
    let mut clip = ClipboardProxy::new();
    let a = clip.handle_clipboard_message(ClipboardMessage::SetClipboard("hello".to_string()));
    assert_eq!(a, ClipboardAction::SetHost("hello".to_string()));
    let a = clip.handle_clipboard_message(ClipboardMessage::GetClipboard);
    assert_eq!(a, ClipboardAction::Reply(ClipboardMessage::ClipboardContent("hello".to_string())));
    assert_eq!(clip.content(), "hello");
}

#[test]
fn clipboard_over_one_connection() {
    let mut stream = Vec::new();
    stream.extend(encode_frame(&Message::Clipboard(ClipboardMessage::SetClipboard("hello".to_string()))).unwrap());
    stream.extend(encode_frame(&Message::Clipboard(ClipboardMessage::GetClipboard)).unwrap());
    let mut reader = FrameReader::new();
    reader.push(&stream);
    let mut clip = ClipboardProxy::new();
    let mut replies = Vec::new();
    while let Some(p) = reader.next_frame() {
        if let Some(Message::Clipboard(m)) = decode(&p) {
            if let ClipboardAction::Reply(r) = clip.handle_clipboard_message(m) {
                replies.push(r);
            }
        }
    }
    assert_eq!(replies, vec![ClipboardMessage::ClipboardContent("hello".to_string())]);
}

#[test]
fn clipboard_content_from_guest_is_ignored() {
    let mut clip = ClipboardProxy::new();
    let a = clip.handle_clipboard_message(ClipboardMessage::ClipboardContent("x".to_string()));
    assert_eq!(a, ClipboardAction::Nothing);
    assert_eq!(clip.content(), "");
    let a = clip.handle_clipboard_message(ClipboardMessage::GetClipboard);
    assert_eq!(a, ClipboardAction::Reply(ClipboardMessage::ClipboardContent(String::new())));
}

#[test]
fn host_clipboard_changes_are_stored() {
    let mut clip = ClipboardProxy::new();
    assert!(clip.host_clipboard_changed("abc".to_string()));
    assert!(!clip.host_clipboard_changed("abc".to_string()));
    assert_eq!(clip.content(), "abc");
    clip.handle_clipboard_message(ClipboardMessage::SetClipboard("guest".to_string()));
    assert!(clip.host_clipboard_changed("host".to_string()));
    assert_eq!(clip.content(), "host");
}
