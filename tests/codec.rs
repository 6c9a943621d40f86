use vm_provisioner::codec::{decode, encode, encode_frame, FrameReader};
use vm_provisioner::message::{ClipboardMessage, Message, WindowMessage};

fn all_messages() -> Vec<Message> {
    vec![
        Message::Window(WindowMessage::WindowCreated {
            id: 0x1c00001,
            title: "Grüße — LibreWolf".to_string(),
            width: 800,
            height: 600,
            x: -100,
            y: 50,
            app_name: "librewolf".to_string(),
        }),
        Message::Window(WindowMessage::WindowDestroyed { id: 7 }),
        Message::Window(WindowMessage::WindowMoved { id: 7, x: i32::MIN, y: i32::MAX }),
        Message::Window(WindowMessage::WindowResized { id: 7, width: u32::MAX, height: 0 }),
        Message::Window(WindowMessage::WindowTitleChanged { id: 7, title: String::new() }),
        Message::Window(WindowMessage::WindowFocusChanged { id: 7, focused: true }),
        Message::Window(WindowMessage::WindowFocusChanged { id: 8, focused: false }),
        Message::Window(WindowMessage::ApplicationStarted { app_name: "detected".to_string(), pid: 42 }),
        Message::Window(WindowMessage::ApplicationStopped { app_name: "code".to_string(), pid: 43 }),
        Message::Clipboard(ClipboardMessage::SetClipboard("hello".to_string())),
        Message::Clipboard(ClipboardMessage::GetClipboard),
        Message::Clipboard(ClipboardMessage::ClipboardContent("日本語 text".to_string())),
    ]
}

#[test]
fn round_trip_every_variant() {
    for m in all_messages() {
        let bytes = encode(&m);
        let back = decode(&bytes).expect("decodes");
        assert_eq!(back, m);
        assert_eq!(encode(&back), bytes);
    }
}

#[test]
fn destroyed_payload_bytes() {
    let m = Message::Window(WindowMessage::WindowDestroyed { id: 1 });
    assert_eq!(encode(&m), vec![1, 0, 0, 0, 1, 0, 0, 0]);
}

#[test]
fn set_clipboard_payload_bytes() {
    let m = Message::Clipboard(ClipboardMessage::SetClipboard("hi".to_string()));
    assert_eq!(encode(&m), vec![8, 0, 0, 0, 2, 0, 0, 0, 0, 0, 0, 0, b'h', b'i']);
}

#[test]
fn moved_payload_uses_twos_complement() {
    let m = Message::Window(WindowMessage::WindowMoved { id: 2, x: -1, y: 3 });
    assert_eq!(encode(&m), vec![2, 0, 0, 0, 2, 0, 0, 0, 255, 255, 255, 255, 3, 0, 0, 0]);
}

#[test]
fn frame_has_length_prefix() {
    let m = Message::Window(WindowMessage::WindowDestroyed { id: 1 });
    let f = encode_frame(&m).unwrap();
    assert_eq!(f, vec![8, 0, 0, 0, 1, 0, 0, 0, 1, 0, 0, 0]);
}

#[test]
fn malformed_payloads_are_rejected() {
    assert!(decode(&[]).is_none());
    assert!(decode(&[1, 0, 0]).is_none());
    // unknown tag
    assert!(decode(&[11, 0, 0, 0]).is_none());
    // missing field
    assert!(decode(&[1, 0, 0, 0, 1, 0]).is_none());
    // trailing byte
    assert!(decode(&[1, 0, 0, 0, 1, 0, 0, 0, 9]).is_none());
    // flag other than 0 or 1
    assert!(decode(&[5, 0, 0, 0, 1, 0, 0, 0, 2]).is_none());
    // invalid UTF-8
    assert!(decode(&[8, 0, 0, 0, 1, 0, 0, 0, 0, 0, 0, 0, 0xff]).is_none());
    // string length beyond the payload
    assert!(decode(&[8, 0, 0, 0, 9, 0, 0, 0, 0, 0, 0, 0, b'a']).is_none());
    // get with a stray field
    assert!(decode(&[9, 0, 0, 0, 0]).is_none());
}

#[test]
fn frames_split_whole_and_in_order() {
    let msgs = all_messages();
    let mut stream = Vec::new();
    for m in &msgs {
        stream.extend(encode_frame(m).unwrap());
    }
    let mut reader = FrameReader::new();
    let mut got = Vec::new();
    // feed the stream in uneven pieces
    for chunk in stream.chunks(5) {
        reader.push(chunk);
        while let Some(p) = reader.next_frame() {
            got.push(decode(&p).expect("whole frame"));
        }
    }
    assert_eq!(got, msgs);
    assert!(reader.next_frame().is_none());
}

#[test]
fn partial_frame_waits() {
    let m = Message::Clipboard(ClipboardMessage::GetClipboard);
    let f = encode_frame(&m).unwrap();
    let mut reader = FrameReader::new();
    reader.push(&f[..f.len() - 1]);
    assert!(reader.next_frame().is_none());
    reader.push(&f[f.len() - 1..]);
    let p = reader.next_frame().unwrap();
    assert_eq!(decode(&p), Some(m));
}

#[test]
fn corrupt_frame_is_dropped_and_next_frame_read() {
    let good = Message::Window(WindowMessage::WindowDestroyed { id: 3 });
    let mut reader = FrameReader::new();
    reader.push(&[2, 0, 0, 0, 0xaa, 0xbb]);
    reader.push(&encode_frame(&good).unwrap());
    let bad = reader.next_frame().unwrap();
    assert!(decode(&bad).is_none());
    assert_eq!(decode(&reader.next_frame().unwrap()), Some(good));
}
