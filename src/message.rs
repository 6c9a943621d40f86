//! The message vocabulary shared by guest and host.
use vstd::prelude::*;

verus! {

/// Window and application events sent from guest to host.
#[derive(Debug, Clone, PartialEq, Eq)]
pub enum WindowMessage {
    WindowCreated {
        id: u32,
        title: String,
        width: u32,
        height: u32,
        x: i32,
        y: i32,
        app_name: String,
    },
    WindowDestroyed { id: u32 },
    WindowMoved { id: u32, x: i32, y: i32 },
    WindowResized { id: u32, width: u32, height: u32 },
    WindowTitleChanged { id: u32, title: String },
    WindowFocusChanged { id: u32, focused: bool },
    ApplicationStarted { app_name: String, pid: u32 },
    ApplicationStopped { app_name: String, pid: u32 },
}

/// Clipboard requests and replies, exchanged in both directions.
#[derive(Debug, Clone, PartialEq, Eq)]
pub enum ClipboardMessage {
    SetClipboard(String),
    GetClipboard,
    ClipboardContent(String),
}

/// One frame's worth of content: a window event or a clipboard message.
#[derive(Debug, Clone, PartialEq, Eq)]
pub enum Message {
    Window(WindowMessage),
    Clipboard(ClipboardMessage),
}

/// `WindowMessage` with its strings seen as character sequences.
pub enum WindowMessageView {
    WindowCreated {
        id: u32,
        title: Seq<char>,
        width: u32,
        height: u32,
        x: i32,
        y: i32,
        app_name: Seq<char>,
    },
    WindowDestroyed { id: u32 },
    WindowMoved { id: u32, x: i32, y: i32 },
    WindowResized { id: u32, width: u32, height: u32 },
    WindowTitleChanged { id: u32, title: Seq<char> },
    WindowFocusChanged { id: u32, focused: bool },
    ApplicationStarted { app_name: Seq<char>, pid: u32 },
    ApplicationStopped { app_name: Seq<char>, pid: u32 },
}

/// `ClipboardMessage` with its text seen as characters.
pub enum ClipboardMessageView {
    SetClipboard(Seq<char>),
    GetClipboard,
    ClipboardContent(Seq<char>),
}

/// `Message` with its text seen as characters.
pub enum MessageView {
    Window(WindowMessageView),
    Clipboard(ClipboardMessageView),
}

impl View for WindowMessage {
    type V = WindowMessageView;

    open spec fn view(&self) -> WindowMessageView {
        match self {
            WindowMessage::WindowCreated { id, title, width, height, x, y, app_name } =>
                WindowMessageView::WindowCreated {
                id: *id,
                title: title@,
                width: *width,
                height: *height,
                x: *x,
                y: *y,
                app_name: app_name@,
            },
            WindowMessage::WindowDestroyed { id } => WindowMessageView::WindowDestroyed { id: *id },
            WindowMessage::WindowMoved { id, x, y } => WindowMessageView::WindowMoved {
                id: *id,
                x: *x,
                y: *y,
            },
            WindowMessage::WindowResized { id, width, height } => WindowMessageView::WindowResized {
                id: *id,
                width: *width,
                height: *height,
            },
            WindowMessage::WindowTitleChanged { id, title } =>
                WindowMessageView::WindowTitleChanged { id: *id, title: title@ },
            WindowMessage::WindowFocusChanged { id, focused } =>
                WindowMessageView::WindowFocusChanged { id: *id, focused: *focused },
            WindowMessage::ApplicationStarted { app_name, pid } =>
                WindowMessageView::ApplicationStarted { app_name: app_name@, pid: *pid },
            WindowMessage::ApplicationStopped { app_name, pid } =>
                WindowMessageView::ApplicationStopped { app_name: app_name@, pid: *pid },
        }
    }
}

impl View for ClipboardMessage {
    type V = ClipboardMessageView;

    open spec fn view(&self) -> ClipboardMessageView {
        match self {
            ClipboardMessage::SetClipboard(t) => ClipboardMessageView::SetClipboard(t@),
            ClipboardMessage::GetClipboard => ClipboardMessageView::GetClipboard,
            ClipboardMessage::ClipboardContent(t) => ClipboardMessageView::ClipboardContent(t@),
        }
    }
}

impl View for Message {
    type V = MessageView;

    open spec fn view(&self) -> MessageView {
        match self {
            Message::Window(w) => MessageView::Window(w@),
            Message::Clipboard(c) => MessageView::Clipboard(c@),
        }
    }
}

} // verus!
