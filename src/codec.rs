//! The wire format. A payload is a little-endian `u32` tag naming the variant,
//! followed by the variant's fields in declaration order: integers as four
//! little-endian bytes (signed ones in two's complement), strings as an eight-byte
//! little-endian byte length followed by their UTF-8 bytes, and flags as one byte
//! `0` or `1`. A frame is a four-byte little-endian payload length followed by the
//! payload.
use vstd::prelude::*;
use vstd::bytes::{
    spec_u32_to_le_bytes,
    spec_u32_from_le_bytes,
    spec_u64_to_le_bytes,
    spec_u64_from_le_bytes,
    lemma_auto_spec_u32_to_from_le_bytes,
    lemma_auto_spec_u64_to_from_le_bytes,
    u32_to_le_bytes,
    u32_from_le_bytes,
    u64_to_le_bytes,
    u64_from_le_bytes,
};
use vstd::utf8::{
    encode_utf8,
    valid_utf8,
    decode_utf8,
    encode_utf8_decode_utf8,
    encode_utf8_valid_utf8,
    decode_utf8_encode_utf8,
};
use vstd::slice::{slice_subrange, slice_to_vec};
use crate::message::{
    WindowMessage,
    ClipboardMessage,
    Message,
    WindowMessageView,
    ClipboardMessageView,
    MessageView,
};

verus! {

/// One field of a payload.
pub enum Field {
    Int(u32),
    Text(String),
    Flag(bool),
}

/// A field with its text seen as characters.
pub enum FieldView {
    Int(u32),
    Text(Seq<char>),
    Flag(bool),
}

#[derive(Clone, Copy, PartialEq, Eq, Structural, Debug)]
pub enum FieldKind {
    Int,
    Text,
    Flag,
}

impl View for Field {
    type V = FieldView;

    open spec fn view(&self) -> FieldView {
        match self {
            Field::Int(v) => FieldView::Int(*v),
            Field::Text(s) => FieldView::Text(s@),
            Field::Flag(b) => FieldView::Flag(*b),
        }
    }
}

pub open spec fn kind_of(f: FieldView) -> FieldKind {
    match f {
        FieldView::Int(_) => FieldKind::Int,
        FieldView::Text(_) => FieldKind::Text,
        FieldView::Flag(_) => FieldKind::Flag,
    }
}

pub open spec fn kinds_of(fs: Seq<FieldView>) -> Seq<FieldKind> {
    fs.map_values(|f: FieldView| kind_of(f))
}

/// The field kinds that follow each tag; `None` for an unknown tag.
pub open spec fn kinds_for(tag: u32) -> Option<Seq<FieldKind>> {
    let (i, t, f) = (FieldKind::Int, FieldKind::Text, FieldKind::Flag);
    if tag == 0 {
        Some(seq![i, t, i, i, i, i, t])
    } else if tag == 1 {
        Some(seq![i])
    } else if tag == 2 || tag == 3 {
        Some(seq![i, i, i])
    } else if tag == 4 {
        Some(seq![i, t])
    } else if tag == 5 {
        Some(seq![i, f])
    } else if tag == 6 || tag == 7 {
        Some(seq![t, i])
    } else if tag == 8 || tag == 10 {
        Some(seq![t])
    } else if tag == 9 {
        Some(seq![])
    } else {
        None
    }
}

/// The tag and fields of a message.
pub open spec fn layout(m: MessageView) -> (u32, Seq<FieldView>) {
    let (i, t, f) = (FieldKind::Int, FieldKind::Text, FieldKind::Flag);
    match m {
        MessageView::Window(w) => match w {
            WindowMessageView::WindowCreated { id, title, width, height, x, y, app_name } => (
                0,
                seq![
                    FieldView::Int(id),
                    FieldView::Text(title),
                    FieldView::Int(width),
                    FieldView::Int(height),
                    FieldView::Int(x as u32),
                    FieldView::Int(y as u32),
                    FieldView::Text(app_name),
                ],
            ),
            WindowMessageView::WindowDestroyed { id } => (1, seq![FieldView::Int(id)]),
            WindowMessageView::WindowMoved { id, x, y } => (
                2,
                seq![FieldView::Int(id), FieldView::Int(x as u32), FieldView::Int(y as u32)],
            ),
            WindowMessageView::WindowResized { id, width, height } => (
                3,
                seq![FieldView::Int(id), FieldView::Int(width), FieldView::Int(height)],
            ),
            WindowMessageView::WindowTitleChanged { id, title } => (
                4,
                seq![FieldView::Int(id), FieldView::Text(title)],
            ),
            WindowMessageView::WindowFocusChanged { id, focused } => (
                5,
                seq![FieldView::Int(id), FieldView::Flag(focused)],
            ),
            WindowMessageView::ApplicationStarted { app_name, pid } => (
                6,
                seq![FieldView::Text(app_name), FieldView::Int(pid)],
            ),
            WindowMessageView::ApplicationStopped { app_name, pid } => (
                7,
                seq![FieldView::Text(app_name), FieldView::Int(pid)],
            ),
        },
        MessageView::Clipboard(c) => match c {
            ClipboardMessageView::SetClipboard(s) => (8, seq![FieldView::Text(s)]),
            ClipboardMessageView::GetClipboard => (9, seq![]),
            ClipboardMessageView::ClipboardContent(s) => (10, seq![FieldView::Text(s)]),
        },
    }
}

pub open spec fn int_at(fs: Seq<FieldView>, i: int) -> u32 {
    match fs[i] {
        FieldView::Int(v) => v,
        _ => 0,
    }
}

pub open spec fn text_at(fs: Seq<FieldView>, i: int) -> Seq<char> {
    match fs[i] {
        FieldView::Text(s) => s,
        _ => Seq::empty(),
    }
}

pub open spec fn flag_at(fs: Seq<FieldView>, i: int) -> bool {
    match fs[i] {
        FieldView::Flag(b) => b,
        _ => false,
    }
}

/// The message with the given tag and fields, for fields of the tag's kinds.
pub open spec fn assemble(tag: u32, fs: Seq<FieldView>) -> MessageView {
    if tag == 0 {
        MessageView::Window(
            WindowMessageView::WindowCreated {
                id: int_at(fs, 0),
                title: text_at(fs, 1),
                width: int_at(fs, 2),
                height: int_at(fs, 3),
                x: int_at(fs, 4) as i32,
                y: int_at(fs, 5) as i32,
                app_name: text_at(fs, 6),
            },
        )
    } else if tag == 1 {
        MessageView::Window(WindowMessageView::WindowDestroyed { id: int_at(fs, 0) })
    } else if tag == 2 {
        MessageView::Window(
            WindowMessageView::WindowMoved {
                id: int_at(fs, 0),
                x: int_at(fs, 1) as i32,
                y: int_at(fs, 2) as i32,
            },
        )
    } else if tag == 3 {
        MessageView::Window(
            WindowMessageView::WindowResized {
                id: int_at(fs, 0),
                width: int_at(fs, 1),
                height: int_at(fs, 2),
            },
        )
    } else if tag == 4 {
        MessageView::Window(
            WindowMessageView::WindowTitleChanged { id: int_at(fs, 0), title: text_at(fs, 1) },
        )
    } else if tag == 5 {
        MessageView::Window(
            WindowMessageView::WindowFocusChanged { id: int_at(fs, 0), focused: flag_at(fs, 1) },
        )
    } else if tag == 6 {
        MessageView::Window(
            WindowMessageView::ApplicationStarted { app_name: text_at(fs, 0), pid: int_at(fs, 1) },
        )
    } else if tag == 7 {
        MessageView::Window(
            WindowMessageView::ApplicationStopped { app_name: text_at(fs, 0), pid: int_at(fs, 1) },
        )
    } else if tag == 8 {
        MessageView::Clipboard(ClipboardMessageView::SetClipboard(text_at(fs, 0)))
    } else if tag == 9 {
        MessageView::Clipboard(ClipboardMessageView::GetClipboard)
    } else {
        MessageView::Clipboard(ClipboardMessageView::ClipboardContent(text_at(fs, 0)))
    }
}

/// The bytes of one field.
pub open spec fn enc_field(f: FieldView) -> Seq<u8> {
    match f {
        FieldView::Int(v) => spec_u32_to_le_bytes(v),
        FieldView::Text(s) => spec_u64_to_le_bytes(encode_utf8(s).len() as u64) + encode_utf8(s),
        FieldView::Flag(b) => seq![if b { 1u8 } else { 0u8 }],
    }
}

/// The bytes of fields written one after another.
pub open spec fn enc_fields(fs: Seq<FieldView>) -> Seq<u8>
    decreases fs.len(),
{
    if fs.len() == 0 {
        Seq::empty()
    } else {
        enc_field(fs[0]) + enc_fields(fs.drop_first())
    }
}

/// A field the format can carry: a string's UTF-8 length fits the eight-byte prefix.
pub open spec fn field_fits(f: FieldView) -> bool {
    match f {
        FieldView::Text(s) => encode_utf8(s).len() <= u64::MAX,
        _ => true,
    }
}

/// Every string of the message fits the format.
pub open spec fn message_fits(m: MessageView) -> bool {
    forall|i: int| 0 <= i < layout(m).1.len() ==> field_fits(#[trigger] layout(m).1[i])
}

/// The payload bytes of a message.
pub open spec fn encode_message(m: MessageView) -> Seq<u8> {
    spec_u32_to_le_bytes(layout(m).0) + enc_fields(layout(m).1)
}

/// Reads one field of kind `k` at the start of `b`: the field and how many bytes it took.
pub open spec fn parse_field(b: Seq<u8>, k: FieldKind) -> Option<(FieldView, int)> {
    match k {
        FieldKind::Int => if b.len() >= 4 {
            Some((FieldView::Int(spec_u32_from_le_bytes(b.take(4))), 4))
        } else {
            None
        },
        FieldKind::Text => if b.len() >= 8 {
            let n = spec_u64_from_le_bytes(b.take(8)) as int;
            if 8 + n <= b.len() && valid_utf8(b.subrange(8, 8 + n)) {
                Some((FieldView::Text(decode_utf8(b.subrange(8, 8 + n))), 8 + n))
            } else {
                None
            }
        } else {
            None
        },
        FieldKind::Flag => if b.len() >= 1 && (b[0] == 0 || b[0] == 1) {
            Some((FieldView::Flag(b[0] == 1), 1))
        } else {
            None
        },
    }
}

/// Reads fields of the kinds `ks`, in order, using up all of `b`.
pub open spec fn parse_fields(b: Seq<u8>, ks: Seq<FieldKind>) -> Option<Seq<FieldView>>
    decreases ks.len(),
{
    if ks.len() == 0 {
        if b.len() == 0 {
            Some(Seq::empty())
        } else {
            None
        }
    } else {
        match parse_field(b, ks[0]) {
            Some((f, n)) => match parse_fields(b.skip(n), ks.drop_first()) {
                Some(rest) => Some(seq![f] + rest),
                None => None,
            },
            None => None,
        }
    }
}

/// The message that payload `b` holds, if any.
pub open spec fn parse_message(b: Seq<u8>) -> Option<MessageView> {
    if b.len() >= 4 {
        let tag = spec_u32_from_le_bytes(b.take(4));
        match kinds_for(tag) {
            Some(ks) => match parse_fields(b.skip(4), ks) {
                Some(fs) => Some(assemble(tag, fs)),
                None => None,
            },
            None => None,
        }
    } else {
        None
    }
}

proof fn lemma_parse_field_of_encoding(f: FieldView, rest: Seq<u8>)
    requires
        field_fits(f),
    ensures
        parse_field(enc_field(f) + rest, kind_of(f)) == Some((f, enc_field(f).len() as int)),
{
    lemma_auto_spec_u32_to_from_le_bytes();
    lemma_auto_spec_u64_to_from_le_bytes();
    let b = enc_field(f) + rest;
    match f {
        FieldView::Int(v) => {
            assert(b.take(4) =~= spec_u32_to_le_bytes(v));
        },
        FieldView::Text(s) => {
            let e = encode_utf8(s);
            let n = e.len() as u64;
            assert(b.take(8) =~= spec_u64_to_le_bytes(n));
            assert(b.subrange(8, 8 + e.len() as int) =~= e);
            encode_utf8_valid_utf8(s);
            encode_utf8_decode_utf8(s);
        },
        FieldView::Flag(v) => {},
    }
}

proof fn lemma_encoding_of_parsed_field(b: Seq<u8>, k: FieldKind)
    requires
        parse_field(b, k) is Some,
    ensures
        ({
            let (f, n) = parse_field(b, k)->0;
            &&& 0 < n <= b.len()
            &&& b.take(n) == enc_field(f)
            &&& kind_of(f) == k
            &&& field_fits(f)
        }),
{
    lemma_auto_spec_u32_to_from_le_bytes();
    lemma_auto_spec_u64_to_from_le_bytes();
    let (f, n) = parse_field(b, k)->0;
    match k {
        FieldKind::Int => {
            assert(b.take(4).len() == 4);
            assert(b.take(n) =~= enc_field(f));
        },
        FieldKind::Text => {
            let len = spec_u64_from_le_bytes(b.take(8));
            let body = b.subrange(8, 8 + len as int);
            decode_utf8_encode_utf8(body);
            assert(b.take(8).len() == 8);
            assert(encode_utf8(decode_utf8(body)).len() as u64 == len);
            assert(b.take(n) =~= spec_u64_to_le_bytes(len) + body);
        },
        FieldKind::Flag => {
            assert(b.take(n) =~= enc_field(f));
        },
    }
}

proof fn lemma_parse_fields_of_encoding(fs: Seq<FieldView>)
    requires
        forall|i: int| 0 <= i < fs.len() ==> field_fits(#[trigger] fs[i]),
    ensures
        parse_fields(enc_fields(fs), kinds_of(fs)) == Some(fs),
    decreases fs.len(),
{
    if fs.len() > 0 {
        let rest = fs.drop_first();
        assert forall|i: int| 0 <= i < rest.len() implies field_fits(#[trigger] rest[i]) by {
            assert(rest[i] == fs[i + 1]);
        }
        lemma_parse_fields_of_encoding(rest);
        lemma_parse_field_of_encoding(fs[0], enc_fields(rest));
        let b = enc_fields(fs);
        assert(b.skip(enc_field(fs[0]).len() as int) =~= enc_fields(rest));
        assert(kinds_of(fs).drop_first() =~= kinds_of(rest));
        assert(seq![fs[0]] + rest =~= fs);
    }
}

proof fn lemma_encoding_of_parsed_fields(b: Seq<u8>, ks: Seq<FieldKind>)
    requires
        parse_fields(b, ks) is Some,
    ensures
        enc_fields(parse_fields(b, ks)->0) == b,
        kinds_of(parse_fields(b, ks)->0) == ks,
        forall|i: int|
            0 <= i < ks.len() ==> field_fits(#[trigger] (parse_fields(b, ks)->0)[i]),
    decreases ks.len(),
{
    let fs = parse_fields(b, ks)->0;
    if ks.len() == 0 {
        assert(b =~= Seq::<u8>::empty());
        assert(kinds_of(fs) =~= ks);
    } else {
        let (f, n) = parse_field(b, ks[0])->0;
        lemma_encoding_of_parsed_field(b, ks[0]);
        lemma_encoding_of_parsed_fields(b.skip(n), ks.drop_first());
        let rest = parse_fields(b.skip(n), ks.drop_first())->0;
        assert(fs =~= seq![f] + rest);
        assert(fs.drop_first() =~= rest);
        assert(b =~= b.take(n) + b.skip(n));
        assert(kinds_of(fs) =~= ks) by {
            assert(kinds_of(rest) =~= ks.drop_first());
            assert forall|i: int| 0 <= i < ks.len() implies kinds_of(fs)[i] == ks[i] by {
                if i > 0 {
                    assert(kinds_of(fs)[i] == kinds_of(rest)[i - 1]);
                }
            }
        }
        assert forall|i: int| 0 <= i < ks.len() implies field_fits(#[trigger] fs[i]) by {
            if i > 0 {
                assert(fs[i] == rest[i - 1]);
            }
        }
    }
}

proof fn lemma_int_casts(v: u32, x: i32)
    ensures
        (x as u32) as i32 == x,
        (v as i32) as u32 == v,
{
    assert((x as u32) as i32 == x) by (bit_vector);
    assert((v as i32) as u32 == v) by (bit_vector);
}

proof fn lemma_layout_kinds(m: MessageView)
    ensures
        kinds_for(layout(m).0) == Some(kinds_of(layout(m).1)),
        assemble(layout(m).0, layout(m).1) == m,
{
    let (tag, fs) = layout(m);
    assert(kinds_for(tag)->0 =~= kinds_of(fs));
    match m {
        MessageView::Window(WindowMessageView::WindowCreated { x, y, .. }) => {
            lemma_int_casts(0, x);
            lemma_int_casts(0, y);
        },
        MessageView::Window(WindowMessageView::WindowMoved { x, y, .. }) => {
            lemma_int_casts(0, x);
            lemma_int_casts(0, y);
        },
        _ => {},
    }
}

proof fn lemma_assemble_layout(tag: u32, fs: Seq<FieldView>)
    requires
        kinds_for(tag) == Some(kinds_of(fs)),
    ensures
        layout(assemble(tag, fs)) == (tag, fs),
{
    let ks = kinds_of(fs);
    assert(fs.len() == ks.len());
    assert forall|i: int| 0 <= i < fs.len() implies #[trigger] kind_of(fs[i]) == ks[i] by {}
    assert forall|i: int| 0 <= i < fs.len() && kind_of(fs[i]) == FieldKind::Int implies fs[i]
        == FieldView::Int(#[trigger] int_at(fs, i)) by {}
    assert forall|i: int| 0 <= i < fs.len() && kind_of(fs[i]) == FieldKind::Text implies fs[i]
        == FieldView::Text(#[trigger] text_at(fs, i)) by {}
    assert forall|i: int| 0 <= i < fs.len() && kind_of(fs[i]) == FieldKind::Flag implies fs[i]
        == FieldView::Flag(#[trigger] flag_at(fs, i)) by {}
    if fs.len() > 4 {
        lemma_int_casts(int_at(fs, 4), 0);
        lemma_int_casts(int_at(fs, 5), 0);
    }
    if fs.len() > 2 {
        lemma_int_casts(int_at(fs, 1), 0);
        lemma_int_casts(int_at(fs, 2), 0);
    }
    assert(layout(assemble(tag, fs)).1 =~= fs);
}

/// Decoding the encoding of any message gives that message back.
pub proof fn lemma_decode_encode(m: MessageView)
    requires
        message_fits(m),
    ensures
        parse_message(encode_message(m)) == Some(m),
{
    lemma_auto_spec_u32_to_from_le_bytes();
    let (tag, fs) = layout(m);
    let b = encode_message(m);
    lemma_layout_kinds(m);
    lemma_parse_fields_of_encoding(fs);
    assert(b.take(4) =~= spec_u32_to_le_bytes(tag));
    assert(b.skip(4) =~= enc_fields(fs));
}

/// A payload that decodes is exactly the encoding of what it decodes to, so a
/// decode followed by an encode gives back the same bytes.
pub proof fn lemma_encode_decode(b: Seq<u8>)
    requires
        parse_message(b) is Some,
    ensures
        encode_message(parse_message(b)->0) == b,
        message_fits(parse_message(b)->0),
{
    lemma_auto_spec_u32_to_from_le_bytes();
    let tag = spec_u32_from_le_bytes(b.take(4));
    let ks = kinds_for(tag)->0;
    let fs = parse_fields(b.skip(4), ks)->0;
    lemma_encoding_of_parsed_fields(b.skip(4), ks);
    lemma_assemble_layout(tag, fs);
    assert(b.take(4).len() == 4);
    assert(b =~= b.take(4) + b.skip(4));
}

/// The bytes of a frame carrying `payload`.
pub open spec fn frame_of(payload: Seq<u8>) -> Seq<u8> {
    spec_u32_to_le_bytes(payload.len() as u32) + payload
}

/// The frames carrying `ps`, one after another.
pub open spec fn frames_of(ps: Seq<Seq<u8>>) -> Seq<u8>
    decreases ps.len(),
{
    if ps.len() == 0 {
        Seq::empty()
    } else {
        frame_of(ps[0]) + frames_of(ps.drop_first())
    }
}

/// The first whole frame at the start of `b`: its payload and what follows it.
pub open spec fn take_frame(b: Seq<u8>) -> Option<(Seq<u8>, Seq<u8>)> {
    if b.len() >= 4 {
        let n = spec_u32_from_le_bytes(b.take(4)) as int;
        if 4 + n <= b.len() {
            Some((b.subrange(4, 4 + n), b.skip(4 + n)))
        } else {
            None
        }
    } else {
        None
    }
}

/// The payloads of the whole frames at the start of `b`, in order.
pub open spec fn split_frames(b: Seq<u8>) -> Seq<Seq<u8>>
    decreases b.len(),
{
    match take_frame(b) {
        Some((p, rest)) => {
            if rest.len() < b.len() {
                seq![p] + split_frames(rest)
            } else {
                seq![p]
            }
        },
        None => Seq::empty(),
    }
}

/// A frame is taken whole from the front of a stream, whatever follows it.
pub proof fn lemma_take_frame(payload: Seq<u8>, rest: Seq<u8>)
    requires
        payload.len() <= u32::MAX,
    ensures
        take_frame(frame_of(payload) + rest) == Some((payload, rest)),
{
    lemma_auto_spec_u32_to_from_le_bytes();
    let b = frame_of(payload) + rest;
    assert(b.take(4) =~= spec_u32_to_le_bytes(payload.len() as u32));
    assert(b.subrange(4, 4 + payload.len() as int) =~= payload);
    assert(b.skip(4 + payload.len() as int) =~= rest);
}

/// A stream made of whole frames, written one after another without interleaving,
/// splits back into exactly their payloads, in order.
pub proof fn lemma_split_frames(ps: Seq<Seq<u8>>)
    requires
        forall|i: int| 0 <= i < ps.len() ==> (#[trigger] ps[i]).len() <= u32::MAX,
    ensures
        split_frames(frames_of(ps)) == ps,
    decreases ps.len(),
{
    if ps.len() == 0 {
        assert(take_frame(Seq::<u8>::empty()) is None);
        assert(split_frames(frames_of(ps)) =~= ps);
    } else {
        let rest = ps.drop_first();
        assert forall|i: int| 0 <= i < rest.len() implies (#[trigger] rest[i]).len() <= u32::MAX by {
            assert(rest[i] == ps[i + 1]);
        }
        lemma_split_frames(rest);
        lemma_take_frame(ps[0], frames_of(rest));
        lemma_auto_spec_u32_to_from_le_bytes();
        assert(frame_of(ps[0]).len() >= 4);
        assert(seq![ps[0]] + rest =~= ps);
    }
}

/// Relies on `std::str::from_utf8`: it accepts exactly the well-formed UTF-8
/// byte strings, and the resulting text has the characters they encode.
#[verifier::external_body]
fn utf8_text(b: &[u8]) -> (r: Option<String>)
    ensures
        r is Some <==> valid_utf8(b@),
        r is Some ==> r->0@ == decode_utf8(b@),
{
    std::str::from_utf8(b).ok().map(|s| s.to_string())
}

fn put_field(out: &mut Vec<u8>, f: &Field)
    ensures
        final(out)@ == old(out)@ + enc_field(f@),
        field_fits(f@),
{
    match f {
        Field::Int(v) => {
            let mut b = u32_to_le_bytes(*v);
            out.append(&mut b);
        },
        Field::Text(s) => {
            let bytes = s.as_str().as_bytes();
            assert(bytes@ == encode_utf8(s@));
            let mut len = u64_to_le_bytes(bytes.len() as u64);
            out.append(&mut len);
            let mut body = slice_to_vec(bytes);
            out.append(&mut body);
        },
        Field::Flag(b) => {
            let v: u8 = if *b {
                1
            } else {
                0
            };
            out.push(v);
        },
    }
    assert(final(out)@ =~= old(out)@ + enc_field(f@));
}

fn read_field(b: &[u8], pos: usize, k: FieldKind) -> (r: Option<(Field, usize)>)
    requires
        pos <= b@.len(),
    ensures
        r is Some <==> parse_field(b@.skip(pos as int), k) is Some,
        r is Some ==> (r->0).0@ == (parse_field(b@.skip(pos as int), k)->0).0 && (r->0).1 == pos
            + (parse_field(b@.skip(pos as int), k)->0).1,
{
    let ghost rest = b@.skip(pos as int);
    let avail = b.len() - pos;
    match k {
        FieldKind::Int => {
            if avail < 4 {
                return None;
            }
            let v = u32_from_le_bytes(slice_subrange(b, pos, pos + 4));
            assert(b@.subrange(pos as int, pos + 4) =~= rest.take(4));
            Some((Field::Int(v), pos + 4))
        },
        FieldKind::Text => {
            if avail < 8 {
                return None;
            }
            let n = u64_from_le_bytes(slice_subrange(b, pos, pos + 8));
            assert(b@.subrange(pos as int, pos + 8) =~= rest.take(8));
            if n > (avail - 8) as u64 {
                return None;
            }
            let n = n as usize;
            let body = slice_subrange(b, pos + 8, pos + 8 + n);
            assert(body@ =~= rest.subrange(8, 8 + n));
            match utf8_text(body) {
                Some(t) => Some((Field::Text(t), pos + 8 + n)),
                None => None,
            }
        },
        FieldKind::Flag => {
            if avail < 1 {
                return None;
            }
            let v = b[pos];
            assert(rest[0] == v);
            if v == 0 {
                Some((Field::Flag(false), pos + 1))
            } else if v == 1 {
                Some((Field::Flag(true), pos + 1))
            } else {
                None
            }
        },
    }
}

fn kinds_for_tag(tag: u32) -> (r: Option<Vec<FieldKind>>)
    ensures
        r is Some <==> kinds_for(tag) is Some,
        r is Some ==> r->0@ == kinds_for(tag)->0,
{
    let (i, t, f) = (FieldKind::Int, FieldKind::Text, FieldKind::Flag);
    let r = if tag == 0 {
        Some(vec![i, t, i, i, i, i, t])
    } else if tag == 1 {
        Some(vec![i])
    } else if tag == 2 || tag == 3 {
        Some(vec![i, i, i])
    } else if tag == 4 {
        Some(vec![i, t])
    } else if tag == 5 {
        Some(vec![i, f])
    } else if tag == 6 || tag == 7 {
        Some(vec![t, i])
    } else if tag == 8 || tag == 10 {
        Some(vec![t])
    } else if tag == 9 {
        Some(vec![])
    } else {
        None
    };
    proof {
        if r is Some {
            assert(r->0@ =~= kinds_for(tag)->0);
        }
    }
    r
}

pub open spec fn views_of(fs: Seq<Field>) -> Seq<FieldView> {
    fs.map_values(|f: Field| f@)
}

fn read_fields(b: &[u8], pos: usize, ks: &Vec<FieldKind>) -> (r: Option<Vec<Field>>)
    requires
        pos <= b@.len(),
    ensures
        r is Some <==> parse_fields(b@.skip(pos as int), ks@) is Some,
        r is Some ==> views_of(r->0@) == parse_fields(b@.skip(pos as int), ks@)->0,
{
    let mut out: Vec<Field> = Vec::new();
    let mut p = pos;
    let mut i: usize = 0;
    assert(ks@.skip(0) =~= ks@);
    proof {
        match parse_fields(b@.skip(pos as int), ks@) {
            Some(rest) => {
                assert(views_of(out@) + rest =~= rest);
            },
            None => {},
        }
    }
    while i < ks.len()
        invariant
            pos <= p <= b@.len(),
            i <= ks@.len(),
            parse_fields(b@.skip(pos as int), ks@) == (match parse_fields(
                b@.skip(p as int),
                ks@.skip(i as int),
            ) {
                Some(rest) => Some(views_of(out@) + rest),
                None => None::<Seq<FieldView>>,
            }),
        decreases ks.len() - i,
    {
        let ghost tail = b@.skip(p as int);
        let ghost kt = ks@.skip(i as int);
        assert(kt[0] == ks@[i as int]);
        match read_field(b, p, ks[i]) {
            Some((f, q)) => {
                let ghost n = q - p;
                assert(tail.skip(n) =~= b@.skip(q as int));
                assert(kt.drop_first() =~= ks@.skip(i + 1));
                proof {
                    match parse_fields(b@.skip(q as int), ks@.skip(i + 1)) {
                        Some(rest) => {
                            assert(views_of(out@.push(f)) =~= views_of(out@) + seq![f@]);
                            assert(views_of(out@) + (seq![f@] + rest) =~= views_of(out@.push(f))
                                + rest);
                        },
                        None => {},
                    }
                }
                out.push(f);
                p = q;
                i = i + 1;
            },
            None => {
                return None;
            },
        }
    }
    assert(ks@.skip(i as int) =~= Seq::<FieldKind>::empty());
    if p == b.len() {
        assert(b@.skip(p as int) =~= Seq::<u8>::empty());
        assert(views_of(out@) + Seq::<FieldView>::empty() =~= views_of(out@));
        Some(out)
    } else {
        None
    }
}

fn int_field(f: &Field) -> (r: u32)
    ensures
        f@ is Int ==> r == f@->Int_0,
{
    match f {
        Field::Int(v) => *v,
        _ => 0,
    }
}

fn text_field(f: &Field) -> (r: String)
    ensures
        f@ is Text ==> r@ == f@->Text_0,
{
    match f {
        Field::Text(s) => s.clone(),
        _ => String::new(),
    }
}

fn flag_field(f: &Field) -> (r: bool)
    ensures
        f@ is Flag ==> r == f@->Flag_0,
{
    match f {
        Field::Flag(b) => *b,
        _ => false,
    }
}

fn assemble_message(tag: u32, fs: &Vec<Field>) -> (r: Message)
    requires
        kinds_for(tag) == Some(kinds_of(views_of(fs@))),
    ensures
        r@ == assemble(tag, views_of(fs@)),
{
    let ghost v = views_of(fs@);
    assert(v.len() == fs@.len());
    assert(kinds_of(v).len() == v.len());
    assert forall|i: int| 0 <= i < fs@.len() implies #[trigger] kind_of(v[i]) == kinds_of(v)[i]
        && v[i] == fs@[i]@ by {}
    proof {
        let ks = kinds_of(v);
        if v.len() > 0 {
            assert(kind_of(v[0]) == ks[0]);
        }
        if v.len() > 1 {
            assert(kind_of(v[1]) == ks[1]);
        }
        if v.len() > 2 {
            assert(kind_of(v[2]) == ks[2]);
        }
        if v.len() > 6 {
            assert(kind_of(v[3]) == ks[3]);
            assert(kind_of(v[4]) == ks[4]);
            assert(kind_of(v[5]) == ks[5]);
            assert(kind_of(v[6]) == ks[6]);
        }
    }
    if tag == 0 {
        Message::Window(
            WindowMessage::WindowCreated {
                id: int_field(&fs[0]),
                title: text_field(&fs[1]),
                width: int_field(&fs[2]),
                height: int_field(&fs[3]),
                x: int_field(&fs[4]) as i32,
                y: int_field(&fs[5]) as i32,
                app_name: text_field(&fs[6]),
            },
        )
    } else if tag == 1 {
        Message::Window(WindowMessage::WindowDestroyed { id: int_field(&fs[0]) })
    } else if tag == 2 {
        Message::Window(
            WindowMessage::WindowMoved {
                id: int_field(&fs[0]),
                x: int_field(&fs[1]) as i32,
                y: int_field(&fs[2]) as i32,
            },
        )
    } else if tag == 3 {
        Message::Window(
            WindowMessage::WindowResized {
                id: int_field(&fs[0]),
                width: int_field(&fs[1]),
                height: int_field(&fs[2]),
            },
        )
    } else if tag == 4 {
        Message::Window(
            WindowMessage::WindowTitleChanged { id: int_field(&fs[0]), title: text_field(&fs[1]) },
        )
    } else if tag == 5 {
        Message::Window(
            WindowMessage::WindowFocusChanged {
                id: int_field(&fs[0]),
                focused: flag_field(&fs[1]),
            },
        )
    } else if tag == 6 {
        Message::Window(
            WindowMessage::ApplicationStarted {
                app_name: text_field(&fs[0]),
                pid: int_field(&fs[1]),
            },
        )
    } else if tag == 7 {
        Message::Window(
            WindowMessage::ApplicationStopped {
                app_name: text_field(&fs[0]),
                pid: int_field(&fs[1]),
            },
        )
    } else if tag == 8 {
        Message::Clipboard(ClipboardMessage::SetClipboard(text_field(&fs[0])))
    } else if tag == 9 {
        Message::Clipboard(ClipboardMessage::GetClipboard)
    } else {
        Message::Clipboard(ClipboardMessage::ClipboardContent(text_field(&fs[0])))
    }
}

fn layout_of(m: &Message) -> (r: (u32, Vec<Field>))
    ensures
        r.0 == layout(m@).0,
        views_of(r.1@) == layout(m@).1,
{
    let r = match m {
        Message::Window(w) => match w {
            WindowMessage::WindowCreated { id, title, width, height, x, y, app_name } => (
                0,
                vec![
                    Field::Int(*id),
                    Field::Text(title.clone()),
                    Field::Int(*width),
                    Field::Int(*height),
                    Field::Int(*x as u32),
                    Field::Int(*y as u32),
                    Field::Text(app_name.clone()),
                ],
            ),
            WindowMessage::WindowDestroyed { id } => (1, vec![Field::Int(*id)]),
            WindowMessage::WindowMoved { id, x, y } => (
                2,
                vec![Field::Int(*id), Field::Int(*x as u32), Field::Int(*y as u32)],
            ),
            WindowMessage::WindowResized { id, width, height } => (
                3,
                vec![Field::Int(*id), Field::Int(*width), Field::Int(*height)],
            ),
            WindowMessage::WindowTitleChanged { id, title } => (
                4,
                vec![Field::Int(*id), Field::Text(title.clone())],
            ),
            WindowMessage::WindowFocusChanged { id, focused } => (
                5,
                vec![Field::Int(*id), Field::Flag(*focused)],
            ),
            WindowMessage::ApplicationStarted { app_name, pid } => (
                6,
                vec![Field::Text(app_name.clone()), Field::Int(*pid)],
            ),
            WindowMessage::ApplicationStopped { app_name, pid } => (
                7,
                vec![Field::Text(app_name.clone()), Field::Int(*pid)],
            ),
        },
        Message::Clipboard(c) => match c {
            ClipboardMessage::SetClipboard(s) => (8, vec![Field::Text(s.clone())]),
            ClipboardMessage::GetClipboard => (9, vec![]),
            ClipboardMessage::ClipboardContent(s) => (10, vec![Field::Text(s.clone())]),
        },
    };
    assert(views_of(r.1@) =~= layout(m@).1);
    r
}

/// The payload bytes of `m`.
pub fn encode(m: &Message) -> (r: Vec<u8>)
    ensures
        r@ == encode_message(m@),
        message_fits(m@),
{
    let (tag, fields) = layout_of(m);
    let mut out = u32_to_le_bytes(tag);
    let mut i: usize = 0;
    while i < fields.len()
        invariant
            i <= fields@.len(),
            out@ == spec_u32_to_le_bytes(tag) + enc_fields(views_of(fields@).take(i as int)),
            forall|j: int| 0 <= j < i ==> field_fits(#[trigger] views_of(fields@)[j]),
        decreases fields.len() - i,
    {
        put_field(&mut out, &fields[i]);
        proof {
            lemma_enc_fields_push(views_of(fields@).take(i as int), fields@[i as int]@);
            assert(views_of(fields@).take(i + 1) =~= views_of(fields@).take(i as int).push(
                fields@[i as int]@,
            ));
        }
        i = i + 1;
    }
    assert(views_of(fields@).take(i as int) =~= views_of(fields@));
    out
}

proof fn lemma_enc_fields_push(fs: Seq<FieldView>, f: FieldView)
    ensures
        enc_fields(fs.push(f)) == enc_fields(fs) + enc_field(f),
    decreases fs.len(),
{
    if fs.len() == 0 {
        let g = fs.push(f);
        assert(g.drop_first() =~= fs);
        assert(g[0] == f);
        assert(enc_fields(g) == enc_field(g[0]) + enc_fields(g.drop_first()));
        assert(enc_fields(fs) =~= Seq::<u8>::empty());
        assert(enc_fields(g) =~= enc_field(f));
    } else {
        lemma_enc_fields_push(fs.drop_first(), f);
        assert(fs.push(f).drop_first() =~= fs.drop_first().push(f));
        assert(enc_fields(fs.push(f)) =~= enc_fields(fs) + enc_field(f));
    }
}

/// The message that payload `b` holds. `None` exactly when no message encodes to `b`.
pub fn decode(b: &[u8]) -> (r: Option<Message>)
    ensures
        r is Some <==> parse_message(b@) is Some,
        r is Some ==> parse_message(b@) == Some(r->0@) && encode_message(r->0@) == b@,
        r is None ==> forall|m: MessageView|
            message_fits(m) ==> #[trigger] encode_message(m) != b@,
{
    if b.len() < 4 {
        proof {
            assert forall|m: MessageView| message_fits(m) implies #[trigger] encode_message(m)
                != b@ by {
                lemma_decode_encode(m);
            }
        }
        return None;
    }
    let tag = u32_from_le_bytes(slice_subrange(b, 0, 4));
    assert(b@.subrange(0, 4) =~= b@.take(4));
    let r = match kinds_for_tag(tag) {
        Some(ks) => match read_fields(b, 4, &ks) {
            Some(fs) => {
                proof {
                    lemma_encoding_of_parsed_fields(b@.skip(4), ks@);
                }
                Some(assemble_message(tag, &fs))
            },
            None => None,
        },
        None => None,
    };
    proof {
        if r is Some {
            lemma_encode_decode(b@);
        } else {
            assert forall|m: MessageView| message_fits(m) implies #[trigger] encode_message(m)
                != b@ by {
                lemma_decode_encode(m);
            }
        }
    }
    r
}

/// The frame carrying `m`; `None` when its payload is longer than a `u32` can count.
pub fn encode_frame(m: &Message) -> (r: Option<Vec<u8>>)
    ensures
        r is Some <==> encode_message(m@).len() <= u32::MAX,
        r is Some ==> r->0@ == frame_of(encode_message(m@)),
{
    let mut payload = encode(m);
    if payload.len() > 0xffff_ffff {
        return None;
    }
    let mut out = u32_to_le_bytes(payload.len() as u32);
    out.append(&mut payload);
    Some(out)
}

/// Collects bytes from a stream and hands out the payloads of whole frames.
pub struct FrameReader {
    buf: Vec<u8>,
}

impl View for FrameReader {
    type V = Seq<u8>;

    closed spec fn view(&self) -> Seq<u8> {
        self.buf@
    }
}

impl FrameReader {
    pub fn new() -> (r: Self)
        ensures
            r@ == Seq::<u8>::empty(),
    {
        FrameReader { buf: Vec::new() }
    }

    /// Appends bytes read from the stream.
    pub fn push(&mut self, bytes: &[u8])
        ensures
            final(self)@ == old(self)@ + bytes@,
    {
        let mut more = slice_to_vec(bytes);
        self.buf.append(&mut more);
    }

    /// Takes the payload of the first frame once all of it has arrived.
    pub fn next_frame(&mut self) -> (r: Option<Vec<u8>>)
        ensures
            r is Some <==> take_frame(old(self)@) is Some,
            r is Some ==> r->0@ == (take_frame(old(self)@)->0).0 && final(self)@ == (take_frame(
                old(self)@,
            )->0).1,
            r is None ==> final(self)@ == old(self)@,
    {
        if self.buf.len() < 4 {
            return None;
        }
        let n = u32_from_le_bytes(slice_subrange(self.buf.as_slice(), 0, 4));
        assert(self.buf@.subrange(0, 4) =~= self.buf@.take(4));
        if (n as usize) > self.buf.len() - 4 {
            return None;
        }
        let end = 4 + n as usize;
        let payload = slice_to_vec(slice_subrange(self.buf.as_slice(), 4, end));
        let rest = slice_to_vec(slice_subrange(self.buf.as_slice(), end, self.buf.len()));
        assert(rest@ =~= self.buf@.skip(end as int));
        self.buf = rest;
        Some(payload)
    }
}

} // verus!
