use vstd::prelude::*;
use crate::bytes::push_all;
use crate::ids::{render_id, render_event_id};

verus! {

/// The bytes of `event:`.
pub open spec fn event_prefix() -> Seq<u8> {
    seq![0x65u8, 0x76, 0x65, 0x6e, 0x74, 0x3a]
}

/// The bytes of `id:`.
pub open spec fn id_prefix() -> Seq<u8> {
    seq![0x69u8, 0x64, 0x3a]
}

/// The bytes of `data:`.
pub open spec fn data_prefix() -> Seq<u8> {
    seq![0x64u8, 0x61, 0x74, 0x61, 0x3a]
}

/// One line feed.
pub open spec fn nl() -> Seq<u8> {
    seq![0x0au8]
}

/// One push frame: `event:<name>`, `id:<canonical id>` and `data:<payload>`,
/// each on its own line, terminated by a blank line. A payload holding a bare
/// line break corrupts the frame; callers single-line-encode payloads first.
pub open spec fn frame_bytes(name: Seq<u8>, id: u128, data: Seq<u8>) -> Seq<u8> {
    event_prefix() + name + nl() + id_prefix() + render_id(id) + nl() + data_prefix() + data + nl()
        + nl()
}

/// Formats one outbound event frame.
pub fn frame_event(name: &Vec<u8>, id: u128, data: &Vec<u8>) -> (r: Vec<u8>)
    ensures
        r@ == frame_bytes(name@, id, data@),
{
    let mut out: Vec<u8> = Vec::new();
    out.push(0x65);
    out.push(0x76);
    out.push(0x65);
    out.push(0x6e);
    out.push(0x74);
    out.push(0x3a);
    push_all(&mut out, name.as_slice());
    out.push(0x0a);
    out.push(0x69);
    out.push(0x64);
    out.push(0x3a);
    let idb = render_event_id(id);
    push_all(&mut out, idb.as_slice());
    out.push(0x0a);
    out.push(0x64);
    out.push(0x61);
    out.push(0x74);
    out.push(0x61);
    out.push(0x3a);
    push_all(&mut out, data.as_slice());
    out.push(0x0a);
    out.push(0x0a);
    proof {
        assert(out@ =~= frame_bytes(name@, id, data@));
    }
    out
}

/// The bytes of the success status line plus the headers that declare a
/// persistent event-stream response with permissive cross-origin access.
pub open spec fn handshake_bytes() -> Seq<u8> {
    seq![
        0x48u8,
        0x54,
        0x54,
        0x50,
        0x2f,
        0x31,
        0x2e,
        0x31,
        0x20,
        0x32,
        0x30,
        0x30,
        0x20,
        0x4f,
        0x4b,
        0x0d,
        0x0a,
        0x43,
        0x6f,
        0x6e,
        0x74,
        0x65,
        0x6e,
        0x74,
        0x2d,
        0x54,
        0x79,
        0x70,
        0x65,
        0x3a,
        0x20,
        0x74,
        0x65,
        0x78,
        0x74,
        0x2f,
        0x65,
        0x76,
        0x65,
        0x6e,
        0x74,
        0x2d,
        0x73,
        0x74,
        0x72,
        0x65,
        0x61,
        0x6d,
        0x0d,
        0x0a,
        0x41,
        0x63,
        0x63,
        0x65,
        0x73,
        0x73,
        0x2d,
        0x43,
        0x6f,
        0x6e,
        0x74,
        0x72,
        0x6f,
        0x6c,
        0x2d,
        0x41,
        0x6c,
        0x6c,
        0x6f,
        0x77,
        0x2d,
        0x4f,
        0x72,
        0x69,
        0x67,
        0x69,
        0x6e,
        0x3a,
        0x20,
        0x2a,
        0x0d,
        0x0a,
        0x0d,
        0x0a,
    ]
}

/// `HTTP/1.1 200 OK`, `Content-Type: text/event-stream`,
/// `Access-Control-Allow-Origin: *`, then the blank line; no body framing.
pub fn write_handshake() -> (r: Vec<u8>)
    ensures
        r@ == handshake_bytes(),
{
    let mut out: Vec<u8> = Vec::new();
    out.push(0x48);
    out.push(0x54);
    out.push(0x54);
    out.push(0x50);
    out.push(0x2f);
    out.push(0x31);
    out.push(0x2e);
    out.push(0x31);
    out.push(0x20);
    out.push(0x32);
    out.push(0x30);
    out.push(0x30);
    out.push(0x20);
    out.push(0x4f);
    out.push(0x4b);
    out.push(0x0d);
    out.push(0x0a);
    out.push(0x43);
    out.push(0x6f);
    out.push(0x6e);
    out.push(0x74);
    out.push(0x65);
    out.push(0x6e);
    out.push(0x74);
    out.push(0x2d);
    out.push(0x54);
    out.push(0x79);
    out.push(0x70);
    out.push(0x65);
    out.push(0x3a);
    out.push(0x20);
    out.push(0x74);
    out.push(0x65);
    out.push(0x78);
    out.push(0x74);
    out.push(0x2f);
    out.push(0x65);
    out.push(0x76);
    out.push(0x65);
    out.push(0x6e);
    out.push(0x74);
    out.push(0x2d);
    out.push(0x73);
    out.push(0x74);
    out.push(0x72);
    out.push(0x65);
    out.push(0x61);
    out.push(0x6d);
    out.push(0x0d);
    out.push(0x0a);
    out.push(0x41);
    out.push(0x63);
    out.push(0x63);
    out.push(0x65);
    out.push(0x73);
    out.push(0x73);
    out.push(0x2d);
    out.push(0x43);
    out.push(0x6f);
    out.push(0x6e);
    out.push(0x74);
    out.push(0x72);
    out.push(0x6f);
    out.push(0x6c);
    out.push(0x2d);
    out.push(0x41);
    out.push(0x6c);
    out.push(0x6c);
    out.push(0x6f);
    out.push(0x77);
    out.push(0x2d);
    out.push(0x4f);
    out.push(0x72);
    out.push(0x69);
    out.push(0x67);
    out.push(0x69);
    out.push(0x6e);
    out.push(0x3a);
    out.push(0x20);
    out.push(0x2a);
    out.push(0x0d);
    out.push(0x0a);
    out.push(0x0d);
    out.push(0x0a);
    proof {
        assert(out@ =~= handshake_bytes());
    }
    out
}

/// The status-line-only rejection: `HTTP/1.1 400 Bad Request` and a blank line.
pub open spec fn error_response_bytes() -> Seq<u8> {
    seq![
        0x48u8,
        0x54,
        0x54,
        0x50,
        0x2f,
        0x31,
        0x2e,
        0x31,
        0x20,
        0x34,
        0x30,
        0x30,
        0x20,
        0x42,
        0x61,
        0x64,
        0x20,
        0x52,
        0x65,
        0x71,
        0x75,
        0x65,
        0x73,
        0x74,
        0x0d,
        0x0a,
        0x0d,
        0x0a,
    ]
}

/// Formats the rejection sent for the root path or an unparsable request.
pub fn write_error_response() -> (r: Vec<u8>)
    ensures
        r@ == error_response_bytes(),
{
    let mut out: Vec<u8> = Vec::new();
    out.push(0x48);
    out.push(0x54);
    out.push(0x54);
    out.push(0x50);
    out.push(0x2f);
    out.push(0x31);
    out.push(0x2e);
    out.push(0x31);
    out.push(0x20);
    out.push(0x34);
    out.push(0x30);
    out.push(0x30);
    out.push(0x20);
    out.push(0x42);
    out.push(0x61);
    out.push(0x64);
    out.push(0x20);
    out.push(0x52);
    out.push(0x65);
    out.push(0x71);
    out.push(0x75);
    out.push(0x65);
    out.push(0x73);
    out.push(0x74);
    out.push(0x0d);
    out.push(0x0a);
    out.push(0x0d);
    out.push(0x0a);
    proof {
        assert(out@ =~= error_response_bytes());
    }
    out
}

} // verus!
