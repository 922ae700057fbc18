//! The frames a client builds: the same messages, wrapped by number.
use crate::buffer::{buffer_bytes, buffer_with_capacity, max_buffer_len};
use crate::message::{encode, ProtoMessage};
pub use crate::types::{EchoRequest, Login, MsgSendRequest, RawTcpMessage};
use crate::types::frame_of;
use vstd::prelude::*;
use vstd::slice::slice_to_vec;

verus! {

/// Wraps a message in a frame of the given type.
fn to_raw<M: ProtoMessage>(type_id: i32, msg: M) -> (r: RawTcpMessage)
    requires
        M::encoding(msg@).len() <= max_buffer_len(),
    ensures
        r@ == frame_of::<M>(type_id, msg@),
{
    let mut buffer = buffer_with_capacity(msg.encoded_len());
    let _ = encode(&msg, &mut buffer);
    RawTcpMessage { type_id, body: slice_to_vec(buffer_bytes(&buffer)) }
}

/// The frame announcing user `id` (type 1).
pub fn create_login(id: String) -> (r: RawTcpMessage)
    requires
        Login::encoding(id@).len() <= max_buffer_len(),
    ensures
        r@ == frame_of::<Login>(1, id@),
{
    to_raw(1, Login { id })
}

/// The frame asking the server to send `body` back (type 2).
pub fn create_echo(body: String) -> (r: RawTcpMessage)
    requires
        EchoRequest::encoding(body@).len() <= max_buffer_len(),
    ensures
        r@ == frame_of::<EchoRequest>(2, body@),
{
    to_raw(2, EchoRequest { body })
}

/// The frame sending `body` to user `to_id` (type 3).
pub fn create_send(to_id: String, body: String) -> (r: RawTcpMessage)
    requires
        MsgSendRequest::encoding((to_id@, body@)).len() <= max_buffer_len(),
    ensures
        r@ == frame_of::<MsgSendRequest>(3, (to_id@, body@)),
{
    to_raw(3, MsgSendRequest { to_id, body })
}

} // verus!
