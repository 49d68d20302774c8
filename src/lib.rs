//! HTTP/1 wire framing: decoding message heads and bodies from buffered
//! bytes, encoding them back, the connection-scoped codec state, reading
//! whole bodies under a limit, and the decisions of a connection's lifetime.
use vstd::prelude::*;

pub mod codec;
pub mod decoder;
pub mod dispatch;
pub mod encoder;
pub mod extract;
pub mod head;
pub mod lines;
pub mod message;

verus! {

} // verus!
