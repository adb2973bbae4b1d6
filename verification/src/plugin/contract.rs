//! The contract between the host and a dynamically loaded plugin.
//!
//! Both sides speak in caller-owned buffers: the plugin declares itself as
//! JSON,
//!
//! ```json
//! {
//!   "inject": ["tools"],
//!   "tools": [
//!     { "name": "dsh_hello", "description": "", "parameters": {},
//!       "exec_id": "hello" }
//!   ]
//! }
//! ```
//!
//! and answers operation calls in JSON.

use vstd::prelude::*;

verus! {

/// The version of the contract. The host rejects plugins of another one.
pub const ABI_VERSION: u32 = 1;

/// Copies `src` to the front of a buffer and returns its length. Nothing is
/// written, and nothing returned, where the buffer is too small.
pub fn write_out(src: &[u8], buffer: &mut Vec<u8>) -> (r: Option<usize>)
    ensures
        match r {
            Some(n) => {
                &&& n == src@.len() <= old(buffer)@.len()
                &&& final(buffer)@ == src@ + old(buffer)@.skip(n as int)
            },
            None => src@.len() > old(buffer)@.len() && final(buffer)@ == old(buffer)@,
        },
{
    let ghost before = buffer@;
    let n: usize = src.len();
    if n > buffer.len() {
        return None;
    }
    for i in 0..n
        invariant
            n == src@.len() <= before.len(),
            buffer@ == src@.take(i as int) + before.skip(i as int),
    {
        assert(before.skip(i as int)[0] == before[i as int]);
        buffer.set(i, src[i]);
        assert(buffer@ =~= src@.take(i + 1) + before.skip(i + 1));
    }
    assert(src@.take(n as int) =~= src@);
    Some(n)
}

/// What a written buffer holds, read back by its length.
pub fn read_in(buffer: &Vec<u8>, len: usize) -> (r: Vec<u8>)
    requires
        len <= buffer@.len(),
    ensures
        r@ == buffer@.take(len as int),
{
    let mut out: Vec<u8> = Vec::new();
    for i in 0..len
        invariant
            len <= buffer@.len(),
            out@ == buffer@.take(i as int),
    {
        out.push(buffer[i]);
        assert(out@ =~= buffer@.take(i + 1));
    }
    out
}

/// What is written is read back, whatever the buffer held.
pub proof fn law_read_gives_back_what_was_written(src: Seq<u8>, before: Seq<u8>)
    requires
        src.len() <= before.len(),
    ensures
        (src + before.skip(src.len() as int)).take(src.len() as int) == src,
{
    assert((src + before.skip(src.len() as int)).take(src.len() as int) =~= src);
}

} // verus!
