//! Buffers for bulk copies, kept for reuse.
use vstd::prelude::*;

verus! {

/// Size of a buffer.
pub const BUFFER_POOL_SIZE: usize = 32768;

/// Buffers that are not in use.
pub struct BufferPool {
    pub free: Vec<Vec<u8>>,
}

/// So many zero bytes.
pub open spec fn zeros(n: nat) -> Seq<u8> {
    Seq::new(n, |i: int| 0u8)
}

impl BufferPool {
    /// Only clean buffers of the one size are kept.
    pub open spec fn wf(&self) -> bool {
        forall|i: int|
            0 <= i < self.free@.len() ==> (#[trigger] self.free@[i])@ == zeros(
                BUFFER_POOL_SIZE as nat,
            )
    }

    pub fn new() -> (p: BufferPool)
        ensures
            p.wf(),
            p.free@.len() == 0,
    {
        BufferPool { free: Vec::new() }
    }
}

/// A clean buffer: one that is kept, or a new one.
pub fn get_buffer(pool: &mut BufferPool) -> (buf: Vec<u8>)
    requires
        old(pool).wf(),
    ensures
        final(pool).wf(),
        buf@ == zeros(BUFFER_POOL_SIZE as nat),
        final(pool).free@ == if old(pool).free@.len() > 0 {
            old(pool).free@.drop_last()
        } else {
            old(pool).free@
        },
{
    let ghost free = pool.free@;
    match pool.free.pop() {
        Some(buf) => {
            assert(buf@ == free[free.len() - 1]@);
            buf
        },
        None => {
            let buf: Vec<u8> = vec![0; BUFFER_POOL_SIZE];
            assert(buf@ =~= zeros(BUFFER_POOL_SIZE as nat));
            buf
        },
    }
}

/// Overwrites bytes with zeros.
pub fn zero_bytes(buf: &mut Vec<u8>)
    ensures
        final(buf)@ == zeros(old(buf)@.len()),
{
    let n: usize = buf.len();
    let mut i: usize = 0;
    while i < n
        invariant
            i <= n,
            n == buf@.len(),
            n == old(buf)@.len(),
            forall|j: int| 0 <= j < i ==> buf@[j] == 0,
        decreases n - i,
    {
        buf.set(i, 0);
        i = i + 1;
    }
    assert(buf@ =~= zeros(n as nat));
}

/// Cleans a buffer and keeps it, if it has the right size; the caller is left
/// with an empty one then.
pub fn put_buffer(pool: &mut BufferPool, buf: &mut Vec<u8>)
    requires
        old(pool).wf(),
    ensures
        final(pool).wf(),
        if old(buf)@.len() == BUFFER_POOL_SIZE {
            final(buf)@.len() == 0 && final(pool).free@.len() == old(pool).free@.len() + 1
                && final(pool).free@.drop_last() == old(pool).free@
        } else {
            final(buf)@ == zeros(old(buf)@.len()) && final(pool).free@ == old(pool).free@
        },
{
    zero_bytes(buf);
    if buf.len() == BUFFER_POOL_SIZE {
        let mut clean: Vec<u8> = Vec::new();
        std::mem::swap(&mut clean, buf);
        let ghost free = pool.free@;
        let ghost c = clean;
        pool.free.push(clean);
        assert(pool.free@ == free.push(c));
        assert(pool.free@.drop_last() =~= free);
        assert forall|i: int| 0 <= i < pool.free@.len() implies (#[trigger] pool.free@[i])@ == zeros(
            BUFFER_POOL_SIZE as nat,
        ) by {
            if i < free.len() {
                assert(pool.free@[i] == free[i]);
            }
        }
    }
}

} // verus!
