use vstd::prelude::*;

verus! {

/// Bytes at the low end of a kernel stack that execution must never reach.
pub const GUARD_PAGE_SIZE: usize = 4096;

/// Size of a kernel stack, guard included.
pub const KERNEL_STACK_BYTES: usize = 12288;

/// Length of the canary written right after the guard region.
pub const MAGIC_LEN: usize = 8;

/// The canary pattern, "stkguard".
pub open spec fn magic() -> Seq<u8> {
    seq![0x73u8, 0x74u8, 0x6bu8, 0x67u8, 0x75u8, 0x61u8, 0x72u8, 0x64u8]
}

fn magic_byte(i: usize) -> (r: u8)
    requires
        i < MAGIC_LEN,
    ensures
        r == magic()[i as int],
{
    let m: [u8; 8] = [0x73, 0x74, 0x6b, 0x67, 0x75, 0x61, 0x72, 0x64];
    m[i]
}

/// The canary no longer holds its pattern: the stack overflowed into its guard.
#[derive(Clone, Copy, PartialEq, Eq, Debug, Structural)]
pub struct StackCorruption;

/// The canary bytes of `bytes` hold the pattern.
pub open spec fn canary_intact(bytes: Seq<u8>) -> bool {
    bytes.subrange(GUARD_PAGE_SIZE as int, (GUARD_PAGE_SIZE + MAGIC_LEN) as int) == magic()
}

/// A zeroed stack whose canary holds the pattern.
pub open spec fn fresh_stack(bytes: Seq<u8>) -> bool {
    &&& bytes.len() == KERNEL_STACK_BYTES
    &&& canary_intact(bytes)
    &&& forall|i: int|
        0 <= i < KERNEL_STACK_BYTES && !(GUARD_PAGE_SIZE <= i < GUARD_PAGE_SIZE + MAGIC_LEN)
            ==> #[trigger] bytes[i] == 0
}

/// A privileged execution stack with a guard region and a canary at its low end.
pub struct KernelStack {
    bytes: Vec<u8>,
}

impl View for KernelStack {
    type V = Seq<u8>;

    closed spec fn view(&self) -> Seq<u8> {
        self.bytes@
    }
}

impl KernelStack {
    pub open spec fn wf(&self) -> bool {
        self@.len() == KERNEL_STACK_BYTES
    }

    /// A zeroed stack with the canary written after the guard region.
    pub fn new() -> (r: Self)
        ensures
            r.wf(),
            fresh_stack(r@),
    {
        let mut bytes: Vec<u8> = Vec::new();
        let mut i: usize = 0;
        while i < KERNEL_STACK_BYTES
            invariant
                i <= KERNEL_STACK_BYTES,
                bytes@.len() == i,
                forall|j: int| 0 <= j < i ==> #[trigger] bytes@[j] == 0,
            decreases KERNEL_STACK_BYTES - i,
        {
            bytes.push(0);
            i += 1;
        }
        let mut k: usize = 0;
        while k < MAGIC_LEN
            invariant
                k <= MAGIC_LEN,
                bytes@.len() == KERNEL_STACK_BYTES,
                forall|j: int| 0 <= j < k ==> #[trigger] bytes@[GUARD_PAGE_SIZE + j] == magic()[j],
                forall|j: int|
                    0 <= j < KERNEL_STACK_BYTES && !(GUARD_PAGE_SIZE <= j < GUARD_PAGE_SIZE + k)
                        ==> #[trigger] bytes@[j] == 0,
            decreases MAGIC_LEN - k,
        {
            bytes.set(GUARD_PAGE_SIZE + k, magic_byte(k));
            k += 1;
        }
        let r = KernelStack { bytes };
        assert(r@.subrange(GUARD_PAGE_SIZE as int, (GUARD_PAGE_SIZE + MAGIC_LEN) as int) =~= magic())
            by {
            assert forall|j: int| 0 <= j < MAGIC_LEN implies r@[GUARD_PAGE_SIZE + j] == magic()[j] by {
            }
        }
        r
    }

    /// Whether the stack is as `new` made it: zeroed, with the canary in place.
    pub fn is_fresh(&self) -> (r: bool)
        ensures
            r == fresh_stack(self@),
    {
        if self.bytes.len() != KERNEL_STACK_BYTES {
            return false;
        }
        let mut i: usize = 0;
        while i < KERNEL_STACK_BYTES
            invariant
                i <= KERNEL_STACK_BYTES,
                self@.len() == KERNEL_STACK_BYTES,
                forall|j: int|
                    0 <= j < i && !(GUARD_PAGE_SIZE <= j < GUARD_PAGE_SIZE + MAGIC_LEN)
                        ==> #[trigger] self@[j] == 0,
                forall|j: int|
                    0 <= j < MAGIC_LEN && GUARD_PAGE_SIZE + j < i ==> #[trigger] self@[GUARD_PAGE_SIZE + j]
                        == magic()[j],
            decreases KERNEL_STACK_BYTES - i,
        {
            let b = self.bytes[i];
            if GUARD_PAGE_SIZE <= i && i < GUARD_PAGE_SIZE + MAGIC_LEN {
                if b != magic_byte(i - GUARD_PAGE_SIZE) {
                    proof {
                        let s = self@.subrange(GUARD_PAGE_SIZE as int, (GUARD_PAGE_SIZE + MAGIC_LEN) as int);
                        assert(s[i - GUARD_PAGE_SIZE] != magic()[i - GUARD_PAGE_SIZE]);
                    }
                    return false;
                }
            } else if b != 0 {
                return false;
            }
            i += 1;
        }
        assert(self@.subrange(GUARD_PAGE_SIZE as int, (GUARD_PAGE_SIZE + MAGIC_LEN) as int) =~= magic())
            by {
            assert forall|j: int| 0 <= j < MAGIC_LEN implies self@[GUARD_PAGE_SIZE + j] == magic()[j] by {
            }
        }
        true
    }

    /// Number of bytes, guard included.
    pub fn len(&self) -> (r: usize)
        ensures
            r == self@.len(),
    {
        self.bytes.len()
    }

    /// All bytes, guard included.
    pub fn as_slice(&self) -> (r: &[u8])
        ensures
            r@ == self@,
    {
        self.bytes.as_slice()
    }

    /// The byte at `i`.
    pub fn byte(&self, i: usize) -> (r: u8)
        requires
            i < self@.len(),
        ensures
            r == self@[i as int],
    {
        self.bytes[i]
    }

    /// Overwrites the byte at `i`.
    pub fn write_byte(&mut self, i: usize, b: u8)
        requires
            i < old(self)@.len(),
        ensures
            final(self)@ == old(self)@.update(i as int, b),
    {
        self.bytes.set(i, b);
    }

    /// Succeeds exactly when the canary still holds its pattern.
    pub fn check(&self) -> (r: Result<(), StackCorruption>)
        requires
            self.wf(),
        ensures
            r is Ok <==> canary_intact(self@),
    {
        let mut k: usize = 0;
        while k < MAGIC_LEN
            invariant
                k <= MAGIC_LEN,
                self@.len() == KERNEL_STACK_BYTES,
                forall|j: int| 0 <= j < k ==> #[trigger] self@[GUARD_PAGE_SIZE + j] == magic()[j],
            decreases MAGIC_LEN - k,
        {
            if self.bytes[GUARD_PAGE_SIZE + k] != magic_byte(k) {
                proof {
                    let s = self@.subrange(GUARD_PAGE_SIZE as int, (GUARD_PAGE_SIZE + MAGIC_LEN) as int);
                    assert(s[k as int] != magic()[k as int]);
                }
                return Err(StackCorruption);
            }
            k += 1;
        }
        assert(self@.subrange(GUARD_PAGE_SIZE as int, (GUARD_PAGE_SIZE + MAGIC_LEN) as int) =~= magic())
            by {
            assert forall|j: int| 0 <= j < MAGIC_LEN implies self@[GUARD_PAGE_SIZE + j] == magic()[j] by {
            }
        }
        Ok(())
    }
}

/// A fresh stack passes its check, and one whose canary has been overwritten with other
/// bytes fails it.
pub proof fn lemma_canary_stability(fresh: Seq<u8>, smashed: Seq<u8>, i: int, b: u8)
    requires
        fresh_stack(fresh),
        GUARD_PAGE_SIZE <= i < GUARD_PAGE_SIZE + MAGIC_LEN,
        b != fresh[i],
        smashed == fresh.update(i, b),
    ensures
        canary_intact(fresh),
        !canary_intact(smashed),
{
    let k = i - GUARD_PAGE_SIZE;
    let s = smashed.subrange(GUARD_PAGE_SIZE as int, (GUARD_PAGE_SIZE + MAGIC_LEN) as int);
    let f = fresh.subrange(GUARD_PAGE_SIZE as int, (GUARD_PAGE_SIZE + MAGIC_LEN) as int);
    assert(s[k] != f[k]);
}

} // verus!
