use crate::address_space::{create_new_pml4, fresh_root, PageTable};
use crate::frame_allocator::{
    allocated_at, covers, is_first_fit, lemma_alloc_then_free_restores, none_fits, FrameAllocator,
    has_room_for,
};
use crate::initrd::{cpio_files, find_file, is_first_named, none_named};
use crate::kbox::Kbox;
use crate::kernel_stack::{canary_intact, fresh_stack, KernelStack, StackCorruption};
use crate::pid::{Pid, PidPool, MAX_PROCESS};
use vstd::prelude::*;
use vstd::string::StringSliceAdditionalSpecFns;

verus! {

/// Pages of the user-mode stack given to a process loaded from an image.
pub const USER_STACK_PAGES: u64 = 5;

/// The privilege level that a process starts in.
#[derive(Clone, Copy, PartialEq, Eq, Debug, Structural)]
pub enum Privilege {
    Kernel,
    User,
}

/// The saved execution state that a process starts from.
#[derive(Clone, Copy, PartialEq, Eq, Debug, Structural)]
pub struct Context {
    pub privilege: Privilege,
    pub entry: u64,
    pub root: u64,
    pub stack_top: u64,
}

impl Context {
    /// A privileged context entering at `entry`.
    pub fn kernel(entry: u64, root: u64, stack_top: u64) -> (r: Self)
        ensures
            r == (Context { privilege: Privilege::Kernel, entry, root, stack_top }),
    {
        Context { privilege: Privilege::Kernel, entry, root, stack_top }
    }

    /// An unprivileged context entering at `entry`.
    pub fn user(entry: u64, root: u64, stack_top: u64) -> (r: Self)
        ensures
            r == (Context { privilege: Privilege::User, entry, root, stack_top }),
    {
        Context { privilege: Privilege::User, entry, root, stack_top }
    }

    /// The empty privileged context, filled in at the first switch away from it.
    pub fn empty() -> (r: Self)
        ensures
            r == (Context { privilege: Privilege::Kernel, entry: 0, root: 0, stack_top: 0 }),
    {
        Context { privilege: Privilege::Kernel, entry: 0, root: 0, stack_top: 0 }
    }
}

/// What a process loaded from an image needs before its segments are mapped: its identity,
/// its new root frame, the table to write into that frame, and the image.
pub struct ImageSetup {
    pub pid: Pid,
    pub root: u64,
    pub table: PageTable,
    pub binary: Vec<u8>,
}

/// A process: identity, starting context and kernel stack.
pub struct Process {
    pid: Pid,
    context: Context,
    kernel_stack: Kbox<KernelStack>,
}

impl Process {
    pub closed spec fn pid_spec(&self) -> Pid {
        self.pid
    }

    pub closed spec fn context_spec(&self) -> Context {
        self.context
    }

    pub closed spec fn stack_spec(&self) -> Seq<u8> {
        self.kernel_stack@@
    }

    pub closed spec fn wf(&self) -> bool {
        self.kernel_stack@.wf()
    }

    pub fn pid(&self) -> (r: Pid)
        ensures
            r == self.pid_spec(),
    {
        self.pid
    }

    pub fn context(&self) -> (r: Context)
        ensures
            r == self.context_spec(),
    {
        self.context
    }

    pub fn kernel_stack(&self) -> (r: &KernelStack)
        ensures
            r@ == self.stack_spec(),
    {
        self.kernel_stack.get()
    }

    /// The process run when nothing else can: identity zero, an empty context, a fresh stack.
    pub fn idle() -> (r: Self)
        ensures
            r.pid_spec().id_spec() == 0,
            r.context_spec() == (Context { privilege: Privilege::Kernel, entry: 0, root: 0, stack_top: 0 }),
            fresh_stack(r.stack_spec()),
            r.wf(),
    {
        Process {
            pid: Pid::new(0),
            context: Context::empty(),
            kernel_stack: Self::generate_kernel_stack(),
        }
    }

    /// A fresh kernel stack on the heap.
    pub fn generate_kernel_stack() -> (r: Kbox<KernelStack>)
        ensures
            fresh_stack(r@@),
            r@.wf(),
    {
        Kbox::new(KernelStack::new())
    }

    /// Succeeds exactly when the kernel stack's canary is intact.
    pub fn check_kernel_stack_guard(&self) -> (r: Result<(), StackCorruption>)
        requires
            self.wf(),
        ensures
            r is Ok <==> canary_intact(self.stack_spec()),
    {
        self.kernel_stack.get().check()
    }

    /// A privileged process entering at `entry` in a new address space, running on the fresh
    /// `kernel_stack`, whose last byte lies just below `kernel_stack_end`. Returns it with the
    /// table to be written into its root frame, or `None`, leaving the pool and the frames as
    /// they were, when no identity or no frame is free.
    pub fn try_from_function(
        pids: &mut PidPool,
        frames: &mut FrameAllocator,
        current: &PageTable,
        entry: u64,
        kernel_stack: Kbox<KernelStack>,
        kernel_stack_end: u64,
    ) -> (r: Option<(Self, PageTable)>)
        requires
            old(pids).wf(),
            old(frames).wf(),
            has_room_for(old(frames)@, 1),
            current.wf(),
            kernel_stack@.wf(),
            fresh_stack(kernel_stack@@),
        ensures
            final(pids).wf(),
            final(frames).wf(),
            forall|a: int| covers(final(frames)@, a) == covers(old(frames)@, a),
            match r {
                None => {
                    &&& (forall|k: int| 0 <= k < MAX_PROCESS ==> #[trigger] old(pids)@[k])
                        || none_fits(old(frames)@, 1)
                    &&& final(pids)@ == old(pids)@
                    &&& final(frames)@ == old(frames)@
                },
                Some((p, table)) => {
                    &&& pid_taken_from(old(pids)@, final(pids)@, p.pid_spec())
                    &&& exists|i: int|
                        is_first_fit(old(frames)@, 1, i) && p.context_spec().root == old(
                            frames,
                        )@[i].start && final(frames)@ == allocated_at(old(frames)@, i, 1)
                    &&& p.context_spec() == (Context {
                        privilege: Privilege::Kernel,
                        entry,
                        root: p.context_spec().root,
                        stack_top: kernel_stack_end,
                    })
                    &&& p.stack_spec() == kernel_stack@@
                    &&& fresh_stack(p.stack_spec())
                    &&& p.wf()
                    &&& table@ == fresh_root(current@, p.context_spec().root)
                },
            },
    {
        let pid = match pids.generate() {
            None => return None,
            Some(pid) => pid,
        };
        match create_new_pml4(frames, current) {
            None => {
                pids.release(pid);
                assert(pids@ =~= old(pids)@);
                None
            },
            Some((root, table)) => {
                let context = Context::kernel(entry, root, kernel_stack_end);
                Some((Process { pid, context, kernel_stack }, table))
            },
        }
    }

    /// Prepares a process from the file called `name` in the cpio `archive`: takes an
    /// identity and a root frame and finds the image. Returns `None`, leaving the pool and the
    /// frames as they were, when no identity or no frame is free or the file is absent.
    pub fn try_from_initrd(
        pids: &mut PidPool,
        frames: &mut FrameAllocator,
        current: &PageTable,
        archive: &[u8],
        name: &str,
    ) -> (r: Option<ImageSetup>)
        requires
            old(pids).wf(),
            old(frames).wf(),
            has_room_for(old(frames)@, 1),
            current.wf(),
        ensures
            final(pids).wf(),
            final(frames).wf(),
            forall|a: int| covers(final(frames)@, a) == covers(old(frames)@, a),
            match r {
                None => {
                    &&& (forall|k: int| 0 <= k < MAX_PROCESS ==> #[trigger] old(pids)@[k])
                        || none_fits(old(frames)@, 1)
                        || none_named(cpio_files(archive@), name.spec_bytes())
                    &&& final(pids)@ == old(pids)@
                    &&& final(frames)@ == old(frames)@
                },
                Some(s) => {
                    &&& pid_taken_from(old(pids)@, final(pids)@, s.pid)
                    &&& exists|i: int|
                        is_first_fit(old(frames)@, 1, i) && s.root == old(frames)@[i].start
                            && final(frames)@ == allocated_at(old(frames)@, i, 1)
                    &&& s.table@ == fresh_root(current@, s.root)
                    &&& s.table.wf()
                    &&& exists|i: int|
                        is_first_named(cpio_files(archive@), name.spec_bytes(), i) && s.binary@
                            == cpio_files(archive@)[i].1
                },
            },
    {
        let pid = match pids.generate() {
            None => return None,
            Some(pid) => pid,
        };
        let ghost frames_before = frames@;
        let (root, table) = match create_new_pml4(frames, current) {
            None => {
                pids.release(pid);
                assert(pids@ =~= old(pids)@);
                return None;
            },
            Some(created) => created,
        };
        match find_file(archive, name) {
            None => {
                proof {
                    let i = choose|i: int|
                        is_first_fit(frames_before, 1, i) && root == frames_before[i].start
                            && frames@ == allocated_at(frames_before, i, 1);
                    lemma_alloc_then_free_restores(frames_before, 1, i);
                }
                frames.dealloc(root);
                pids.release(pid);
                assert(pids@ =~= old(pids)@);
                None
            },
            Some(binary) => Some(ImageSetup { pid, root, table, binary }),
        }
    }

    /// An unprivileged process from an image that was mapped into the address space at
    /// `root`: it enters at `entry` with its user stack ending at `user_stack_end`.
    pub fn from_loaded_image(
        pid: Pid,
        root: u64,
        entry: u64,
        user_stack_end: u64,
        kernel_stack: Kbox<KernelStack>,
    ) -> (r: Self)
        requires
            kernel_stack@.wf(),
        ensures
            r.pid_spec() == pid,
            r.context_spec() == (Context {
                privilege: Privilege::User,
                entry,
                root,
                stack_top: user_stack_end,
            }),
            r.stack_spec() == kernel_stack@@,
            r.wf(),
    {
        Process { pid, context: Context::user(entry, root, user_stack_end), kernel_stack }
    }
}

/// `p` was the lowest free identity of `before`, and `after` is `before` with it taken.
pub open spec fn pid_taken_from(before: Seq<bool>, after: Seq<bool>, p: Pid) -> bool {
    &&& 1 <= p.id_spec() <= MAX_PROCESS
    &&& !before[p.id_spec() - 1]
    &&& forall|k: int| 0 <= k < p.id_spec() - 1 ==> #[trigger] before[k]
    &&& after == before.update(p.id_spec() - 1, true)
}

} // verus!
