use vstd::prelude::*;

verus! {

/// Number of identities the pool hands out.
pub const MAX_PROCESS: usize = 8;

/// A process identity. Zero is kept for the idle process; the pool hands out 1 to
/// `MAX_PROCESS`.
#[derive(Clone, Copy, PartialEq, Eq, Debug, Structural)]
pub struct Pid {
    id: usize,
}

impl Pid {
    pub closed spec fn id_spec(self) -> nat {
        self.id as nat
    }

    pub fn new(id: usize) -> (r: Self)
        ensures
            r.id_spec() == id,
    {
        Pid { id }
    }

    pub fn as_usize(&self) -> (r: usize)
        ensures
            r == self.id_spec(),
    {
        self.id
    }
}

/// The bounded pool of identities for live processes.
pub struct PidPool {
    in_use: Vec<bool>,
}

impl View for PidPool {
    type V = Seq<bool>;

    /// Entry `k` tells whether identity `k + 1` is taken.
    closed spec fn view(&self) -> Seq<bool> {
        self.in_use@
    }
}

impl PidPool {
    pub open spec fn wf(&self) -> bool {
        self@.len() == MAX_PROCESS
    }

    /// Identity `id` is handed out.
    pub open spec fn taken(&self, id: nat) -> bool {
        1 <= id <= MAX_PROCESS && self@[id - 1]
    }

    /// A pool with every identity free.
    pub fn new() -> (r: Self)
        ensures
            r.wf(),
            forall|k: int| 0 <= k < MAX_PROCESS ==> !#[trigger] r@[k],
    {
        let mut in_use: Vec<bool> = Vec::new();
        let mut i: usize = 0;
        while i < MAX_PROCESS
            invariant
                i <= MAX_PROCESS,
                in_use@.len() == i,
                forall|k: int| 0 <= k < i ==> !#[trigger] in_use@[k],
            decreases MAX_PROCESS - i,
        {
            in_use.push(false);
            i += 1;
        }
        PidPool { in_use }
    }

    /// Takes the lowest free identity, or `None` when all are taken.
    pub fn generate(&mut self) -> (r: Option<Pid>)
        requires
            old(self).wf(),
        ensures
            final(self).wf(),
            match r {
                None => final(self)@ == old(self)@ && forall|k: int| 0 <= k < MAX_PROCESS ==> #[trigger] old(self)@[k],
                Some(p) => {
                    &&& 1 <= p.id_spec() <= MAX_PROCESS
                    &&& !old(self)@[p.id_spec() - 1]
                    &&& forall|k: int| 0 <= k < p.id_spec() - 1 ==> #[trigger] old(self)@[k]
                    &&& final(self)@ == old(self)@.update(p.id_spec() - 1, true)
                },
            },
    {
        let mut i: usize = 0;
        while i < MAX_PROCESS
            invariant
                self@ == old(self)@,
                self.wf(),
                i <= MAX_PROCESS,
                forall|k: int| 0 <= k < i ==> #[trigger] self@[k],
            decreases MAX_PROCESS - i,
        {
            if !self.in_use[i] {
                self.in_use.set(i, true);
                return Some(Pid { id: i + 1 });
            }
            i += 1;
        }
        None
    }

    /// Gives identity `pid` back to the pool; identities the pool never hands out are ignored.
    pub fn release(&mut self, pid: Pid)
        requires
            old(self).wf(),
        ensures
            final(self).wf(),
            1 <= pid.id_spec() <= MAX_PROCESS ==> final(self)@ == old(self)@.update(pid.id_spec() - 1, false),
            !(1 <= pid.id_spec() <= MAX_PROCESS) ==> final(self)@ == old(self)@,
    {
        if pid.id >= 1 && pid.id <= MAX_PROCESS {
            self.in_use.set(pid.id - 1, false);
        }
    }
}

} // verus!
