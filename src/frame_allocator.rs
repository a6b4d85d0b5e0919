use crate::memory_map::{is_conventional, MemoryDescriptor};
use arrayvec::ArrayVec;
use vstd::prelude::*;

verus! {

/// Size of one page frame, in bytes.
pub const PAGE_SIZE: u64 = 4096;

/// Most descriptors that the allocator can track at once.
pub const MAX_DESCRIPTORS: usize = 128;

/// One past the highest physical address that the hardware can express (52 bits).
pub const PHYS_ADDR_LIMIT: u64 = 0x10_0000_0000_0000;

/// A run of consecutive page frames that share one availability state.
#[derive(Clone, Copy, PartialEq, Eq, Debug, Structural)]
pub struct FrameDescriptor {
    pub start: u64,
    pub num_of_pages: u64,
    pub available: bool,
}

#[verifier::external_type_specification]
#[verifier::external_body]
#[verifier::reject_recursive_types(T)]
pub struct ExArrayVec<T, const CAP: usize>(ArrayVec<T, CAP>);

/// What a descriptor list holds, in order.
pub uninterp spec fn list_contents(v: ArrayVec<FrameDescriptor, 128>) -> Seq<FrameDescriptor>;

/// Relies on `ArrayVec::new`: the new vector is empty.
#[verifier::external_body]
fn list_new() -> (r: ArrayVec<FrameDescriptor, 128>)
    ensures
        list_contents(r).len() == 0,
{
    ArrayVec::new()
}

/// Relies on `ArrayVec::len`: the number of elements held.
#[verifier::external_body]
fn list_len(v: &ArrayVec<FrameDescriptor, 128>) -> (r: usize)
    ensures
        r as int == list_contents(*v).len(),
        r <= 128,
{
    v.len()
}

/// Relies on indexing through `ArrayVec`'s slice: the element at `i`.
#[verifier::external_body]
fn list_get(v: &ArrayVec<FrameDescriptor, 128>, i: usize) -> (r: FrameDescriptor)
    requires
        i < list_contents(*v).len(),
    ensures
        r == list_contents(*v)[i as int],
{
    v[i]
}

/// Relies on mutable indexing through `ArrayVec`'s slice: replaces the element at `i`.
#[verifier::external_body]
fn list_set(v: &mut ArrayVec<FrameDescriptor, 128>, i: usize, d: FrameDescriptor)
    requires
        i < list_contents(*old(v)).len(),
    ensures
        list_contents(*final(v)) == list_contents(*old(v)).update(i as int, d),
{
    v[i] = d;
}

/// Relies on `ArrayVec::push`: appends, and panics only when full.
#[verifier::external_body]
fn list_push(v: &mut ArrayVec<FrameDescriptor, 128>, d: FrameDescriptor)
    requires
        list_contents(*old(v)).len() < 128,
    ensures
        list_contents(*final(v)) == list_contents(*old(v)).push(d),
{
    v.push(d);
}

/// Relies on `ArrayVec::insert`: shifts the tail up, and panics only when full or out of bounds.
#[verifier::external_body]
fn list_insert(v: &mut ArrayVec<FrameDescriptor, 128>, i: usize, d: FrameDescriptor)
    requires
        list_contents(*old(v)).len() < 128,
        i <= list_contents(*old(v)).len(),
    ensures
        list_contents(*final(v)) == list_contents(*old(v)).insert(i as int, d),
{
    v.insert(i, d);
}

/// Relies on `ArrayVec::remove`: shifts the tail down, and panics only out of bounds.
#[verifier::external_body]
fn list_remove(v: &mut ArrayVec<FrameDescriptor, 128>, i: usize) -> (r: FrameDescriptor)
    requires
        i < list_contents(*old(v)).len(),
    ensures
        r == list_contents(*old(v))[i as int],
        list_contents(*final(v)) == list_contents(*old(v)).remove(i as int),
{
    v.remove(i)
}


impl FrameDescriptor {
    /// First byte past the run.
    pub open spec fn end_spec(self) -> int {
        self.start + self.num_of_pages * PAGE_SIZE
    }

    /// The run holds `a`.
    pub open spec fn holds(self, a: int) -> bool {
        self.start <= a < self.end_spec()
    }

    /// The run is free and holds at least `n` pages.
    pub open spec fn fits(self, n: u64) -> bool {
        self.available && self.num_of_pages >= n
    }

    /// Both runs are free and `next` starts where `self` ends.
    pub open spec fn mergeable_spec(self, next: FrameDescriptor) -> bool {
        self.available && next.available && self.end_spec() == next.start
    }

    /// The run is non-empty and lies below the physical address limit.
    pub open spec fn wf(self) -> bool {
        self.num_of_pages > 0 && self.end_spec() <= PHYS_ADDR_LIMIT
    }

    pub fn new_for_available(start: u64, num_of_pages: u64) -> (r: Self)
        ensures
            r == (FrameDescriptor { start, num_of_pages, available: true }),
    {
        FrameDescriptor { start, num_of_pages, available: true }
    }

    pub fn new_for_used(start: u64, num_of_pages: u64) -> (r: Self)
        ensures
            r == (FrameDescriptor { start, num_of_pages, available: false }),
    {
        FrameDescriptor { start, num_of_pages, available: false }
    }

    pub fn is_splittable(&self, requested: u64) -> (r: bool)
        ensures
            r == (self.num_of_pages > requested),
    {
        self.num_of_pages > requested
    }

    pub fn is_available_for_allocating(&self, requested: u64) -> (r: bool)
        ensures
            r == self.fits(requested),
    {
        self.num_of_pages >= requested && self.available
    }

    pub fn is_mergeable(&self, other: &Self) -> (r: bool)
        requires
            self.wf(),
        ensures
            r == self.mergeable_spec(*other),
    {
        self.available && other.available && self.is_consecutive(other)
    }

    pub fn is_consecutive(&self, other: &Self) -> (r: bool)
        requires
            self.wf(),
        ensures
            r == (self.end_spec() == other.start),
    {
        self.end() == other.start
    }

    pub fn end(&self) -> (r: u64)
        requires
            self.wf(),
        ensures
            r == self.end_spec(),
    {
        proof {
            lemma_page_bytes(self.num_of_pages);
        }
        self.start + self.num_of_pages * PAGE_SIZE
    }
}

/// A byte count is at least its page count.
proof fn lemma_page_bytes(n: u64)
    ensures
        n * (PAGE_SIZE as int) >= n,
{
    assert(n * (PAGE_SIZE as int) >= n) by (nonlinear_arith);
}

/// The descriptors are sorted, apart, non-empty, and no two touching runs are both free.
pub open spec fn descriptors_wf(ds: Seq<FrameDescriptor>) -> bool {
    &&& ds.len() <= MAX_DESCRIPTORS
    &&& forall|i: int| 0 <= i < ds.len() ==> #[trigger] ds[i].wf()
    &&& forall|i: int| 0 <= i < ds.len() - 1 ==> #[trigger] ds[i].end_spec() <= ds[i + 1].start
    &&& forall|i: int| 0 <= i < ds.len() - 1 ==> !#[trigger] ds[i].mergeable_spec(ds[i + 1])
}

/// Serving `n` pages needs no new run, or there is a free slot for one: the list is not
/// full, or the first run that can serve them holds exactly `n` pages.
pub open spec fn has_room_for(ds: Seq<FrameDescriptor>, n: u64) -> bool {
    ds.len() < MAX_DESCRIPTORS || forall|k: int| is_first_fit(ds, n, k) ==> #[trigger] ds[k].num_of_pages == n
}

/// `i` is the first descriptor that can serve `n` pages.
pub open spec fn is_first_fit(ds: Seq<FrameDescriptor>, n: u64, i: int) -> bool {
    &&& 0 <= i < ds.len()
    &&& ds[i].fits(n)
    &&& forall|j: int| 0 <= j < i ==> !#[trigger] ds[j].fits(n)
}

/// No descriptor can serve `n` pages.
pub open spec fn none_fits(ds: Seq<FrameDescriptor>, n: u64) -> bool {
    forall|j: int| 0 <= j < ds.len() ==> !#[trigger] ds[j].fits(n)
}

/// The descriptors after taking `n` pages from the front of the free run at `i`.
pub open spec fn allocated_at(ds: Seq<FrameDescriptor>, i: int, n: u64) -> Seq<FrameDescriptor> {
    let d = ds[i];
    if d.num_of_pages == n {
        ds.update(i, FrameDescriptor { available: false, ..d })
    } else {
        ds.update(i, FrameDescriptor { num_of_pages: n, available: false, ..d }).insert(
            i + 1,
            FrameDescriptor {
                start: (d.start + n * PAGE_SIZE) as u64,
                num_of_pages: (d.num_of_pages - n) as u64,
                available: true,
            },
        )
    }
}

/// The descriptors after the run at `i` absorbs the one after it.
pub open spec fn merged_with_next(ds: Seq<FrameDescriptor>, i: int) -> Seq<FrameDescriptor> {
    ds.update(
        i,
        FrameDescriptor { num_of_pages: (ds[i].num_of_pages + ds[i + 1].num_of_pages) as u64, ..ds[i] },
    ).remove(i + 1)
}

/// Merges the run at `i` into its successor's place when both are free and touch.
pub open spec fn merge_next_if_possible(ds: Seq<FrameDescriptor>, i: int) -> Seq<FrameDescriptor> {
    if 0 <= i && i + 1 < ds.len() && ds[i].mergeable_spec(ds[i + 1]) {
        merged_with_next(ds, i)
    } else {
        ds
    }
}

/// The descriptors after the used run at `i` is freed and coalesced with its neighbours.
pub open spec fn freed_at(ds: Seq<FrameDescriptor>, i: int) -> Seq<FrameDescriptor> {
    let d = ds.update(i, FrameDescriptor { available: true, ..ds[i] });
    merge_next_if_possible(merge_next_if_possible(d, i), i - 1)
}

/// `i` is the used descriptor that starts at `addr`.
pub open spec fn is_used_at(ds: Seq<FrameDescriptor>, addr: u64, i: int) -> bool {
    0 <= i < ds.len() && ds[i].start == addr && !ds[i].available
}

/// Some descriptor holds the address `a`.
pub open spec fn covers(ds: Seq<FrameDescriptor>, a: int) -> bool {
    exists|i: int| 0 <= i < ds.len() && #[trigger] ds[i].holds(a)
}


/// Runs further along the list start no earlier than where an earlier one ends.
pub proof fn lemma_sorted_far(ds: Seq<FrameDescriptor>, i: int, j: int)
    requires
        descriptors_wf(ds),
        0 <= i < j < ds.len(),
    ensures
        ds[i].end_spec() <= ds[j].start,
        ds[i].start < ds[j].start,
    decreases j - i,
{
    assert(ds[j - 1].end_spec() <= ds[j].start);
    assert(ds[i].wf());
    assert(ds[j - 1].wf());
    if i < j - 1 {
        lemma_sorted_far(ds, i, j - 1);
    }
}

/// Number of pages in all runs together.
pub open spec fn total_pages(ds: Seq<FrameDescriptor>) -> int
    decreases ds.len(),
{
    if ds.len() == 0 {
        0
    } else {
        total_pages(ds.drop_last()) + ds.last().num_of_pages
    }
}

proof fn lemma_total_concat(a: Seq<FrameDescriptor>, b: Seq<FrameDescriptor>)
    ensures
        total_pages(a + b) == total_pages(a) + total_pages(b),
    decreases b.len(),
{
    if b.len() == 0 {
        assert(a + b =~= a);
    } else {
        lemma_total_concat(a, b.drop_last());
        assert((a + b).drop_last() =~= a + b.drop_last());
    }
}

proof fn lemma_total_single(x: FrameDescriptor)
    ensures
        total_pages(seq![x]) == x.num_of_pages,
{
    assert(seq![x].drop_last() =~= Seq::<FrameDescriptor>::empty());
    assert(total_pages(Seq::<FrameDescriptor>::empty()) == 0);
    assert(seq![x].last() == x);
}

/// Replacing the run at `i` changes the total by the difference in pages.
proof fn lemma_total_update(s: Seq<FrameDescriptor>, i: int, x: FrameDescriptor)
    requires
        0 <= i < s.len(),
    ensures
        total_pages(s.update(i, x)) == total_pages(s) - s[i].num_of_pages + x.num_of_pages,
{
    let pre = s.subrange(0, i);
    let post = s.subrange(i + 1, s.len() as int);
    assert(s =~= pre + seq![s[i]] + post);
    assert(s.update(i, x) =~= pre + seq![x] + post);
    lemma_total_concat(pre + seq![s[i]], post);
    lemma_total_concat(pre, seq![s[i]]);
    lemma_total_concat(pre + seq![x], post);
    lemma_total_concat(pre, seq![x]);
    lemma_total_single(x);
    lemma_total_single(s[i]);
}

/// Inserting a run adds its pages to the total.
proof fn lemma_total_insert(s: Seq<FrameDescriptor>, i: int, x: FrameDescriptor)
    requires
        0 <= i <= s.len(),
    ensures
        total_pages(s.insert(i, x)) == total_pages(s) + x.num_of_pages,
{
    let pre = s.subrange(0, i);
    let post = s.subrange(i, s.len() as int);
    assert(s =~= pre + post);
    assert(s.insert(i, x) =~= pre + seq![x] + post);
    lemma_total_concat(pre, post);
    lemma_total_concat(pre + seq![x], post);
    lemma_total_concat(pre, seq![x]);
    lemma_total_single(x);
}

/// Removing a run takes its pages from the total.
proof fn lemma_total_remove(s: Seq<FrameDescriptor>, i: int)
    requires
        0 <= i < s.len(),
    ensures
        total_pages(s.remove(i)) == total_pages(s) - s[i].num_of_pages,
{
    let pre = s.subrange(0, i);
    let post = s.subrange(i + 1, s.len() as int);
    assert(s =~= pre + seq![s[i]] + post);
    assert(s.remove(i) =~= pre + post);
    lemma_total_concat(pre + seq![s[i]], post);
    lemma_total_concat(pre, seq![s[i]]);
    lemma_total_concat(pre, post);
    lemma_total_single(s[i]);
}

/// Runs of a well-formed list never share a page: an address lies in at most one run, so
/// the pages that the list covers are counted once each.
pub proof fn lemma_runs_disjoint(ds: Seq<FrameDescriptor>, i: int, j: int, a: int)
    requires
        descriptors_wf(ds),
        0 <= i < ds.len(),
        0 <= j < ds.len(),
        ds[i].holds(a),
        ds[j].holds(a),
    ensures
        i == j,
{
    if i < j {
        lemma_sorted_far(ds, i, j);
    } else if j < i {
        lemma_sorted_far(ds, j, i);
    }
}

/// Taking `n` pages from the first fitting run keeps the list well formed and covers
/// exactly the same addresses.
proof fn lemma_allocated_at(ds: Seq<FrameDescriptor>, i: int, n: u64)
    requires
        descriptors_wf(ds),
        0 <= i < ds.len(),
        ds[i].fits(n),
        n > 0,
        ds.len() < MAX_DESCRIPTORS || ds[i].num_of_pages == n,
    ensures
        descriptors_wf(allocated_at(ds, i, n)),
        forall|a: int| covers(allocated_at(ds, i, n), a) == covers(ds, a),
        total_pages(allocated_at(ds, i, n)) == total_pages(ds),
{
    let r = allocated_at(ds, i, n);
    let d = ds[i];
    assert(d.wf());
    if d.num_of_pages == n {
        lemma_total_update(ds, i, FrameDescriptor { available: false, ..d });
    } else {
        let u = ds.update(i, FrameDescriptor { num_of_pages: n, available: false, ..d });
        lemma_total_update(ds, i, FrameDescriptor { num_of_pages: n, available: false, ..d });
        lemma_total_insert(
            u,
            i + 1,
            FrameDescriptor {
                start: (d.start + n * PAGE_SIZE) as u64,
                num_of_pages: (d.num_of_pages - n) as u64,
                available: true,
            },
        );
    }
    if d.num_of_pages == n {
        assert forall|j: int| 0 <= j < r.len() - 1 implies r[j].end_spec() <= r[j + 1].start by {
            assert(ds[j].end_spec() <= ds[j + 1].start);
        }
        assert forall|j: int| 0 <= j < r.len() - 1 implies !#[trigger] r[j].mergeable_spec(r[j + 1]) by {
            assert(!ds[j].mergeable_spec(ds[j + 1]));
        }
        assert forall|j: int| 0 <= j < r.len() implies #[trigger] r[j].wf() by {
            assert(ds[j].wf());
        }
        assert forall|a: int| covers(r, a) == covers(ds, a) by {
            if covers(ds, a) {
                let k = choose|k: int| 0 <= k < ds.len() && #[trigger] ds[k].holds(a);
                assert(r[k].holds(a));
            }
            if covers(r, a) {
                let k = choose|k: int| 0 <= k < r.len() && #[trigger] r[k].holds(a);
                assert(ds[k].holds(a));
            }
        }
    } else {
        let head = FrameDescriptor { num_of_pages: n, available: false, ..d };
        let tail = FrameDescriptor {
            start: (d.start + n * PAGE_SIZE) as u64,
            num_of_pages: (d.num_of_pages - n) as u64,
            available: true,
        };
        assert(n * PAGE_SIZE < d.num_of_pages * PAGE_SIZE) by (nonlinear_arith)
            requires n < d.num_of_pages;
        assert((d.num_of_pages - n) * PAGE_SIZE + n * PAGE_SIZE == d.num_of_pages * PAGE_SIZE)
            by (nonlinear_arith);
        assert(head.end_spec() == tail.start);
        assert(tail.end_spec() == d.end_spec());
        assert(r.len() == ds.len() + 1);
        assert(r[i] == head);
        assert(r[i + 1] == tail);
        assert forall|j: int| 0 <= j < r.len() implies #[trigger] r[j].wf() by {
            if j < i {
                assert(ds[j].wf());
            } else if j > i + 1 {
                assert(r[j] == ds[j - 1]);
                assert(ds[j - 1].wf());
            }
        }
        assert forall|j: int| 0 <= j < r.len() - 1 implies r[j].end_spec() <= r[j + 1].start by {
            if j < i - 1 {
                assert(ds[j].end_spec() <= ds[j + 1].start);
            } else if j == i - 1 {
                assert(ds[j].end_spec() <= ds[j + 1].start);
            } else if j == i + 1 {
                assert(r[j + 1] == ds[i + 1]);
                assert(ds[i].end_spec() <= ds[i + 1].start);
            } else if j > i + 1 {
                assert(r[j] == ds[j - 1]);
                assert(r[j + 1] == ds[j]);
                assert(ds[j - 1].end_spec() <= ds[j].start);
            }
        }
        assert forall|j: int| 0 <= j < r.len() - 1 implies !#[trigger] r[j].mergeable_spec(r[j + 1]) by {
            if j < i {
                assert(!ds[j].mergeable_spec(ds[j + 1]));
            } else if j == i + 1 {
                assert(r[j + 1] == ds[i + 1]);
                assert(!ds[i].mergeable_spec(ds[i + 1]));
            } else if j > i + 1 {
                assert(r[j] == ds[j - 1]);
                assert(r[j + 1] == ds[j]);
                assert(!ds[j - 1].mergeable_spec(ds[j]));
            }
        }
        assert forall|a: int| covers(r, a) == covers(ds, a) by {
            if covers(ds, a) {
                let k = choose|k: int| 0 <= k < ds.len() && #[trigger] ds[k].holds(a);
                if k < i {
                    assert(r[k].holds(a));
                } else if k == i {
                    if a < head.end_spec() {
                        assert(r[i].holds(a));
                    } else {
                        assert(r[i + 1].holds(a));
                    }
                } else {
                    assert(r[k + 1] == ds[k]);
                    assert(r[k + 1].holds(a));
                }
            }
            if covers(r, a) {
                let k = choose|k: int| 0 <= k < r.len() && #[trigger] r[k].holds(a);
                if k < i {
                    assert(ds[k].holds(a));
                } else if k == i || k == i + 1 {
                    assert(ds[i].holds(a));
                } else {
                    assert(r[k] == ds[k - 1]);
                    assert(ds[k - 1].holds(a));
                }
            }
        }
    }
}

/// The list is sorted, and every run is non-empty and below the address limit.
pub open spec fn sorted_runs(ds: Seq<FrameDescriptor>) -> bool {
    &&& forall|i: int| 0 <= i < ds.len() ==> #[trigger] ds[i].wf()
    &&& forall|i: int| 0 <= i < ds.len() - 1 ==> #[trigger] ds[i].end_spec() <= ds[i + 1].start
}

/// Every neighbouring pair but those at `a` and `b` is kept apart.
pub open spec fn unmerged_except(ds: Seq<FrameDescriptor>, a: int, b: int) -> bool {
    forall|j: int|
        0 <= j < ds.len() - 1 && j != a && j != b ==> !#[trigger] ds[j].mergeable_spec(ds[j + 1])
}

/// Merging at `k` keeps the runs sorted and covering the same addresses, and leaves at most
/// the pair before `k` mergeable, as mergeable as it was.
proof fn lemma_merge_step(ds: Seq<FrameDescriptor>, k: int)
    requires
        sorted_runs(ds),
        unmerged_except(ds, k - 1, k),
    ensures
        sorted_runs(merge_next_if_possible(ds, k)),
        unmerged_except(merge_next_if_possible(ds, k), k - 1, k - 1),
        merge_next_if_possible(ds, k).len() <= ds.len(),
        0 <= k - 1 && k < ds.len() ==> k < merge_next_if_possible(ds, k).len() && (
        merge_next_if_possible(ds, k)[k - 1].mergeable_spec(merge_next_if_possible(ds, k)[k])
            == ds[k - 1].mergeable_spec(ds[k])),
        forall|a: int| covers(merge_next_if_possible(ds, k), a) == covers(ds, a),
        total_pages(merge_next_if_possible(ds, k)) == total_pages(ds),
{
    let r = merge_next_if_possible(ds, k);
    if 0 <= k && k + 1 < ds.len() && ds[k].mergeable_spec(ds[k + 1]) {
        let m = FrameDescriptor {
            num_of_pages: (ds[k].num_of_pages + ds[k + 1].num_of_pages) as u64,
            ..ds[k]
        };
        lemma_total_update(ds, k, m);
        lemma_total_remove(ds.update(k, m), k + 1);
        assert(ds[k].wf());
        assert(ds[k + 1].wf());
        assert(ds[k].num_of_pages * PAGE_SIZE + ds[k + 1].num_of_pages * PAGE_SIZE == (
        ds[k].num_of_pages + ds[k + 1].num_of_pages) * PAGE_SIZE) by (nonlinear_arith);
        assert((ds[k].num_of_pages + ds[k + 1].num_of_pages) * PAGE_SIZE >= (ds[k].num_of_pages
            + ds[k + 1].num_of_pages)) by (nonlinear_arith);
        assert(m.end_spec() == ds[k + 1].end_spec());
        assert(r.len() == ds.len() - 1);
        assert(r[k] == m);
        assert forall|j: int| 0 <= j < r.len() implies #[trigger] r[j].wf() by {
            if j < k {
                assert(ds[j].wf());
            } else if j > k {
                assert(r[j] == ds[j + 1]);
                assert(ds[j + 1].wf());
            }
        }
        assert forall|j: int| 0 <= j < r.len() - 1 implies #[trigger] r[j].end_spec() <= r[j
            + 1].start by {
            if j < k {
                assert(ds[j].end_spec() <= ds[j + 1].start);
            } else if j == k {
                assert(r[j + 1] == ds[k + 2]);
                assert(ds[k + 1].end_spec() <= ds[k + 2].start);
            } else {
                assert(r[j] == ds[j + 1]);
                assert(r[j + 1] == ds[j + 2]);
                assert(ds[j + 1].end_spec() <= ds[j + 2].start);
            }
        }
        assert forall|j: int|
            0 <= j < r.len() - 1 && j != k - 1 implies !#[trigger] r[j].mergeable_spec(r[j + 1]) by {
            if j < k - 1 {
                assert(!ds[j].mergeable_spec(ds[j + 1]));
            } else if j == k {
                assert(r[j + 1] == ds[k + 2]);
                assert(!ds[k + 1].mergeable_spec(ds[k + 2]));
            } else {
                assert(r[j] == ds[j + 1]);
                assert(r[j + 1] == ds[j + 2]);
                assert(!ds[j + 1].mergeable_spec(ds[j + 2]));
            }
        }
        if 0 <= k - 1 {
            assert(r[k - 1] == ds[k - 1]);
        }
        assert forall|a: int| covers(r, a) == covers(ds, a) by {
            if covers(ds, a) {
                let i = choose|i: int| 0 <= i < ds.len() && #[trigger] ds[i].holds(a);
                if i < k {
                    assert(r[i].holds(a));
                } else if i == k || i == k + 1 {
                    assert(r[k].holds(a));
                } else {
                    assert(r[i - 1] == ds[i]);
                    assert(r[i - 1].holds(a));
                }
            }
            if covers(r, a) {
                let i = choose|i: int| 0 <= i < r.len() && #[trigger] r[i].holds(a);
                if i < k {
                    assert(ds[i].holds(a));
                } else if i == k {
                    if a < ds[k].end_spec() {
                        assert(ds[k].holds(a));
                    } else {
                        assert(ds[k + 1].holds(a));
                    }
                } else {
                    assert(r[i] == ds[i + 1]);
                    assert(ds[i + 1].holds(a));
                }
            }
        }
    }
}

/// Freeing the used run at `i` keeps the list well formed and covers the same addresses.
proof fn lemma_freed_at(ds: Seq<FrameDescriptor>, i: int)
    requires
        descriptors_wf(ds),
        0 <= i < ds.len(),
    ensures
        descriptors_wf(freed_at(ds, i)),
        forall|a: int| covers(freed_at(ds, i), a) == covers(ds, a),
        total_pages(freed_at(ds, i)) == total_pages(ds),
{
    let d = ds.update(i, FrameDescriptor { available: true, ..ds[i] });
    lemma_total_update(ds, i, FrameDescriptor { available: true, ..ds[i] });
    assert forall|j: int| 0 <= j < d.len() implies #[trigger] d[j].wf() by {
        assert(ds[j].wf());
    }
    assert forall|j: int| 0 <= j < d.len() - 1 implies #[trigger] d[j].end_spec() <= d[j
        + 1].start by {
        assert(ds[j].end_spec() <= ds[j + 1].start);
    }
    assert forall|j: int|
        0 <= j < d.len() - 1 && j != i - 1 && j != i implies !#[trigger] d[j].mergeable_spec(
        d[j + 1]) by {
        assert(!ds[j].mergeable_spec(ds[j + 1]));
    }
    assert forall|a: int| covers(d, a) == covers(ds, a) by {
        if covers(ds, a) {
            let k = choose|k: int| 0 <= k < ds.len() && #[trigger] ds[k].holds(a);
            assert(d[k].holds(a));
        }
        if covers(d, a) {
            let k = choose|k: int| 0 <= k < d.len() && #[trigger] d[k].holds(a);
            assert(ds[k].holds(a));
        }
    }
    lemma_merge_step(d, i);
    let d1 = merge_next_if_possible(d, i);
    if i >= 2 {
        assert(d1[i - 2] == ds[i - 2]);
        assert(d1[i - 1] == ds[i - 1]);
        assert(!ds[i - 2].mergeable_spec(ds[i - 1]));
    }
    lemma_merge_step(d1, i - 1);
    let r = merge_next_if_possible(d1, i - 1);
    if i >= 2 {
        assert(!r[i - 2].mergeable_spec(r[i - 1]));
    }
}

/// The runs after seeding the conventional range `m` onto `ds`: one new free run.
pub open spec fn seed_one(ds: Seq<FrameDescriptor>, m: MemoryDescriptor) -> Seq<FrameDescriptor> {
    ds.push(FrameDescriptor { start: m.physical_start, num_of_pages: m.number_of_pages, available: true })
}

/// The runs after seeding each conventional range of `mmap`, in the map's order, onto `ds`.
pub open spec fn seeded_onto(ds: Seq<FrameDescriptor>, mmap: Seq<MemoryDescriptor>) -> Seq<FrameDescriptor>
    decreases mmap.len(),
{
    if mmap.len() == 0 {
        ds
    } else {
        let rest = seeded_onto(ds, mmap.drop_last());
        if mmap.last().is_conventional_spec() {
            seed_one(rest, mmap.last())
        } else {
            rest
        }
    }
}

/// The range `m` can be seeded onto `ds`: it is non-empty, ends below the address limit,
/// starts no earlier than the last run ends and not right where a free last run ends, and
/// finds a free slot.
pub open spec fn seed_fits(ds: Seq<FrameDescriptor>, m: MemoryDescriptor) -> bool {
    &&& m.number_of_pages > 0
    &&& m.physical_start + m.number_of_pages * PAGE_SIZE <= PHYS_ADDR_LIMIT
    &&& ds.len() > 0 ==> ds.last().end_spec() <= m.physical_start
    &&& ds.len() > 0 ==> !(ds.last().available && ds.last().end_spec() == m.physical_start)
    &&& ds.len() < MAX_DESCRIPTORS
}

/// Each conventional range of `mmap`, in order, can be seeded onto what came before it.
pub open spec fn seeds_cleanly(ds: Seq<FrameDescriptor>, mmap: Seq<MemoryDescriptor>) -> bool
    decreases mmap.len(),
{
    mmap.len() == 0 || (seeds_cleanly(ds, mmap.drop_last()) && (mmap.last().is_conventional_spec()
        ==> seed_fits(seeded_onto(ds, mmap.drop_last()), mmap.last())))
}

proof fn lemma_seeds_cleanly_prefix(ds: Seq<FrameDescriptor>, mmap: Seq<MemoryDescriptor>, k: int)
    requires
        seeds_cleanly(ds, mmap),
        0 <= k <= mmap.len(),
    ensures
        seeds_cleanly(ds, mmap.subrange(0, k)),
    decreases mmap.len() - k,
{
    if k == mmap.len() {
        assert(mmap.subrange(0, k) =~= mmap);
    } else {
        lemma_seeds_cleanly_prefix(ds, mmap.drop_last(), k);
        assert(mmap.drop_last().subrange(0, k) =~= mmap.subrange(0, k));
    }
}

/// Seeding keeps the runs already held and adds only free runs after them.
pub proof fn lemma_seeded_runs_free(ds: Seq<FrameDescriptor>, mmap: Seq<MemoryDescriptor>)
    ensures
        seeded_onto(ds, mmap).len() >= ds.len(),
        seeded_onto(ds, mmap).subrange(0, ds.len() as int) == ds,
        forall|k: int|
            ds.len() <= k < seeded_onto(ds, mmap).len() ==> #[trigger] seeded_onto(ds, mmap)[k].available,
    decreases mmap.len(),
{
    if mmap.len() == 0 {
        assert(ds.subrange(0, ds.len() as int) =~= ds);
    } else {
        lemma_seeded_runs_free(ds, mmap.drop_last());
        let rest = seeded_onto(ds, mmap.drop_last());
        if mmap.last().is_conventional_spec() {
            let r = seed_one(rest, mmap.last());
            assert(r.subrange(0, ds.len() as int) =~= rest.subrange(0, ds.len() as int));
            assert forall|k: int| ds.len() <= k < r.len() implies #[trigger] r[k].available by {
                if k < rest.len() {
                    assert(r[k] == rest[k]);
                }
            }
        }
    }
}

/// Seeding a range that fits keeps the list well formed.
proof fn lemma_seed_one(ds: Seq<FrameDescriptor>, m: MemoryDescriptor)
    requires
        descriptors_wf(ds),
        seed_fits(ds, m),
    ensures
        descriptors_wf(seed_one(ds, m)),
{
    let r = seed_one(ds, m);
    let n = ds.len();
    assert(r[n as int].wf());
    assert forall|i: int| 0 <= i < r.len() implies #[trigger] r[i].wf() by {
        if i < n {
            assert(ds[i].wf());
        }
    }
    assert forall|i: int| 0 <= i < r.len() - 1 implies #[trigger] r[i].end_spec() <= r[i + 1].start by {
        if i < n - 1 {
            assert(ds[i].end_spec() <= ds[i + 1].start);
        } else {
            assert(ds[i] == ds.last());
        }
    }
    assert forall|i: int| 0 <= i < r.len() - 1 implies !#[trigger] r[i].mergeable_spec(r[i + 1]) by {
        if i < n - 1 {
            assert(!ds[i].mergeable_spec(ds[i + 1]));
        } else {
            assert(ds[i] == ds.last());
        }
    }
}

/// The physical page-frame allocator: an address-ordered list of runs, each free or used.
pub struct FrameAllocator {
    descriptors: ArrayVec<FrameDescriptor, 128>,
}

impl View for FrameAllocator {
    type V = Seq<FrameDescriptor>;

    closed spec fn view(&self) -> Seq<FrameDescriptor> {
        list_contents(self.descriptors)
    }
}

impl FrameAllocator {
    pub open spec fn wf(&self) -> bool {
        descriptors_wf(self@)
    }

    pub fn new() -> (r: Self)
        ensures
            r@ == Seq::<FrameDescriptor>::empty(),
            r.wf(),
    {
        FrameAllocator { descriptors: list_new() }
    }

    /// The descriptors, in address order.
    pub fn descriptors(&self) -> (r: Vec<FrameDescriptor>)
        ensures
            r@ == self@,
    {
        let len = list_len(&self.descriptors);
        let mut r: Vec<FrameDescriptor> = Vec::new();
        let mut i: usize = 0;
        while i < len
            invariant
                len == self@.len(),
                i <= len,
                r@ == self@.subrange(0, i as int),
            decreases len - i,
        {
            r.push(list_get(&self.descriptors, i));
            i += 1;
            assert(r@ == self@.subrange(0, i as int));
        }
        assert(self@.subrange(0, len as int) == self@);
        r
    }

    /// Takes `num_of_pages` pages from the first free run that is large enough and returns
    /// the run's start address, or `None` when no free run is large enough. A list with no
    /// free slot can still serve a request that the first fitting run matches exactly;
    /// splitting a run on a full list is a configuration error that callers rule out.
    pub fn allocate(&mut self, num_of_pages: u64) -> (r: Option<u64>)
        requires
            old(self).wf(),
            num_of_pages > 0,
            has_room_for(old(self)@, num_of_pages),
        ensures
            final(self).wf(),
            match r {
                None => none_fits(old(self)@, num_of_pages) && final(self)@ == old(self)@,
                Some(a) => exists|i: int|
                    is_first_fit(old(self)@, num_of_pages, i) && a == old(self)@[i].start
                        && final(self)@ == allocated_at(old(self)@, i, num_of_pages),
            },
            forall|a: int| covers(final(self)@, a) == covers(old(self)@, a),
            total_pages(final(self)@) == total_pages(old(self)@),
    {
        let len = list_len(&self.descriptors);
        let mut i: usize = 0;
        while i < len
            invariant
                self@ == old(self)@,
                self.wf(),
                len == self@.len(),
                has_room_for(self@, num_of_pages),
                num_of_pages > 0,
                i <= len,
                forall|j: int| 0 <= j < i ==> !#[trigger] self@[j].fits(num_of_pages),
            decreases len - i,
        {
            let d = list_get(&self.descriptors, i);
            if d.is_available_for_allocating(num_of_pages) {
                proof {
                    assert(is_first_fit(self@, num_of_pages, i as int));
                    lemma_allocated_at(self@, i as int, num_of_pages);
                }
                return Some(self.alloc_from_frames_at(i, num_of_pages));
            }
            i += 1;
        }
        None
    }

    fn alloc_from_frames_at(&mut self, i: usize, n: u64) -> (r: u64)
        requires
            old(self).wf(),
            i < old(self)@.len(),
            old(self)@[i as int].fits(n),
            n > 0,
            old(self)@.len() < MAX_DESCRIPTORS || old(self)@[i as int].num_of_pages == n,
        ensures
            r == old(self)@[i as int].start,
            final(self)@ == allocated_at(old(self)@, i as int, n),
    {
        let d = list_get(&self.descriptors, i);
        if d.is_splittable(n) {
            self.split_frames(i, n);
        }
        let d = list_get(&self.descriptors, i);
        list_set(&mut self.descriptors, i, FrameDescriptor { available: false, ..d });
        assert(self@ =~= allocated_at(old(self)@, i as int, n));
        d.start
    }

    fn split_frames(&mut self, i: usize, num_of_pages: u64)
        requires
            old(self).wf(),
            i < old(self)@.len(),
            old(self)@[i as int].available,
            old(self)@[i as int].num_of_pages > num_of_pages,
            old(self)@.len() < MAX_DESCRIPTORS,
        ensures
            final(self)@ == old(self)@.update(
                i as int,
                FrameDescriptor { num_of_pages, ..old(self)@[i as int] },
            ).insert(
                i as int + 1,
                FrameDescriptor {
                    start: (old(self)@[i as int].start + num_of_pages * PAGE_SIZE) as u64,
                    num_of_pages: (old(self)@[i as int].num_of_pages - num_of_pages) as u64,
                    available: true,
                },
            ),
    {
        self.split_frames_unchecked(i, num_of_pages)
    }

    fn split_frames_unchecked(&mut self, i: usize, requested: u64)
        requires
            i < old(self)@.len(),
            old(self)@[i as int].wf(),
            old(self)@[i as int].num_of_pages > requested,
            old(self)@.len() < MAX_DESCRIPTORS,
        ensures
            final(self)@ == old(self)@.update(
                i as int,
                FrameDescriptor { num_of_pages: requested, ..old(self)@[i as int] },
            ).insert(
                i as int + 1,
                FrameDescriptor {
                    start: (old(self)@[i as int].start + requested * PAGE_SIZE) as u64,
                    num_of_pages: (old(self)@[i as int].num_of_pages - requested) as u64,
                    available: true,
                },
            ),
    {
        let d = list_get(&self.descriptors, i);
        proof {
            assert(requested * PAGE_SIZE < d.num_of_pages * PAGE_SIZE) by (nonlinear_arith)
                requires requested < d.num_of_pages;
        }
        let new_frames_start = d.start + requested * PAGE_SIZE;
        let new_frames_num = d.num_of_pages - requested;
        let new_frames = FrameDescriptor::new_for_available(new_frames_start, new_frames_num);
        list_set(&mut self.descriptors, i, FrameDescriptor { num_of_pages: requested, ..d });
        list_insert(&mut self.descriptors, i + 1, new_frames);
    }
}


impl FrameAllocator {
    /// Frees the used run that starts at `addr` and merges it with free neighbours that
    /// touch it. Does nothing when no used run starts there.
    pub fn dealloc(&mut self, addr: u64)
        requires
            old(self).wf(),
        ensures
            final(self).wf(),
            forall|i: int| is_used_at(old(self)@, addr, i) ==> final(self)@ == freed_at(old(self)@, i),
            (forall|i: int| !is_used_at(old(self)@, addr, i)) ==> final(self)@ == old(self)@,
            forall|a: int| covers(final(self)@, a) == covers(old(self)@, a),
            total_pages(final(self)@) == total_pages(old(self)@),
    {
        let len = list_len(&self.descriptors);
        let mut i: usize = 0;
        while i < len
            invariant
                self@ == old(self)@,
                self.wf(),
                len == self@.len(),
                i <= len,
                forall|j: int| 0 <= j < i ==> !#[trigger] is_used_at(self@, addr, j),
            decreases len - i,
        {
            let d = list_get(&self.descriptors, i);
            if d.start == addr && !d.available {
                proof {
                    lemma_freed_at(self@, i as int);
                    assert(is_used_at(self@, addr, i as int));
                    assert forall|j: int| is_used_at(self@, addr, j) implies j == i by {
                        if j < i {
                        } else if j > i {
                            lemma_sorted_far(self@, i as int, j);
                        }
                    }
                }
                self.free_memory_for_frames_at(i);
                return;
            }
            i += 1;
        }
    }

    fn free_memory_for_frames_at(&mut self, i: usize)
        requires
            old(self).wf(),
            i < old(self)@.len(),
        ensures
            final(self)@ == freed_at(old(self)@, i as int),
    {
        let d = list_get(&self.descriptors, i);
        list_set(&mut self.descriptors, i, FrameDescriptor { available: true, ..d });
        proof {
            let ds = old(self)@;
            assert(sorted_runs(ds));
            assert(self@ == ds.update(i as int, FrameDescriptor { available: true, ..ds[i as int] }));
            assert forall|j: int| 0 <= j < self@.len() implies #[trigger] self@[j].wf() by {
                assert(ds[j].wf());
            }
            assert forall|j: int| 0 <= j < self@.len() - 1 implies #[trigger] self@[j].end_spec()
                <= self@[j + 1].start by {
                assert(ds[j].end_spec() <= ds[j + 1].start);
            }
        }
        self.merge_before_and_after_frames(i);
    }

    fn merge_before_and_after_frames(&mut self, i: usize)
        requires
            sorted_runs(old(self)@),
            old(self)@.len() <= MAX_DESCRIPTORS,
            i < old(self)@.len(),
        ensures
            final(self)@ == merge_next_if_possible(
                merge_next_if_possible(old(self)@, i as int),
                i - 1,
            ),
    {
        let ghost ds = self@;
        if self.mergeable_to_next_frames(i) {
            self.merge_to_next_frames(i);
        }
        assert(self@ == merge_next_if_possible(ds, i as int));
        proof {
            assert(sorted_runs(self@)) by {
                let m = self@;
                if i + 1 < ds.len() && ds[i as int].mergeable_spec(ds[i + 1]) {
                    assert(ds[i as int].wf());
                    assert(ds[i + 1].wf());
                    assert(ds[i as int].num_of_pages * PAGE_SIZE + ds[i + 1].num_of_pages * PAGE_SIZE
                        == (ds[i as int].num_of_pages + ds[i + 1].num_of_pages) * PAGE_SIZE)
                        by (nonlinear_arith);
                    assert(m[i as int].end_spec() == ds[i + 1].end_spec());
                    assert forall|j: int| 0 <= j < m.len() implies #[trigger] m[j].wf() by {
                        if j < i {
                            assert(ds[j].wf());
                        } else if j > i {
                            assert(m[j] == ds[j + 1]);
                            assert(ds[j + 1].wf());
                        }
                    }
                    assert forall|j: int| 0 <= j < m.len() - 1 implies #[trigger] m[j].end_spec()
                        <= m[j + 1].start by {
                        if j < i {
                            assert(ds[j].end_spec() <= ds[j + 1].start);
                        } else if j == i {
                            assert(m[j + 1] == ds[j + 2]);
                            assert(ds[j + 1].end_spec() <= ds[j + 2].start);
                        } else {
                            assert(m[j] == ds[j + 1]);
                            assert(m[j + 1] == ds[j + 2]);
                            assert(ds[j + 1].end_spec() <= ds[j + 2].start);
                        }
                    }
                }
            }
        }
        if i > 0 && self.mergeable_to_next_frames(i - 1) {
            self.merge_to_next_frames(i - 1);
        }
    }

    fn mergeable_to_next_frames(&self, i: usize) -> (r: bool)
        requires
            sorted_runs(self@),
            self@.len() > 0,
        ensures
            r == (i + 1 < self@.len() && self@[i as int].mergeable_spec(self@[i + 1])),
    {
        let len = list_len(&self.descriptors);
        if i >= len - 1 {
            return false;
        }
        let node = list_get(&self.descriptors, i);
        let next = list_get(&self.descriptors, i + 1);
        node.is_mergeable(&next)
    }

    fn merge_to_next_frames(&mut self, i: usize)
        requires
            sorted_runs(old(self)@),
            old(self)@.len() <= MAX_DESCRIPTORS,
            i + 1 < old(self)@.len(),
            old(self)@[i as int].mergeable_spec(old(self)@[i + 1]),
        ensures
            final(self)@ == merged_with_next(old(self)@, i as int),
    {
        let d = list_get(&self.descriptors, i);
        let next = list_get(&self.descriptors, i + 1);
        proof {
            let ds = old(self)@;
            assert(ds[i as int].wf());
            assert(ds[i + 1].wf());
            assert(d.num_of_pages * PAGE_SIZE + next.num_of_pages * PAGE_SIZE == (d.num_of_pages
                + next.num_of_pages) * PAGE_SIZE) by (nonlinear_arith);
            assert((d.num_of_pages + next.num_of_pages) * PAGE_SIZE >= (d.num_of_pages
                + next.num_of_pages)) by (nonlinear_arith);
        }
        list_set(
            &mut self.descriptors,
            i,
            FrameDescriptor { num_of_pages: d.num_of_pages + next.num_of_pages, ..d },
        );
        list_remove(&mut self.descriptors, i + 1);
    }
}


impl FrameAllocator {
    /// Seeds one free run for each conventional range of `mmap`, keeping the map's order.
    /// The map's conventional ranges must be non-empty, below the address limit, in
    /// ascending order without overlap, none touching a free run right before it, and must
    /// each find a slot: more than the slots left is a fatal configuration error.
    pub fn init(&mut self, mmap: &[MemoryDescriptor])
        requires
            old(self).wf(),
            seeds_cleanly(old(self)@, mmap@),
        ensures
            final(self)@ == seeded_onto(old(self)@, mmap@),
            final(self).wf(),
            final(self)@.subrange(0, old(self)@.len() as int) == old(self)@,
            forall|k: int| old(self)@.len() <= k < final(self)@.len() ==> #[trigger] final(self)@[k].available,
    {
        proof {
            lemma_seeded_runs_free(old(self)@, mmap@);
        }
        let mut i: usize = 0;
        while i < mmap.len()
            invariant
                i <= mmap@.len(),
                self.wf(),
                self@ == seeded_onto(old(self)@, mmap@.subrange(0, i as int)),
                seeds_cleanly(old(self)@, mmap@),
            decreases mmap@.len() - i,
        {
            proof {
                assert(mmap@.subrange(0, i + 1).drop_last() =~= mmap@.subrange(0, i as int));
                lemma_seeds_cleanly_prefix(old(self)@, mmap@, i + 1);
            }
            if is_conventional(&mmap[i]) {
                self.init_for_descriptor(&mmap[i]);
            }
            i += 1;
        }
        assert(mmap@.subrange(0, mmap@.len() as int) =~= mmap@);
    }

    fn init_for_descriptor(&mut self, descriptor: &MemoryDescriptor)
        requires
            old(self).wf(),
            seed_fits(old(self)@, *descriptor),
        ensures
            final(self)@ == seed_one(old(self)@, *descriptor),
            final(self).wf(),
    {
        proof {
            lemma_seed_one(self@, *descriptor);
        }
        let frames = FrameDescriptor::new_for_available(
            descriptor.physical_start,
            descriptor.number_of_pages,
        );
        list_push(&mut self.descriptors, frames);
    }

    /// Whether the range `m` can be seeded onto the runs held now.
    fn seed_fits_now(&self, m: &MemoryDescriptor) -> (r: bool)
        requires
            self.wf(),
        ensures
            r == seed_fits(self@, *m),
    {
        let n = m.number_of_pages;
        if n == 0 || n > PHYS_ADDR_LIMIT / PAGE_SIZE {
            proof {
                if n > PHYS_ADDR_LIMIT / PAGE_SIZE {
                    assert(n * PAGE_SIZE > PHYS_ADDR_LIMIT) by (nonlinear_arith)
                        requires n > PHYS_ADDR_LIMIT / PAGE_SIZE;
                }
            }
            return false;
        }
        proof {
            assert(n * PAGE_SIZE <= PHYS_ADDR_LIMIT) by (nonlinear_arith)
                requires n <= PHYS_ADDR_LIMIT / PAGE_SIZE;
        }
        if m.physical_start > PHYS_ADDR_LIMIT - n * PAGE_SIZE {
            return false;
        }
        let len = list_len(&self.descriptors);
        if len == 0 {
            return true;
        }
        let last = list_get(&self.descriptors, len - 1);
        proof {
            assert(self@[len - 1].wf());
        }
        let end = last.end();
        len < MAX_DESCRIPTORS && end <= m.physical_start && !(last.available && end == m.physical_start)
    }

    /// Appends a run as it is, provided the list stays well formed; returns whether it did.
    pub fn push_descriptor(&mut self, d: FrameDescriptor) -> (r: bool)
        requires
            old(self).wf(),
        ensures
            r == descriptors_wf(old(self)@.push(d)),
            final(self)@ == if r { old(self)@.push(d) } else { old(self)@ },
            final(self).wf(),
    {
        let len = list_len(&self.descriptors);
        if len >= MAX_DESCRIPTORS || d.num_of_pages == 0 || d.num_of_pages > PHYS_ADDR_LIMIT / PAGE_SIZE
            || d.start > PHYS_ADDR_LIMIT - d.num_of_pages * PAGE_SIZE {
            proof {
                let n = old(self)@.push(d);
                if len < MAX_DESCRIPTORS && d.num_of_pages > 0 && d.num_of_pages > PHYS_ADDR_LIMIT / PAGE_SIZE {
                    assert(d.num_of_pages * PAGE_SIZE > PHYS_ADDR_LIMIT) by (nonlinear_arith)
                        requires d.num_of_pages > PHYS_ADDR_LIMIT / PAGE_SIZE;
                }
                if len < MAX_DESCRIPTORS {
                    assert(n[len as int] == d);
                    if d.num_of_pages > 0 && d.num_of_pages <= PHYS_ADDR_LIMIT / PAGE_SIZE {
                        assert(d.num_of_pages * PAGE_SIZE <= PHYS_ADDR_LIMIT) by (nonlinear_arith)
                            requires d.num_of_pages <= PHYS_ADDR_LIMIT / PAGE_SIZE;
                    }
                    assert(!n[len as int].wf());
                }
            }
            return false;
        }
        proof {
            assert(d.num_of_pages * PAGE_SIZE <= PHYS_ADDR_LIMIT) by (nonlinear_arith)
                requires d.num_of_pages <= PHYS_ADDR_LIMIT / PAGE_SIZE;
        }
        assert(d.wf());
        if len > 0 {
            let last = list_get(&self.descriptors, len - 1);
            proof {
                assert(self@[len - 1].wf());
            }
            if last.end() > d.start || last.is_mergeable(&d) {
                proof {
                    let n = old(self)@.push(d);
                    assert(n[len - 1] == last);
                    assert(n[len as int] == d);
                }
                return false;
            }
        }
        list_push(&mut self.descriptors, d);
        proof {
            let n = self@;
            assert forall|j: int| 0 <= j < n.len() implies #[trigger] n[j].wf() by {
                if j < len {
                    assert(old(self)@[j].wf());
                }
            }
            assert forall|j: int| 0 <= j < n.len() - 1 implies #[trigger] n[j].end_spec()
                <= n[j + 1].start by {
                if j < len - 1 {
                    assert(old(self)@[j].end_spec() <= old(self)@[j + 1].start);
                }
            }
            assert forall|j: int| 0 <= j < n.len() - 1 implies !#[trigger] n[j].mergeable_spec(
                n[j + 1]) by {
                if j < len - 1 {
                    assert(!old(self)@[j].mergeable_spec(old(self)@[j + 1]));
                }
            }
        }
        true
    }

    /// Takes one page frame, as [`FrameAllocator::allocate`] does for one page.
    pub fn allocate_frame(&mut self) -> (r: Option<u64>)
        requires
            old(self).wf(),
            has_room_for(old(self)@, 1),
        ensures
            final(self).wf(),
            match r {
                None => none_fits(old(self)@, 1) && final(self)@ == old(self)@,
                Some(a) => exists|i: int|
                    is_first_fit(old(self)@, 1, i) && a == old(self)@[i].start
                        && final(self)@ == allocated_at(old(self)@, i, 1),
            },
            forall|a: int| covers(final(self)@, a) == covers(old(self)@, a),
            total_pages(final(self)@) == total_pages(old(self)@),
    {
        self.allocate(1)
    }

    /// Gives back the page frame at `addr`, as [`FrameAllocator::dealloc`] does.
    pub fn deallocate_frame(&mut self, addr: u64)
        requires
            old(self).wf(),
        ensures
            final(self).wf(),
            forall|i: int| is_used_at(old(self)@, addr, i) ==> final(self)@ == freed_at(old(self)@, i),
            (forall|i: int| !is_used_at(old(self)@, addr, i)) ==> final(self)@ == old(self)@,
            forall|a: int| covers(final(self)@, a) == covers(old(self)@, a),
            total_pages(final(self)@) == total_pages(old(self)@),
    {
        self.dealloc(addr)
    }
}

/// Takes one page and gives it straight back, returning its address, or `None` when no page
/// is free. Either way the allocator ends as it began.
pub fn allocate_single_page_and_dealloc(frames: &mut FrameAllocator) -> (r: Option<u64>)
    requires
        old(frames).wf(),
        has_room_for(old(frames)@, 1),
    ensures
        final(frames)@ == old(frames)@,
        r is None <==> none_fits(old(frames)@, 1),
        r matches Some(a) ==> exists|i: int| is_first_fit(old(frames)@, 1, i) && a == old(frames)@[i].start,
{
    let ghost before = frames@;
    match frames.allocate(1) {
        None => None,
        Some(p) => {
            proof {
                let i = choose|i: int|
                    is_first_fit(before, 1, i) && p == before[i].start && frames@ == allocated_at(
                        before,
                        i,
                        1,
                    );
                lemma_alloc_then_free_restores(before, 1, i);
            }
            frames.dealloc(p);
            Some(p)
        },
    }
}

impl FrameAllocator {
    /// Whether serving `n` pages would find a slot for any run it splits off.
    pub fn has_room(&self, n: u64) -> (r: bool)
        ensures
            r == has_room_for(self@, n),
    {
        let len = list_len(&self.descriptors);
        if len < MAX_DESCRIPTORS {
            return true;
        }
        let mut i: usize = 0;
        while i < len
            invariant
                len == self@.len(),
                len >= MAX_DESCRIPTORS,
                i <= len,
                forall|j: int| 0 <= j < i ==> !#[trigger] self@[j].fits(n),
            decreases len - i,
        {
            let d = list_get(&self.descriptors, i);
            if d.is_available_for_allocating(n) {
                proof {
                    assert(is_first_fit(self@, n, i as int));
                    assert forall|k: int| is_first_fit(self@, n, k) implies k == i by {
                        if k < i {
                        } else if k > i {
                            assert(!self@[i as int].fits(n));
                        }
                    }
                }
                return d.num_of_pages == n;
            }
            i += 1;
        }
        true
    }

    /// Number of runs held.
    pub fn len(&self) -> (r: usize)
        ensures
            r == self@.len(),
    {
        list_len(&self.descriptors)
    }

    /// Seeds the conventional ranges of `mmap` as [`FrameAllocator::init`] does when they
    /// meet its conditions, and returns whether they did.
    pub fn try_init(&mut self, mmap: &[MemoryDescriptor]) -> (r: bool)
        requires
            old(self).wf(),
        ensures
            final(self).wf(),
            r == seeds_cleanly(old(self)@, mmap@),
            r ==> final(self)@ == seeded_onto(old(self)@, mmap@),
    {
        let mut i: usize = 0;
        while i < mmap.len()
            invariant
                i <= mmap@.len(),
                self.wf(),
                self@ == seeded_onto(old(self)@, mmap@.subrange(0, i as int)),
                seeds_cleanly(old(self)@, mmap@.subrange(0, i as int)),
            decreases mmap@.len() - i,
        {
            proof {
                assert(mmap@.subrange(0, i + 1).drop_last() =~= mmap@.subrange(0, i as int));
            }
            if is_conventional(&mmap[i]) {
                if !self.seed_fits_now(&mmap[i]) {
                    proof {
                        if seeds_cleanly(old(self)@, mmap@) {
                            lemma_seeds_cleanly_prefix(old(self)@, mmap@, i + 1);
                        }
                    }
                    return false;
                }
                self.init_for_descriptor(&mmap[i]);
            }
            i += 1;
        }
        assert(mmap@.subrange(0, mmap@.len() as int) =~= mmap@);
        true
    }
}

/// First fit is lowest address: in a well-formed list the first run that can serve `n`
/// pages starts below every other run that could.
pub proof fn lemma_first_fit_is_lowest(ds: Seq<FrameDescriptor>, n: u64, i: int)
    requires
        descriptors_wf(ds),
        is_first_fit(ds, n, i),
    ensures
        forall|j: int| 0 <= j < ds.len() && j != i && #[trigger] ds[j].fits(n) ==> ds[i].start < ds[j].start,
{
    assert forall|j: int| 0 <= j < ds.len() && j != i && #[trigger] ds[j].fits(n) implies ds[i].start
        < ds[j].start by {
        lemma_sorted_far(ds, i, j);
    }
}

/// No frame is handed out twice: after `n` pages are taken from the first fitting run, the
/// next first fit, for any size, starts somewhere else. Two address spaces built one after
/// the other therefore get different roots.
pub proof fn lemma_successive_allocations_differ(ds: Seq<FrameDescriptor>, n: u64, i: int, m: u64, j: int)
    requires
        descriptors_wf(ds),
        is_first_fit(ds, n, i),
        n > 0,
        has_room_for(ds, n),
        is_first_fit(allocated_at(ds, i, n), m, j),
    ensures
        allocated_at(ds, i, n)[j].start != ds[i].start,
{
    let r = allocated_at(ds, i, n);
    lemma_allocated_at(ds, i, n);
    assert(r[i].start == ds[i].start);
    assert(!r[i].available);
    if j < i {
        lemma_sorted_far(r, j, i);
    } else if j > i {
        lemma_sorted_far(r, i, j);
    }
}

/// Split and merge undo each other: taking `n` pages from the first free run that can
/// serve them, then freeing the address that came back, restores the list as it was.
pub proof fn lemma_alloc_then_free_restores(ds: Seq<FrameDescriptor>, n: u64, i: int)
    requires
        descriptors_wf(ds),
        is_first_fit(ds, n, i),
        n > 0,
        has_room_for(ds, n),
    ensures
        is_used_at(allocated_at(ds, i, n), ds[i].start, i),
        forall|j: int| is_used_at(allocated_at(ds, i, n), ds[i].start, j) ==> j == i,
        freed_at(allocated_at(ds, i, n), i) == ds,
{
    let r = allocated_at(ds, i, n);
    lemma_allocated_at(ds, i, n);
    assert forall|j: int| is_used_at(r, ds[i].start, j) implies j == i by {
        if j < i {
            lemma_sorted_far(r, j, i);
        } else if j > i {
            lemma_sorted_far(r, i, j);
        }
    }
    let d = r.update(i, FrameDescriptor { available: true, ..r[i] });
    let d1 = merge_next_if_possible(d, i);
    assert(ds[i].wf());
    if ds[i].num_of_pages == n {
        if i + 1 < ds.len() {
            assert(!ds[i].mergeable_spec(ds[i + 1]));
        }
        assert(d =~= ds);
        assert(d1 == ds);
    } else {
        assert(n * PAGE_SIZE + (ds[i].num_of_pages - n) * PAGE_SIZE == ds[i].num_of_pages * PAGE_SIZE)
            by (nonlinear_arith);
        assert(d[i].mergeable_spec(d[i + 1]));
        assert(d1 =~= ds);
    }
    if i > 0 {
        assert(!ds[i - 1].mergeable_spec(ds[i]));
    }
    assert(freed_at(r, i) =~= ds);
}

} // verus!
