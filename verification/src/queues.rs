//! The fixed-capacity FIFO queues (heapless `Deque`) that the page caches keep their pages in.
//! Each capacity in use has a name for its contents, front first, and one trusted wrapper per
//! `Deque` method that the caches call.
use vstd::prelude::*;
use heapless::Deque;
use crate::frame_allocator::TOTAL_FRAMES;

verus! {

/// Capacity of the S3-FIFO small (probation) queue.
pub const S_CAP: usize = TOTAL_FRAMES / 8;

/// Capacity of the S3-FIFO main queue.
pub const M_CAP: usize = TOTAL_FRAMES - S_CAP;

/// What `Deque::push_back` returns: `Err` with the item when the queue is full.
pub type PushResult = Result<(), usize>;

#[verifier::external_type_specification]
#[verifier::external_body]
#[verifier::reject_recursive_types(T)]
pub struct ExDeque<T, const N: usize>(Deque<T, N>);

/// The pages held by a small queue, front first.
pub uninterp spec fn small_items(q: Deque<usize, S_CAP>) -> Seq<usize>;

/// `Deque::new` at the small queue's capacity: an empty queue.
#[verifier::external_body]
pub(crate) fn small_new() -> (q: Deque<usize, S_CAP>)
    ensures
        small_items(q) == Seq::<usize>::empty(),
{
    Deque::new()
}

/// `Deque::len`: the number of items held.
#[verifier::external_body]
pub(crate) fn small_len(q: &Deque<usize, S_CAP>) -> (r: usize)
    ensures
        r == small_items(*q).len(),
        r <= S_CAP,
{
    q.len()
}

/// `Deque::is_full`: the queue holds as many items as its capacity.
#[verifier::external_body]
pub(crate) fn small_is_full(q: &Deque<usize, S_CAP>) -> (r: bool)
    ensures
        r == (small_items(*q).len() == S_CAP),
{
    q.is_full()
}

/// `Deque::push_back`: appends the item, or hands it back unchanged when the queue is full.
#[verifier::external_body]
pub(crate) fn small_push_back(q: &mut Deque<usize, S_CAP>, item: usize) -> (r: PushResult)
    ensures
        small_items(*old(q)).len() < S_CAP ==> r is Ok && small_items(*final(q)) == small_items(*old(q)).push(item),
        small_items(*old(q)).len() >= S_CAP ==> r == PushResult::Err(item) && small_items(*final(q)) == small_items(*old(q)),
{
    q.push_back(item)
}

/// `Deque::pop_front`: removes and returns the front item, or `None` when empty.
#[verifier::external_body]
pub(crate) fn small_pop_front(q: &mut Deque<usize, S_CAP>) -> (r: Option<usize>)
    ensures
        small_items(*old(q)).len() == 0 ==> r is None && small_items(*final(q)) == small_items(*old(q)),
        small_items(*old(q)).len() > 0 ==> r == Some(small_items(*old(q))[0]) && small_items(*final(q))
            == small_items(*old(q)).skip(1),
{
    q.pop_front()
}

/// The pages held by a main queue, front first.
pub uninterp spec fn main_items(q: Deque<usize, M_CAP>) -> Seq<usize>;

/// `Deque::new` at the main queue's capacity: an empty queue.
#[verifier::external_body]
pub(crate) fn main_new() -> (q: Deque<usize, M_CAP>)
    ensures
        main_items(q) == Seq::<usize>::empty(),
{
    Deque::new()
}

/// `Deque::len`: the number of items held.
#[verifier::external_body]
pub(crate) fn main_len(q: &Deque<usize, M_CAP>) -> (r: usize)
    ensures
        r == main_items(*q).len(),
        r <= M_CAP,
{
    q.len()
}

/// `Deque::push_back`: appends the item, or hands it back unchanged when the queue is full.
#[verifier::external_body]
pub(crate) fn main_push_back(q: &mut Deque<usize, M_CAP>, item: usize) -> (r: PushResult)
    ensures
        main_items(*old(q)).len() < M_CAP ==> r is Ok && main_items(*final(q)) == main_items(*old(q)).push(item),
        main_items(*old(q)).len() >= M_CAP ==> r == PushResult::Err(item) && main_items(*final(q)) == main_items(*old(q)),
{
    q.push_back(item)
}

/// `Deque::pop_front`: removes and returns the front item, or `None` when empty.
#[verifier::external_body]
pub(crate) fn main_pop_front(q: &mut Deque<usize, M_CAP>) -> (r: Option<usize>)
    ensures
        main_items(*old(q)).len() == 0 ==> r is None && main_items(*final(q)) == main_items(*old(q)),
        main_items(*old(q)).len() > 0 ==> r == Some(main_items(*old(q))[0]) && main_items(*final(q))
            == main_items(*old(q)).skip(1),
{
    q.pop_front()
}

/// The pages held by a plain FIFO queue, front first.
pub uninterp spec fn fifo_items(q: Deque<usize, TOTAL_FRAMES>) -> Seq<usize>;

/// `Deque::new` at the FIFO cache's capacity: an empty queue.
#[verifier::external_body]
pub(crate) fn fifo_new() -> (q: Deque<usize, TOTAL_FRAMES>)
    ensures
        fifo_items(q) == Seq::<usize>::empty(),
{
    Deque::new()
}

/// `Deque::len`: the number of items held.
#[verifier::external_body]
pub(crate) fn fifo_len(q: &Deque<usize, TOTAL_FRAMES>) -> (r: usize)
    ensures
        r == fifo_items(*q).len(),
        r <= TOTAL_FRAMES,
{
    q.len()
}

/// `Deque::push_back`: appends the item, or hands it back unchanged when the queue is full.
#[verifier::external_body]
pub(crate) fn fifo_push_back(q: &mut Deque<usize, TOTAL_FRAMES>, item: usize) -> (r: PushResult)
    ensures
        fifo_items(*old(q)).len() < TOTAL_FRAMES ==> r is Ok && fifo_items(*final(q)) == fifo_items(*old(q)).push(item),
        fifo_items(*old(q)).len() >= TOTAL_FRAMES ==> r == PushResult::Err(item) && fifo_items(*final(q)) == fifo_items(*old(q)),
{
    q.push_back(item)
}

/// `Deque::pop_front`: removes and returns the front item, or `None` when empty.
#[verifier::external_body]
pub(crate) fn fifo_pop_front(q: &mut Deque<usize, TOTAL_FRAMES>) -> (r: Option<usize>)
    ensures
        fifo_items(*old(q)).len() == 0 ==> r is None && fifo_items(*final(q)) == fifo_items(*old(q)),
        fifo_items(*old(q)).len() > 0 ==> r == Some(fifo_items(*old(q))[0]) && fifo_items(*final(q))
            == fifo_items(*old(q)).skip(1),
{
    q.pop_front()
}

} // verus!
