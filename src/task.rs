use vstd::prelude::*;

verus! {

/// The character of one decimal digit `d < 10`.
pub open spec fn digit_char(d: nat) -> char {
    if d == 0 { '0' }
    else if d == 1 { '1' }
    else if d == 2 { '2' }
    else if d == 3 { '3' }
    else if d == 4 { '4' }
    else if d == 5 { '5' }
    else if d == 6 { '6' }
    else if d == 7 { '7' }
    else if d == 8 { '8' }
    else { '9' }
}

/// The shortest decimal spelling of `n`.
pub open spec fn decimal(n: nat) -> Seq<char>
    decreases n,
{
    if n < 10 {
        seq![digit_char(n)]
    } else {
        decimal(n / 10).push(digit_char(n % 10))
    }
}

/// The payload of the work item with the given id: `task ` and the id in decimal.
pub open spec fn payload_of(id: u32) -> Seq<char> {
    seq!['t', 'a', 's', 'k', ' '] + decimal(id as nat)
}

/// Relies on `format!` writing an unsigned integer as its shortest decimal digits.
#[verifier::external_body]
fn payload_text(id: u32) -> (r: String)
    ensures
        r@ == payload_of(id),
{
    format!("task {}", id)
}

/// One unit of work: an id unique within its batch and an opaque payload.
#[derive(Debug, PartialEq, Eq)]
pub struct Task {
    pub id: u32,
    pub payload: String,
}

impl Task {
    pub fn new(id: u32, payload: String) -> (r: Task)
        ensures
            r.id == id,
            r.payload@ == payload@,
    {
        Task { id, payload }
    }
}

/// Builds the work item that a batch holds at position `id`.
pub fn create_task(id: u32, payload: String) -> (r: Task)
    ensures
        r.id == id,
        r.payload@ == payload@,
{
    Task::new(id, payload)
}

/// The well-formed batch of `n` items: item `i` has id `i` and payload `payload_of(i)`.
pub open spec fn is_batch(items: Seq<Task>, start: nat, n: nat) -> bool {
    &&& items.len() + start == n
    &&& forall|i: int| 0 <= i < items.len() ==> {
        &&& #[trigger] items[i].id == start + i
        &&& items[i].payload@ == payload_of((start + i) as u32)
    }
}

/// Enumerates the batch of `n` work items, ids `0..n` in order.
pub fn make_batch(n: u32) -> (r: Vec<Task>)
    ensures
        is_batch(r@, 0, n as nat),
{
    let mut items: Vec<Task> = Vec::new();
    let mut i: u32 = 0;
    while i < n
        invariant
            i <= n,
            items@.len() == i,
            forall|k: int| 0 <= k < i ==> {
                &&& #[trigger] items@[k].id == k
                &&& items@[k].payload@ == payload_of(k as u32)
            },
        decreases n - i,
    {
        items.push(create_task(i, payload_text(i)));
        i = i + 1;
    }
    items
}

} // verus!
