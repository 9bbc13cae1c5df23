use vstd::prelude::*;
use vstd::arithmetic::div_mod::lemma_fundamental_div_mod;

verus! {

/// One slice of the source file: its position in the plan, where it starts,
/// and how many bytes it holds.
#[derive(Debug, Clone, Copy, PartialEq, Eq, Structural)]
pub struct Chunk {
    pub index: usize,
    pub offset: u64,
    pub size: usize,
}

/// Number of chunks of size `c` that cover `s` bytes: `ceil(s / c)`.
pub open spec fn chunk_count(s: nat, c: nat) -> nat {
    if s % c == 0 {
        s / c
    } else {
        s / c + 1
    }
}

/// Length of chunk `i`: `c`, but for a last chunk that holds what remains.
pub open spec fn chunk_len(s: nat, c: nat, i: nat) -> nat {
    if (i + 1) * c <= s {
        c
    } else {
        (s - i * c) as nat
    }
}

/// Chunk `i` of the plan for `s` bytes in chunks of `c`.
pub open spec fn planned_chunk(ch: Chunk, s: nat, c: nat, i: nat) -> bool {
    &&& ch.index == i
    &&& ch.offset == i * c
    &&& ch.size == chunk_len(s, c, i)
}

/// Sum of the lengths of the first `k` chunks.
pub open spec fn total_len(s: nat, c: nat, k: nat) -> nat
    decreases k,
{
    if k == 0 {
        0
    } else {
        total_len(s, c, (k - 1) as nat) + chunk_len(s, c, (k - 1) as nat)
    }
}

proof fn lemma_count_bounds(s: nat, c: nat)
    requires
        c > 0,
    ensures
        chunk_count(s, c) * c >= s,
        chunk_count(s, c) > 0 ==> (chunk_count(s, c) - 1) * c < s,
        s % c == 0 ==> chunk_count(s, c) * c == s,
        s % c != 0 ==> (chunk_count(s, c) - 1) * c + s % c == s,
{
    lemma_fundamental_div_mod(s as int, c as int);
    let q = s / c;
    let r = s % c;
    assert(s == c * q + r);
    if r == 0 {
        assert(chunk_count(s, c) * c == s) by (nonlinear_arith)
            requires
                chunk_count(s, c) == q,
                s == c * q,
        ;
        if q > 0 {
            assert((q - 1) * c < s) by (nonlinear_arith)
                requires
                    s == c * q,
                    c > 0,
                    q > 0,
            ;
        }
    } else {
        assert(chunk_count(s, c) * c >= s) by (nonlinear_arith)
            requires
                chunk_count(s, c) == q + 1,
                s == c * q + r,
                r < c,
        ;
        assert((chunk_count(s, c) - 1) * c + r == s) by (nonlinear_arith)
            requires
                chunk_count(s, c) == q + 1,
                s == c * q + r,
        ;
    }
}

proof fn lemma_before_last(s: nat, c: nat, i: nat)
    requires
        c > 0,
        i < chunk_count(s, c),
    ensures
        i * c < s,
        i * c + chunk_len(s, c, i) <= s,
        chunk_len(s, c, i) > 0,
        chunk_len(s, c, i) <= c,
{
    lemma_count_bounds(s, c);
    let n = chunk_count(s, c);
    assert(i * c <= (n - 1) * c) by (nonlinear_arith)
        requires
            i <= n - 1,
            c > 0,
    ;
    assert((i + 1) * c == i * c + c) by (nonlinear_arith);
}

proof fn lemma_total_len(s: nat, c: nat, k: nat)
    requires
        c > 0,
        k <= chunk_count(s, c),
    ensures
        total_len(s, c, k) == if k * c <= s {
            k * c
        } else {
            s
        },
    decreases k,
{
    if k > 0 {
        let j = (k - 1) as nat;
        lemma_total_len(s, c, j);
        lemma_before_last(s, c, j);
        assert(k * c == j * c + c) by (nonlinear_arith)
            requires
                k == j + 1,
        ;
        assert((j + 1) * c == k * c);
        assert(j * c < s);
        assert(total_len(s, c, k) == total_len(s, c, j) + chunk_len(s, c, j));
    } else {
        assert(k * c == 0) by (nonlinear_arith)
            requires
                k == 0,
        ;
    }
}

/// The chunks of a file of `s` bytes in chunks of `c` partition `[0, s)`:
/// they start at multiples of `c`, none is empty, each starts where the one
/// before it ends, every byte lies in the chunk `b / c`, their lengths add up
/// to `s`, and the last holds `s mod c` bytes, or `c` where `c` divides `s`.
pub proof fn lemma_chunks_partition(s: nat, c: nat)
    requires
        c > 0,
    ensures
        total_len(s, c, chunk_count(s, c)) == s,
        forall|i: nat|
            i < chunk_count(s, c) ==> 0 < #[trigger] chunk_len(s, c, i) && i * c + chunk_len(s, c, i)
                <= s,
        forall|i: nat|
            i + 1 < chunk_count(s, c) ==> (i + 1) * c == i * c + #[trigger] chunk_len(s, c, i),
        forall|b: nat|
            b < s ==> #[trigger] (b / c) < chunk_count(s, c) && (b / c) * c <= b < (b / c) * c
                + chunk_len(s, c, b / c),
        chunk_count(s, c) > 0 ==> (chunk_count(s, c) - 1) * c + chunk_len(
            s,
            c,
            (chunk_count(s, c) - 1) as nat,
        ) == s,
        chunk_count(s, c) > 0 ==> chunk_len(s, c, (chunk_count(s, c) - 1) as nat) == if s % c
            == 0 {
            c
        } else {
            s % c
        },
{
    let n = chunk_count(s, c);
    lemma_count_bounds(s, c);
    lemma_total_len(s, c, n);
    assert forall|i: nat| i < n implies 0 < #[trigger] chunk_len(s, c, i) && i * c + chunk_len(
        s,
        c,
        i,
    ) <= s by {
        lemma_before_last(s, c, i);
    }
    assert forall|i: nat| i + 1 < n implies (i + 1) * c == i * c + #[trigger] chunk_len(
        s,
        c,
        i,
    ) by {
        lemma_before_last(s, c, i + 1);
        assert((i + 1) * c == i * c + c) by (nonlinear_arith);
    }
    assert forall|b: nat| b < s implies #[trigger] (b / c) < n && (b / c) * c <= b < (b / c) * c
        + chunk_len(s, c, b / c) by {
        lemma_fundamental_div_mod(b as int, c as int);
        let q = b / c;
        assert(q < n) by {
            if q >= n {
                assert(q * c >= n * c) by (nonlinear_arith)
                    requires
                        q >= n,
                ;
                assert(b >= q * c) by (nonlinear_arith)
                    requires
                        b == c * q + b % c,
                        b % c >= 0,
                ;
            }
        }
        assert(q * c <= b && b < q * c + c) by (nonlinear_arith)
            requires
                b == c * q + b % c,
                0 <= b % c < c,
        ;
        assert((q + 1) * c == q * c + c) by (nonlinear_arith);
    }
    if n > 0 {
        let l = (n - 1) as nat;
        assert(n * c == l * c + c) by (nonlinear_arith)
            requires
                n == l + 1,
        ;
    }
}

/// Number of chunks of `chunk_size` bytes that cover `file_size` bytes.
pub fn total_chunks(file_size: usize, chunk_size: usize) -> (r: usize)
    requires
        chunk_size > 0,
    ensures
        r == chunk_count(file_size as nat, chunk_size as nat),
{
    let q = file_size / chunk_size;
    if file_size % chunk_size == 0 {
        q
    } else {
        proof {
            lemma_fundamental_div_mod(file_size as int, chunk_size as int);
            assert(q < file_size) by (nonlinear_arith)
                requires
                    file_size == chunk_size * q + file_size % chunk_size,
                    file_size % chunk_size > 0,
                    chunk_size > 0,
                    q >= 0,
            ;
        }
        q + 1
    }
}

/// The ordered chunk list of a file: chunk `i` starts at `i * chunk_size`
/// and holds `chunk_size` bytes, but for the last, which holds the rest.
pub fn plan_chunks(file_size: usize, chunk_size: usize) -> (r: Vec<Chunk>)
    requires
        chunk_size > 0,
    ensures
        r@.len() == chunk_count(file_size as nat, chunk_size as nat),
        forall|i: int|
            0 <= i < r@.len() ==> planned_chunk(
                #[trigger] r@[i],
                file_size as nat,
                chunk_size as nat,
                i as nat,
            ),
{
    let ghost s = file_size as nat;
    let ghost c = chunk_size as nat;
    let n = total_chunks(file_size, chunk_size);
    let mut r: Vec<Chunk> = Vec::new();
    let mut i: usize = 0;
    let mut off: usize = 0;
    while i < n
        invariant
            n == chunk_count(s, c),
            c == chunk_size,
            s == file_size,
            c > 0,
            i <= n,
            i < n ==> off == i * c,
            r@.len() == i,
            forall|j: int| 0 <= j < i ==> planned_chunk(#[trigger] r@[j], s, c, j as nat),
        decreases n - i,
    {
        proof {
            lemma_before_last(s, c, i as nat);
            assert((i + 1) * c == i * c + c) by (nonlinear_arith);
        }
        let size = if file_size - off >= chunk_size {
            chunk_size
        } else {
            file_size - off
        };
        r.push(Chunk { index: i, offset: off as u64, size });
        i = i + 1;
        if i < n {
            proof {
                lemma_before_last(s, c, i as nat);
            }
            off = off + chunk_size;
        }
    }
    r
}

/// How many workers send a file of `total` chunks: at most `max_workers`, and
/// never more than there are chunks.
pub fn worker_count(total: usize, max_workers: usize) -> (r: usize)
    ensures
        r == if total < max_workers {
            total
        } else {
            max_workers
        },
{
    if total < max_workers {
        total
    } else {
        max_workers
    }
}

/// The shared queue from which workers claim chunks, one at a time. Claims
/// take the chunk at the back.
pub struct ChunkQueue {
    pending: Vec<Chunk>,
}

impl View for ChunkQueue {
    type V = Seq<Chunk>;

    closed spec fn view(&self) -> Seq<Chunk> {
        self.pending@
    }
}

/// One claim on a queue whose contents are `queue`: the chunk claimed, if any,
/// and what stays queued.
pub open spec fn claim_from(queue: Seq<Chunk>) -> (Option<Chunk>, Seq<Chunk>) {
    if queue.len() == 0 {
        (None, queue)
    } else {
        (Some(queue.last()), queue.drop_last())
    }
}

impl ChunkQueue {
    /// A queue holding `chunks`.
    pub fn new(chunks: Vec<Chunk>) -> (q: ChunkQueue)
        ensures
            q@ == chunks@,
    {
        ChunkQueue { pending: chunks }
    }

    /// Takes one chunk out of the queue; `None` once it is empty.
    pub fn claim(&mut self) -> (r: Option<Chunk>)
        ensures
            (r, final(self)@) == claim_from(old(self)@),
    {
        self.pending.pop()
    }

    /// Number of chunks not yet claimed.
    pub fn remaining(&self) -> (r: usize)
        ensures
            r == self@.len(),
    {
        self.pending.len()
    }
}

/// The claims made when the workers named by `schedule` claim in turn from a
/// queue holding `queue`, each step being one `ChunkQueue::claim` and each
/// claim paired with its worker; a worker that finds the queue empty stops,
/// and so does the record.
pub open spec fn claims(queue: Seq<Chunk>, schedule: Seq<nat>) -> Seq<(nat, Chunk)>
    decreases schedule.len(),
{
    if schedule.len() == 0 {
        Seq::empty()
    } else {
        match claim_from(queue) {
            (Some(c), rest) => seq![(schedule[0], c)] + claims(rest, schedule.drop_first()),
            (None, _) => Seq::empty(),
        }
    }
}

proof fn lemma_claims_shape(queue: Seq<Chunk>, schedule: Seq<nat>)
    ensures
        claims(queue, schedule).len() == if schedule.len() < queue.len() {
            schedule.len()
        } else {
            queue.len()
        },
        forall|t: int|
            0 <= t < claims(queue, schedule).len() ==> #[trigger] claims(queue, schedule)[t] == (
            schedule[t], queue[queue.len() - 1 - t]),
    decreases schedule.len(),
{
    if schedule.len() > 0 && queue.len() > 0 {
        let rest = claims(queue.drop_last(), schedule.drop_first());
        lemma_claims_shape(queue.drop_last(), schedule.drop_first());
        let all = claims(queue, schedule);
        assert(all == seq![(schedule[0], queue.last())] + rest);
        assert forall|t: int| 0 <= t < all.len() implies #[trigger] all[t] == (
        schedule[t], queue[queue.len() - 1 - t]) by {
            if t > 0 {
                assert(all[t] == rest[t - 1]);
            }
        }
    }
}

/// Some claim in `record` took the chunk with index `j`.
pub open spec fn claimed(record: Seq<(nat, Chunk)>, j: int) -> bool {
    exists|t: int| 0 <= t < record.len() && (#[trigger] record[t]).1.index == j
}

/// Workers that claim chunks one at a time from the shared queue of a plan
/// process every chunk exactly once, in whatever order their claims come:
/// once as many claims have been made as there are chunks, each index of the
/// plan has been claimed by exactly one claim, and no index twice.
pub proof fn lemma_claims_exactly_once(queue: Seq<Chunk>, schedule: Seq<nat>)
    requires
        forall|i: int| 0 <= i < queue.len() ==> (#[trigger] queue[i]).index == i,
        schedule.len() >= queue.len(),
    ensures
        claims(queue, schedule).len() == queue.len(),
        forall|j: int| 0 <= j < queue.len() ==> #[trigger] claimed(claims(queue, schedule), j),
        forall|t1: int, t2: int|
            0 <= t1 < t2 < queue.len() ==> (#[trigger] claims(queue, schedule)[t1]).1.index
                != (#[trigger] claims(queue, schedule)[t2]).1.index,
{
    lemma_claims_shape(queue, schedule);
    let n = queue.len() as int;
    let cl = claims(queue, schedule);
    assert forall|j: int| 0 <= j < n implies #[trigger] claimed(cl, j) by {
        let t = n - 1 - j;
        assert(cl[t] == (schedule[t], queue[j]));
        assert(queue[j].index == j);
    }
    assert forall|t1: int, t2: int| 0 <= t1 < t2 < n implies (#[trigger] cl[t1]).1.index
        != (#[trigger] cl[t2]).1.index by {
        assert(queue[n - 1 - t1].index == n - 1 - t1);
        assert(queue[n - 1 - t2].index == n - 1 - t2);
    }
}

} // verus!
