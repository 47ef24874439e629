//! Splitting a task's estimate into time blocks: an estimate of at most 60
//! minutes stays one block, one of 61 to 180 minutes becomes two halves, and
//! a larger one is cut into blocks of 90 to 120 minutes: blocks of 120, then
//! one of 90, where that leaves no shorter block; otherwise as few blocks of
//! at most 120 minutes as will do, of near-equal length, which are 90 to 120
//! minutes long whenever the estimate allows that.

use vstd::prelude::*;
use vstd::string::StringExecFns;

use crate::text::{append_decimal, decimal};
use vstd::arithmetic::div_mod::{lemma_fundamental_div_mod, lemma_mod_bound};

verus! {

/// The next block cut from `left` remaining minutes by the greedy cut.
pub open spec fn chunk_size(left: int) -> int {
    if left >= 120 {
        120
    } else if left >= 90 {
        90
    } else {
        left
    }
}

/// The greedy cut of `left` minutes: blocks of 120, then 90, then what is left.
pub open spec fn chunk_plan(left: int) -> Seq<i64>
    decreases left,
{
    if left <= 0 {
        seq![]
    } else {
        seq![chunk_size(left) as i64] + chunk_plan(left - chunk_size(left))
    }
}

/// The greedy cut leaves no block shorter than 90 minutes.
pub open spec fn greedy_fits(est: int) -> bool {
    forall|i: int| 0 <= i < chunk_plan(est).len() ==> #[trigger] chunk_plan(est)[i] >= 90
}

/// The fewest blocks of at most 120 minutes that hold `est` minutes.
pub open spec fn block_count(est: int) -> int {
    if est % 120 == 0 {
        est / 120
    } else {
        est / 120 + 1
    }
}

/// `n` blocks of `q` minutes, of which the first `r` are one minute longer.
pub open spec fn even_blocks(q: int, r: int, n: nat) -> Seq<i64> {
    Seq::new(n, |i: int| (if i < r { q + 1 } else { q }) as i64)
}

/// The minutes of each block of a task estimated at `est` minutes, in order.
pub open spec fn block_plan(est: i64) -> Seq<i64> {
    if est <= 60 {
        seq![est]
    } else if est <= 180 {
        seq![(est / 2) as i64, (est - est / 2) as i64]
    } else {
        let e = est as int;
        if greedy_fits(e) {
            chunk_plan(e)
        } else {
            let k = block_count(e);
            even_blocks(e / k, e % k, k as nat)
        }
    }
}

/// `est` minutes can be cut into `k` blocks of 90 to 120 minutes each.
pub open spec fn fits_in_blocks(est: int, k: int) -> bool {
    90 * k <= est <= 120 * k
}

/// The title of the block at position `i` (counted from 0): `Block 1`, `Block 2`, ...
pub open spec fn block_title(i: int) -> Seq<char> {
    "Block "@ + decimal((i + 1) as nat)
}

/// The total of a sequence of minutes.
pub open spec fn total_minutes(s: Seq<i64>) -> int
    decreases s.len(),
{
    if s.len() == 0 {
        0
    } else {
        s[0] + total_minutes(s.drop_first())
    }
}

/// The minutes of each block of a task estimated at `est` minutes.
pub fn split_minutes(est: i64) -> (r: Vec<i64>)
    ensures
        r@ == block_plan(est),
{
    if est <= 60 {
        let mut v = Vec::new();
        v.push(est);
        assert(v@ =~= seq![est]);
        v
    } else if est <= 180 {
        let mut v = Vec::new();
        v.push(est / 2);
        v.push(est - est / 2);
        assert(v@ =~= block_plan(est));
        v
    } else {
        let mut left: i64 = est;
        let mut greedy: Vec<i64> = Vec::new();
        while left > 0
            invariant
                0 <= left <= est,
                greedy@ + chunk_plan(left as int) == chunk_plan(est as int),
            decreases left,
        {
            let chunk: i64 = if left >= 120 {
                120
            } else if left >= 90 {
                90
            } else {
                left
            };
            assert(chunk_plan(left as int) == seq![chunk] + chunk_plan(left - chunk));
            assert(greedy@.push(chunk) + chunk_plan(left - chunk) =~= greedy@ + chunk_plan(
                left as int,
            ));
            greedy.push(chunk);
            left = left - chunk;
        }
        assert(greedy@ + chunk_plan(left as int) =~= greedy@);
        let n = greedy.len();
        let mut all_long = true;
        for j in 0..n
            invariant
                n == greedy@.len(),
                greedy@ == chunk_plan(est as int),
                all_long == (forall|t: int| 0 <= t < j ==> #[trigger] greedy@[t] >= 90),
        {
            if greedy[j] < 90 {
                all_long = false;
            }
        }
        if all_long {
            return greedy;
        }
        let k: i64 = if est % 120 == 0 {
            est / 120
        } else {
            est / 120 + 1
        };
        proof {
            lemma_even_split(est as int);
        }
        let q: i64 = est / k;
        let r: i64 = est % k;
        let mut v: Vec<i64> = Vec::new();
        let mut i: i64 = 0;
        while i < k
            invariant
                0 <= i <= k,
                k == block_count(est as int),
                q == (est as int) / (k as int),
                r == (est as int) % (k as int),
                0 <= r < k,
                60 <= q <= 120,
                r > 0 ==> q < 120,
                v@ == even_blocks(q as int, r as int, i as nat),
            decreases k - i,
        {
            let b: i64 = if i < r {
                q + 1
            } else {
                q
            };
            v.push(b);
            assert(v@ =~= even_blocks(q as int, r as int, (i + 1) as nat));
            i = i + 1;
        }
        v
    }
}

/// One planned block of a task: its title and its length in minutes.
pub struct PlannedBlock {
    pub title: String,
    pub minutes: i64,
}

/// The titled blocks of a task estimated at `est` minutes, in order.
pub fn plan_blocks(est: i64) -> (r: Vec<PlannedBlock>)
    ensures
        r.len() == block_plan(est).len(),
        forall|i: int|
            0 <= i < r.len() ==> (#[trigger] r[i]).minutes == block_plan(est)[i] && r[i].title@
                == block_title(i),
{
    let minutes = split_minutes(est);
    let mut out: Vec<PlannedBlock> = Vec::new();
    let n = minutes.len();
    for i in 0..n
        invariant
            n == minutes@.len(),
            minutes@ == block_plan(est),
            out.len() == i,
            forall|j: int|
                0 <= j < i ==> (#[trigger] out[j]).minutes == block_plan(est)[j] && out[j].title@
                    == block_title(j),
    {
        let mut title = String::from_str("Block ");
        append_decimal(&mut title, (i as u64) + 1);
        out.push(PlannedBlock { title, minutes: minutes[i] });
    }
    out
}

proof fn lemma_chunk_plan(left: int)
    requires
        left >= 0,
    ensures
        total_minutes(chunk_plan(left)) == left,
        forall|i: int|
            0 <= i < chunk_plan(left).len() ==> 1 <= #[trigger] chunk_plan(left)[i] <= 120,
        left > 180 ==> chunk_plan(left).len() >= 2,
    decreases left,
{
    if left > 0 {
        let c = chunk_size(left);
        let rest = chunk_plan(left - c);
        lemma_chunk_plan(left - c);
        let whole = seq![c as i64] + rest;
        assert(chunk_plan(left) == whole);
        assert(whole.drop_first() =~= rest);
        assert forall|i: int| 0 <= i < whole.len() implies 1 <= #[trigger] whole[i] <= 120 by {
            if i > 0 {
                assert(whole[i] == rest[i - 1]);
            }
        }
        if left > 180 {
            assert(chunk_plan(left - c) =~= seq![chunk_size(left - c) as i64] + chunk_plan(
                left - c - chunk_size(left - c),
            ));
        }
    }
}

/// What the count, quotient and remainder of a large estimate satisfy.
proof fn lemma_even_split(est: int)
    requires
        est > 180,
    ensures
        ({
            let k = block_count(est);
            let q = est / k;
            let r = est % k;
            &&& k >= 2
            &&& 120 * (k - 1) < est <= 120 * k
            &&& est == k * q + r
            &&& 0 <= r < k
            &&& 60 <= q <= 120
            &&& (r > 0 ==> q < 120)
            &&& (forall|j: int| fits_in_blocks(est, j) ==> k <= j)
            &&& (90 * k <= est ==> q >= 90)
        }),
{
    let k = block_count(est);
    lemma_fundamental_div_mod(est, 120);
    lemma_mod_bound(est, 120);
    let a = est / 120;
    assert(120 * (k - 1) < est <= 120 * k && k >= 2) by (nonlinear_arith)
        requires
            est == 120 * a + est % 120,
            0 <= est % 120 < 120,
            est > 180,
            k == (if est % 120 == 0 {
                a
            } else {
                a + 1
            }),
    ;
    lemma_fundamental_div_mod(est, k);
    lemma_mod_bound(est, k);
    let q = est / k;
    let r = est % k;
    assert(60 <= q <= 120 && (r > 0 ==> q < 120)) by (nonlinear_arith)
        requires
            est == k * q + r,
            0 <= r < k,
            k >= 2,
            120 * (k - 1) < est <= 120 * k,
    ;
    assert forall|j: int| fits_in_blocks(est, j) implies k <= j by {
        assert(k <= j) by (nonlinear_arith)
            requires
                est <= 120 * j,
                120 * (k - 1) < est,
        ;
    }
    assert(90 * k <= est ==> q >= 90) by (nonlinear_arith)
        requires
            est == k * q + r,
            0 <= r < k,
            k >= 2,
    ;
}

/// The total of `n` near-equal blocks.
proof fn lemma_even_total(q: int, r: int, n: nat)
    requires
        0 <= r <= n,
        0 <= q,
        q + 1 <= i64::MAX,
    ensures
        total_minutes(even_blocks(q, r, n)) == n * q + r,
    decreases n,
{
    let s = even_blocks(q, r, n);
    if n > 0 {
        let r2 = if r > 0 {
            r - 1
        } else {
            0
        };
        assert(s.drop_first() =~= even_blocks(q, r2, (n - 1) as nat));
        lemma_even_total(q, r2, (n - 1) as nat);
        assert(n * q == (n - 1) * q + q) by (nonlinear_arith);
        assert(s[0] == (if r > 0 {
            q + 1
        } else {
            q
        }));
        assert(total_minutes(s) == s[0] + total_minutes(s.drop_first()));
    } else {
        assert(n * q == 0) by (nonlinear_arith)
            requires
                n == 0,
        ;
    }
}

/// Splitting never loses or adds time: the blocks of a task add up to its
/// estimate, whatever the estimate.
pub proof fn law_blocks_add_up(est: i64)
    ensures
        total_minutes(block_plan(est)) == est,
{
    if est <= 60 {
        assert(block_plan(est).drop_first() =~= Seq::<i64>::empty());
        assert(total_minutes(block_plan(est).drop_first()) == 0);
    } else if est <= 180 {
        let b = block_plan(est);
        assert(b.drop_first().drop_first() =~= Seq::<i64>::empty());
        assert(total_minutes(b.drop_first().drop_first()) == 0);
        assert(b.drop_first()[0] == b[1]);
        assert(total_minutes(b.drop_first()) == b[1]);
    } else {
        let e = est as int;
        lemma_even_split(e);
        lemma_chunk_plan(e);
        let k = block_count(e);
        lemma_even_total(e / k, e % k, k as nat);
    }
}

/// An estimate of at most 60 minutes stays one block; one of 61 to 180
/// minutes becomes two halves that differ by at most a minute. A larger one
/// keeps the greedy cut (120s, then 90) where every block of it is at least
/// 90 minutes; otherwise it becomes the fewest blocks of at most 120 minutes,
/// differing by at most a minute. Either way there are at least two blocks,
/// each of 60 to 120 minutes, and each of 90 to 120 minutes whenever some
/// number of blocks of 90 to 120 minutes holds the estimate.
pub proof fn law_block_sizes(est: i64)
    ensures
        est <= 60 ==> block_plan(est) == seq![est],
        60 < est <= 180 ==> {
            let b = block_plan(est);
            &&& b.len() == 2
            &&& b[0] <= b[1] <= b[0] + 1
            &&& b[0] >= 30
        },
        est > 180 ==> {
            let b = block_plan(est);
            &&& greedy_fits(est as int) ==> b == chunk_plan(est as int)
            &&& !greedy_fits(est as int) ==> {
                &&& b.len() == block_count(est as int)
                &&& forall|i: int, j: int|
                    0 <= i < b.len() && 0 <= j < b.len() ==> #[trigger] b[i] <= #[trigger] b[j] + 1
            }
            &&& b.len() >= 2
            &&& forall|i: int| 0 <= i < b.len() ==> 60 <= #[trigger] b[i] <= 120
            &&& (exists|k: int| #[trigger] fits_in_blocks(est as int, k)) ==> forall|i: int|
                0 <= i < b.len() ==> 90 <= #[trigger] b[i] <= 120
        },
{
    if est > 180 {
        let e = est as int;
        lemma_even_split(e);
        lemma_chunk_plan(e);
        let k = block_count(e);
        if exists|j: int| #[trigger] fits_in_blocks(e, j) {
            let j = choose|j: int| #[trigger] fits_in_blocks(e, j);
            assert(k <= j);
            assert(90 * k <= est) by (nonlinear_arith)
                requires
                    k <= j,
                    90 * j <= est,
            ;
        }
    }
}

} // verus!
