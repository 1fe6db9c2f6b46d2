//! Sharing the scanlines of an image out among a fixed pool of workers.
//!
//! Worker `w` of `k` takes the rows `h - 1 - w`, `h - 1 - w - k`,
//! `h - 1 - w - 2k`, ... of an image of `h` rows, from the top row down, so
//! that every row belongs to exactly one worker and no two workers ever write
//! the same pixel.

use vstd::prelude::*;
use crate::canvas::lemma_index_is_injective;
use vstd::arithmetic::div_mod::{lemma_fundamental_div_mod, lemma_fundamental_div_mod_converse};

verus! {

/// The worker that renders row `y` of an image of `height` rows when
/// `workers` workers share it.
pub open spec fn row_owner(height: int, workers: int, y: int) -> int {
    (height - 1 - y) % workers
}

/// The worker that renders row `y`, as a worker's number.
pub open spec fn owner_of(height: u32, workers: u32, y: u32) -> u32 {
    row_owner(height as int, workers as int, y as int) as u32
}

/// How many rows worker `worker` renders: none for a number that is not
/// below `workers`, which is no worker's.
pub open spec fn stripe_len(height: int, workers: int, worker: int) -> int {
    if worker < height && worker < workers {
        (height - 1 - worker) / workers + 1
    } else {
        0
    }
}

/// The `j`-th row that worker `worker` renders, counting from 0.
pub open spec fn stripe_row(height: int, workers: int, worker: int, j: int) -> int {
    height - 1 - worker - j * workers
}

/// The rows of worker `worker`, in the order in which it renders them.
pub open spec fn stripe(height: u32, workers: u32, worker: u32) -> Seq<u32> {
    Seq::new(
        stripe_len(height as int, workers as int, worker as int) as nat,
        |j: int| stripe_row(height as int, workers as int, worker as int, j) as u32,
    )
}

/// Every row of a stripe is a row of the image.
pub proof fn lemma_stripe_row_in_image(height: int, workers: int, worker: int, j: int)
    requires
        workers > 0,
        0 <= worker,
        0 <= j < stripe_len(height, workers, worker),
    ensures
        0 <= stripe_row(height, workers, worker, j) < height,
{
    let span = height - 1 - worker;
    lemma_fundamental_div_mod(span, workers);
    assert(j * workers <= (span / workers) * workers) by (nonlinear_arith)
        requires
            0 <= j <= span / workers,
            workers > 0,
    ;
    assert(workers * (span / workers) == (span / workers) * workers) by (nonlinear_arith);
}

/// A worker's stripe holds exactly the rows of the image that it owns.
pub proof fn lemma_stripe_holds_owned_rows(height: u32, workers: u32, worker: u32, y: u32)
    requires
        workers > 0,
    ensures
        stripe(height, workers, worker).contains(y) <==> (y < height && owner_of(
            height,
            workers,
            y,
        ) == worker),
{
    let h = height as int;
    let k = workers as int;
    let w = worker as int;
    let rows = stripe(height, workers, worker);
    lemma_fundamental_div_mod(h - 1 - y, k);
    if rows.contains(y) {
        let j = choose|j: int| 0 <= j < rows.len() && rows[j] == y;
        lemma_stripe_row_in_image(h, k, w, j);
        assert(h - 1 - y == j * k + w) by (nonlinear_arith)
            requires
                y == h - 1 - w - j * k,
        ;
        lemma_fundamental_div_mod_converse(h - 1 - y, k, j, w);
    }
    if y < height && row_owner(h, k, y as int) == w {
        let gap = h - 1 - y;
        let j = gap / k;
        lemma_fundamental_div_mod(gap, k);
        assert(0 <= j) by (nonlinear_arith)
            requires
                j == gap / k,
                gap >= 0,
                k > 0,
        ;
        assert(k * j == j * k) by (nonlinear_arith);
        let span = h - 1 - w;
        assert(span == k * j + y) by (nonlinear_arith)
            requires
                gap == k * j + w,
                gap == h - 1 - y,
                span == h - 1 - w,
        ;
        assert(j <= span / k) by {
            lemma_fundamental_div_mod(span, k);
            assert(j <= span / k) by (nonlinear_arith)
                requires
                    span == k * (span / k) + span % k,
                    span == k * j + y,
                    0 <= span % k < k,
                    0 <= y,
                    k > 0,
            ;
        }
        assert(stripe_row(h, k, w, j) == y);
        assert(rows[j] == y);
    }
}

/// A worker renders its rows from the top down: each row of a stripe lies
/// below the one before it, so no row occurs twice in a stripe.
pub proof fn lemma_stripe_descends(height: u32, workers: u32, worker: u32, i: int, j: int)
    requires
        workers > 0,
        0 <= i < j < stripe(height, workers, worker).len(),
    ensures
        stripe(height, workers, worker)[i] > stripe(height, workers, worker)[j],
{
    let h = height as int;
    let k = workers as int;
    let w = worker as int;
    lemma_stripe_row_in_image(h, k, w, i);
    lemma_stripe_row_in_image(h, k, w, j);
    assert(i * k < j * k) by (nonlinear_arith)
        requires
            0 <= i < j,
            k > 0,
    ;
}

/// Every row of the image has one worker: its owner is a worker of the pool
/// and has the row in its stripe, and no other number has.
pub proof fn lemma_rows_are_partitioned(height: u32, workers: u32, y: u32)
    requires
        workers > 0,
        y < height,
    ensures
        owner_of(height, workers, y) < workers,
        stripe(height, workers, owner_of(height, workers, y)).contains(y),
        forall|other: u32|
            other != owner_of(height, workers, y) ==> !#[trigger] stripe(
                height,
                workers,
                other,
            ).contains(y),
{
    let owner = owner_of(height, workers, y);
    lemma_fundamental_div_mod(height - 1 - y, workers as int);
    lemma_stripe_holds_owned_rows(height, workers, owner, y);
    assert forall|other: u32| other != owner implies !#[trigger] stripe(
        height,
        workers,
        other,
    ).contains(y) by {
        lemma_stripe_holds_owned_rows(height, workers, other, y);
    }
}

/// The stripes of a pool share out the rows of the image, none left out and
/// none given twice: a stripe holds rows of the image only and none of them
/// twice, every row of the image is in the stripe of a worker of the pool,
/// and no row is in two stripes.
pub proof fn lemma_stripes_share_out_image(height: u32, workers: u32)
    requires
        workers > 0,
    ensures
        forall|worker: u32, j: int|
            0 <= j < stripe(height, workers, worker).len() ==> #[trigger] stripe(
                height,
                workers,
                worker,
            )[j] < height,
        forall|worker: u32, i: int, j: int|
            0 <= i < j < stripe(height, workers, worker).len() ==> #[trigger] stripe(
                height,
                workers,
                worker,
            )[i] != #[trigger] stripe(height, workers, worker)[j],
        forall|y: u32|
            y < height ==> #[trigger] owner_of(height, workers, y) < workers && stripe(
                height,
                workers,
                owner_of(height, workers, y),
            ).contains(y),
        forall|first: u32, second: u32, y: u32|
            first != second && #[trigger] stripe(height, workers, first).contains(y)
                ==> !#[trigger] stripe(height, workers, second).contains(y),
{
    assert forall|worker: u32, j: int|
        0 <= j < stripe(height, workers, worker).len() implies #[trigger] stripe(
        height,
        workers,
        worker,
    )[j] < height by {
        lemma_stripe_row_in_image(height as int, workers as int, worker as int, j);
    }
    assert forall|worker: u32, i: int, j: int|
        0 <= i < j < stripe(height, workers, worker).len() implies #[trigger] stripe(
        height,
        workers,
        worker,
    )[i] != #[trigger] stripe(height, workers, worker)[j] by {
        lemma_stripe_descends(height, workers, worker, i, j);
    }
    assert forall|y: u32| y < height implies #[trigger] owner_of(height, workers, y) < workers
        && stripe(height, workers, owner_of(height, workers, y)).contains(y) by {
        lemma_rows_are_partitioned(height, workers, y);
    }
    assert forall|first: u32, second: u32, y: u32|
        first != second && #[trigger] stripe(height, workers, first).contains(y) implies !#[trigger] stripe(
        height,
        workers,
        second,
    ).contains(y) by {
        lemma_stripe_holds_owned_rows(height, workers, first, y);
        lemma_stripe_holds_owned_rows(height, workers, second, y);
    }
}

/// The number of rows that the workers `0` to `n - 1` render together.
pub open spec fn rows_of_first(height: int, workers: int, n: int) -> int
    decreases n,
{
    if n <= 0 {
        0
    } else {
        rows_of_first(height, workers, n - 1) + stripe_len(height, workers, n - 1)
    }
}

/// One more row in the image is one more row for one worker, the one whose
/// number is `height % workers`.
proof fn lemma_stripe_len_grows(height: int, workers: int, worker: int)
    requires
        workers > 0,
        0 <= height,
        0 <= worker < workers,
    ensures
        stripe_len(height + 1, workers, worker) == stripe_len(height, workers, worker) + if worker
            == height % workers {
            1int
        } else {
            0int
        },
{
    let k = workers;
    let w = worker;
    if w > height {
        lemma_fundamental_div_mod_converse(height, k, 0, height);
    } else if w == height {
        lemma_fundamental_div_mod_converse(height, k, 0, height);
        lemma_fundamental_div_mod_converse(0, k, 0, 0);
    } else {
        let m = height - 1 - w;
        let q = m / k;
        let r = m % k;
        lemma_fundamental_div_mod(m, k);
        if r == k - 1 {
            assert(m + 1 == (q + 1) * k + 0) by (nonlinear_arith)
                requires
                    m == k * q + r,
                    r == k - 1,
            ;
            lemma_fundamental_div_mod_converse(m + 1, k, q + 1, 0);
            assert(height == (q + 1) * k + w) by (nonlinear_arith)
                requires
                    m + 1 == (q + 1) * k + 0,
                    m == height - 1 - w,
            ;
            lemma_fundamental_div_mod_converse(height, k, q + 1, w);
        } else {
            assert(m + 1 == q * k + (r + 1)) by (nonlinear_arith)
                requires
                    m == k * q + r,
            ;
            lemma_fundamental_div_mod_converse(m + 1, k, q, r + 1);
            if r + 1 + w < k {
                assert(height == q * k + (r + 1 + w)) by (nonlinear_arith)
                    requires
                        m == k * q + r,
                        m == height - 1 - w,
                ;
                lemma_fundamental_div_mod_converse(height, k, q, r + 1 + w);
            } else {
                assert(height == (q + 1) * k + (r + 1 + w - k)) by (nonlinear_arith)
                    requires
                        m == k * q + r,
                        m == height - 1 - w,
                ;
                lemma_fundamental_div_mod_converse(height, k, q + 1, r + 1 + w - k);
            }
        }
    }
}

/// One more row in the image is one more row for the workers `0` to `n - 1`
/// together exactly if the worker that gets it is among them.
proof fn lemma_rows_of_first_grow(height: int, workers: int, n: int)
    requires
        workers > 0,
        0 <= height,
        0 <= n <= workers,
    ensures
        rows_of_first(height + 1, workers, n) == rows_of_first(height, workers, n) + if height
            % workers < n {
            1int
        } else {
            0int
        },
    decreases n,
{
    if n > 0 {
        lemma_rows_of_first_grow(height, workers, n - 1);
        lemma_stripe_len_grows(height, workers, n - 1);
        lemma_fundamental_div_mod(height, workers);
    } else {
        lemma_fundamental_div_mod(height, workers);
    }
}

/// The stripes of a pool hold as many rows as the image has: with the laws
/// above, that each row is in one stripe and in no stripe twice, no row is
/// left out and none is rendered twice.
pub proof fn lemma_stripes_hold_every_row(height: int, workers: int)
    requires
        workers > 0,
        0 <= height,
    ensures
        rows_of_first(height, workers, workers) == height,
    decreases height,
{
    if height == 0 {
        lemma_no_image_no_rows(workers, workers);
    } else {
        lemma_stripes_hold_every_row(height - 1, workers);
        lemma_rows_of_first_grow(height - 1, workers, workers);
        lemma_fundamental_div_mod(height - 1, workers);
    }
}

/// An image without rows gives no worker a row.
proof fn lemma_no_image_no_rows(workers: int, n: int)
    requires
        workers > 0,
        0 <= n,
    ensures
        rows_of_first(0, workers, n) == 0,
    decreases n,
{
    if n > 0 {
        lemma_no_image_no_rows(workers, n - 1);
    }
}

/// Two workers never write the same pixel: in a buffer that stores its
/// pixels row after row, a pixel in a row of one worker and a pixel in a row
/// of another stand at different places.
pub proof fn lemma_workers_write_apart(
    height: u32,
    workers: u32,
    width: u32,
    first: u32,
    second: u32,
    x1: u32,
    y1: u32,
    x2: u32,
    y2: u32,
)
    requires
        workers > 0,
        first != second,
        x1 < width,
        x2 < width,
        stripe(height, workers, first).contains(y1),
        stripe(height, workers, second).contains(y2),
    ensures
        y1 * width + x1 != y2 * width + x2,
{
    lemma_stripe_holds_owned_rows(height, workers, first, y1);
    lemma_stripe_holds_owned_rows(height, workers, second, y2);
    if y1 * width + x1 == y2 * width + x2 {
        lemma_index_is_injective(x1 as int, y1 as int, x2 as int, y2 as int, width as int);
    }
}

/// The rows a worker is given, top row first.
///
/// The result is exactly `stripe(height, workers, worker)`: a worker whose
/// number is not below `height` gets no row, and neither does a number that
/// is not below `workers`.
pub fn worker_rows(height: u32, workers: u32, worker: u32) -> (rows: Vec<u32>)
    requires
        workers > 0,
    ensures
        rows@ == stripe(height, workers, worker),
{
    let mut rows: Vec<u32> = Vec::new();
    if worker >= height || worker >= workers {
        assert(rows@ =~= stripe(height, workers, worker));
        return rows;
    }
    let ghost len = stripe_len(height as int, workers as int, worker as int);
    let mut y: u32 = height - 1 - worker;
    proof {
        lemma_fundamental_div_mod(height - 1 - worker, workers as int);
        assert(len >= 1) by (nonlinear_arith)
            requires
                len == (height - 1 - worker) / (workers as int) + 1,
                height - 1 - worker >= 0,
                workers > 0,
        ;
    }
    loop
        invariant_except_break
            rows@.len() < len,
            y == stripe_row(height as int, workers as int, worker as int, rows@.len() as int),
            rows@ == stripe(height, workers, worker).subrange(0, rows@.len() as int),
        invariant
            workers > 0,
            worker < height,
            worker < workers,
            len == stripe_len(height as int, workers as int, worker as int),
        ensures
            rows@ == stripe(height, workers, worker),
        decreases y,
    {
        let ghost before = rows@;
        rows.push(y);
        assert(rows@ =~= stripe(height, workers, worker).subrange(0, rows@.len() as int));
        if y < workers {
            proof {
                let j = before.len() as int;
                assert(height - 1 - worker == j * workers + y) by (nonlinear_arith)
                    requires
                        y == height - 1 - worker - j * workers,
                ;
                lemma_fundamental_div_mod_converse(height - 1 - worker, workers as int, j, y as int);
                assert(rows@.len() == len);
                assert(rows@ =~= stripe(height, workers, worker));
            }
            break;
        }
        proof {
            let j = before.len() as int;
            assert((j + 1) * workers == j * workers + workers) by (nonlinear_arith);
            if j + 1 >= len {
                lemma_fundamental_div_mod(height - 1 - worker, workers as int);
                let span = height - 1 - worker;
                assert(j * workers <= (span / (workers as int)) * workers) by (nonlinear_arith)
                    requires
                        0 <= j <= span / (workers as int),
                        workers > 0,
                ;
                assert((span / (workers as int)) * workers == workers * (span / (workers as int)))
                    by (nonlinear_arith);
                assert((j + 1) * workers > span / (workers as int) * workers) by (nonlinear_arith)
                    requires
                        j + 1 > span / (workers as int),
                        workers > 0,
                ;
                assert(false);
            }
        }
        y = y - workers;
    }
    rows
}

} // verus!
