//! Progress counters polled by the caller while a scan runs, and the
//! arithmetic of the one-line progress bar rendered from them.

use vstd::prelude::*;

use crate::intern::StringPool;

verus! {

/// Shared state of one scan: the interning pool the exploring tasks share,
/// and the observability counters. `pending` counts entries discovered so
/// far, `complete` those whose whole subtree has resolved, and
/// `all_complete` is set exactly once, after the root resolves. The counters
/// are advisory: nothing in tree construction consults them.
#[derive(Debug)]
pub struct ExploreContext {
    pub pool: StringPool,
    pub pending: usize,
    pub complete: usize,
    pub all_complete: bool,
}

impl ExploreContext {
    /// Never more entries completed than discovered.
    pub open spec fn wf(self) -> bool {
        self.complete <= self.pending
    }

    pub fn new() -> (c: ExploreContext)
        ensures
            c.pool@ == Seq::<Seq<char>>::empty(),
            c.pool.wf(),
            c.pending == 0,
            c.complete == 0,
            !c.all_complete,
            c.wf(),
    {
        ExploreContext { pool: StringPool::new(), pending: 0, complete: 0, all_complete: false }
    }

    /// Record that `n` more entries were discovered. `pending` never
    /// decreases and the other fields are untouched.
    pub fn add_pending(&mut self, n: usize)
        requires
            old(self).wf(),
            old(self).pending + n <= usize::MAX,
        ensures
            final(self).pending == old(self).pending + n,
            final(self).pending >= old(self).pending,
            final(self).complete == old(self).complete,
            final(self).all_complete == old(self).all_complete,
            final(self).pool == old(self).pool,
            final(self).wf(),
    {
        self.pending = self.pending + n;
    }

    /// Record that one entry's processing, recursion included, finished.
    /// `complete` never decreases and never passes `pending`.
    pub fn mark_complete(&mut self)
        requires
            old(self).wf(),
            old(self).complete < old(self).pending,
        ensures
            final(self).complete == old(self).complete + 1,
            final(self).complete >= old(self).complete,
            final(self).pending == old(self).pending,
            final(self).all_complete == old(self).all_complete,
            final(self).pool == old(self).pool,
            final(self).wf(),
    {
        self.complete = self.complete + 1;
    }

    /// Record that the root scan resolved; the counters are untouched.
    pub fn set_all_complete(&mut self)
        ensures
            final(self).all_complete,
            final(self).pending == old(self).pending,
            final(self).complete == old(self).complete,
            final(self).pool == old(self).pool,
    {
        self.all_complete = true;
    }
}

/// Filled width of a `width`-column progress bar after `complete` of
/// `pending` entries: `round(width * complete / pending)`, and empty while
/// nothing is pending.
pub open spec fn spec_bar_fill(width: int, complete: int, pending: int) -> int {
    if pending <= 0 {
        0
    } else {
        (2 * width * complete + pending) / (2 * pending)
    }
}

/// Compute the filled width of the progress bar. A zero-filled bar stays
/// within `width`, so the caller can pad the rest with spaces.
pub fn bar_fill(width: u16, complete: usize, pending: usize) -> (r: u16)
    requires
        complete <= pending,
    ensures
        r == spec_bar_fill(width as int, complete as int, pending as int),
        r <= width,
{
    if pending == 0 {
        return 0;
    }
    proof {
        vstd::arithmetic::mul::lemma_mul_upper_bound(
            2 * (width as int),
            131070,
            complete as int,
            0xffffffffffffffff,
        );
    }
    let num: u128 = 2 * (width as u128) * (complete as u128) + (pending as u128);
    let den: u128 = 2 * (pending as u128);
    let fill = num / den;
    proof {
        let w = width as int;
        let c = complete as int;
        let p = pending as int;
        assert(num == 2 * w * c + p && den == 2 * p) by (nonlinear_arith)
            requires
                num == 2 * (width as u128) * (complete as u128) + (pending as u128),
                den == 2 * (pending as u128),
                w == width as int,
                c == complete as int,
                p == pending as int,
                width as u128 == w,
                complete as u128 == c,
                pending as u128 == p,
        ;
        assert(num as int <= den as int * w + (den as int - 1)) by (nonlinear_arith)
            requires
                num == 2 * w * c + p,
                den == 2 * p,
                0 <= c <= p,
                1 <= p,
                0 <= w,
        ;
        vstd::arithmetic::div_mod::lemma_fundamental_div_mod(num as int, den as int);
        assert(fill as int <= w) by (nonlinear_arith)
            requires
                num as int == den as int * (fill as int) + (num as int % den as int),
                0 <= num as int % den as int,
                num as int <= den as int * w + (den as int - 1),
                den as int >= 2,
                0 <= w,
        ;
    }
    fill as u16
}

/// Widths of the filled and blank parts of the progress bar, on a terminal
/// `screen_width` columns wide whose line begins with a `prefix_len`-column
/// textual prefix; four more columns go to the fixed decoration around the
/// bar.
pub fn bar_widths(screen_width: u16, prefix_len: u16, complete: usize, pending: usize) -> (r: (
    u16,
    u16,
))
    requires
        prefix_len + 4 <= screen_width,
        complete <= pending,
    ensures
        r.0 == spec_bar_fill(screen_width - prefix_len - 4, complete as int, pending as int),
        r.0 + r.1 == screen_width - prefix_len - 4,
{
    let full = screen_width - prefix_len - 4;
    let fill = bar_fill(full, complete, pending);
    (fill, full - fill)
}

} // verus!
