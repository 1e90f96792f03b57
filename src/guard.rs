use vstd::prelude::*;

verus! {

/// One acquisition attempt on a guard that is held exactly when `held` is:
/// whether the attempt is granted the guard, and whether the guard is held
/// afterwards.
pub open spec fn attempt(held: bool) -> (bool, bool) {
    (!held, true)
}

/// A non-blocking flag that admits at most one regeneration at a time.
pub struct RegenerationGuard {
    in_progress: bool,
}

impl RegenerationGuard {
    /// Whether a regeneration currently holds the guard.
    pub closed spec fn held(&self) -> bool {
        self.in_progress
    }

    /// A guard with no regeneration in progress.
    pub fn new() -> (r: Self)
        ensures
            !r.held(),
    {
        RegenerationGuard { in_progress: false }
    }

    /// Tries to become the sole regenerator. Returns `true` (held) if the guard
    /// was idle, and `false` (busy) without waiting if it was already held.
    pub fn try_acquire(&mut self) -> (acquired: bool)
        ensures
            (acquired, final(self).held()) == attempt(old(self).held()),
    {
        if self.in_progress {
            false
        } else {
            self.in_progress = true;
            true
        }
    }

    /// Ends the current holder's regeneration attempt.
    pub fn release(&mut self)
        ensures
            !final(self).held(),
    {
        self.in_progress = false;
    }
}

/// What `n` acquisition attempts in a row return, with no release between
/// them, starting from a guard that is held exactly when `held` is.
pub open spec fn attempt_outcomes(held: bool, n: nat) -> Seq<bool>
    decreases n,
{
    if n == 0 {
        Seq::empty()
    } else {
        seq![attempt(held).0] + attempt_outcomes(attempt(held).1, (n - 1) as nat)
    }
}

/// A burst of attempts on a held guard is all busy.
proof fn lemma_busy_burst(n: nat)
    ensures
        attempt_outcomes(true, n) == Seq::new(n, |i: int| false),
    decreases n,
{
    if n > 0 {
        lemma_busy_burst((n - 1) as nat);
        assert(attempt_outcomes(true, n) =~= Seq::new(n, |i: int| false));
    }
}

/// Of `n` attempts that meet an idle guard with no release between them, the
/// first is granted the guard and all the others find it busy.
pub proof fn lemma_single_holder_per_burst(n: nat)
    requires
        n > 0,
    ensures
        attempt_outcomes(false, n) == seq![true] + Seq::new((n - 1) as nat, |i: int| false),
{
    lemma_busy_burst((n - 1) as nat);
}

} // verus!
