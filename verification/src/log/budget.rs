//! How much a run may write to disk.
//!
//! Once the cap is hit disk writes stop but the console keeps going, so a long
//! unattended run degrades instead of filling the filesystem.
use vstd::prelude::*;

verus! {

/// What a run has written to disk, against what it may write.
pub struct Budget {
    cap: u64,
    used: u64,
    stopped: bool,
}

/// What is known of a budget.
pub struct BudgetModel {
    /// how many bytes may be written; no cap is written as zero
    pub cap: int,
    /// how many bytes were granted
    pub used: int,
    /// whether a write was refused
    pub stopped: bool,
}

impl View for Budget {
    type V = BudgetModel;

    closed spec fn view(&self) -> BudgetModel {
        BudgetModel { cap: self.cap as int, used: self.used as int, stopped: self.stopped }
    }
}

/// What becomes of a write.
#[derive(Clone, Copy, Debug, PartialEq, Eq, Structural)]
pub enum Verdict {
    Granted,
    /// refused, as the first of the run, which is to be announced
    Stopped,
    Refused,
}

impl BudgetModel {
    /// Nothing over the cap was ever granted; without a cap nothing is counted.
    pub open spec fn wf(self) -> bool {
        &&& 0 <= self.used <= self.cap <= u64::MAX
        &&& self.cap == 0 ==> !self.stopped
    }

    /// A budget of which nothing is used.
    pub open spec fn fresh(cap: int) -> BudgetModel {
        BudgetModel { cap, used: 0, stopped: false }
    }

    /// What becomes of a write of `n` bytes: it is granted where there is no cap,
    /// and else as long as none was refused and the cap is not passed.
    pub open spec fn verdict(self, n: int) -> Verdict {
        if self.cap == 0 {
            Verdict::Granted
        } else if self.stopped {
            Verdict::Refused
        } else if self.used + n > self.cap {
            Verdict::Stopped
        } else {
            Verdict::Granted
        }
    }

    /// The budget after that write: bytes that were refused do not count.
    pub open spec fn after(self, n: int) -> BudgetModel {
        if self.cap == 0 {
            self
        } else {
            match self.verdict(n) {
                Verdict::Granted => BudgetModel { used: self.used + n, ..self },
                _ => BudgetModel { stopped: true, ..self },
            }
        }
    }
}

impl Budget {
    /// A budget of which nothing is used; a cap of 0 is no cap.
    pub fn new(cap: u64) -> (b: Self)
        ensures
            b@.wf(),
            b@ == BudgetModel::fresh(cap as int),
    {
        Budget { cap, used: 0, stopped: false }
    }

    /// Charges bytes against the budget.
    pub fn charge(&mut self, n: u64) -> (verdict: Verdict)
        requires
            old(self)@.wf(),
        ensures
            final(self)@.wf(),
            verdict == old(self)@.verdict(n as int),
            final(self)@ == old(self)@.after(n as int),
    {
        if self.cap == 0 {
            return Verdict::Granted;
        }
        if self.stopped {
            return Verdict::Refused;
        }
        if n > self.cap - self.used {
            self.stopped = true;
            return Verdict::Stopped;
        }
        self.used = self.used + n;
        Verdict::Granted
    }

    /// How many bytes may be written.
    pub fn cap(&self) -> (n: u64)
        ensures
            n == self@.cap,
    {
        self.cap
    }

    /// How many bytes were granted.
    pub fn used(&self) -> (n: u64)
        ensures
            n == self@.used,
    {
        self.used
    }

    /// Whether a write was refused.
    pub fn stopped(&self) -> (b: bool)
        ensures
            b == self@.stopped,
    {
        self.stopped
    }
}

/// The budget after several writes.
pub open spec fn after_all(m: BudgetModel, writes: Seq<nat>) -> BudgetModel
    decreases writes.len(),
{
    if writes.len() == 0 {
        m
    } else {
        after_all(m, writes.drop_last()).after(writes.last() as int)
    }
}

/// How many bytes of several writes were granted.
pub open spec fn granted(m: BudgetModel, writes: Seq<nat>) -> int
    decreases writes.len(),
{
    if writes.len() == 0 {
        0
    } else {
        granted(m, writes.drop_last()) + (if after_all(m, writes.drop_last()).verdict(
            writes.last() as int,
        ) == Verdict::Granted {
            writes.last() as int
        } else {
            0
        })
    }
}

/// How often several writes announce that writing has stopped.
pub open spec fn announcements(m: BudgetModel, writes: Seq<nat>) -> nat
    decreases writes.len(),
{
    if writes.len() == 0 {
        0
    } else {
        announcements(m, writes.drop_last()) + (if after_all(m, writes.drop_last()).verdict(
            writes.last() as int,
        ) == Verdict::Stopped {
            1nat
        } else {
            0
        })
    }
}

/// A run never writes more than its cap, counts exactly what it was granted, and
/// announces once that writing has stopped, when it has.
pub proof fn a_run_stays_within_its_cap(cap: int, writes: Seq<nat>)
    requires
        0 < cap <= u64::MAX,
    ensures
        ({
            let m = BudgetModel::fresh(cap);
            let end = after_all(m, writes);
            &&& end.wf()
            &&& end.cap == cap
            &&& end.used == granted(m, writes) <= cap
            &&& announcements(m, writes) == if end.stopped {
                1nat
            } else {
                0
            }
        }),
    decreases writes.len(),
{
    if writes.len() > 0 {
        a_run_stays_within_its_cap(cap, writes.drop_last());
    }
}

/// Without a cap every write is granted.
pub proof fn no_cap_refuses_nothing(writes: Seq<nat>, n: int)
    ensures
        after_all(BudgetModel::fresh(0), writes).verdict(n) == Verdict::Granted,
        announcements(BudgetModel::fresh(0), writes) == 0,
    decreases writes.len(),
{
    if writes.len() > 0 {
        no_cap_refuses_nothing(writes.drop_last(), n);
        no_cap_refuses_nothing(writes.drop_last(), writes.last() as int);
        assert(after_all(BudgetModel::fresh(0), writes.drop_last()).cap == 0) by {
            the_cap_never_changes(BudgetModel::fresh(0), writes.drop_last());
        }
    }
}

proof fn the_cap_never_changes(m: BudgetModel, writes: Seq<nat>)
    ensures
        after_all(m, writes).cap == m.cap,
    decreases writes.len(),
{
    if writes.len() > 0 {
        the_cap_never_changes(m, writes.drop_last());
    }
}

/// Once a write is refused, so is every write that follows.
pub proof fn a_stop_is_final(m: BudgetModel, n: int, more: Seq<nat>, last: int)
    requires
        m.wf(),
        0 <= n,
        m.verdict(n) != Verdict::Granted,
    ensures
        after_all(m.after(n), more).verdict(last) == Verdict::Refused,
    decreases more.len(),
{
    if more.len() > 0 {
        a_stop_is_final(m, n, more.drop_last(), more.last() as int);
        a_stop_is_final(m, n, more.drop_last(), last);
    }
}

/// How much several writes come to.
pub open spec fn total(writes: Seq<nat>) -> nat
    decreases writes.len(),
{
    if writes.len() == 0 {
        0
    } else {
        total(writes.drop_last()) + writes.last()
    }
}

/// As long as all the writes together fit the cap, every one is granted and none is
/// refused; the one that first does not fit stops the writing.
pub proof fn what_fits_is_granted(cap: int, writes: Seq<nat>, n: nat)
    requires
        0 < cap <= u64::MAX,
        total(writes) <= cap,
    ensures
        ({
            let end = after_all(BudgetModel::fresh(cap), writes);
            &&& end.used == total(writes)
            &&& !end.stopped
            &&& total(writes) + n <= cap ==> end.verdict(n as int) == Verdict::Granted
            &&& total(writes) + n > cap ==> end.verdict(n as int) == Verdict::Stopped
        }),
    decreases writes.len(),
{
    the_cap_never_changes(BudgetModel::fresh(cap), writes);
    if writes.len() > 0 {
        what_fits_is_granted(cap, writes.drop_last(), writes.last());
        the_cap_never_changes(BudgetModel::fresh(cap), writes.drop_last());
    }
}

/// `charge` grants a write where there is no cap, and else as long as nothing was
/// refused and the write fits; only what is granted counts.
pub proof fn a_charge_is_granted_if_it_fits(b: &mut Budget, n: u64, verdict: Verdict)
    requires
        call_ensures(Budget::charge, (b, n), verdict),
    ensures
        ({
            let m = old(b)@;
            let fits = !m.stopped && m.used + n <= m.cap;
            &&& verdict == Verdict::Granted <==> m.cap == 0 || fits
            &&& verdict == Verdict::Stopped <==> m.cap != 0 && !m.stopped && m.used + n > m.cap
            &&& final(b)@.cap == m.cap
            &&& final(b)@.used == m.used + (if m.cap != 0 && fits {
                n as int
            } else {
                0
            })
            &&& final(b)@.stopped <==> m.stopped || m.cap != 0 && !fits
        }),
{
}

} // verus!
