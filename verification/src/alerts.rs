//! The bounded alert log: detection results are appended, the oldest are
//! trimmed in a batch once a cap is exceeded, and operators read the most
//! recent ones first.

use vstd::prelude::*;

use crate::detector::AlertView;
use crate::detector::ThreatAlert;

verus! {

/// How one append changes the log: the alert goes on the end, and when the
/// count then exceeds the cap the oldest `batch` entries leave, from the
/// front only.
pub open spec fn push_alert(log: Seq<AlertView>, a: AlertView, cap: nat, batch: nat) -> Seq<
    AlertView,
> {
    let pushed = log.push(a);
    if pushed.len() > cap {
        pushed.skip(batch as int)
    } else {
        pushed
    }
}

/// The bounded alert log.
pub struct AlertLog {
    alerts: Vec<ThreatAlert>,
    cap: usize,
    batch: usize,
}

impl AlertLog {
    pub closed spec fn spec_alerts(self) -> Seq<AlertView> {
        Seq::new(self.alerts@.len(), |i: int| self.alerts@[i]@)
    }

    pub closed spec fn spec_cap(self) -> nat {
        self.cap as nat
    }

    pub closed spec fn spec_batch(self) -> nat {
        self.batch as nat
    }

    /// The log never exceeds its cap, and the batch fits the cap.
    pub closed spec fn wf(self) -> bool {
        &&& 1 <= self.batch <= self.cap
        &&& self.alerts@.len() <= self.cap
    }

    /// An empty log that holds at most `cap` alerts and trims the oldest
    /// `batch` when the cap is exceeded.
    pub fn new(cap: usize, batch: usize) -> (r: Self)
        requires
            1 <= batch <= cap,
        ensures
            r.wf(),
            r.spec_alerts() =~= Seq::<AlertView>::empty(),
            r.spec_cap() == cap,
            r.spec_batch() == batch,
    {
        AlertLog { alerts: Vec::new(), cap, batch }
    }

    pub fn len(&self) -> (r: usize)
        ensures
            r == self.spec_alerts().len(),
    {
        self.alerts.len()
    }

    /// Appends one alert, trimming the oldest batch when the cap is
    /// exceeded.
    #[verifier::loop_isolation(false)]
    pub fn push(&mut self, alert: ThreatAlert)
        requires
            old(self).wf(),
        ensures
            final(self).wf(),
            final(self).spec_cap() == old(self).spec_cap(),
            final(self).spec_batch() == old(self).spec_batch(),
            final(self).spec_alerts() =~= push_alert(
                old(self).spec_alerts(),
                alert@,
                old(self).spec_cap(),
                old(self).spec_batch(),
            ),
    {
        let ghost pushed = old(self).spec_alerts().push(alert@);
        self.alerts.push(alert);
        proof {
            assert(self.spec_alerts() =~= pushed);
        }
        if self.alerts.len() > self.cap {
            let mut k: usize = 0;
            while k < self.batch
                invariant
                    k <= self.batch,
                    self.cap == old(self).cap,
                    self.batch == old(self).batch,
                    pushed.len() > self.cap as nat,
                    self.alerts@.len() == pushed.len() - k,
                    self.spec_alerts() =~= pushed.skip(k as int),
                decreases self.batch - k,
            {
                let ghost before = self.spec_alerts();
                self.alerts.remove(0);
                proof {
                    assert(self.spec_alerts() =~= before.skip(1));
                    assert(before.skip(1) =~= pushed.skip(k + 1));
                }
                k = k + 1;
            }
        }
    }

    /// The most recent alerts, newest first, at most `limit` of them.
    #[verifier::loop_isolation(false)]
    pub fn recent(&self, limit: usize) -> (r: Vec<ThreatAlert>)
        ensures
            r@.len() == if limit < self.spec_alerts().len() {
                limit as int
            } else {
                self.spec_alerts().len() as int
            },
            forall|i: int|
                0 <= i < r@.len() ==> (#[trigger] r@[i])@ == self.spec_alerts()[self.spec_alerts().len()
                    - 1 - i],
    {
        let n = self.alerts.len();
        let take = if limit < n {
            limit
        } else {
            n
        };
        let mut r: Vec<ThreatAlert> = Vec::new();
        let mut i: usize = 0;
        while i < take
            invariant
                i <= take,
                take <= n,
                n == self.alerts@.len(),
                r@.len() == i,
                forall|j: int|
                    0 <= j < i ==> (#[trigger] r@[j])@ == self.spec_alerts()[n - 1 - j],
            decreases take - i,
        {
            let a = self.alerts[n - 1 - i].clone();
            proof {
                assert(a@ == self.spec_alerts()[n - 1 - i as int]);
            }
            r.push(a);
            i = i + 1;
        }
        r
    }
}

} // verus!
