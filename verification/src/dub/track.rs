//! The lines of the dub, one behind the other: where each is heard, and how many had to be hurried.

use crate::dub::slots;
use crate::dub::slots::Fit;
use crate::dub::slots::Slot;
use crate::project;
use crate::project::Segment;
use crate::text;
use vstd::prelude::*;

verus! {

/// A line that has its place.
#[derive(Clone, Copy, Debug, PartialEq, Eq, Structural)]
pub struct Placed {
    /// The line's number.
    pub line: usize,
    pub at: i64,
    pub length: i64,
}

/// The lines that have their place, and what was counted of them.
#[derive(Clone, Debug)]
pub struct Track {
    pub placed: Vec<Placed>,
    /// Where the last line ends.
    pub cursor: i64,
    /// Lines that were fitted.
    pub fitted: usize,
    /// Lines that do not fit even so.
    pub over: usize,
    /// Lines that were hurried to catch up.
    pub escalated: usize,
}

/// The lines follow one another.
pub open spec fn in_turn(ps: Seq<Placed>) -> bool {
    forall|i: int, j: int|
        0 <= i < j < ps.len() ==> (#[trigger] ps[i]).at + ps[i].length <= (#[trigger] ps[j]).at
}

impl Track {
    /// The lines follow one another, the last one ends at the cursor, and no more were counted than there
    /// are.
    pub open spec fn wf(self) -> bool {
        &&& in_turn(self.placed@)
        &&& self.placed@.len() == 0 ==> self.cursor == 0
        &&& self.placed@.len() > 0 ==> self.cursor == self.placed@.last().at
            + self.placed@.last().length
        &&& forall|i: int| 0 <= i < self.placed@.len() ==> (#[trigger] self.placed@[i]).length >= 0
        &&& self.over <= self.fitted <= self.placed@.len()
        &&& self.escalated <= self.placed@.len()
    }

    /// No line yet.
    pub fn new() -> (r: Track)
        ensures
            r.wf(),
            r.placed@.len() == 0,
            r.cursor == 0,
            r.fitted == 0,
            r.over == 0,
            r.escalated == 0,
    {
        Track { placed: Vec::new(), cursor: 0, fitted: 0, over: 0, escalated: 0 }
    }

    /// The slot of the line number `i`, the first one being where the lines so far end.
    pub fn slot(&self, segs: &Vec<Segment>, i: usize, total: i64, adapt: bool) -> (r: Slot)
        requires
            i < segs@.len(),
            project::all_timed(segs@),
            project::time_ok(total),
            project::time_ok(self.cursor),
        ensures
            (r.at as int, r.target as int, r.drift as int) == slots::slot_of(
                segs@,
                i as int,
                total as int,
                self.cursor as int,
                adapt,
            ),
            r.at >= self.cursor,
            r.at >= segs@[i as int].start,
            r.target >= slots::MIN_SLOT,
            project::time_ok(r.at),
    {
        assert(segs@[i as int].timed());
        slots::slot_for(segs, i, total, self.cursor, adapt)
    }

    fn put(&mut self, line: usize, at: i64, length: i64)
        requires
            old(self).wf(),
            at >= old(self).cursor,
            project::time_ok(at),
            0 <= length <= project::TIME_LIMIT,
        ensures
            final(self).wf(),
            final(self).placed@ == old(self).placed@.push(Placed { line, at, length }),
            final(self).cursor == at + length,
            final(self).fitted == old(self).fitted,
            final(self).over == old(self).over,
            final(self).escalated == old(self).escalated,
    {
        let ghost was = self.placed@;
        self.placed.push(Placed { line, at, length });
        self.cursor = at + length;
        proof {
            let now = self.placed@;
            let n = was.len() as int;
            assert forall|i: int, j: int| 0 <= i < j < now.len() implies (#[trigger] now[i]).at
                + now[i].length <= (#[trigger] now[j]).at by {
                assert(now[i] == was[i]);
                if j < n {
                    assert(now[j] == was[j]);
                } else if i < n - 1 {
                    assert(was[i].at + was[i].length <= was[n - 1].at);
                    assert(was[n - 1].length >= 0);
                    assert(was.last() == was[n - 1]);
                }
            }
            assert forall|i: int| 0 <= i < now.len() implies (#[trigger] now[i]).length >= 0 by {
                if i < n {
                    assert(now[i] == was[i]);
                }
            }
        }
    }

    /// The original of a line takes its place: at its start, or where the line before ends.
    pub fn keep(&mut self, line: usize, start: i64, length: i64)
        requires
            old(self).wf(),
            project::time_ok(start),
            project::time_ok(old(self).cursor),
            0 <= length <= project::TIME_LIMIT,
        ensures
            final(self).wf(),
            ({
                let at = if start > old(self).cursor {
                    start
                } else {
                    old(self).cursor
                };
                &&& final(self).placed@ == old(self).placed@.push(Placed { line, at, length })
                &&& final(self).cursor == at + length
            }),
            final(self).fitted == old(self).fitted,
            final(self).over == old(self).over,
            final(self).escalated == old(self).escalated,
    {
        let at: i64 = if start > self.cursor {
            start
        } else {
            self.cursor
        };
        self.put(line, at, length);
    }

    /// A take takes its place in its slot: `raw` is how long it was, `length` how long it is once it was
    /// fitted.
    pub fn lay(&mut self, line: usize, slot: &Slot, fit: &Fit, raw: i64, length: i64)
        requires
            old(self).wf(),
            slot.at >= old(self).cursor,
            project::time_ok(slot.at),
            0 <= length <= project::TIME_LIMIT,
            fit.over ==> raw > 0,
        ensures
            final(self).wf(),
            final(self).placed@ == old(self).placed@.push(Placed { line, at: slot.at, length }),
            final(self).cursor == slot.at + length,
            final(self).fitted == old(self).fitted + if raw > 0 {
                1int
            } else {
                0
            },
            final(self).over == old(self).over + if fit.over {
                1int
            } else {
                0
            },
            final(self).escalated == old(self).escalated + if fit.escalated {
                1int
            } else {
                0
            },
    {
        assert(self.placed.len() == self.placed@.len());
        self.put(line, slot.at, length);
        assert(self.placed.len() == old(self).placed.len() + 1);
        if raw > 0 {
            self.fitted += 1;
        }
        if fit.over {
            self.over += 1;
        }
        if fit.escalated {
            self.escalated += 1;
        }
    }

    /// A line that was spoken again keeps its place.
    pub fn replace(&mut self, k: usize, length: i64)
        requires
            k < old(self).placed@.len(),
        ensures
            final(self).placed@ == old(self).placed@.update(
                k as int,
                (Placed { length, ..old(self).placed@[k as int] }),
            ),
            final(self).cursor == old(self).cursor,
            final(self).fitted == old(self).fitted,
            final(self).over == old(self).over,
            final(self).escalated == old(self).escalated,
    {
        self.placed[k].length = length;
    }
}

/// The share of lines that do not fit, in whole percent, a half to the even one.
pub open spec fn percent(over: int, fitted: int) -> int {
    let whole = 100 * over / fitted;
    let rest = 100 * over % fitted;
    if 2 * rest > fitted || (2 * rest == fitted && whole % 2 == 1) {
        whole + 1
    } else {
        whole
    }
}

/// What is reported of the fitting.
pub open spec fn summary_of(over: int, fitted: int, escalated: int) -> Seq<char> {
    "fitting: "@ + text::decimal(over as nat) + "/"@ + text::decimal(fitted as nat)
        + " segment(s) above cap ("@ + text::decimal(percent(over, fitted) as nat) + "%)"@
        + if escalated > 0 {
        ", sync catch-up on "@ + text::decimal(escalated as nat)
    } else {
        ""@
    }
}

/// What is reported of the fitting; nothing where no line was fitted.
pub fn summary(t: &Track) -> (r: Option<String>)
    requires
        t.wf(),
    ensures
        (match r {
            Some(m) => Some(m@),
            None => None,
        }) == if t.fitted == 0 {
            None
        } else {
            Some(summary_of(t.over as int, t.fitted as int, t.escalated as int))
        },
{
    if t.fitted == 0 {
        return None;
    }
    let over: u128 = t.over as u128;
    let fitted: u128 = t.fitted as u128;
    let whole: u128 = 100 * over / fitted;
    let rest: u128 = 100 * over % fitted;
    let ghost o = over as int;
    let ghost f = fitted as int;
    assert(0 <= (100 * o) / f <= 100) by (nonlinear_arith)
        requires
            0 <= o <= f,
            f > 0,
    ;
    let pct: u128 = if 2 * rest > fitted || (2 * rest == fitted && whole % 2 == 1) {
        whole + 1
    } else {
        whole
    };
    let mut m = "fitting: ".to_owned();
    m.append(text::to_decimal(t.over as u64).as_str());
    m.append("/");
    m.append(text::to_decimal(t.fitted as u64).as_str());
    m.append(" segment(s) above cap (");
    m.append(text::to_decimal(pct as u64).as_str());
    m.append("%)");
    if t.escalated > 0 {
        let mut more = ", sync catch-up on ".to_owned();
        more.append(text::to_decimal(t.escalated as u64).as_str());
        m.append(more.as_str());
    } else {
        m.append("");
    }
    Some(m)
}

/// No two lines of the dub are heard at once.
pub proof fn law_one_line_at_a_time(t: Track, i: int, j: int)
    requires
        t.wf(),
        0 <= i < j < t.placed@.len(),
    ensures
        t.placed@[i].at + t.placed@[i].length <= t.placed@[j].at,
        t.placed@[j].at + t.placed@[j].length <= t.cursor,
    decreases t.placed@.len() - j,
{
    let n = t.placed@.len() as int;
    assert(t.placed@[i].at + t.placed@[i].length <= t.placed@[j].at);
    if j < n - 1 {
        assert(t.placed@[j].at + t.placed@[j].length <= t.placed@[n - 1].at);
        assert(t.placed@[n - 1].length >= 0);
    }
}

/// The share of lines above the cap is told in whole percent: the nearest, and of two equally near the even one.
pub proof fn law_share_is_rounded(over: int, fitted: int)
    requires
        0 <= over,
        0 < fitted,
    ensures
        -fitted <= 2 * (100 * over - percent(over, fitted) * fitted) <= fitted,
        2 * (100 * over - percent(over, fitted) * fitted) == fitted || 2 * (100 * over - percent(over, fitted) * fitted)
            == -fitted ==> percent(over, fitted) % 2 == 0,
{
    let n = 100 * over;
    let whole = n / fitted;
    let rest = n % fitted;
    assert(n == whole * fitted + rest && 0 <= rest < fitted) by (nonlinear_arith)
        requires
            whole == n / fitted,
            rest == n % fitted,
            fitted > 0,
    ;
    assert((whole + 1) * fitted == whole * fitted + fitted) by (nonlinear_arith);
}

} // verus!
