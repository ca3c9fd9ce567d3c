//! The cycle simulator: combinational settling to a fixed point, register
//! capture on rising clock edges, and a trace of every committed change.
use crate::bits::BitVec;
use crate::design::{all_sourced, BuildError, Design};
use crate::expr::{eval, eval_expr, width_of, Expr};
use vstd::prelude::*;

verus! {

/// Why a simulation step or a driver call failed.
#[derive(Debug, Clone, Copy, PartialEq, Eq, Structural)]
pub enum SimError {
    /// The combinational logic did not reach a fixed point within the
    /// iteration cap; the signal with this index still changed in the last pass.
    NotConverged(usize),
    /// A value does not have the width of the signal it is meant for, or an
    /// expression met operands of different widths.
    WidthMismatch,
    /// No signal has this index.
    UnknownSignal,
    /// The design failed its build-time check.
    Build(BuildError),
}

/// A running simulation of a checked design.
pub struct Simulation {
    design: Design,
    values: Vec<BitVec>,
    committed: Vec<BitVec>,
    time: u64,
    trace: Vec<TraceEvent>,
    max_iterations: usize,
}

/// One committed change: at `time`, signal `signal` took the value `value`.
#[derive(Debug, Clone, Copy, PartialEq, Eq, Structural)]
pub struct TraceEvent {
    pub time: u64,
    pub signal: usize,
    pub value: u64,
}

/// The values after running the first `k` combinational units in order, each
/// seeing the results of those before it.
pub open spec fn comb_pass(d: Design, vals: Seq<BitVec>, k: int) -> Option<Seq<BitVec>>
    decreases k,
{
    if k <= 0 {
        Some(vals)
    } else {
        match comb_pass(d, vals, k - 1) {
            None => None,
            Some(prev) => {
                let u = d.units@[k - 1];
                if u.clock is Some || u.target >= prev.len() {
                    Some(prev)
                } else {
                    match eval(u.body, prev) {
                        Some(v) => Some(prev.update(u.target as int, v)),
                        None => None,
                    }
                }
            },
        }
    }
}

/// One pass over all combinational units.
pub open spec fn full_pass(d: Design, vals: Seq<BitVec>) -> Option<Seq<BitVec>> {
    comb_pass(d, vals, d.units@.len() as int)
}

/// Repeats passes until one changes nothing; fails after `fuel` passes that
/// still changed something.
pub open spec fn settle(d: Design, vals: Seq<BitVec>, fuel: nat) -> Result<Seq<BitVec>, SimError>
    decreases fuel,
{
    match full_pass(d, vals) {
        None => Err(SimError::WidthMismatch),
        Some(p) => if p == vals {
            Ok(vals)
        } else if fuel == 0 {
            Err(SimError::NotConverged(first_diff(p, vals, 0) as usize))
        } else {
            settle(d, p, (fuel - 1) as nat)
        },
    }
}

/// The first index from `i` on where `a` and `b` differ, or where one of them ends.
pub open spec fn first_diff(a: Seq<BitVec>, b: Seq<BitVec>, i: int) -> int
    decreases a.len() - i,
{
    if i < 0 || i >= a.len() || i >= b.len() || a[i] != b[i] {
        i
    } else {
        first_diff(a, b, i + 1)
    }
}

fn diff_index(a: &Vec<BitVec>, b: &Vec<BitVec>) -> (r: usize)
    ensures
        r == first_diff(a@, b@, 0),
{
    let mut i: usize = 0;
    while i < a.len() && i < b.len() && a[i] == b[i]
        invariant
            i <= a@.len(),
            first_diff(a@, b@, 0) == first_diff(a@, b@, i as int),
        decreases a@.len() - i,
    {
        i = i + 1;
    }
    i
}

/// The one-bit clock `c` rose between the last committed values and `now`.
pub open spec fn rising(before: Seq<BitVec>, now: Seq<BitVec>, c: int) -> bool {
    before[c].value == 0 && now[c].value == 1
}

/// The values after the first `k` registers whose clock rose took their input,
/// every input read from the settled values `now`.
pub open spec fn latch(d: Design, before: Seq<BitVec>, now: Seq<BitVec>, k: int) -> Option<Seq<BitVec>>
    decreases k,
{
    if k <= 0 {
        Some(now)
    } else {
        match latch(d, before, now, k - 1) {
            None => None,
            Some(acc) => {
                let u = d.units@[k - 1];
                match u.clock {
                    Some(c) => if c < before.len() && c < now.len() && u.target < acc.len() && rising(before, now, c as int) {
                        match eval(u.body, now) {
                            Some(v) => Some(acc.update(u.target as int, v)),
                            None => None,
                        }
                    } else {
                        Some(acc)
                    },
                    None => Some(acc),
                }
            },
        }
    }
}

/// One clock cycle: settle, let the registers whose clock rose capture, settle again.
pub open spec fn cycle(d: Design, before: Seq<BitVec>, vals: Seq<BitVec>, fuel: nat) -> Result<Seq<BitVec>, SimError> {
    match settle(d, vals, fuel) {
        Err(e) => Err(e),
        Ok(s) => match latch(d, before, s, d.units@.len() as int) {
            None => Err(SimError::WidthMismatch),
            Some(l) => settle(d, l, fuel),
        },
    }
}

/// The trace events for the first `k` signals whose value differs between
/// `before` and `after`, in index order.
pub open spec fn changes(before: Seq<BitVec>, after: Seq<BitVec>, time: u64, k: int) -> Seq<TraceEvent>
    decreases k,
{
    if k <= 0 {
        Seq::empty()
    } else {
        let rest = changes(before, after, time, k - 1);
        if before[k - 1] != after[k - 1] {
            rest.push(TraceEvent { time, signal: (k - 1) as usize, value: after[k - 1].value })
        } else {
            rest
        }
    }
}

fn copy_values(v: &Vec<BitVec>) -> (r: Vec<BitVec>)
    ensures
        r@ == v@,
{
    let mut r: Vec<BitVec> = Vec::new();
    let mut i: usize = 0;
    while i < v.len()
        invariant
            i <= v@.len(),
            r@ == v@.subrange(0, i as int),
        decreases v@.len() - i,
    {
        r.push(v[i]);
        i = i + 1;
        proof {
            assert(r@ =~= v@.subrange(0, i as int));
        }
    }
    proof {
        assert(r@ =~= v@);
    }
    r
}

fn same_values(a: &Vec<BitVec>, b: &Vec<BitVec>) -> (r: bool)
    ensures
        r == (a@ == b@),
{
    if a.len() != b.len() {
        return false;
    }
    let mut i: usize = 0;
    while i < a.len()
        invariant
            a@.len() == b@.len(),
            i <= a@.len(),
            forall|k: int| 0 <= k < i ==> a@[k] == b@[k],
        decreases a@.len() - i,
    {
        if a[i] != b[i] {
            return false;
        }
        i = i + 1;
    }
    proof {
        assert(a@ =~= b@);
    }
    true
}

/// One pass over all combinational units.
fn run_pass(d: &Design, vals: &Vec<BitVec>) -> (r: Option<Vec<BitVec>>)
    ensures
        r is Some <==> full_pass(*d, vals@) is Some,
        r is Some ==> full_pass(*d, vals@) == Some(r->Some_0@),
{
    let ghost orig = vals@;
    let mut cur = copy_values(vals);
    let m = d.units.len();
    let mut k: usize = 0;
    while k < m
        invariant
            m == d.units@.len(),
            k <= m,
            orig == vals@,
            comb_pass(*d, orig, k as int) == Some(cur@),
        decreases m - k,
    {
        let u = &d.units[k];
        if u.clock.is_none() && u.target < cur.len() {
            match eval_expr(&u.body, &cur) {
                Some(v) => {
                    cur.set(u.target, v);
                },
                None => {
                    proof {
                        assert(comb_pass(*d, orig, k as int + 1) is None);
                        lemma_pass_stays_failed(*d, orig, k as int + 1, m as int);
                    }
                    return None;
                },
            }
        }
        k = k + 1;
    }
    Some(cur)
}

proof fn lemma_pass_stays_failed(d: Design, vals: Seq<BitVec>, k: int, m: int)
    requires
        0 <= k <= m,
        comb_pass(d, vals, k) is None,
    ensures
        comb_pass(d, vals, m) is None,
    decreases m - k,
{
    if k < m {
        lemma_pass_stays_failed(d, vals, k + 1, m);
    }
}

/// Settles the combinational logic, with at most `fuel` passes that change something.
fn run_settle(d: &Design, vals: Vec<BitVec>, fuel: usize) -> (r: Result<Vec<BitVec>, SimError>)
    ensures
        r is Ok <==> settle(*d, vals@, fuel as nat) is Ok,
        r is Ok ==> settle(*d, vals@, fuel as nat) == Ok::<Seq<BitVec>, SimError>(r->Ok_0@),
        r is Err ==> settle(*d, vals@, fuel as nat) == Err::<Seq<BitVec>, SimError>(r->Err_0),
{
    let ghost orig = vals@;
    let mut cur = vals;
    let mut k: usize = 0;
    loop
        invariant
            k <= fuel,
            orig == vals@,
            settle(*d, orig, fuel as nat) == settle(*d, cur@, (fuel - k) as nat),
        decreases fuel - k,
    {
        let p = match run_pass(d, &cur) {
            Some(p) => p,
            None => return Err(SimError::WidthMismatch),
        };
        if same_values(&p, &cur) {
            return Ok(cur);
        }
        if k == fuel {
            return Err(SimError::NotConverged(diff_index(&p, &cur)));
        }
        cur = p;
        k = k + 1;
    }
}

/// Lets every register whose clock rose capture its input, read from `now`.
fn run_latch(d: &Design, before: &Vec<BitVec>, now: &Vec<BitVec>) -> (r: Option<Vec<BitVec>>)
    ensures
        r is Some <==> latch(*d, before@, now@, d.units@.len() as int) is Some,
        r is Some ==> latch(*d, before@, now@, d.units@.len() as int) == Some(r->Some_0@),
{
    let mut acc = copy_values(now);
    let m = d.units.len();
    let mut k: usize = 0;
    while k < m
        invariant
            m == d.units@.len(),
            k <= m,
            latch(*d, before@, now@, k as int) == Some(acc@),
        decreases m - k,
    {
        let u = &d.units[k];
        match u.clock {
            Some(c) => {
                if c < before.len() && c < now.len() && u.target < acc.len() && before[c].value == 0
                    && now[c].value == 1 {
                    match eval_expr(&u.body, now) {
                        Some(v) => {
                            acc.set(u.target, v);
                        },
                        None => {
                            proof {
                                assert(latch(*d, before@, now@, k as int + 1) is None);
                                lemma_latch_stays_failed(*d, before@, now@, k as int + 1, m as int);
                            }
                            return None;
                        },
                    }
                }
            },
            None => {},
        }
        k = k + 1;
    }
    Some(acc)
}

proof fn lemma_latch_stays_failed(d: Design, before: Seq<BitVec>, now: Seq<BitVec>, k: int, m: int)
    requires
        0 <= k <= m,
        latch(d, before, now, k) is None,
    ensures
        latch(d, before, now, m) is None,
    decreases m - k,
{
    if k < m {
        lemma_latch_stays_failed(d, before, now, k + 1, m);
    }
}

/// Every signal at zero, at its declared width.
pub open spec fn zeros(d: Design) -> Seq<BitVec> {
    Seq::new(d.signals@.len(), |i: int| BitVec { width: d.signals@[i].width, value: 0 })
}

fn zero_values(d: &Design) -> (r: Vec<BitVec>)
    ensures
        r@ == zeros(*d),
{
    let mut r: Vec<BitVec> = Vec::new();
    let n = d.signals.len();
    let mut i: usize = 0;
    while i < n
        invariant
            n == d.signals@.len(),
            i <= n,
            r@ == zeros(*d).subrange(0, i as int),
        decreases n - i,
    {
        r.push(BitVec { width: d.signals[i].width, value: 0 });
        i = i + 1;
        proof {
            assert(r@ =~= zeros(*d).subrange(0, i as int));
        }
    }
    proof {
        assert(r@ =~= zeros(*d));
    }
    r
}

/// Appends the trace events for every signal that changed.
fn record_changes(trace: &mut Vec<TraceEvent>, before: &Vec<BitVec>, after: &Vec<BitVec>, time: u64)
    requires
        before@.len() == after@.len(),
    ensures
        final(trace)@ == old(trace)@ + changes(before@, after@, time, before@.len() as int),
{
    let n = before.len();
    let mut i: usize = 0;
    while i < n
        invariant
            n == before@.len() == after@.len(),
            i <= n,
            trace@ == old(trace)@ + changes(before@, after@, time, i as int),
        decreases n - i,
    {
        if before[i] != after[i] {
            trace.push(TraceEvent { time, signal: i, value: after[i].value });
            proof {
                assert(trace@ =~= old(trace)@ + changes(before@, after@, time, i + 1));
            }
        }
        i = i + 1;
    }
}

impl Simulation {
    pub closed spec fn design_spec(&self) -> Design {
        self.design
    }

    pub closed spec fn values_spec(&self) -> Seq<BitVec> {
        self.values@
    }

    pub closed spec fn committed_spec(&self) -> Seq<BitVec> {
        self.committed@
    }

    pub closed spec fn time_spec(&self) -> u64 {
        self.time
    }

    pub closed spec fn trace_spec(&self) -> Seq<TraceEvent> {
        self.trace@
    }

    pub closed spec fn max_iterations_spec(&self) -> usize {
        self.max_iterations
    }

    /// A checked design, one value per signal.
    pub open spec fn wf(&self) -> bool {
        &&& self.design_spec().valid()
        &&& typed_values(self.design_spec(), self.values_spec())
        &&& typed_values(self.design_spec(), self.committed_spec())
    }

    /// Starts simulating `design` with every signal at zero, at time zero and
    /// with an empty trace; a design that fails its build-time check is refused.
    /// Each settle phase may take up to `max_iterations` passes that change something.
    pub fn new(design: Design, max_iterations: usize) -> (r: Result<Simulation, SimError>)
        ensures
            design.valid() <==> r is Ok,
            !design.valid() ==> r is Err && r->Err_0 is Build,
            r is Ok ==> {
                let s = r->Ok_0;
                &&& s.wf()
                &&& s.design_spec() == design
                &&& s.values_spec() == zeros(design)
                &&& s.committed_spec() == zeros(design)
                &&& s.time_spec() == 0
                &&& s.trace_spec() == Seq::<TraceEvent>::empty()
                &&& s.max_iterations_spec() == max_iterations
            },
    {
        match design.connect_all() {
            Ok(()) => {},
            Err(e) => return Err(SimError::Build(e)),
        }
        let values = zero_values(&design);
        let committed = zero_values(&design);
        proof {
            assert forall|k: int| 0 <= k < values@.len() implies (#[trigger] values@[k]).wf() && values@[k].width
                == design.signals@[k].width by {
                crate::bits::lemma_modulus_bounds(design.signals@[k].width as nat);
            }
        }
        Ok(Simulation { design, values, committed, time: 0, trace: Vec::new(), max_iterations })
    }

    /// Forces the current value of signal `sig` ahead of the next cycle.
    pub fn inject(&mut self, sig: usize, value: BitVec) -> (r: Result<(), SimError>)
        requires
            old(self).wf(),
        ensures
            final(self).wf(),
            sig >= old(self).values_spec().len() ==> r == Err::<(), SimError>(SimError::UnknownSignal),
            sig < old(self).values_spec().len() && !(value.wf() && value.width == old(self).design_spec().signals@[sig as int].width) ==> r == Err::<(), SimError>(SimError::WidthMismatch),
            r is Err ==> *final(self) == *old(self),
            r is Ok ==> sig < old(self).values_spec().len() && value.wf() && value.width == old(self).design_spec().signals@[sig as int].width,
            r is Ok ==> final(self).values_spec() == old(self).values_spec().update(sig as int, value)
                && final(self).design_spec() == old(self).design_spec()
                && final(self).committed_spec() == old(self).committed_spec()
                && final(self).time_spec() == old(self).time_spec()
                && final(self).trace_spec() == old(self).trace_spec()
                && final(self).max_iterations_spec() == old(self).max_iterations_spec(),
    {
        if sig >= self.values.len() {
            return Err(SimError::UnknownSignal);
        }
        if !value.wf_check() || value.width != self.design.signals[sig].width {
            return Err(SimError::WidthMismatch);
        }
        self.values.set(sig, value);
        Ok(())
    }

    /// The current value of signal `sig`.
    pub fn read(&self, sig: usize) -> (r: Result<BitVec, SimError>)
        ensures
            sig >= self.values_spec().len() ==> r == Err::<BitVec, SimError>(SimError::UnknownSignal),
            sig < self.values_spec().len() ==> r == Ok::<BitVec, SimError>(self.values_spec()[sig as int]),
    {
        if sig >= self.values.len() {
            return Err(SimError::UnknownSignal);
        }
        Ok(self.values[sig])
    }

    /// The simulated time: the number of completed cycles.
    pub fn time(&self) -> (r: u64)
        ensures
            r == self.time_spec(),
    {
        self.time
    }

    /// The trace so far.
    pub fn trace(&self) -> (r: &Vec<TraceEvent>)
        ensures
            r@ == self.trace_spec(),
    {
        &self.trace
    }

    /// Ends the simulation and hands back its trace.
    pub fn finish(self) -> (r: Vec<TraceEvent>)
        ensures
            r@ == self.trace_spec(),
    {
        self.trace
    }

    /// Runs one clock cycle: settles the combinational logic, lets every
    /// register whose clock rose since the last cycle take its input, settles
    /// again, and commits. Every signal whose committed value changed gets a
    /// trace event stamped with the cycle's time, in signal order.
    pub fn step_cycle(&mut self) -> (r: Result<(), SimError>)
        requires
            old(self).wf(),
            old(self).time_spec() < u64::MAX,
        ensures
            final(self).wf(),
            final(self).design_spec() == old(self).design_spec(),
            final(self).max_iterations_spec() == old(self).max_iterations_spec(),
            ({
                let c = cycle(
                    old(self).design_spec(),
                    old(self).committed_spec(),
                    old(self).values_spec(),
                    old(self).max_iterations_spec() as nat,
                );
                match c {
                    Err(e) => r == Err::<(), SimError>(e) && *final(self) == *old(self),
                    Ok(v) => r == Ok::<(), SimError>(()) && final(self).values_spec() == v
                        && final(self).committed_spec() == v
                        && final(self).time_spec() == old(self).time_spec() + 1
                        && final(self).trace_spec() == old(self).trace_spec() + changes(
                        old(self).committed_spec(),
                        v,
                        old(self).time_spec(),
                        v.len() as int,
                    ),
                }
            }),
    {
        let first = match run_settle(&self.design, copy_values(&self.values), self.max_iterations) {
            Ok(v) => v,
            Err(e) => return Err(e),
        };
        let latched = match run_latch(&self.design, &self.committed, &first) {
            Some(v) => v,
            None => return Err(SimError::WidthMismatch),
        };
        let settled = match run_settle(&self.design, latched, self.max_iterations) {
            Ok(v) => v,
            Err(e) => return Err(e),
        };
        proof {
            lemma_cycle_keeps_len(self.design, self.committed@, self.values@, self.max_iterations as nat);
            lemma_cycle_typed(self.design, self.committed@, self.values@, self.max_iterations as nat);
        }
        record_changes(&mut self.trace, &self.committed, &settled, self.time);
        self.committed = copy_values(&settled);
        self.values = settled;
        self.time = self.time + 1;
        Ok(())
    }
}

proof fn lemma_pass_keeps_len(d: Design, vals: Seq<BitVec>, k: int)
    requires
        comb_pass(d, vals, k) is Some,
    ensures
        comb_pass(d, vals, k)->Some_0.len() == vals.len(),
    decreases k,
{
    if k > 0 {
        lemma_pass_keeps_len(d, vals, k - 1);
    }
}

proof fn lemma_settle_keeps_len(d: Design, vals: Seq<BitVec>, fuel: nat)
    requires
        settle(d, vals, fuel) is Ok,
    ensures
        settle(d, vals, fuel)->Ok_0.len() == vals.len(),
    decreases fuel,
{
    lemma_pass_keeps_len(d, vals, d.units@.len() as int);
    if full_pass(d, vals)->Some_0 != vals && fuel > 0 {
        lemma_settle_keeps_len(d, full_pass(d, vals)->Some_0, (fuel - 1) as nat);
    }
}

proof fn lemma_latch_keeps_len(d: Design, before: Seq<BitVec>, now: Seq<BitVec>, k: int)
    requires
        latch(d, before, now, k) is Some,
    ensures
        latch(d, before, now, k)->Some_0.len() == now.len(),
    decreases k,
{
    if k > 0 {
        lemma_latch_keeps_len(d, before, now, k - 1);
    }
}

proof fn lemma_cycle_keeps_len(d: Design, before: Seq<BitVec>, vals: Seq<BitVec>, fuel: nat)
    requires
        cycle(d, before, vals, fuel) is Ok,
    ensures
        cycle(d, before, vals, fuel)->Ok_0.len() == vals.len(),
{
    lemma_settle_keeps_len(d, vals, fuel);
    let s = settle(d, vals, fuel)->Ok_0;
    lemma_latch_keeps_len(d, before, s, d.units@.len() as int);
    lemma_settle_keeps_len(d, latch(d, before, s, d.units@.len() as int)->Some_0, fuel);
}

/// No combinational unit drives signal `t`.
pub open spec fn no_comb_driver(d: Design, t: int) -> bool {
    forall|u: int| 0 <= u < d.units@.len() && #[trigger] d.units@[u].target == t ==> d.units@[u].clock is Some
}

proof fn lemma_pass_untouched(d: Design, vals: Seq<BitVec>, j: int, k: int, t: int)
    requires
        0 <= j <= k <= d.units@.len(),
        0 <= t < vals.len(),
        comb_pass(d, vals, k) is Some,
        forall|u: int| j <= u < k && #[trigger] d.units@[u].target == t ==> d.units@[u].clock is Some,
    ensures
        comb_pass(d, vals, j) is Some,
        comb_pass(d, vals, k)->Some_0[t] == comb_pass(d, vals, j)->Some_0[t],
    decreases k - j,
{
    if j < k {
        assert(comb_pass(d, vals, k - 1) is Some);
        lemma_pass_keeps_len(d, vals, k - 1);
        lemma_pass_untouched(d, vals, j, k - 1, t);
    }
}

proof fn lemma_settle_untouched(d: Design, vals: Seq<BitVec>, fuel: nat, t: int)
    requires
        0 <= t < vals.len(),
        settle(d, vals, fuel) is Ok,
        no_comb_driver(d, t),
    ensures
        settle(d, vals, fuel)->Ok_0[t] == vals[t],
    decreases fuel,
{
    lemma_pass_untouched(d, vals, 0, d.units@.len() as int, t);
    let p = full_pass(d, vals)->Some_0;
    if p != vals && fuel > 0 {
        lemma_pass_keeps_len(d, vals, d.units@.len() as int);
        lemma_settle_untouched(d, p, (fuel - 1) as nat, t);
    }
}

proof fn lemma_latch_target(d: Design, before: Seq<BitVec>, now: Seq<BitVec>, k: int, u: int)
    requires
        d.valid(),
        0 <= u < d.units@.len(),
        0 <= k <= d.units@.len(),
        d.units@[u].clock is Some,
        d.units@[u].target < now.len(),
        d.units@[u].clock->Some_0 < before.len(),
        d.units@[u].clock->Some_0 < now.len(),
        latch(d, before, now, k) is Some,
    ensures
        latch(d, before, now, k)->Some_0.len() == now.len(),
        latch(d, before, now, k)->Some_0[d.units@[u].target as int] == if u < k && rising(
            before,
            now,
            d.units@[u].clock->Some_0 as int,
        ) {
            eval(d.units@[u].body, now)->Some_0
        } else {
            now[d.units@[u].target as int]
        },
    decreases k,
{
    if k > 0 {
        assert(latch(d, before, now, k - 1) is Some);
        lemma_latch_target(d, before, now, k - 1, u);
        if k - 1 != u {
            assert(!d.conflict(u, k - 1));
        }
    }
}

/// A combinational unit that drives a signal with its own complement has no
/// fixed point: every pass flips that signal, so settling never yields values;
/// it fails for want of convergence, and on values that fit the design that
/// is the only failure (otherwise an operand width error may come first).
pub proof fn lemma_self_inverting_loop_never_settles(d: Design, vals: Seq<BitVec>, fuel: nat, u: int)
    requires
        d.valid(),
        vals.len() == d.signals@.len(),
        0 <= u < d.units@.len(),
        d.units@[u].clock is None,
        d.units@[u].body == Expr::Not(Box::new(Expr::Sig(d.units@[u].target))),
    ensures
        settle(d, vals, fuel) is Err,
        settle(d, vals, fuel)->Err_0 is NotConverged || settle(d, vals, fuel)->Err_0 == SimError::WidthMismatch,
        typed_values(d, vals) ==> settle(d, vals, fuel)->Err_0 is NotConverged,
    decreases fuel,
{
    let t = d.units@[u].target as int;
    let m = d.units@.len() as int;
    assert(d.unit_well_typed(u));
    if typed_values(d, vals) {
        lemma_pass_typed(d, vals, m);
    }
    if full_pass(d, vals) is Some {
        let p = full_pass(d, vals)->Some_0;
        assert forall|v: int| u + 1 <= v < m && #[trigger] d.units@[v].target == t implies d.units@[v].clock is Some by {
            assert(!d.conflict(u, v));
        }
        lemma_pass_untouched(d, vals, u + 1, m, t);
        assert(comb_pass(d, vals, u + 1) is Some);
        assert forall|v: int| 0 <= v < u && #[trigger] d.units@[v].target == t implies d.units@[v].clock is Some by {
            assert(!d.conflict(u, v));
        }
        lemma_pass_untouched(d, vals, 0, u, t);
        lemma_pass_keeps_len(d, vals, u);
        let prev = comb_pass(d, vals, u)->Some_0;
        let x = prev[t];
        assert(x == vals[t]);
        reveal_with_fuel(eval, 2);
        let e = eval(d.units@[u].body, prev);
        assert(comb_pass(d, vals, u + 1) == Some(prev.update(t, e->Some_0)));
        assert(x.wf());
        assert(comb_pass(d, vals, u + 1)->Some_0[t] == e->Some_0);
        vstd::arithmetic::power2::lemma_pow2_unfold(x.width as nat);
        crate::bits::lemma_modulus_bounds(x.width as nat);
        assert(p[t] == e->Some_0);
        assert(p[t].value != vals[t].value);
        if fuel > 0 {
            lemma_pass_keeps_len(d, vals, m);
            lemma_self_inverting_loop_never_settles(d, p, (fuel - 1) as nat, u);
        }
    }
}

/// Between rising edges a register holds: when its clock did not rise, a
/// cycle leaves the register's value as it was, whatever else changed.
pub proof fn lemma_register_holds(d: Design, before: Seq<BitVec>, vals: Seq<BitVec>, fuel: nat, u: int)
    requires
        d.valid(),
        before.len() == d.signals@.len(),
        vals.len() == d.signals@.len(),
        0 <= u < d.units@.len(),
        d.units@[u].clock is Some,
        cycle(d, before, vals, fuel) is Ok,
        !rising(before, settle(d, vals, fuel)->Ok_0, d.units@[u].clock->Some_0 as int),
    ensures
        cycle(d, before, vals, fuel)->Ok_0[d.units@[u].target as int] == vals[d.units@[u].target as int],
{
    lemma_register_target(d, before, vals, fuel, u);
}

/// On a rising edge a register takes its input: after the cycle it holds the
/// value of its body on the values settled before the edge.
pub proof fn lemma_register_captures(d: Design, before: Seq<BitVec>, vals: Seq<BitVec>, fuel: nat, u: int)
    requires
        d.valid(),
        before.len() == d.signals@.len(),
        vals.len() == d.signals@.len(),
        0 <= u < d.units@.len(),
        d.units@[u].clock is Some,
        cycle(d, before, vals, fuel) is Ok,
        rising(before, settle(d, vals, fuel)->Ok_0, d.units@[u].clock->Some_0 as int),
    ensures
        cycle(d, before, vals, fuel)->Ok_0[d.units@[u].target as int] == eval(
            d.units@[u].body,
            settle(d, vals, fuel)->Ok_0,
        )->Some_0,
{
    lemma_register_target(d, before, vals, fuel, u);
}

proof fn lemma_register_target(d: Design, before: Seq<BitVec>, vals: Seq<BitVec>, fuel: nat, u: int)
    requires
        d.valid(),
        before.len() == d.signals@.len(),
        vals.len() == d.signals@.len(),
        0 <= u < d.units@.len(),
        d.units@[u].clock is Some,
        cycle(d, before, vals, fuel) is Ok,
    ensures
        ({
            let s = settle(d, vals, fuel)->Ok_0;
            let t = d.units@[u].target as int;
            cycle(d, before, vals, fuel)->Ok_0[t] == if rising(before, s, d.units@[u].clock->Some_0 as int) {
                eval(d.units@[u].body, s)->Some_0
            } else {
                vals[t]
            }
        }),
{
    let t = d.units@[u].target as int;
    let m = d.units@.len() as int;
    assert(d.unit_well_typed(u));
    assert forall|v: int| 0 <= v < m && #[trigger] d.units@[v].target == t implies d.units@[v].clock is Some by {
        if v != u {
            assert(!d.conflict(u, v));
        }
    }
    lemma_settle_keeps_len(d, vals, fuel);
    lemma_settle_untouched(d, vals, fuel, t);
    let s = settle(d, vals, fuel)->Ok_0;
    lemma_latch_target(d, before, s, m, u);
    let l = latch(d, before, s, m)->Some_0;
    lemma_settle_untouched(d, l, fuel, t);
}

/// A cycle is a function of the design, the committed values, the current
/// values and the iteration cap alone: two simulations that agree on these
/// commit the same values and append the same trace events.
pub proof fn lemma_cycle_deterministic(
    d: Design,
    before1: Seq<BitVec>,
    vals1: Seq<BitVec>,
    before2: Seq<BitVec>,
    vals2: Seq<BitVec>,
    fuel: nat,
    time: u64,
)
    requires
        before1 == before2,
        vals1 == vals2,
    ensures
        cycle(d, before1, vals1, fuel) == cycle(d, before2, vals2, fuel),
        cycle(d, before1, vals1, fuel) is Ok ==> changes(
            before1,
            cycle(d, before1, vals1, fuel)->Ok_0,
            time,
            vals1.len() as int,
        ) == changes(before2, cycle(d, before2, vals2, fuel)->Ok_0, time, vals2.len() as int),
{
}

} // verus!

verus! {

/// Values that fit the design: one per signal, each well formed and of the
/// signal's declared width.
pub open spec fn typed_values(d: Design, vals: Seq<BitVec>) -> bool {
    &&& vals.len() == d.signals@.len()
    &&& forall|k: int| 0 <= k < vals.len() ==> (#[trigger] vals[k]).wf() && vals[k].width == d.signals@[k].width
}

proof fn lemma_eval_typed(e: Expr, vals: Seq<BitVec>, w: Seq<u32>)
    requires
        width_of(e, w) is Some,
        vals.len() == w.len(),
        forall|k: int| 0 <= k < vals.len() ==> (#[trigger] vals[k]).wf() && vals[k].width == w[k],
    ensures
        eval(e, vals) is Some,
        eval(e, vals)->Some_0.wf(),
        eval(e, vals)->Some_0.width == width_of(e, w)->Some_0,
    decreases e,
{
    match e {
        Expr::Sig(i) => {},
        Expr::Lit(v) => {},
        Expr::Not(a) => {
            lemma_eval_typed(*a, vals, w);
            crate::bits::lemma_modulus_bounds(eval(*a, vals)->Some_0.width as nat);
        },
        Expr::Bin(op, a, b) => {
            lemma_eval_typed(*a, vals, w);
            lemma_eval_typed(*b, vals, w);
            let x = eval(*a, vals)->Some_0;
            let y = eval(*b, vals)->Some_0;
            crate::bits::lemma_modulus_bounds(x.width as nat);
            crate::bits::lemma_bitwise_in_range(x.value, y.value, x.width as nat);
            crate::bits::lemma_add_wraps(x, y);
            let md = crate::bits::modulus(x.width as nat) as int;
            vstd::arithmetic::div_mod::lemma_mod_bound(x.value + md - y.value, md);
        },
        Expr::Cmp(op, a, b) => {
            lemma_eval_typed(*a, vals, w);
            lemma_eval_typed(*b, vals, w);
            crate::bits::lemma_modulus_bounds(1);
        },
        Expr::Mux(c, a, b) => {
            lemma_eval_typed(*c, vals, w);
            lemma_eval_typed(*a, vals, w);
            lemma_eval_typed(*b, vals, w);
        },
    }
}

proof fn lemma_eval_agree(e: Expr, v1: Seq<BitVec>, v2: Seq<BitVec>, mask: Seq<bool>)
    requires
        all_sourced(e, mask),
        v1.len() == mask.len(),
        v2.len() == mask.len(),
        forall|k: int| 0 <= k < mask.len() && #[trigger] mask[k] ==> v1[k] == v2[k],
    ensures
        eval(e, v1) == eval(e, v2),
    decreases e,
{
    match e {
        Expr::Sig(i) => {
            assert(mask[i as int]);
        },
        Expr::Lit(_) => {},
        Expr::Not(a) => lemma_eval_agree(*a, v1, v2, mask),
        Expr::Bin(_, a, b) => {
            lemma_eval_agree(*a, v1, v2, mask);
            lemma_eval_agree(*b, v1, v2, mask);
        },
        Expr::Cmp(_, a, b) => {
            lemma_eval_agree(*a, v1, v2, mask);
            lemma_eval_agree(*b, v1, v2, mask);
        },
        Expr::Mux(c, a, b) => {
            lemma_eval_agree(*c, v1, v2, mask);
            lemma_eval_agree(*a, v1, v2, mask);
            lemma_eval_agree(*b, v1, v2, mask);
        },
    }
}

/// Every combinational unit reads only signals marked in `mask`, and drives none of them.
pub open spec fn comb_reads_within(d: Design, mask: Seq<bool>) -> bool {
    forall|u: int|
        0 <= u < d.units@.len() && (#[trigger] d.units@[u]).clock is None ==> all_sourced(d.units@[u].body, mask)
            && !mask[d.units@[u].target as int]
}

proof fn lemma_pass_typed(d: Design, vals: Seq<BitVec>, k: int)
    requires
        d.valid(),
        typed_values(d, vals),
        0 <= k <= d.units@.len(),
    ensures
        comb_pass(d, vals, k) is Some,
        typed_values(d, comb_pass(d, vals, k)->Some_0),
    decreases k,
{
    if k > 0 {
        lemma_pass_typed(d, vals, k - 1);
        let prev = comb_pass(d, vals, k - 1)->Some_0;
        let u = d.units@[k - 1];
        assert(d.unit_well_typed(k - 1));
        if u.clock is None && u.target < prev.len() {
            assert forall|j: int| 0 <= j < prev.len() implies (#[trigger] prev[j]).wf() && prev[j].width == d.widths()[j] by {}
            lemma_eval_typed(u.body, prev, d.widths());
            let next = prev.update(u.target as int, eval(u.body, prev)->Some_0);
            assert forall|j: int| 0 <= j < next.len() implies (#[trigger] next[j]).wf() && next[j].width == d.signals@[j].width by {
                if j != u.target {
                    assert(next[j] == prev[j]);
                }
            }
        }
    }
}

proof fn lemma_pass_keeps_mask(d: Design, vals: Seq<BitVec>, mask: Seq<bool>, k: int)
    requires
        d.valid(),
        typed_values(d, vals),
        mask.len() == vals.len(),
        comb_reads_within(d, mask),
        0 <= k <= d.units@.len(),
    ensures
        forall|s: int| 0 <= s < mask.len() && #[trigger] mask[s] ==> comb_pass(d, vals, k)->Some_0[s] == vals[s],
{
    lemma_pass_typed(d, vals, k);
    assert forall|s: int| 0 <= s < mask.len() && #[trigger] mask[s] implies comb_pass(d, vals, k)->Some_0[s] == vals[s] by {
        assert forall|u: int| 0 <= u < k && #[trigger] d.units@[u].target == s implies d.units@[u].clock is Some by {
            if d.units@[u].clock is None {
                assert(!mask[d.units@[u].target as int]);
            }
        }
        lemma_pass_untouched(d, vals, 0, k, s);
    }
}

proof fn lemma_pass_result(d: Design, vals: Seq<BitVec>, mask: Seq<bool>, u: int)
    requires
        d.valid(),
        typed_values(d, vals),
        mask.len() == vals.len(),
        comb_reads_within(d, mask),
        0 <= u < d.units@.len(),
        d.units@[u].clock is None,
    ensures
        full_pass(d, vals)->Some_0[d.units@[u].target as int] == eval(d.units@[u].body, vals)->Some_0,
{
    let m = d.units@.len() as int;
    let t = d.units@[u].target as int;
    assert(d.unit_well_typed(u));
    lemma_pass_typed(d, vals, m);
    lemma_pass_typed(d, vals, u);
    assert forall|v: int| u + 1 <= v < m && #[trigger] d.units@[v].target == t implies d.units@[v].clock is Some by {
        assert(!d.conflict(u, v));
    }
    lemma_pass_untouched(d, vals, u + 1, m, t);
    let prev = comb_pass(d, vals, u)->Some_0;
    lemma_pass_keeps_mask(d, vals, mask, u);
    lemma_eval_agree(d.units@[u].body, prev, vals, mask);
}

proof fn lemma_pass_fixed(d: Design, vals: Seq<BitVec>, mask: Seq<bool>, k: int)
    requires
        d.valid(),
        typed_values(d, vals),
        mask.len() == vals.len(),
        comb_reads_within(d, mask),
        0 <= k <= d.units@.len(),
    ensures
        comb_pass(d, full_pass(d, vals)->Some_0, k) == Some(full_pass(d, vals)->Some_0),
    decreases k,
{
    let m = d.units@.len() as int;
    lemma_pass_typed(d, vals, m);
    let p = full_pass(d, vals)->Some_0;
    if k > 0 {
        lemma_pass_fixed(d, vals, mask, k - 1);
        let u = d.units@[k - 1];
        if u.clock is None && u.target < p.len() {
            assert(d.unit_well_typed(k - 1));
            assert forall|j: int| 0 <= j < vals.len() implies (#[trigger] vals[j]).wf() && vals[j].width == d.widths()[j] by {}
            lemma_eval_typed(u.body, vals, d.widths());
            lemma_pass_keeps_mask(d, vals, mask, m);
            lemma_eval_agree(u.body, p, vals, mask);
            lemma_pass_result(d, vals, mask, k - 1);
            assert(p.update(u.target as int, eval(u.body, p)->Some_0) =~= p);
        }
    }
}

/// A design whose combinational units read only signals that no
/// combinational unit drives (inputs and registers) has no combinational
/// loop: from values that fit it, settling succeeds whenever one changing
/// pass is allowed.
pub proof fn lemma_acyclic_settles(d: Design, vals: Seq<BitVec>, fuel: nat, mask: Seq<bool>)
    requires
        d.valid(),
        typed_values(d, vals),
        mask.len() == d.signals@.len(),
        comb_reads_within(d, mask),
        fuel >= 1,
    ensures
        settle(d, vals, fuel) is Ok,
{
    let m = d.units@.len() as int;
    lemma_pass_typed(d, vals, m);
    lemma_pass_fixed(d, vals, mask, m);
    let p = full_pass(d, vals)->Some_0;
    assert(full_pass(d, p) == Some(p));
    if p != vals {
        assert(settle(d, p, (fuel - 1) as nat) == Ok::<Seq<BitVec>, SimError>(p));
    }
}

proof fn lemma_latch_typed(d: Design, before: Seq<BitVec>, now: Seq<BitVec>, k: int)
    requires
        d.valid(),
        typed_values(d, now),
        0 <= k <= d.units@.len(),
    ensures
        latch(d, before, now, k) is Some,
        typed_values(d, latch(d, before, now, k)->Some_0),
    decreases k,
{
    if k > 0 {
        lemma_latch_typed(d, before, now, k - 1);
        let acc = latch(d, before, now, k - 1)->Some_0;
        let u = d.units@[k - 1];
        assert(d.unit_well_typed(k - 1));
        assert forall|j: int| 0 <= j < now.len() implies (#[trigger] now[j]).wf() && now[j].width == d.widths()[j] by {}
        lemma_eval_typed(u.body, now, d.widths());
        if u.clock is Some && u.target < acc.len() {
            let next = acc.update(u.target as int, eval(u.body, now)->Some_0);
            assert forall|j: int| 0 <= j < next.len() implies (#[trigger] next[j]).wf() && next[j].width == d.signals@[j].width by {
                if j != u.target {
                    assert(next[j] == acc[j]);
                }
            }
        }
    }
}

proof fn lemma_settle_typed(d: Design, vals: Seq<BitVec>, fuel: nat)
    requires
        d.valid(),
        typed_values(d, vals),
        settle(d, vals, fuel) is Ok,
    ensures
        typed_values(d, settle(d, vals, fuel)->Ok_0),
    decreases fuel,
{
    lemma_pass_typed(d, vals, d.units@.len() as int);
    let p = full_pass(d, vals)->Some_0;
    if p != vals && fuel > 0 {
        lemma_settle_typed(d, p, (fuel - 1) as nat);
    }
}

/// A whole cycle of such a loop-free design succeeds: both settle phases
/// reach a fixed point and the registers capture, so stepping it never
/// fails for want of convergence.
pub proof fn lemma_acyclic_cycle(d: Design, before: Seq<BitVec>, vals: Seq<BitVec>, fuel: nat, mask: Seq<bool>)
    requires
        d.valid(),
        typed_values(d, vals),
        mask.len() == d.signals@.len(),
        comb_reads_within(d, mask),
        fuel >= 1,
    ensures
        cycle(d, before, vals, fuel) is Ok,
{
    lemma_acyclic_settles(d, vals, fuel, mask);
    lemma_settle_typed(d, vals, fuel);
    let s = settle(d, vals, fuel)->Ok_0;
    lemma_latch_typed(d, before, s, d.units@.len() as int);
    let l = latch(d, before, s, d.units@.len() as int)->Some_0;
    lemma_acyclic_settles(d, l, fuel, mask);
}

} // verus!

verus! {

/// The router's netlist has no combinational loop: its combinational units
/// read only inputs and the three registers, and drive none of them. So on
/// values that fit it, every cycle succeeds once the iteration cap allows one
/// changing pass; it never fails for want of convergence.
pub proof fn lemma_router_netlist_cycles(d: Design, before: Seq<BitVec>, vals: Seq<BitVec>, fuel: nat)
    requires
        d.valid(),
        comb_reads_within(d, crate::router::state_mask(d.signals@.len())),
        typed_values(d, vals),
        fuel >= 1,
    ensures
        cycle(d, before, vals, fuel) is Ok,
{
    lemma_acyclic_cycle(d, before, vals, fuel, crate::router::state_mask(d.signals@.len()));
}

} // verus!

verus! {

proof fn lemma_cycle_typed(d: Design, before: Seq<BitVec>, vals: Seq<BitVec>, fuel: nat)
    requires
        d.valid(),
        typed_values(d, vals),
        cycle(d, before, vals, fuel) is Ok,
    ensures
        typed_values(d, cycle(d, before, vals, fuel)->Ok_0),
{
    lemma_settle_typed(d, vals, fuel);
    let s = settle(d, vals, fuel)->Ok_0;
    lemma_latch_typed(d, before, s, d.units@.len() as int);
    lemma_settle_typed(d, latch(d, before, s, d.units@.len() as int)->Some_0, fuel);
}

/// A simulation of the router's netlist whose iteration cap allows one
/// changing pass steps every cycle without error.
pub proof fn lemma_router_simulation_steps(s: Simulation)
    requires
        s.wf(),
        comb_reads_within(s.design_spec(), crate::router::state_mask(s.design_spec().signals@.len())),
        s.max_iterations_spec() >= 1,
    ensures
        cycle(s.design_spec(), s.committed_spec(), s.values_spec(), s.max_iterations_spec() as nat) is Ok,
{
    lemma_router_netlist_cycles(s.design_spec(), s.committed_spec(), s.values_spec(), s.max_iterations_spec() as nat);
}

} // verus!
