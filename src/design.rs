//! Designs: signals, the logic units that drive them, bus joins, and the
//! build-time check that every signal has exactly what it needs.
use crate::bits::{valid_width, MAX_WIDTH};
use crate::expr::{width_of, Expr};
use vstd::prelude::*;

verus! {

/// The direction of a signal as seen from the design that declares it.
#[derive(Debug, Clone, Copy, PartialEq, Eq, Structural)]
pub enum Direction {
    Input,
    Output,
    InOut,
    Internal,
}

/// Why a design was refused at build time.
#[derive(Debug, Clone, Copy, PartialEq, Eq, Structural)]
pub enum BuildError {
    /// A signal was declared with an unsupported width.
    WidthError,
    /// A unit names a signal the design does not have.
    UnknownSignal,
    /// A unit's body does not have the width of its target, or a clock is not one bit.
    WidthMismatch,
    /// Two bundles that were joined differ in their signal names or widths.
    BundleShapeMismatch,
    /// The unit with this index reads a signal, or is clocked by one, that nothing drives.
    UnconnectedSignal(usize),
    /// The signal with this index is driven by more than one unit.
    MultipleDriver(usize),
}

/// A declared signal.
#[derive(Debug, Clone)]
pub struct SignalDecl {
    pub name: String,
    pub width: u32,
    pub direction: Direction,
}

/// A logic unit: it drives `target` with `body`, either continuously
/// (`clock` is `None`) or as a register that takes `body`'s value on each
/// rising edge of `clock`.
#[derive(Debug)]
pub struct Unit {
    pub name: String,
    pub target: usize,
    pub clock: Option<usize>,
    pub body: Expr,
}

/// A point-to-point connection record from one signal to another.
#[derive(Debug, Clone)]
pub struct Net {
    pub source_pin: u64,
    pub dest_pin: u64,
    pub name: String,
}

/// A named signal of a bundle.
#[derive(Debug, Clone)]
pub struct Port {
    pub name: String,
    pub signal: usize,
}

/// A named group of signals: a unit's interface to a bus.
#[derive(Debug, Clone)]
pub struct Bundle {
    pub ports: Vec<Port>,
}

/// A design: signals, the units that drive them, and the connection records of its joins.
#[derive(Debug)]
pub struct Design {
    pub name: String,
    pub signals: Vec<SignalDecl>,
    pub units: Vec<Unit>,
    pub nets: Vec<Net>,
}

impl Design {
    /// The declared width of every signal.
    pub open spec fn widths(&self) -> Seq<u32> {
        Seq::new(self.signals@.len(), |i: int| self.signals@[i].width)
    }

    /// Every declared width is supported.
    pub open spec fn widths_valid(&self) -> bool {
        forall|i: int| 0 <= i < self.signals@.len() ==> valid_width(#[trigger] self.signals@[i].width as nat)
    }

    /// Signal `s` is driven from outside the design.
    pub open spec fn external(&self, s: int) -> bool {
        self.signals@[s].direction == Direction::Input || self.signals@[s].direction == Direction::InOut
    }

    /// Some unit drives signal `s`.
    pub open spec fn driven(&self, s: int) -> bool {
        exists|u: int| 0 <= u < self.units@.len() && #[trigger] self.units@[u].target == s
    }

    /// Signal `s` has a source: the outside world or a unit.
    pub open spec fn sourced(&self, s: int) -> bool {
        self.external(s) || self.driven(s)
    }

    /// Unit `u` names existing signals, its body has its target's width, and its clock is one bit.
    pub open spec fn unit_well_typed(&self, u: int) -> bool {
        let unit = self.units@[u];
        &&& unit.target < self.signals@.len()
        &&& width_of(unit.body, self.widths()) == Some(self.signals@[unit.target as int].width)
        &&& match unit.clock {
            Some(c) => c < self.signals@.len() && self.signals@[c as int].width == 1,
            None => true,
        }
    }

    /// Units `u` and `v` are distinct and drive the same signal.
    pub open spec fn conflict(&self, u: int, v: int) -> bool {
        u != v && self.units@[u].target == self.units@[v].target
    }

    /// Which signals have a source.
    pub open spec fn source_map(&self) -> Seq<bool> {
        Seq::new(self.signals@.len(), |s: int| self.sourced(s))
    }

    /// Every signal that unit `u` reads, its clock included, has a source.
    pub open spec fn unit_connected(&self, u: int) -> bool {
        &&& all_sourced(self.units@[u].body, self.source_map())
        &&& match self.units@[u].clock {
            Some(c) => self.sourced(c as int),
            None => true,
        }
    }

    /// The design passes the build-time check.
    pub open spec fn valid(&self) -> bool {
        &&& self.widths_valid()
        &&& forall|u: int| 0 <= u < self.units@.len() ==> #[trigger] self.unit_well_typed(u)
        &&& forall|u: int, v: int| 0 <= u < self.units@.len() && 0 <= v < self.units@.len() ==> !#[trigger] self.conflict(u, v)
        &&& forall|u: int| 0 <= u < self.units@.len() ==> #[trigger] self.unit_connected(u)
    }

    /// An empty design.
    pub fn new(name: String) -> (r: Design)
        ensures
            r.name == name,
            r.signals@.len() == 0,
            r.units@.len() == 0,
            r.nets@.len() == 0,
    {
        Design { name, signals: Vec::new(), units: Vec::new(), nets: Vec::new() }
    }

    /// Declares a signal and returns its index.
    pub fn add_signal(&mut self, name: String, width: u32, direction: Direction) -> (r: Result<usize, BuildError>)
        ensures
            !valid_width(width as nat) ==> r == Err::<usize, BuildError>(BuildError::WidthError) && *final(self) == *old(self),
            valid_width(width as nat) ==> r == Ok::<usize, BuildError>(old(self).signals@.len() as usize)
                && final(self).signals@ == old(self).signals@.push(SignalDecl { name, width, direction })
                && final(self).units == old(self).units
                && final(self).nets == old(self).nets
                && final(self).name == old(self).name,
    {
        if width == 0 || width > MAX_WIDTH {
            return Err(BuildError::WidthError);
        }
        let i = self.signals.len();
        self.signals.push(SignalDecl { name, width, direction });
        Ok(i)
    }

    /// Adds a combinational unit: `target` follows `body` at all times.
    pub fn add_comb(&mut self, name: String, target: usize, body: Expr)
        ensures
            final(self).units@ == old(self).units@.push(Unit { name, target, clock: None, body }),
            final(self).signals == old(self).signals,
            final(self).nets == old(self).nets,
            final(self).name == old(self).name,
    {
        self.units.push(Unit { name, target, clock: None, body });
    }

    /// Adds a register: `target` takes the value of `body` on each rising edge of `clock`.
    pub fn add_reg(&mut self, name: String, target: usize, clock: usize, body: Expr)
        ensures
            final(self).units@ == old(self).units@.push(Unit { name, target, clock: Some(clock), body }),
            final(self).signals == old(self).signals,
            final(self).nets == old(self).nets,
            final(self).name == old(self).name,
    {
        self.units.push(Unit { name, target, clock: Some(clock), body });
    }
}

impl Design {
    /// The declared widths, refusing an unsupported one.
    fn width_table(&self) -> (r: Result<Vec<u32>, BuildError>)
        ensures
            r is Ok <==> self.widths_valid(),
            r is Err ==> r == Err::<Vec<u32>, BuildError>(BuildError::WidthError),
            r is Ok ==> r->Ok_0@ == self.widths(),
    {
        let n = self.signals.len();
        let mut w: Vec<u32> = Vec::new();
        let mut i: usize = 0;
        while i < n
            invariant
                n == self.signals@.len(),
                i <= n,
                w@ == self.widths().subrange(0, i as int),
                forall|k: int| 0 <= k < i ==> valid_width(#[trigger] self.signals@[k].width as nat),
            decreases n - i,
        {
            let x = self.signals[i].width;
            if x == 0 || x > MAX_WIDTH {
                return Err(BuildError::WidthError);
            }
            w.push(x);
            i = i + 1;
            proof {
                assert(w@ =~= self.widths().subrange(0, i as int));
            }
        }
        proof {
            assert(w@ =~= self.widths());
        }
        Ok(w)
    }

    /// Which signals have a source.
    fn source_table(&self) -> (r: Vec<bool>)
        ensures
            r@ == self.source_map(),
    {
        let n = self.signals.len();
        let mut src: Vec<bool> = Vec::new();
        let mut i: usize = 0;
        while i < n
            invariant
                n == self.signals@.len(),
                i <= n,
                src@.len() == i,
                forall|k: int| 0 <= k < i ==> #[trigger] src@[k] == self.external(k),
            decreases n - i,
        {
            let d = self.signals[i].direction;
            src.push(d == Direction::Input || d == Direction::InOut);
            i = i + 1;
        }
        let m = self.units.len();
        let mut u: usize = 0;
        while u < m
            invariant
                n == self.signals@.len(),
                m == self.units@.len(),
                u <= m,
                src@.len() == n,
                forall|k: int|
                    0 <= k < n ==> #[trigger] src@[k] == (self.external(k) || exists|v: int|
                        0 <= v < u && #[trigger] self.units@[v].target == k),
            decreases m - u,
        {
            let t = self.units[u].target;
            if t < n {
                src.set(t, true);
            }
            proof {
                assert forall|k: int| 0 <= k < n implies #[trigger] src@[k] == (self.external(k) || exists|v: int|
                        0 <= v < u + 1 && #[trigger] self.units@[v].target == k) by {
                    if self.units@[u as int].target == k {
                        assert(0 <= u < u + 1 && self.units@[u as int].target == k);
                    }
                }
            }
            u = u + 1;
        }
        proof {
            assert(src@ =~= self.source_map());
        }
        src
    }

    /// The build-time check: every width is supported, every unit is well
    /// typed, every signal that is read has a source, and no signal has two drivers.
    pub fn connect_all(&self) -> (r: Result<(), BuildError>)
        ensures
            r is Ok <==> self.valid(),
            r == Err::<(), BuildError>(BuildError::WidthError) ==> !self.widths_valid(),
            r == Err::<(), BuildError>(BuildError::UnknownSignal) || r == Err::<(), BuildError>(
                BuildError::WidthMismatch,
            ) ==> exists|u: int| 0 <= u < self.units@.len() && !#[trigger] self.unit_well_typed(u),
            r is Err && r->Err_0 is UnconnectedSignal ==> r->Err_0->UnconnectedSignal_0
                < self.units@.len() && !self.unit_connected(r->Err_0->UnconnectedSignal_0 as int),
            r is Err && r->Err_0 is MultipleDriver ==> exists|u: int, v: int|
                0 <= u < self.units@.len() && 0 <= v < self.units@.len() && #[trigger] self.conflict(u, v)
                    && self.units@[u].target == r->Err_0->MultipleDriver_0,
            r is Err ==> r->Err_0 != BuildError::BundleShapeMismatch,
            !self.widths_valid() ==> r == Err::<(), BuildError>(BuildError::WidthError),
            self.widths_valid() && !(forall|u: int| 0 <= u < self.units@.len() ==> #[trigger] self.unit_well_typed(u))
                ==> r == Err::<(), BuildError>(BuildError::UnknownSignal) || r == Err::<(), BuildError>(
                BuildError::WidthMismatch,
            ),
            self.widths_valid() && (forall|u: int| 0 <= u < self.units@.len() ==> #[trigger] self.unit_well_typed(u))
                && !(forall|u: int| 0 <= u < self.units@.len() ==> #[trigger] self.unit_connected(u)) ==> r is Err
                && r->Err_0 is UnconnectedSignal,
            self.widths_valid() && (forall|u: int| 0 <= u < self.units@.len() ==> #[trigger] self.unit_well_typed(u))
                && (forall|u: int| 0 <= u < self.units@.len() ==> #[trigger] self.unit_connected(u)) && r is Err
                ==> r->Err_0 is MultipleDriver,
    {
        let widths = match self.width_table() {
            Ok(w) => w,
            Err(e) => return Err(e),
        };
        let n = self.signals.len();
        let m = self.units.len();
        let mut u: usize = 0;
        while u < m
            invariant
                n == self.signals@.len(),
                m == self.units@.len(),
                widths@ == self.widths(),
                self.widths_valid(),
                u <= m,
                forall|k: int| 0 <= k < u ==> #[trigger] self.unit_well_typed(k),
            decreases m - u,
        {
            let unit = &self.units[u];
            let ghost ill = !self.unit_well_typed(u as int);
            if unit.target >= n {
                proof {
                    assert(ill);
                }
                return Err(BuildError::UnknownSignal);
            }
            match unit.clock {
                Some(c) => {
                    if c >= n {
                        proof {
                            assert(ill);
                        }
                        return Err(BuildError::UnknownSignal);
                    }
                    if widths[c] != 1 {
                        proof {
                            assert(ill);
                        }
                        return Err(BuildError::WidthMismatch);
                    }
                },
                None => {},
            }
            match expr_width(&unit.body, &widths) {
                Some(x) => {
                    if x != widths[unit.target] {
                        proof {
                            assert(ill);
                        }
                        return Err(BuildError::WidthMismatch);
                    }
                },
                None => {
                    proof {
                        assert(ill);
                    }
                    return Err(BuildError::WidthMismatch);
                },
            }
            u = u + 1;
        }
        let src = self.source_table();
        u = 0;
        while u < m
            invariant
                n == self.signals@.len(),
                m == self.units@.len(),
                src@ == self.source_map(),
                self.widths_valid(),
                u <= m,
                forall|k: int| 0 <= k < m ==> #[trigger] self.unit_well_typed(k),
                forall|k: int| 0 <= k < u ==> #[trigger] self.unit_connected(k),
            decreases m - u,
        {
            let unit = &self.units[u];
            proof {
                assert(self.unit_well_typed(u as int));
            }
            if !check_sourced(&unit.body, &src) {
                proof {
                    assert(!self.unit_connected(u as int));
                }
                return Err(BuildError::UnconnectedSignal(u));
            }
            match unit.clock {
                Some(c) => {
                    if !src[c] {
                        proof {
                            assert(!self.unit_connected(u as int));
                        }
                        return Err(BuildError::UnconnectedSignal(u));
                    }
                },
                None => {},
            }
            u = u + 1;
        }
        u = 0;
        while u < m
            invariant
                n == self.signals@.len(),
                m == self.units@.len(),
                u <= m,
                self.widths_valid(),
                forall|k: int| 0 <= k < m ==> #[trigger] self.unit_well_typed(k),
                forall|k: int| 0 <= k < m ==> #[trigger] self.unit_connected(k),
                forall|a: int, b: int| 0 <= a < u && 0 <= b < m ==> !#[trigger] self.conflict(a, b),
            decreases m - u,
        {
            let mut v: usize = 0;
            while v < m
                invariant
                    m == self.units@.len(),
                    u < m,
                    v <= m,
                    self.widths_valid(),
                    forall|k: int| 0 <= k < m ==> #[trigger] self.unit_well_typed(k),
                    forall|k: int| 0 <= k < m ==> #[trigger] self.unit_connected(k),
                    forall|b: int| 0 <= b < v ==> !#[trigger] self.conflict(u as int, b),
                decreases m - v,
            {
                if v != u && self.units[u].target == self.units[v].target {
                    proof {
                        assert(self.conflict(u as int, v as int));
                    }
                    return Err(BuildError::MultipleDriver(self.units[u].target));
                }
                v = v + 1;
            }
            u = u + 1;
        }
        proof {
            assert(self.widths_valid());
        }
        Ok(())
    }
}

impl Design {
    /// Port `i` of `a` and port `i` of `b` name existing signals.
    pub open spec fn ports_known(&self, a: Bundle, b: Bundle) -> bool {
        &&& forall|i: int| 0 <= i < a.ports@.len() ==> #[trigger] a.ports@[i].signal < self.signals@.len()
        &&& forall|i: int| 0 <= i < b.ports@.len() ==> #[trigger] b.ports@[i].signal < self.signals@.len()
    }

    /// The two bundles declare the same port names and widths, in the same order.
    pub open spec fn same_shape(&self, a: Bundle, b: Bundle) -> bool {
        &&& a.ports@.len() == b.ports@.len()
        &&& forall|i: int| #![trigger a.ports@[i]]
            0 <= i < a.ports@.len() ==> a.ports@[i].name@ == b.ports@[i].name@
                && self.signals@[a.ports@[i].signal as int].width == self.signals@[b.ports@[i].signal as int].width
    }

    /// Of two wired ports, whether `pa`'s signal drives `pb`'s. A join connects
    /// two sides of a boundary, so the output drives; a link hands a parent's
    /// bundle on to a child's of the same orientation, so the input drives.
    pub open spec fn a_drives(&self, pa: Port, linked: bool) -> bool {
        let dir = self.signals@[pa.signal as int].direction;
        if linked {
            dir == Direction::Input || dir == Direction::InOut
        } else {
            dir == Direction::Output
        }
    }

    /// Of two wired ports, the signal that drives.
    pub open spec fn join_source(&self, pa: Port, pb: Port, linked: bool) -> usize {
        if self.a_drives(pa, linked) {
            pa.signal
        } else {
            pb.signal
        }
    }

    /// Of two wired ports, the signal that is driven.
    pub open spec fn join_sink(&self, pa: Port, pb: Port, linked: bool) -> usize {
        if self.a_drives(pa, linked) {
            pb.signal
        } else {
            pa.signal
        }
    }

    /// The outcome of wiring `a` to `b`: refused if a port names no signal,
    /// or if the bundles differ in names or widths.
    pub open spec fn wire_result(&self, a: Bundle, b: Bundle) -> Result<(), BuildError> {
        if !self.ports_known(a, b) {
            Err(BuildError::UnknownSignal)
        } else if !self.same_shape(a, b) {
            Err(BuildError::BundleShapeMismatch)
        } else {
            Ok(())
        }
    }

    /// `after` is `self` with `a` wired to `b`: one new combinational unit
    /// and one connection record per port pair, in port order, from the
    /// driving signal to the driven one; nothing else changed.
    pub open spec fn wired(&self, after: Design, a: Bundle, b: Bundle, linked: bool) -> bool {
        &&& after.signals == self.signals
        &&& after.name == self.name
        &&& after.units@.len() == self.units@.len() + a.ports@.len()
        &&& after.nets@.len() == self.nets@.len() + a.ports@.len()
        &&& forall|k: int| 0 <= k < self.units@.len() ==> #[trigger] after.units@[k] == self.units@[k]
        &&& forall|k: int| 0 <= k < self.nets@.len() ==> #[trigger] after.nets@[k] == self.nets@[k]
        &&& forall|i: int| 0 <= i < a.ports@.len() ==> {
            let u = #[trigger] after.units@[self.units@.len() + i];
            let src = self.join_source(a.ports@[i], b.ports@[i], linked);
            let dst = self.join_sink(a.ports@[i], b.ports@[i], linked);
            &&& u.target == dst
            &&& u.clock is None
            &&& u.body == Expr::Sig(src)
            &&& after.nets@[self.nets@.len() + i].source_pin == src
            &&& after.nets@[self.nets@.len() + i].dest_pin == dst
            &&& after.nets@[self.nets@.len() + i].name@ == a.ports@[i].name@
        }
    }

    /// Joins bundle `a` to bundle `b` across a boundary, port by port: of
    /// each pair, the output side drives the other through a new
    /// combinational unit, and a connection record is kept. Bundles that
    /// differ in names or widths are refused, and the design is then left
    /// as it was.
    pub fn join(&mut self, a: &Bundle, b: &Bundle) -> (r: Result<(), BuildError>)
        ensures
            r == old(self).wire_result(*a, *b),
            r is Err ==> *final(self) == *old(self),
            r is Ok ==> old(self).wired(*final(self), *a, *b, false),
    {
        self.wire(a, b, false)
    }

    /// Links a parent's bundle `a` to a child's bundle `b` of the same
    /// orientation: of each pair, the parent's input drives the child's, and
    /// the child's output drives the parent's. Refused as `join` is.
    pub fn link(&mut self, a: &Bundle, b: &Bundle) -> (r: Result<(), BuildError>)
        ensures
            r == old(self).wire_result(*a, *b),
            r is Err ==> *final(self) == *old(self),
            r is Ok ==> old(self).wired(*final(self), *a, *b, true),
    {
        self.wire(a, b, true)
    }

    fn wire(&mut self, a: &Bundle, b: &Bundle, linked: bool) -> (r: Result<(), BuildError>)
        ensures
            r == old(self).wire_result(*a, *b),
            r is Err ==> *final(self) == *old(self),
            r is Ok ==> old(self).wired(*final(self), *a, *b, linked),
    {
        let n = self.signals.len();
        let mut i: usize = 0;
        while i < a.ports.len()
            invariant
                n == self.signals@.len(),
                i <= a.ports@.len(),
                forall|k: int| 0 <= k < i ==> #[trigger] a.ports@[k].signal < n,
            decreases a.ports@.len() - i,
        {
            if a.ports[i].signal >= n {
                return Err(BuildError::UnknownSignal);
            }
            i = i + 1;
        }
        i = 0;
        while i < b.ports.len()
            invariant
                n == self.signals@.len(),
                i <= b.ports@.len(),
                forall|k: int| 0 <= k < a.ports@.len() ==> #[trigger] a.ports@[k].signal < n,
                forall|k: int| 0 <= k < i ==> #[trigger] b.ports@[k].signal < n,
            decreases b.ports@.len() - i,
        {
            if b.ports[i].signal >= n {
                return Err(BuildError::UnknownSignal);
            }
            i = i + 1;
        }
        if a.ports.len() != b.ports.len() {
            return Err(BuildError::BundleShapeMismatch);
        }
        let m = a.ports.len();
        i = 0;
        while i < m
            invariant
                n == self.signals@.len(),
                m == a.ports@.len() == b.ports@.len(),
                self.ports_known(*a, *b),
                i <= m,
                forall|k: int|
                    0 <= k < i ==> #[trigger] a.ports@[k].name@ == b.ports@[k].name@
                        && self.signals@[a.ports@[k].signal as int].width == self.signals@[b.ports@[k].signal as int].width,
            decreases m - i,
        {
            let pa = &a.ports[i];
            let pb = &b.ports[i];
            let same_name = pa.name == pb.name;
            proof {
                assert(same_name == (pa.name@ == pb.name@));
            }
            if !same_name || self.signals[pa.signal].width != self.signals[pb.signal].width {
                return Err(BuildError::BundleShapeMismatch);
            }
            proof {
                assert(forall|k: int|
                    0 <= k < i + 1 ==> #[trigger] a.ports@[k].name@ == b.ports@[k].name@
                        && self.signals@[a.ports@[k].signal as int].width == self.signals@[b.ports@[k].signal as int].width);
            }
            i = i + 1;
        }
        let ghost before = *self;
        i = 0;
        while i < m
            invariant
                m == a.ports@.len() == b.ports@.len(),
                before.ports_known(*a, *b),
                i <= m,
                self.signals == before.signals,
                self.name == before.name,
                self.units@.len() == before.units@.len() + i,
                self.nets@.len() == before.nets@.len() + i,
                forall|k: int| 0 <= k < before.units@.len() ==> #[trigger] self.units@[k] == before.units@[k],
                forall|k: int| 0 <= k < before.nets@.len() ==> #[trigger] self.nets@[k] == before.nets@[k],
                forall|j: int| 0 <= j < i ==> {
                    let u = #[trigger] self.units@[before.units@.len() + j];
                    let src = before.join_source(a.ports@[j], b.ports@[j], linked);
                    let dst = before.join_sink(a.ports@[j], b.ports@[j], linked);
                    &&& u.target == dst
                    &&& u.clock is None
                    &&& u.body == Expr::Sig(src)
                    &&& self.nets@[before.nets@.len() + j].source_pin == src
                    &&& self.nets@[before.nets@.len() + j].dest_pin == dst
                    &&& self.nets@[before.nets@.len() + j].name@ == a.ports@[j].name@
                },
            decreases m - i,
        {
            let pa = &a.ports[i];
            let pb = &b.ports[i];
            let dir = self.signals[pa.signal].direction;
            let a_drives = if linked {
                dir == Direction::Input || dir == Direction::InOut
            } else {
                dir == Direction::Output
            };
            let (src, dst) = if a_drives {
                (pa.signal, pb.signal)
            } else {
                (pb.signal, pa.signal)
            };
            self.units.push(Unit { name: pa.name.clone(), target: dst, clock: None, body: Expr::Sig(src) });
            self.nets.push(Net { source_pin: src as u64, dest_pin: dst as u64, name: pa.name.clone() });
            i = i + 1;
        }
        Ok(())
    }
}

/// The width of `e` given the signals' widths.
pub fn expr_width(e: &Expr, widths: &Vec<u32>) -> (r: Option<u32>)
    ensures
        r == width_of(*e, widths@),
    decreases e,
{
    match e {
        Expr::Sig(i) => {
            if *i < widths.len() {
                Some(widths[*i])
            } else {
                None
            }
        },
        Expr::Lit(v) => {
            if v.wf_check() {
                Some(v.width)
            } else {
                None
            }
        },
        Expr::Not(a) => expr_width(a, widths),
        Expr::Bin(_, a, b) => {
            match (expr_width(a, widths), expr_width(b, widths)) {
                (Some(x), Some(y)) => if x == y {
                    Some(x)
                } else {
                    None
                },
                _ => None,
            }
        },
        Expr::Cmp(_, a, b) => {
            match (expr_width(a, widths), expr_width(b, widths)) {
                (Some(x), Some(y)) => if x == y {
                    Some(1u32)
                } else {
                    None
                },
                _ => None,
            }
        },
        Expr::Mux(c, a, b) => {
            match (expr_width(c, widths), expr_width(a, widths), expr_width(b, widths)) {
                (Some(z), Some(x), Some(y)) => if z == 1 && x == y {
                    Some(x)
                } else {
                    None
                },
                _ => None,
            }
        },
    }
}

/// Every signal that `e` reads is in range and marked in `sourced`.
pub open spec fn all_sourced(e: Expr, sourced: Seq<bool>) -> bool
    decreases e,
{
    match e {
        Expr::Sig(i) => i < sourced.len() && sourced[i as int],
        Expr::Lit(_) => true,
        Expr::Not(a) => all_sourced(*a, sourced),
        Expr::Bin(_, a, b) => all_sourced(*a, sourced) && all_sourced(*b, sourced),
        Expr::Cmp(_, a, b) => all_sourced(*a, sourced) && all_sourced(*b, sourced),
        Expr::Mux(c, a, b) => all_sourced(*c, sourced) && all_sourced(*a, sourced) && all_sourced(
            *b,
            sourced,
        ),
    }
}

/// Tests `all_sourced`.
fn check_sourced(e: &Expr, sourced: &Vec<bool>) -> (r: bool)
    ensures
        r == all_sourced(*e, sourced@),
    decreases e,
{
    match e {
        Expr::Sig(i) => *i < sourced.len() && sourced[*i],
        Expr::Lit(_) => true,
        Expr::Not(a) => check_sourced(a, sourced),
        Expr::Bin(_, a, b) => check_sourced(a, sourced) && check_sourced(b, sourced),
        Expr::Cmp(_, a, b) => check_sourced(a, sourced) && check_sourced(b, sourced),
        Expr::Mux(c, a, b) => check_sourced(c, sourced) && check_sourced(a, sourced) && check_sourced(
            b,
            sourced,
        ),
    }
}

} // verus!

verus! {

/// Wiring two bundles whose ports all name signals, but where some pair of
/// ports differs in width, is refused at that call with a shape mismatch;
/// `join` and `link` then leave the design as it was.
pub proof fn lemma_width_mismatch_refused(d: Design, a: Bundle, b: Bundle, t: int)
    requires
        d.ports_known(a, b),
        0 <= t < a.ports@.len(),
        t < b.ports@.len(),
        d.signals@[a.ports@[t].signal as int].width != d.signals@[b.ports@[t].signal as int].width,
    ensures
        d.wire_result(a, b) == Err::<(), BuildError>(BuildError::BundleShapeMismatch),
{
    assert(!(a.ports@[t].name@ == b.ports@[t].name@ && d.signals@[a.ports@[t].signal as int].width
        == d.signals@[b.ports@[t].signal as int].width));
}

} // verus!
