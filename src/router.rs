//! An address router: one upstream bus controller fanned out to several
//! downstream bus nodes, each owning a contiguous range of the address space.
use crate::bits::{lemma_modulus_bounds, modulus, ones, valid_width, BitVec, MAX_WIDTH};
use crate::design::{Bundle, BuildError, Design, Direction, Port, SignalDecl};
use crate::design::all_sourced;
use crate::expr::{width_of, BinOp, CmpOp, Expr};
use crate::sim::comb_reads_within;
use crate::verilog::push_dec;
use vstd::prelude::*;

verus! {

/// The most downstream nodes a router can select: its selection register is eight bits wide.
pub const MAX_NODES: usize = 256;

/// Why a router could not be built.
#[derive(Debug, Clone, Copy, PartialEq, Eq, Structural)]
pub enum RouterError {
    /// The address width is zero or wider than the kernel supports.
    WidthError,
    /// The start and end tables differ in length.
    ShapeMismatch,
    /// More downstream nodes than the selection register can name.
    TooManyNodes,
    /// A range reaches past the top of the address space.
    AddressOverflow,
    /// A node was given an empty address range, or two nodes were given
    /// overlapping ones.
    OverlapError,
}

/// A router: node `i` answers to the upstream addresses in `[starts[i], ends[i])`.
#[derive(Debug, Clone)]
pub struct Router {
    addr_width: u32,
    starts: Vec<u64>,
    ends: Vec<u64>,
}

/// The registers of a router, as committed at the last clock edge.
#[derive(Debug, Clone, Copy, PartialEq, Eq, Structural)]
pub struct RouterState {
    /// The node currently selected.
    pub active: u64,
    /// The selected node's address, relative to the start of its range.
    pub virtual_address: u64,
    /// The upstream address strobe, one cycle late.
    pub strobe_delay: bool,
}

/// What the upstream controller drives into the router.
#[derive(Debug, Clone, Copy, PartialEq, Eq, Structural)]
pub struct UpstreamIn {
    pub clock: bool,
    pub address: u64,
    pub address_strobe: bool,
    pub from_controller: u64,
    pub strobe: bool,
}

/// What the router drives back to the upstream controller.
#[derive(Debug, Clone, Copy, PartialEq, Eq, Structural)]
pub struct UpstreamOut {
    pub ready: bool,
    pub to_controller: u64,
}

/// What one downstream node drives into the router.
#[derive(Debug, Clone, Copy, PartialEq, Eq, Structural)]
pub struct NodeIn {
    pub to_controller: u64,
    pub ready: bool,
}

/// What the router drives into one downstream node.
#[derive(Debug, Clone, Copy, PartialEq, Eq, Structural)]
pub struct NodeOut {
    pub clock: bool,
    pub from_controller: u64,
    pub address: u64,
    pub address_strobe: bool,
    pub strobe: bool,
}

/// The outcome of one evaluation: register inputs and all outputs.
#[derive(Debug, Clone)]
pub struct RouterStep {
    pub next: RouterState,
    pub upstream: UpstreamOut,
    pub nodes: Vec<NodeOut>,
}

/// Every range is non-empty.
pub open spec fn ranges_nonempty(starts: Seq<u64>, ends: Seq<u64>) -> bool {
    forall|i: int| 0 <= i < starts.len() ==> starts[i] < #[trigger] ends[i]
}

/// Every range end is itself a `w`-bit value.
pub open spec fn ranges_fit(ends: Seq<u64>, w: nat) -> bool {
    forall|i: int| 0 <= i < ends.len() ==> #[trigger] ends[i] < modulus(w)
}

/// Ranges `i` and `j` share no address.
pub open spec fn apart(starts: Seq<u64>, ends: Seq<u64>, i: int, j: int) -> bool {
    ends[i] <= starts[j] || ends[j] <= starts[i]
}

/// No two distinct ranges share an address.
pub open spec fn ranges_disjoint(starts: Seq<u64>, ends: Seq<u64>) -> bool {
    forall|i: int, j: int|
        0 <= i < starts.len() && 0 <= j < starts.len() && i != j ==> #[trigger] apart(
            starts,
            ends,
            i,
            j,
        )
}

/// The sum of the first `k` counts.
pub open spec fn prefix_sum(counts: Seq<u64>, k: int) -> nat
    decreases k,
{
    if k <= 0 {
        0
    } else {
        prefix_sum(counts, k - 1) + counts[k - 1] as nat
    }
}

/// An idle node: only the clock is passed on.
pub open spec fn idle_node(clock: bool) -> NodeOut {
    NodeOut { clock, from_controller: 0, address: 0, address_strobe: false, strobe: false }
}

proof fn lemma_prefix_sum_monotone(counts: Seq<u64>, a: int, b: int)
    requires
        0 <= a <= b <= counts.len(),
    ensures
        prefix_sum(counts, a) <= prefix_sum(counts, b),
    decreases b - a,
{
    if a < b {
        lemma_prefix_sum_monotone(counts, a, b - 1);
    }
}

impl Router {
    pub closed spec fn addr_width_spec(&self) -> nat {
        self.addr_width as nat
    }

    pub closed spec fn starts_spec(&self) -> Seq<u64> {
        self.starts@
    }

    pub closed spec fn ends_spec(&self) -> Seq<u64> {
        self.ends@
    }

    /// A router whose ranges are non-empty, in the address space, and pairwise disjoint.
    pub open spec fn wf(&self) -> bool {
        &&& valid_width(self.addr_width_spec())
        &&& self.starts_spec().len() == self.ends_spec().len()
        &&& self.starts_spec().len() <= MAX_NODES
        &&& ranges_nonempty(self.starts_spec(), self.ends_spec())
        &&& ranges_fit(self.ends_spec(), self.addr_width_spec())
        &&& ranges_disjoint(self.starts_spec(), self.ends_spec())
    }

    /// Whether node `i` answers to `addr`.
    pub open spec fn contains(&self, i: int, addr: u64) -> bool {
        self.starts_spec()[i] <= addr < self.ends_spec()[i]
    }

    /// The last of the first `k` nodes that answers to `addr`.
    pub open spec fn last_hit(&self, addr: u64, k: int) -> Option<int>
        decreases k,
    {
        if k <= 0 {
            None
        } else if self.contains(k - 1, addr) {
            Some(k - 1)
        } else {
            self.last_hit(addr, k - 1)
        }
    }

    /// The register inputs after one evaluation, when only the first `k` nodes decode.
    pub open spec fn next_upto(&self, st: RouterState, up: UpstreamIn, k: int) -> RouterState {
        let hit = if up.address_strobe {
            self.last_hit(up.address, k)
        } else {
            None
        };
        match hit {
            Some(i) => RouterState {
                active: i as u64,
                virtual_address: (up.address - self.starts_spec()[i]) as u64,
                strobe_delay: up.address_strobe,
            },
            None => RouterState {
                active: st.active,
                virtual_address: st.virtual_address,
                strobe_delay: up.address_strobe,
            },
        }
    }

    /// The register inputs after one evaluation: a strobed address selects the
    /// node whose range holds it and latches the address relative to that range.
    pub open spec fn next_spec(&self, st: RouterState, up: UpstreamIn) -> RouterState {
        self.next_upto(st, up, self.starts_spec().len() as int)
    }

    /// What node `i` receives: the upstream traffic if it is the selected node, else nothing.
    pub open spec fn node_out_spec(&self, st: RouterState, up: UpstreamIn, i: int) -> NodeOut {
        if st.active == i {
            NodeOut {
                clock: up.clock,
                from_controller: up.from_controller,
                address: st.virtual_address,
                address_strobe: st.strobe_delay,
                strobe: up.strobe,
            }
        } else {
            idle_node(up.clock)
        }
    }

    /// What the upstream controller receives: the selected node's reply, and never
    /// `ready` while an address is being strobed.
    pub open spec fn upstream_spec(
        &self,
        st: RouterState,
        up: UpstreamIn,
        nodes: Seq<NodeIn>,
    ) -> UpstreamOut {
        if st.active < self.starts_spec().len() {
            UpstreamOut {
                ready: !up.address_strobe && nodes[st.active as int].ready,
                to_controller: nodes[st.active as int].to_controller,
            }
        } else {
            UpstreamOut { ready: false, to_controller: 0 }
        }
    }

    /// The initial register state: node 0 selected, address zero, no strobe.
    pub open spec fn initial_spec() -> RouterState {
        RouterState { active: 0, virtual_address: 0, strobe_delay: false }
    }

    /// The number of downstream nodes.
    pub fn len(&self) -> (r: usize)
        ensures
            r == self.starts_spec().len(),
    {
        self.starts.len()
    }

    /// The address width the router decodes.
    pub fn addr_width(&self) -> (r: u32)
        ensures
            r == self.addr_width_spec(),
    {
        self.addr_width
    }

    /// The first address of node `i`.
    pub fn node_start(&self, i: usize) -> (r: u64)
        requires
            i < self.starts_spec().len(),
        ensures
            r == self.starts_spec()[i as int],
    {
        self.starts[i]
    }

    /// One past the last address of node `i`.
    pub fn node_end(&self, i: usize) -> (r: u64)
        requires
            i < self.ends_spec().len(),
        ensures
            r == self.ends_spec()[i as int],
    {
        self.ends[i]
    }

    /// The register state at power-up.
    pub fn initial_state() -> (r: RouterState)
        ensures
            r == Self::initial_spec(),
    {
        RouterState { active: 0, virtual_address: 0, strobe_delay: false }
    }

    /// Builds a router from explicit ranges: node `i` answers to `[starts[i], ends[i])`.
    pub fn with_ranges(addr_width: u32, starts: Vec<u64>, ends: Vec<u64>) -> (r: Result<
        Router,
        RouterError,
    >)
        ensures
            !valid_width(addr_width as nat) ==> r == Err::<Router, RouterError>(
                RouterError::WidthError,
            ),
            valid_width(addr_width as nat) && starts@.len() != ends@.len() ==> r == Err::<
                Router,
                RouterError,
            >(RouterError::ShapeMismatch),
            valid_width(addr_width as nat) && starts@.len() == ends@.len() && starts@.len()
                > MAX_NODES ==> r == Err::<Router, RouterError>(RouterError::TooManyNodes),
            valid_width(addr_width as nat) && starts@.len() == ends@.len() && starts@.len()
                <= MAX_NODES && !ranges_nonempty(starts@, ends@) ==> r == Err::<
                Router,
                RouterError,
            >(RouterError::OverlapError),
            valid_width(addr_width as nat) && starts@.len() == ends@.len() && starts@.len()
                <= MAX_NODES && ranges_nonempty(starts@, ends@) && !ranges_fit(
                ends@,
                addr_width as nat,
            ) ==> r == Err::<Router, RouterError>(RouterError::AddressOverflow),
            valid_width(addr_width as nat) && starts@.len() == ends@.len() && starts@.len()
                <= MAX_NODES && ranges_nonempty(starts@, ends@) && ranges_fit(
                ends@,
                addr_width as nat,
            ) && !ranges_disjoint(starts@, ends@) ==> r == Err::<Router, RouterError>(
                RouterError::OverlapError,
            ),
            valid_width(addr_width as nat) && starts@.len() == ends@.len() && starts@.len()
                <= MAX_NODES && ranges_fit(ends@, addr_width as nat) ==> (r == Err::<Router, RouterError>(
                RouterError::OverlapError,
            ) <==> (!ranges_nonempty(starts@, ends@) || !ranges_disjoint(starts@, ends@))),
            r is Ok <==> (valid_width(addr_width as nat) && starts@.len() == ends@.len()
                && starts@.len() <= MAX_NODES && ranges_nonempty(starts@, ends@) && ranges_fit(
                ends@,
                addr_width as nat,
            ) && ranges_disjoint(starts@, ends@)),
            r is Ok ==> r->Ok_0.wf() && r->Ok_0.addr_width_spec() == addr_width
                && r->Ok_0.starts_spec() == starts@ && r->Ok_0.ends_spec() == ends@,
    {
        if addr_width == 0 || addr_width > crate::bits::MAX_WIDTH {
            return Err(RouterError::WidthError);
        }
        if starts.len() != ends.len() {
            return Err(RouterError::ShapeMismatch);
        }
        if starts.len() > MAX_NODES {
            return Err(RouterError::TooManyNodes);
        }
        let n = starts.len();
        let mut i: usize = 0;
        while i < n
            invariant
                n == starts@.len() == ends@.len(),
                i <= n,
                n <= MAX_NODES,
                valid_width(addr_width as nat),
                forall|k: int| 0 <= k < i ==> starts@[k] < #[trigger] ends@[k],
            decreases n - i,
        {
            if starts[i] >= ends[i] {
                return Err(RouterError::OverlapError);
            }
            i = i + 1;
        }
        let top = ones(addr_width);
        proof {
            lemma_modulus_bounds(addr_width as nat);
        }
        i = 0;
        while i < n
            invariant
                n == starts@.len() == ends@.len(),
                i <= n,
                n <= MAX_NODES,
                valid_width(addr_width as nat),
                top == modulus(addr_width as nat) - 1,
                ranges_nonempty(starts@, ends@),
                forall|k: int| 0 <= k < i ==> #[trigger] ends@[k] < modulus(addr_width as nat),
            decreases n - i,
        {
            if ends[i] > top {
                return Err(RouterError::AddressOverflow);
            }
            i = i + 1;
        }
        i = 0;
        while i < n
            invariant
                n == starts@.len() == ends@.len(),
                i <= n,
                n <= MAX_NODES,
                valid_width(addr_width as nat),
                ranges_nonempty(starts@, ends@),
                ranges_fit(ends@, addr_width as nat),
                forall|a: int, b: int|
                    0 <= a < i && 0 <= b < n && a != b ==> #[trigger] apart(starts@, ends@, a, b),
            decreases n - i,
        {
            let mut j: usize = 0;
            while j < n
                invariant
                    n == starts@.len() == ends@.len(),
                    i < n,
                    n <= MAX_NODES,
                    valid_width(addr_width as nat),
                    ranges_nonempty(starts@, ends@),
                    ranges_fit(ends@, addr_width as nat),
                    j <= n,
                    forall|b: int| 0 <= b < j && i != b ==> #[trigger] apart(starts@, ends@, i as int, b),
                decreases n - j,
            {
                if j != i && starts[i] < ends[j] && starts[j] < ends[i] {
                    proof {
                        assert(!apart(starts@, ends@, i as int, j as int));
                    }
                    return Err(RouterError::OverlapError);
                }
                j = j + 1;
            }
            i = i + 1;
        }
        proof {
            assert forall|a: int, b: int|
                0 <= a < n && 0 <= b < n && a != b implies #[trigger] apart(starts@, ends@, a, b) by {
                assert(apart(starts@, ends@, a, b));
            }
        }
        Ok(Router { addr_width, starts, ends })
    }

    /// Builds a router whose nodes take consecutive ranges from address zero
    /// upwards: node `i` is given `counts[i]` addresses.
    pub fn new(addr_width: u32, counts: &Vec<u64>) -> (r: Result<Router, RouterError>)
        ensures
            !valid_width(addr_width as nat) ==> r == Err::<Router, RouterError>(
                RouterError::WidthError,
            ),
            valid_width(addr_width as nat) && counts@.len() > MAX_NODES ==> r == Err::<
                Router,
                RouterError,
            >(RouterError::TooManyNodes),
            valid_width(addr_width as nat) && counts@.len() <= MAX_NODES && (exists|k: int|
                0 <= k < counts@.len() && #[trigger] counts@[k] == 0) ==> r == Err::<
                Router,
                RouterError,
            >(RouterError::OverlapError),
            valid_width(addr_width as nat) && counts@.len() <= MAX_NODES && (forall|k: int|
                0 <= k < counts@.len() ==> #[trigger] counts@[k] > 0) && prefix_sum(
                counts@,
                counts@.len() as int,
            ) >= modulus(addr_width as nat) ==> r == Err::<Router, RouterError>(
                RouterError::AddressOverflow,
            ),
            r is Ok <==> (valid_width(addr_width as nat) && counts@.len() <= MAX_NODES && (forall|
                k: int,
            |
                0 <= k < counts@.len() ==> #[trigger] counts@[k] > 0) && prefix_sum(
                counts@,
                counts@.len() as int,
            ) < modulus(addr_width as nat)),
            r is Ok ==> {
                &&& r->Ok_0.wf()
                &&& r->Ok_0.addr_width_spec() == addr_width
                &&& r->Ok_0.starts_spec().len() == counts@.len()
                &&& forall|k: int|
                    0 <= k < counts@.len() ==> #[trigger] r->Ok_0.starts_spec()[k] == prefix_sum(
                        counts@,
                        k,
                    ) && r->Ok_0.ends_spec()[k] == prefix_sum(counts@, k + 1)
            },
    {
        if addr_width == 0 || addr_width > crate::bits::MAX_WIDTH {
            return Err(RouterError::WidthError);
        }
        if counts.len() > MAX_NODES {
            return Err(RouterError::TooManyNodes);
        }
        let n = counts.len();
        let mut i: usize = 0;
        while i < n
            invariant
                n == counts@.len(),
                i <= n,
                n <= MAX_NODES,
                valid_width(addr_width as nat),
                forall|k: int| 0 <= k < i ==> #[trigger] counts@[k] > 0,
            decreases n - i,
        {
            if counts[i] == 0 {
                return Err(RouterError::OverlapError);
            }
            i = i + 1;
        }
        let top = ones(addr_width);
        proof {
            lemma_modulus_bounds(addr_width as nat);
        }
        let mut starts: Vec<u64> = Vec::new();
        let mut ends: Vec<u64> = Vec::new();
        let mut offset: u64 = 0;
        i = 0;
        while i < n
            invariant
                n == counts@.len(),
                i <= n,
                n <= MAX_NODES,
                valid_width(addr_width as nat),
                top == modulus(addr_width as nat) - 1,
                forall|k: int| 0 <= k < n ==> #[trigger] counts@[k] > 0,
                offset == prefix_sum(counts@, i as int),
                offset < modulus(addr_width as nat),
                starts@.len() == i,
                ends@.len() == i,
                forall|k: int| #![trigger starts@[k]]
                    0 <= k < i ==> starts@[k] == prefix_sum(counts@, k) && ends@[k]
                        == prefix_sum(counts@, k + 1),
            decreases n - i,
        {
            let c = counts[i];
            if c > top - offset {
                proof {
                    assert(prefix_sum(counts@, i + 1) >= modulus(addr_width as nat));
                    lemma_prefix_sum_monotone(counts@, i + 1, n as int);
                }
                return Err(RouterError::AddressOverflow);
            }
            let ghost s0 = starts@;
            let ghost e0 = ends@;
            starts.push(offset);
            offset = offset + c;
            ends.push(offset);
            proof {
                assert(prefix_sum(counts@, i + 1) == prefix_sum(counts@, i as int) + c);
            }
            i = i + 1;
            proof {
                assert forall|k: int| #![trigger starts@[k]] 0 <= k < i implies starts@[k] == prefix_sum(
                    counts@,
                    k,
                ) && ends@[k] == prefix_sum(counts@, k + 1) by {
                    if k < i - 1 {
                        assert(starts@[k] == s0[k] && ends@[k] == e0[k]);
                    }
                }
            }
        }
        let ghost cs = counts@;
        proof {
            assert forall|a: int| 0 <= a < n implies starts@[a] < #[trigger] ends@[a] by {}
            assert forall|a: int| 0 <= a < n implies #[trigger] ends@[a] < modulus(
                addr_width as nat,
            ) by {
                lemma_prefix_sum_monotone(cs, a + 1, n as int);
            }
            assert forall|a: int, b: int|
                0 <= a < n && 0 <= b < n && a != b implies #[trigger] apart(starts@, ends@, a, b) by {
                if a < b {
                    lemma_prefix_sum_monotone(cs, a + 1, b);
                } else {
                    lemma_prefix_sum_monotone(cs, b + 1, a);
                }
            }
        }
        Ok(Router { addr_width, starts, ends })
    }

    /// One evaluation of the router's logic: the inputs of its registers for the
    /// next clock edge, and what it drives upstream and into every node.
    pub fn update(&self, st: &RouterState, up: &UpstreamIn, nodes: &Vec<NodeIn>) -> (r: RouterStep)
        requires
            self.wf(),
            nodes@.len() == self.starts_spec().len(),
        ensures
            r.next == self.next_spec(*st, *up),
            r.upstream == self.upstream_spec(*st, *up, nodes@),
            r.nodes@.len() == nodes@.len(),
            forall|i: int| 0 <= i < nodes@.len() ==> #[trigger] r.nodes@[i] == self.node_out_spec(*st, *up, i),
    {
        let n = self.starts.len();
        let mut next = RouterState {
            active: st.active,
            virtual_address: st.virtual_address,
            strobe_delay: up.address_strobe,
        };
        let mut upstream = UpstreamOut { ready: false, to_controller: 0 };
        let mut outs: Vec<NodeOut> = Vec::new();
        let mut i: usize = 0;
        while i < n
            invariant
                self.wf(),
                n == self.starts_spec().len() == nodes@.len(),
                i <= n,
                next == self.next_upto(*st, *up, i as int),
                upstream == (if (st.active as int) < i {
                    UpstreamOut {
                        ready: nodes@[st.active as int].ready,
                        to_controller: nodes@[st.active as int].to_controller,
                    }
                } else {
                    UpstreamOut { ready: false, to_controller: 0 }
                }),
                outs@.len() == i,
                forall|k: int| 0 <= k < i ==> #[trigger] outs@[k] == self.node_out_spec(*st, *up, k),
            decreases n - i,
        {
            let mut out = NodeOut {
                clock: up.clock,
                from_controller: 0,
                address: 0,
                address_strobe: false,
                strobe: false,
            };
            if up.address >= self.starts[i] && up.address < self.ends[i] && up.address_strobe {
                next.active = i as u64;
                next.virtual_address = up.address - self.starts[i];
            }
            if st.active == i as u64 {
                out = NodeOut {
                    clock: up.clock,
                    from_controller: up.from_controller,
                    address: st.virtual_address,
                    address_strobe: st.strobe_delay,
                    strobe: up.strobe,
                };
                upstream = UpstreamOut { ready: nodes[i].ready, to_controller: nodes[i].to_controller };
            }
            outs.push(out);
            i = i + 1;
        }
        if up.address_strobe {
            upstream.ready = false;
        }
        RouterStep { next, upstream, nodes: outs }
    }
}

} // verus!

verus! {

proof fn lemma_last_hit_unique(router: Router, addr: u64, i: int, k: int)
    requires
        router.wf(),
        0 <= i < k <= router.starts_spec().len(),
        router.contains(i, addr),
    ensures
        router.last_hit(addr, k) == Some(i),
    decreases k,
{
    if k - 1 != i {
        assert(apart(router.starts_spec(), router.ends_spec(), i, k - 1));
        lemma_last_hit_unique(router, addr, i, k - 1);
    }
}

/// When the upstream controller strobes an address `x` that lies in node `i`'s
/// range, the next clock edge selects node `i` and latches `x - starts[i]`; in
/// the cycle after, node `i` alone receives the upstream traffic, at address
/// `x - starts[i]` with the delayed strobe, and every other node is idle.
pub proof fn lemma_router_forwards(
    router: Router,
    st: RouterState,
    up: UpstreamIn,
    later: UpstreamIn,
    i: int,
)
    requires
        router.wf(),
        0 <= i < router.starts_spec().len(),
        up.address_strobe,
        router.contains(i, up.address),
    ensures
        router.next_spec(st, up).active == i,
        router.next_spec(st, up).virtual_address == up.address - router.starts_spec()[i],
        router.node_out_spec(router.next_spec(st, up), later, i) == (NodeOut {
            clock: later.clock,
            from_controller: later.from_controller,
            address: (up.address - router.starts_spec()[i]) as u64,
            address_strobe: true,
            strobe: later.strobe,
        }),
        forall|j: int|
            0 <= j < router.starts_spec().len() && j != i ==> #[trigger] router.node_out_spec(
                router.next_spec(st, up),
                later,
                j,
            ) == idle_node(later.clock),
{
    lemma_last_hit_unique(router, up.address, i, router.starts_spec().len() as int);
}

} // verus!

verus! {

/// Every one of `n` signals marked as having a source.
spec fn all_true(n: nat) -> Seq<bool> {
    Seq::new(n, |k: int| true)
}

fn lit(width: u32, value: u64) -> (r: Expr)
    ensures
        r == Expr::Lit(BitVec { width, value }),
{
    Expr::Lit(BitVec { width, value })
}

fn sig(i: usize) -> (r: Box<Expr>)
    ensures
        *r == Expr::Sig(i),
{
    Box::new(Expr::Sig(i))
}

/// `address` lies in `[start, end)` while the address strobe is up.
fn hit_expr(address: usize, strobe: usize, addr_width: u32, start: u64, end: u64, Ghost(w): Ghost<Seq<u32>>) -> (r: Expr)
    requires
        address < w.len(),
        strobe < w.len(),
        w[address as int] == addr_width,
        w[strobe as int] == 1,
        input_or_state(address as int),
        input_or_state(strobe as int),
        valid_width(addr_width as nat),
        start < modulus(addr_width as nat),
        end < modulus(addr_width as nat),
    ensures
        width_of(r, w) == Some(1u32),
        all_sourced(r, state_mask(w.len())),
{
    let not_below = Expr::Not(Box::new(Expr::Cmp(CmpOp::Lt, sig(address), Box::new(lit(addr_width, start)))));
    let below_end = Expr::Cmp(CmpOp::Lt, sig(address), Box::new(lit(addr_width, end)));
    let r = Expr::Bin(
        BinOp::And,
        Box::new(Expr::Bin(BinOp::And, Box::new(not_below), Box::new(below_end))),
        sig(strobe),
    );
    proof {
        reveal_with_fuel(width_of, 5);
        reveal_with_fuel(all_sourced, 5);
    }
    r
}

/// The selection register holds node `i`.
fn selected(active: usize, i: u64, Ghost(w): Ghost<Seq<u32>>) -> (r: Expr)
    requires
        active < w.len(),
        w[active as int] == 8,
        input_or_state(active as int),
        i < 256,
    ensures
        width_of(r, w) == Some(1u32),
        all_sourced(r, state_mask(w.len())),
{
    proof {
        crate::bits::lemma_modulus_bounds(8);
        vstd::arithmetic::power2::lemma2_to64();
        reveal_with_fuel(width_of, 2);
        reveal_with_fuel(all_sourced, 2);
    }
    Expr::Cmp(CmpOp::Eq, sig(active), Box::new(lit(8, i)))
}

/// `selected ? Sig(x) : 0`, of width `width`.
fn gated(active: usize, i: u64, x: usize, width: u32, Ghost(w): Ghost<Seq<u32>>) -> (r: Expr)
    requires
        active < w.len(),
        w[active as int] == 8,
        i < 256,
        input_or_state(active as int),
        x < w.len(),
        input_or_state(x as int),
        w[x as int] == width,
        valid_width(width as nat),
    ensures
        width_of(r, w) == Some(width),
        all_sourced(r, state_mask(w.len())),
{
    proof {
        crate::bits::lemma_modulus_bounds(width as nat);
        reveal_with_fuel(width_of, 2);
        reveal_with_fuel(all_sourced, 2);
    }
    Expr::Mux(Box::new(selected(active, i, Ghost(w))), sig(x), Box::new(lit(width, 0)))
}

/// `c ? x : y`, for a one-bit `c` and `x`, `y` of one width.
fn mux(c: Expr, x: Expr, y: Expr, Ghost(w): Ghost<Seq<u32>>, Ghost(width): Ghost<u32>) -> (r: Expr)
    requires
        width_of(c, w) == Some(1u32),
        width_of(x, w) == Some(width),
        width_of(y, w) == Some(width),
        all_sourced(c, state_mask(w.len())),
        all_sourced(x, state_mask(w.len())),
        all_sourced(y, state_mask(w.len())),
    ensures
        width_of(r, w) == Some(width),
        all_sourced(r, state_mask(w.len())),
{
    Expr::Mux(Box::new(c), Box::new(x), Box::new(y))
}

/// A constant that fits its width.
fn lit_checked(width: u32, value: u64, Ghost(w): Ghost<Seq<u32>>) -> (r: Expr)
    requires
        valid_width(width as nat),
        value < modulus(width as nat),
    ensures
        width_of(r, w) == Some(width),
        all_sourced(r, state_mask(w.len())),
{
    lit(width, value)
}

/// `Sig(k)`, for an existing signal.
fn sig_checked(k: usize, Ghost(w): Ghost<Seq<u32>>) -> (r: Expr)
    requires
        k < w.len(),
        input_or_state(k as int),
    ensures
        width_of(r, w) == Some(w[k as int]),
        all_sourced(r, state_mask(w.len())),
{
    Expr::Sig(k)
}

/// `Sig(k) - start`, for an existing signal of width `width`.
fn offset_expr(k: usize, width: u32, start: u64, Ghost(w): Ghost<Seq<u32>>) -> (r: Expr)
    requires
        k < w.len(),
        input_or_state(k as int),
        w[k as int] == width,
        valid_width(width as nat),
        start < modulus(width as nat),
    ensures
        width_of(r, w) == Some(width),
        all_sourced(r, state_mask(w.len())),
{
    proof {
        reveal_with_fuel(width_of, 2);
        reveal_with_fuel(all_sourced, 2);
    }
    Expr::Bin(BinOp::Sub, sig(k), Box::new(lit(width, start)))
}

/// The width of signal `k` of a router netlist.
pub open spec fn port_width(k: int, a: u32, dw: u32) -> u32 {
    if k < NODE_BASE {
        if k == 1 || k == 8 {
            a
        } else if k == 3 || k == 6 {
            dw
        } else if k == 7 {
            8
        } else {
            1
        }
    } else {
        let t = (k - NODE_BASE) % (NODE_STRIDE as int);
        if t == 0 || t == 5 {
            dw
        } else if t == 1 {
            a
        } else {
            1
        }
    }
}

/// Signal `k` of a router netlist is driven from outside: the upstream
/// clock, address, address strobe, data and data strobe, and each node's
/// data and ready.
pub open spec fn port_input(k: int) -> bool {
    k < 5 || (k >= NODE_BASE && (k - NODE_BASE) % (NODE_STRIDE as int) >= 5)
}

/// Signal `k` of a router netlist is an input or one of its three registers.
pub open spec fn input_or_state(k: int) -> bool {
    port_input(k) || k == ACTIVE || k == VIRTUAL_ADDRESS || k == STROBE_DELAY
}

/// Marks, for each of `n` signals, whether it is an input or a register.
pub open spec fn state_mask(n: nat) -> Seq<bool> {
    Seq::new(n, |k: int| input_or_state(k))
}

proof fn lemma_sourced_mono(e: Expr, m1: Seq<bool>, m2: Seq<bool>)
    requires
        m1.len() == m2.len(),
        forall|k: int| 0 <= k < m1.len() && #[trigger] m1[k] ==> m2[k],
        all_sourced(e, m1),
    ensures
        all_sourced(e, m2),
    decreases e,
{
    match e {
        Expr::Sig(i) => {
            assert(m1[i as int]);
        },
        Expr::Lit(_) => {},
        Expr::Not(a) => lemma_sourced_mono(*a, m1, m2),
        Expr::Bin(_, a, b) => {
            lemma_sourced_mono(*a, m1, m2);
            lemma_sourced_mono(*b, m1, m2);
        },
        Expr::Cmp(_, a, b) => {
            lemma_sourced_mono(*a, m1, m2);
            lemma_sourced_mono(*b, m1, m2);
        },
        Expr::Mux(c, a, b) => {
            lemma_sourced_mono(*c, m1, m2);
            lemma_sourced_mono(*a, m1, m2);
            lemma_sourced_mono(*b, m1, m2);
        },
    }
}

fn node_name(i: usize, field: &str) -> (r: String) {
    let mut s = String::new();
    s.append("node");
    push_dec(&mut s, i as u64);
    s.append("_");
    s.append(field);
    s
}

/// Index of the upstream clock input in a router's netlist.
pub const CLOCK: usize = 0;
/// Index of the upstream address input.
pub const ADDRESS: usize = 1;
/// Index of the upstream address strobe input.
pub const ADDRESS_STROBE: usize = 2;
/// Index of the upstream data input.
pub const FROM_CONTROLLER: usize = 3;
/// Index of the upstream data strobe input.
pub const STROBE: usize = 4;
/// Index of the upstream ready output.
pub const READY: usize = 5;
/// Index of the upstream data output.
pub const TO_CONTROLLER: usize = 6;
/// Index of the register that holds the selected node.
pub const ACTIVE: usize = 7;
/// Index of the register that holds the selected node's relative address.
pub const VIRTUAL_ADDRESS: usize = 8;
/// Index of the register that holds the delayed address strobe.
pub const STROBE_DELAY: usize = 9;
/// Index of the first signal of node 0; node `i`'s signals start `NODE_STRIDE * i` later.
pub const NODE_BASE: usize = 10;
/// The number of signals each node adds.
pub const NODE_STRIDE: usize = 7;

impl Router {
    /// The router as a netlist named `router`, with `data_width`-bit data.
    /// Its inputs and outputs stand at the indices the constants of this
    /// module name; node `i`'s signals, from `NODE_BASE + NODE_STRIDE * i`,
    /// are its data, address, address strobe, data strobe and clock outputs,
    /// then its data and ready inputs. Three registers clocked by the upstream
    /// clock hold the selected node, its relative address and the delayed
    /// address strobe; the remaining signals are combinational functions of
    /// these registers and the inputs, built on the same decoding as
    /// `update`. The netlist passes `connect_all` for every supported data
    /// width, and its combinational units read only inputs and registers and
    /// drive neither, so it has no combinational loop.
    pub fn to_design(&self, data_width: u32) -> (r: Result<Design, BuildError>)
        requires
            self.wf(),
        ensures
            !valid_width(data_width as nat) ==> r == Err::<Design, BuildError>(BuildError::WidthError),
            valid_width(data_width as nat) ==> r is Ok,
            r is Ok ==> {
                let d = r->Ok_0;
                &&& d.valid()
                &&& d.signals@.len() == NODE_BASE + NODE_STRIDE * self.starts_spec().len()
                &&& forall|k: int| #![trigger d.signals@[k]] 0 <= k < d.signals@.len() ==> d.signals@[k].width == port_width(k, self.addr_width_spec() as u32, data_width)
                    && ((d.signals@[k].direction == Direction::Input) == port_input(k))
                    && d.signals@[k].direction != Direction::InOut
                &&& forall|u: int| 0 <= u < d.units@.len() ==> all_sourced(#[trigger] d.units@[u].body, state_mask(d.signals@.len()))
                &&& comb_reads_within(d, state_mask(d.signals@.len()))
            },
    {
        if data_width == 0 || data_width > MAX_WIDTH {
            return Err(BuildError::WidthError);
        }
        let a = self.addr_width;
        let n = self.starts.len();
        let dw = data_width;
        let mut d = Design::new(String::from_str("router"));
        d.signals.push(SignalDecl { name: String::from_str("clock"), width: 1, direction: Direction::Input });
        d.signals.push(SignalDecl { name: String::from_str("address"), width: a, direction: Direction::Input });
        d.signals.push(SignalDecl { name: String::from_str("address_strobe"), width: 1, direction: Direction::Input });
        d.signals.push(SignalDecl { name: String::from_str("from_controller"), width: dw, direction: Direction::Input });
        d.signals.push(SignalDecl { name: String::from_str("strobe"), width: 1, direction: Direction::Input });
        d.signals.push(SignalDecl { name: String::from_str("ready"), width: 1, direction: Direction::Output });
        d.signals.push(SignalDecl { name: String::from_str("to_controller"), width: dw, direction: Direction::Output });
        d.signals.push(SignalDecl { name: String::from_str("active"), width: 8, direction: Direction::Internal });
        d.signals.push(SignalDecl { name: String::from_str("virtual_address"), width: a, direction: Direction::Internal });
        d.signals.push(SignalDecl { name: String::from_str("strobe_delay"), width: 1, direction: Direction::Internal });
        let mut i: usize = 0;
        while i < n
            invariant
                n == self.starts_spec().len(),
                n <= MAX_NODES,
                i <= n,
                d.units@.len() == 0,
                d.signals@.len() == NODE_BASE + NODE_STRIDE * i,
                forall|k: int| #![trigger d.signals@[k]] 0 <= k < d.signals@.len() ==> d.signals@[k].width == port_width(k, a, dw)
                    && ((d.signals@[k].direction == Direction::Input) == port_input(k))
                    && d.signals@[k].direction != Direction::InOut,
            decreases n - i,
        {
            let ghost before = d.signals@.len() as int;
            let ghost old_sigs = d.signals@;
            d.signals.push(SignalDecl { name: node_name(i, "from_controller"), width: dw, direction: Direction::Output });
            d.signals.push(SignalDecl { name: node_name(i, "address"), width: a, direction: Direction::Output });
            d.signals.push(SignalDecl { name: node_name(i, "address_strobe"), width: 1, direction: Direction::Output });
            d.signals.push(SignalDecl { name: node_name(i, "strobe"), width: 1, direction: Direction::Output });
            d.signals.push(SignalDecl { name: node_name(i, "clock"), width: 1, direction: Direction::Output });
            d.signals.push(SignalDecl { name: node_name(i, "to_controller"), width: dw, direction: Direction::Input });
            d.signals.push(SignalDecl { name: node_name(i, "ready"), width: 1, direction: Direction::Input });
            proof {
                lemma_node_port(i as int, 0, a, dw);
                lemma_node_port(i as int, 1, a, dw);
                lemma_node_port(i as int, 2, a, dw);
                lemma_node_port(i as int, 3, a, dw);
                lemma_node_port(i as int, 4, a, dw);
                lemma_node_port(i as int, 5, a, dw);
                lemma_node_port(i as int, 6, a, dw);
                assert forall|k: int| #![trigger d.signals@[k]] 0 <= k < d.signals@.len() implies d.signals@[k].width == port_width(k, a, dw)
                    && ((d.signals@[k].direction == Direction::Input) == port_input(k))
                    && d.signals@[k].direction != Direction::InOut by {
                    if k >= before {
                        lemma_node_port(i as int, k - before, a, dw);
                        assert(NODE_BASE + NODE_STRIDE * i + (k - before) == k);
                    } else {
                        assert(old_sigs[k] == d.signals@[k]);
                        assert(old_sigs[k].width == port_width(k, a, dw));
                    }
                }
            }
            i = i + 1;
        }
        let ghost w = d.widths();
        let ghost sigs = d.signals@;
        let ghost total = d.signals@.len();
        proof {
            assert(w.len() == total);
            assert(forall|k: int| 0 <= k < total ==> #[trigger] w[k] == port_width(k, a, dw));
            lemma_modulus_bounds(a as nat);
            lemma_modulus_bounds(dw as nat);
            lemma_modulus_bounds(8);
            vstd::arithmetic::power2::lemma2_to64();
        }
        let mut next_active = sig_checked(7, Ghost(w));
        let mut next_virtual = sig_checked(8, Ghost(w));
        let mut reply = lit_checked(dw, 0, Ghost(w));
        let mut node_ready = lit_checked(1, 0, Ghost(w));
        i = 0;
        while i < n
            invariant
                self.wf(),
                n == self.starts_spec().len() == self.ends_spec().len(),
                n <= MAX_NODES,
                i <= n,
                a == self.addr_width_spec(),
                valid_width(dw as nat),
                d.signals@ == sigs,
                forall|k: int| #![trigger sigs[k]] 0 <= k < sigs.len() ==> sigs[k].width == port_width(k, a, dw)
                    && ((sigs[k].direction == Direction::Input) == port_input(k))
                    && sigs[k].direction != Direction::InOut,
                total == NODE_BASE + NODE_STRIDE * n,
                w == d.widths(),
                w.len() == total,
                forall|k: int| 0 <= k < total ==> #[trigger] w[k] == port_width(k, a, dw),
                d.units@.len() == 5 * i,
                forall|u: int| 0 <= u < d.units@.len() ==> {
                    &&& (#[trigger] d.units@[u]).target == NODE_BASE + NODE_STRIDE * (u / 5) + u % 5
                    &&& d.units@[u].clock is None
                    &&& width_of(d.units@[u].body, w) == Some(port_width(d.units@[u].target as int, a, dw))
                    &&& all_sourced(d.units@[u].body, state_mask(total))
                },
                width_of(next_active, w) == Some(8u32),
                all_sourced(next_active, state_mask(total)),
                width_of(next_virtual, w) == Some(a),
                all_sourced(next_virtual, state_mask(total)),
                width_of(reply, w) == Some(dw),
                all_sourced(reply, state_mask(total)),
                width_of(node_ready, w) == Some(1u32),
                all_sourced(node_ready, state_mask(total)),
            decreases n - i,
        {
            let start = self.starts[i];
            let end = self.ends[i];
            let base = NODE_BASE + NODE_STRIDE * i;
            proof {
                assert(start < end);
                assert(end < modulus(a as nat));
                vstd::arithmetic::power2::lemma2_to64();
                lemma_modulus_bounds(8);
                lemma_node_port(i as int, 0, a, dw);
                lemma_node_port(i as int, 1, a, dw);
                lemma_node_port(i as int, 2, a, dw);
                lemma_node_port(i as int, 3, a, dw);
                lemma_node_port(i as int, 4, a, dw);
                lemma_node_port(i as int, 5, a, dw);
                lemma_node_port(i as int, 6, a, dw);
            }
            next_active = mux(
                hit_expr(ADDRESS, ADDRESS_STROBE, a, start, end, Ghost(w)),
                lit_checked(8, i as u64, Ghost(w)),
                next_active,
                Ghost(w),
                Ghost(8u32),
            );
            next_virtual = mux(
                hit_expr(ADDRESS, ADDRESS_STROBE, a, start, end, Ghost(w)),
                offset_expr(ADDRESS, a, start, Ghost(w)),
                next_virtual,
                Ghost(w),
                Ghost(a),
            );
            reply = mux(selected(7, i as u64, Ghost(w)), sig_checked(base + 5, Ghost(w)), reply, Ghost(w), Ghost(dw));
            node_ready = mux(selected(7, i as u64, Ghost(w)), sig_checked(base + 6, Ghost(w)), node_ready, Ghost(w), Ghost(1u32));
            let ghost u0 = d.units@.len() as int;
            d.add_comb(node_name(i, "from_controller"), base, gated(7, i as u64, FROM_CONTROLLER, dw, Ghost(w)));
            d.add_comb(node_name(i, "address"), base + 1, gated(7, i as u64, 8, a, Ghost(w)));
            d.add_comb(node_name(i, "address_strobe"), base + 2, gated(7, i as u64, 9, 1, Ghost(w)));
            d.add_comb(node_name(i, "strobe"), base + 3, gated(7, i as u64, STROBE, 1, Ghost(w)));
            d.add_comb(node_name(i, "clock"), base + 4, Expr::Sig(CLOCK));
            proof {
                lemma_offset(i as int, 0, 5);
                lemma_offset(i as int, 1, 5);
                lemma_offset(i as int, 2, 5);
                lemma_offset(i as int, 3, 5);
                lemma_offset(i as int, 4, 5);
                assert(d.units@[u0 + 4].target == NODE_BASE + NODE_STRIDE * ((u0 + 4) / 5) + (u0 + 4) % 5);
            }
            i = i + 1;
        }
        let ghost m0 = d.units@.len() as int;
        d.add_reg(String::from_str("active"), 7, CLOCK, next_active);
        d.add_reg(String::from_str("virtual_address"), 8, CLOCK, next_virtual);
        d.add_reg(String::from_str("strobe_delay"), 9, CLOCK, Expr::Sig(ADDRESS_STROBE));
        d.add_comb(String::from_str("to_controller"), TO_CONTROLLER, reply);
        d.add_comb(
            String::from_str("ready"),
            READY,
            Expr::Bin(BinOp::And, Box::new(Expr::Not(sig(ADDRESS_STROBE))), Box::new(node_ready)),
        );
        proof {
            reveal_with_fuel(width_of, 3);
            reveal_with_fuel(all_sourced, 3);
            lemma_router_netlist_valid(d, a, dw, n as int, m0);
        }
        match d.connect_all() {
            Ok(()) => Ok(d),
            Err(e) => Err(e),
        }
    }
}

} // verus!

verus! {

proof fn lemma_offset(i: int, t: int, m: int)
    requires
        0 <= i,
        0 <= t < m,
    ensures
        (m * i + t) % m == t,
        (m * i + t) / m == i,
{
    vstd::arithmetic::mul::lemma_mul_is_commutative(m, i);
    vstd::arithmetic::div_mod::lemma_fundamental_div_mod_converse(m * i + t, m, i, t);
}

proof fn lemma_node_port(i: int, t: int, a: u32, dw: u32)
    requires
        0 <= i,
        0 <= t < 7,
    ensures
        port_width(NODE_BASE + NODE_STRIDE * i + t, a, dw) == (if t == 0 || t == 5 {
            dw
        } else if t == 1 {
            a
        } else {
            1u32
        }),
        port_input(NODE_BASE + NODE_STRIDE * i + t) == (t >= 5),
{
    lemma_offset(i, t, 7);
    assert(NODE_BASE + NODE_STRIDE * i + t - NODE_BASE == 7 * i + t);
}

proof fn lemma_router_netlist_valid(d: Design, a: u32, dw: u32, n: int, m0: int)
    requires
        valid_width(a as nat),
        valid_width(dw as nat),
        0 <= n <= MAX_NODES,
        m0 == 5 * n,
        d.signals@.len() == NODE_BASE + NODE_STRIDE * n,
        d.units@.len() == m0 + 5,
        forall|k: int| 0 <= k < d.signals@.len() ==> #[trigger] d.signals@[k].width == port_width(k, a, dw)
            && ((d.signals@[k].direction == Direction::Input) == port_input(k))
            && d.signals@[k].direction != Direction::InOut,
        forall|u: int| 0 <= u < m0 ==> {
            &&& (#[trigger] d.units@[u]).target == NODE_BASE + NODE_STRIDE * (u / 5) + u % 5
            &&& d.units@[u].clock is None
            &&& width_of(d.units@[u].body, d.widths()) == Some(port_width(d.units@[u].target as int, a, dw))
            &&& all_sourced(d.units@[u].body, state_mask(d.signals@.len()))
        },
        d.units@[m0].target == 7 && d.units@[m0].clock == Some(CLOCK),
        d.units@[m0 + 1].target == 8 && d.units@[m0 + 1].clock == Some(CLOCK),
        d.units@[m0 + 2].target == 9 && d.units@[m0 + 2].clock == Some(CLOCK),
        d.units@[m0 + 3].target == 6 && d.units@[m0 + 3].clock is None,
        d.units@[m0 + 4].target == 5 && d.units@[m0 + 4].clock is None,
        forall|u: int| m0 <= u < m0 + 5 ==> width_of((#[trigger] d.units@[u]).body, d.widths()) == Some(
            port_width(d.units@[u].target as int, a, dw),
        ) && all_sourced(d.units@[u].body, state_mask(d.signals@.len())),
    ensures
        d.valid(),
        forall|u: int| 0 <= u < d.units@.len() ==> all_sourced(#[trigger] d.units@[u].body, state_mask(d.signals@.len())),
        comb_reads_within(d, state_mask(d.signals@.len())),
{
    let total = d.signals@.len();
    assert forall|k: int| 0 <= k < total implies valid_width(#[trigger] d.signals@[k].width as nat) by {
        assert(d.signals@[k].width == port_width(k, a, dw));
    }
    assert forall|u: int| 0 <= u < d.units@.len() implies #[trigger] d.unit_well_typed(u) by {
        if u < m0 {
            assert(u / 5 < n);
            assert(u % 5 < 5);
        }
    }
    assert forall|k: int| 0 <= k < total implies #[trigger] d.sourced(k) by {
        assert(d.signals@[k].width == port_width(k, a, dw));
        if port_input(k) {
            assert(d.external(k));
        } else if k >= NODE_BASE {
            let j = (k - NODE_BASE) / 7;
            let t = (k - NODE_BASE) % 7;
            vstd::arithmetic::div_mod::lemma_fundamental_div_mod(k - NODE_BASE, 7);
            assert(0 <= t < 5);
            assert(0 <= j < n);
            let u = 5 * j + t;
            lemma_offset(j, t, 5);
            assert(0 <= u < m0);
            assert(d.units@[u].target == NODE_BASE + NODE_STRIDE * (u / 5) + u % 5);
            assert(d.units@[u].target == k);
            assert(d.driven(k));
        } else if k == 5 {
            assert(d.units@[m0 + 4].target == k);
        } else if k == 6 {
            assert(d.units@[m0 + 3].target == k);
        } else if k == 7 {
            assert(d.units@[m0].target == k);
        } else if k == 8 {
            assert(d.units@[m0 + 1].target == k);
        } else if k == 9 {
            assert(d.units@[m0 + 2].target == k);
        }
    }
    assert(d.source_map() =~= all_true(total));
    assert forall|u: int, v: int| 0 <= u < d.units@.len() && 0 <= v < d.units@.len() implies !#[trigger] d.conflict(u, v) by {
        if u != v && d.units@[u].target == d.units@[v].target {
            if u < m0 && v < m0 {
                vstd::arithmetic::div_mod::lemma_fundamental_div_mod(u, 5);
                vstd::arithmetic::div_mod::lemma_fundamental_div_mod(v, 5);
            }
        }
    }
    assert forall|u: int| 0 <= u < d.units@.len() implies #[trigger] d.unit_connected(u) by {
        assert(d.sourced(CLOCK as int));
        lemma_sourced_mono(d.units@[u].body, state_mask(total), all_true(total));
    }
    assert forall|u: int| 0 <= u < d.units@.len() && (#[trigger] d.units@[u]).clock is None implies !state_mask(total)[d.units@[u].target as int] by {
        if u < m0 {
            let j = u / 5;
            let t = u % 5;
            vstd::arithmetic::div_mod::lemma_fundamental_div_mod(u, 5);
            lemma_offset(j, t, 7);
            assert(d.units@[u].target - NODE_BASE == 7 * j + t);
        }
    }
}

} // verus!

verus! {

/// The register state after the router has seen the upstream inputs `ups`,
/// one per cycle, starting from `st`.
pub open spec fn run(router: Router, st: RouterState, ups: Seq<UpstreamIn>) -> RouterState
    decreases ups.len(),
{
    if ups.len() == 0 {
        st
    } else {
        router.next_spec(run(router, st, ups.drop_last()), ups.last())
    }
}

/// After a strobe of an address `x` in node `i`'s range, and for as long as
/// no further address is strobed, node `i` stays selected: in every later
/// cycle it alone receives the upstream data and data strobe, at address
/// `x - starts[i]`, with its address strobe raised in the first cycle only;
/// every other node is idle.
pub proof fn lemma_router_keeps_route(router: Router, st: RouterState, ups: Seq<UpstreamIn>, i: int, k: int)
    requires
        router.wf(),
        0 <= i < router.starts_spec().len(),
        1 <= k < ups.len(),
        ups[0].address_strobe,
        router.contains(i, ups[0].address),
        forall|c: int| 1 <= c < ups.len() ==> !(#[trigger] ups[c]).address_strobe,
    ensures
        run(router, st, ups.take(k)).active == i,
        run(router, st, ups.take(k)).virtual_address == ups[0].address - router.starts_spec()[i],
        router.node_out_spec(run(router, st, ups.take(k)), ups[k], i) == (NodeOut {
            clock: ups[k].clock,
            from_controller: ups[k].from_controller,
            address: (ups[0].address - router.starts_spec()[i]) as u64,
            address_strobe: k == 1,
            strobe: ups[k].strobe,
        }),
        forall|j: int|
            0 <= j < router.starts_spec().len() && j != i ==> #[trigger] router.node_out_spec(
                run(router, st, ups.take(k)),
                ups[k],
                j,
            ) == idle_node(ups[k].clock),
    decreases k,
{
    let pre = ups.take(k);
    assert(pre.drop_last() =~= ups.take(k - 1));
    assert(pre.last() == ups[k - 1]);
    if k == 1 {
        assert(ups.take(0) =~= Seq::<UpstreamIn>::empty());
        lemma_last_hit_unique(router, ups[0].address, i, router.starts_spec().len() as int);
    } else {
        lemma_router_keeps_route(router, st, ups, i, k - 1);
    }
}

} // verus!

verus! {

/// The name of field `t` of a router bus bundle.
pub open spec fn bus_field(t: int) -> Seq<char> {
    if t == 0 {
        "from_controller"@
    } else if t == 1 {
        "address"@
    } else if t == 2 {
        "address_strobe"@
    } else if t == 3 {
        "strobe"@
    } else if t == 4 {
        "clock"@
    } else if t == 5 {
        "to_controller"@
    } else {
        "ready"@
    }
}

/// The netlist index of field `t` of the upstream bundle.
pub open spec fn upstream_signal(t: int) -> int {
    if t == 0 {
        FROM_CONTROLLER as int
    } else if t == 1 {
        ADDRESS as int
    } else if t == 2 {
        ADDRESS_STROBE as int
    } else if t == 3 {
        STROBE as int
    } else if t == 4 {
        CLOCK as int
    } else if t == 5 {
        TO_CONTROLLER as int
    } else {
        READY as int
    }
}

fn bus_bundle(s: [usize; 7]) -> (r: Bundle)
    ensures
        r.ports@.len() == 7,
        forall|t: int| 0 <= t < 7 ==> (#[trigger] r.ports@[t]).signal == s@[t] && r.ports@[t].name@ == bus_field(t),
{
    let mut ports: Vec<Port> = Vec::new();
    ports.push(Port { name: String::from_str("from_controller"), signal: s[0] });
    ports.push(Port { name: String::from_str("address"), signal: s[1] });
    ports.push(Port { name: String::from_str("address_strobe"), signal: s[2] });
    ports.push(Port { name: String::from_str("strobe"), signal: s[3] });
    ports.push(Port { name: String::from_str("clock"), signal: s[4] });
    ports.push(Port { name: String::from_str("to_controller"), signal: s[5] });
    ports.push(Port { name: String::from_str("ready"), signal: s[6] });
    Bundle { ports }
}

impl Router {
    /// The upstream bus of the netlist `to_design` builds, as a bundle whose
    /// ports carry the bus fields in the order `bus_field` gives.
    pub fn upstream_bundle(&self) -> (r: Bundle)
        ensures
            r.ports@.len() == 7,
            forall|t: int| 0 <= t < 7 ==> (#[trigger] r.ports@[t]).signal == upstream_signal(t) && r.ports@[t].name@ == bus_field(t),
    {
        bus_bundle([FROM_CONTROLLER, ADDRESS, ADDRESS_STROBE, STROBE, CLOCK, TO_CONTROLLER, READY])
    }

    /// The bus of node `i` in the netlist `to_design` builds, as a bundle
    /// with the same fields in the same order as `upstream_bundle`.
    pub fn node_bundle(&self, i: usize) -> (r: Bundle)
        requires
            i < self.starts_spec().len(),
            self.wf(),
        ensures
            r.ports@.len() == 7,
            forall|t: int| 0 <= t < 7 ==> (#[trigger] r.ports@[t]).signal == NODE_BASE + NODE_STRIDE * i + t && r.ports@[t].name@ == bus_field(t),
    {
        let b = NODE_BASE + NODE_STRIDE * i;
        bus_bundle([b, b + 1, b + 2, b + 3, b + 4, b + 5, b + 6])
    }
}

} // verus!

