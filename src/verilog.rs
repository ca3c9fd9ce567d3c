//! Verilog emission: a structural walk of a checked design that prints one
//! declaration per signal, one `assign` per combinational unit and one
//! clocked `always` block per register, with the same operators the
//! simulator evaluates.
use crate::design::{Design, Direction, Unit};
use crate::expr::{BinOp, CmpOp, Expr};
use vstd::prelude::*;

verus! {

/// Why a design could not be printed.
#[derive(Debug, Clone, Copy, PartialEq, Eq, Structural)]
pub enum CodegenError {
    /// The design's own name is not a Verilog identifier.
    BadModuleName,
    /// The name of the signal with this index is not a Verilog identifier.
    UnsupportedConstruct(usize),
}

/// A character allowed anywhere in an identifier.
pub open spec fn ident_char(c: char) -> bool {
    ('a' <= c && c <= 'z') || ('A' <= c && c <= 'Z') || ('0' <= c && c <= '9') || c == '_'
}

/// A plain Verilog identifier: non-empty, of letters, digits and `_`, not starting with a digit.
pub open spec fn is_ident(s: Seq<char>) -> bool {
    &&& s.len() > 0
    &&& !('0' <= s[0] && s[0] <= '9')
    &&& forall|i: int| 0 <= i < s.len() ==> ident_char(#[trigger] s[i])
}

/// The decimal digit `d`.
pub open spec fn digit_text(d: nat) -> Seq<char> {
    if d == 0 {
        "0"@
    } else if d == 1 {
        "1"@
    } else if d == 2 {
        "2"@
    } else if d == 3 {
        "3"@
    } else if d == 4 {
        "4"@
    } else if d == 5 {
        "5"@
    } else if d == 6 {
        "6"@
    } else if d == 7 {
        "7"@
    } else if d == 8 {
        "8"@
    } else {
        "9"@
    }
}

/// `n` in decimal, without leading zeros.
pub open spec fn dec(n: nat) -> Seq<char>
    decreases n,
{
    if n < 10 {
        digit_text(n)
    } else {
        dec(n / 10) + digit_text(n % 10)
    }
}

/// The name of signal `i`, or an unknown bit where there is none.
pub open spec fn sig_text(d: Design, i: usize) -> Seq<char> {
    if i < d.signals@.len() {
        d.signals@[i as int].name@
    } else {
        "1'bx"@
    }
}

/// The Verilog operator for a binary operation.
pub open spec fn bin_text(op: BinOp) -> Seq<char> {
    match op {
        BinOp::Add => " + "@,
        BinOp::Sub => " - "@,
        BinOp::And => " & "@,
        BinOp::Or => " | "@,
        BinOp::Xor => " ^ "@,
    }
}

/// The Verilog operator for a comparison.
pub open spec fn cmp_text(op: CmpOp) -> Seq<char> {
    match op {
        CmpOp::Eq => " == "@,
        CmpOp::Lt => " < "@,
    }
}

/// The Verilog text of an expression, fully parenthesised.
pub open spec fn expr_text(d: Design, e: Expr) -> Seq<char>
    decreases e,
{
    match e {
        Expr::Sig(i) => sig_text(d, i),
        Expr::Lit(v) => dec(v.width as nat) + "'d"@ + dec(v.value as nat),
        Expr::Not(a) => "(~"@ + expr_text(d, *a) + ")"@,
        Expr::Bin(op, a, b) => "("@ + expr_text(d, *a) + bin_text(op) + expr_text(d, *b) + ")"@,
        Expr::Cmp(op, a, b) => "("@ + expr_text(d, *a) + cmp_text(op) + expr_text(d, *b) + ")"@,
        Expr::Mux(c, a, b) => "("@ + expr_text(d, *c) + " ? "@ + expr_text(d, *a) + " : "@ + expr_text(d, *b) + ")"@,
    }
}

/// Some register drives signal `s`.
pub open spec fn is_reg(d: Design, s: int) -> bool {
    exists|u: int| 0 <= u < d.units@.len() && #[trigger] d.units@[u].target == s && d.units@[u].clock is Some
}

/// The keyword that opens the declaration of signal `s`.
pub open spec fn decl_kind(d: Design, s: int) -> Seq<char> {
    let kind = if is_reg(d, s) {
        "reg"@
    } else {
        "wire"@
    };
    match d.signals@[s].direction {
        Direction::Input => "input "@ + kind,
        Direction::Output => "output "@ + kind,
        Direction::InOut => "inout "@ + kind,
        Direction::Internal => kind,
    }
}

/// The declaration of signal `s`.
pub open spec fn decl_text(d: Design, s: int) -> Seq<char> {
    "    "@ + decl_kind(d, s) + " ["@ + dec((d.signals@[s].width - 1) as nat) + ":0] "@ + d.signals@[s].name@ + ";\n"@
}

/// The port list entries of the first `k` signals that are not internal.
pub open spec fn ports_text(d: Design, k: int) -> Seq<char>
    decreases k,
{
    if k <= 0 {
        Seq::empty()
    } else {
        let rest = ports_text(d, k - 1);
        if d.signals@[k - 1].direction == Direction::Internal {
            rest
        } else if rest.len() == 0 {
            d.signals@[k - 1].name@
        } else {
            rest + ", "@ + d.signals@[k - 1].name@
        }
    }
}

/// The declarations of the first `k` signals.
pub open spec fn decls_text(d: Design, k: int) -> Seq<char>
    decreases k,
{
    if k <= 0 {
        Seq::empty()
    } else {
        decls_text(d, k - 1) + decl_text(d, k - 1)
    }
}

/// The statement for one unit.
pub open spec fn unit_text(d: Design, u: Unit) -> Seq<char> {
    match u.clock {
        None => "    assign "@ + sig_text(d, u.target) + " = "@ + expr_text(d, u.body) + ";\n"@,
        Some(c) => "    always @(posedge "@ + sig_text(d, c) + ") "@ + sig_text(d, u.target) + " <= "@
            + expr_text(d, u.body) + ";\n"@,
    }
}

/// The statements for the first `k` units.
pub open spec fn units_text(d: Design, k: int) -> Seq<char>
    decreases k,
{
    if k <= 0 {
        Seq::empty()
    } else {
        units_text(d, k - 1) + unit_text(d, d.units@[k - 1])
    }
}

/// The whole module.
pub open spec fn module_text(d: Design) -> Seq<char> {
    "module "@ + d.name@ + "("@ + ports_text(d, d.signals@.len() as int) + ");\n"@ + decls_text(
        d,
        d.signals@.len() as int,
    ) + units_text(d, d.units@.len() as int) + "endmodule\n"@
}

/// Every name in the design is a plain identifier.
pub open spec fn names_ok(d: Design) -> bool {
    &&& is_ident(d.name@)
    &&& forall|i: int| 0 <= i < d.signals@.len() ==> is_ident(#[trigger] d.signals@[i].name@)
}

fn digit_str(n: u64) -> (r: &'static str)
    requires
        n < 10,
    ensures
        r@ == digit_text(n as nat),
{
    if n == 0 {
        "0"
    } else if n == 1 {
        "1"
    } else if n == 2 {
        "2"
    } else if n == 3 {
        "3"
    } else if n == 4 {
        "4"
    } else if n == 5 {
        "5"
    } else if n == 6 {
        "6"
    } else if n == 7 {
        "7"
    } else if n == 8 {
        "8"
    } else {
        "9"
    }
}

pub(crate) fn push_dec(out: &mut String, n: u64)
    ensures
        final(out)@ == old(out)@ + dec(n as nat),
    decreases n,
{
    if n < 10 {
        out.append(digit_str(n));
    } else {
        push_dec(out, n / 10);
        out.append(digit_str(n % 10));
        proof {
            assert(final(out)@ =~= old(out)@ + dec(n as nat));
        }
    }
}

fn check_ident(s: &String) -> (r: bool)
    ensures
        r == is_ident(s@),
{
    let t = s.as_str();
    let n = t.unicode_len();
    if n == 0 {
        return false;
    }
    let c0 = t.get_char(0);
    if '0' <= c0 && c0 <= '9' {
        return false;
    }
    let mut i: usize = 0;
    while i < n
        invariant
            n == s@.len(),
            t@ == s@,
            i <= n,
            forall|k: int| 0 <= k < i ==> ident_char(#[trigger] s@[k]),
        decreases n - i,
    {
        let c = t.get_char(i);
        if !(('a' <= c && c <= 'z') || ('A' <= c && c <= 'Z') || ('0' <= c && c <= '9') || c == '_') {
            return false;
        }
        i = i + 1;
    }
    true
}

fn push_sig(out: &mut String, d: &Design, i: usize)
    ensures
        final(out)@ == old(out)@ + sig_text(*d, i),
{
    if i < d.signals.len() {
        out.append(d.signals[i].name.as_str());
    } else {
        out.append("1'bx");
    }
}

fn push_expr(out: &mut String, d: &Design, e: &Expr)
    ensures
        final(out)@ == old(out)@ + expr_text(*d, *e),
    decreases e,
{
    let ghost start = out@;
    match e {
        Expr::Sig(i) => push_sig(out, d, *i),
        Expr::Lit(v) => {
            push_dec(out, v.width as u64);
            out.append("'d");
            push_dec(out, v.value);
        },
        Expr::Not(a) => {
            out.append("(~");
            push_expr(out, d, a);
            out.append(")");
        },
        Expr::Bin(op, a, b) => {
            out.append("(");
            push_expr(out, d, a);
            out.append(
                match op {
                    BinOp::Add => " + ",
                    BinOp::Sub => " - ",
                    BinOp::And => " & ",
                    BinOp::Or => " | ",
                    BinOp::Xor => " ^ ",
                },
            );
            push_expr(out, d, b);
            out.append(")");
        },
        Expr::Cmp(op, a, b) => {
            out.append("(");
            push_expr(out, d, a);
            out.append(
                match op {
                    CmpOp::Eq => " == ",
                    CmpOp::Lt => " < ",
                },
            );
            push_expr(out, d, b);
            out.append(")");
        },
        Expr::Mux(c, a, b) => {
            out.append("(");
            push_expr(out, d, c);
            out.append(" ? ");
            push_expr(out, d, a);
            out.append(" : ");
            push_expr(out, d, b);
            out.append(")");
        },
    }
    proof {
        assert(out@ =~= start + expr_text(*d, *e));
    }
}

fn reg_driven(d: &Design, s: usize) -> (r: bool)
    ensures
        r == is_reg(*d, s as int),
{
    let m = d.units.len();
    let mut u: usize = 0;
    while u < m
        invariant
            m == d.units@.len(),
            u <= m,
            forall|k: int| 0 <= k < u ==> !(#[trigger] d.units@[k].target == s && d.units@[k].clock is Some),
        decreases m - u,
    {
        if d.units[u].target == s && d.units[u].clock.is_some() {
            return true;
        }
        u = u + 1;
    }
    false
}

fn push_decl(out: &mut String, d: &Design, s: usize)
    requires
        s < d.signals@.len(),
        crate::bits::valid_width(d.signals@[s as int].width as nat),
    ensures
        final(out)@ == old(out)@ + decl_text(*d, s as int),
{
    let ghost start = out@;
    let sig = &d.signals[s];
    out.append("    ");
    match sig.direction {
        Direction::Input => out.append("input "),
        Direction::Output => out.append("output "),
        Direction::InOut => out.append("inout "),
        Direction::Internal => {},
    }
    if reg_driven(d, s) {
        out.append("reg");
    } else {
        out.append("wire");
    }
    out.append(" [");
    push_dec(out, (sig.width - 1) as u64);
    out.append(":0] ");
    out.append(sig.name.as_str());
    out.append(";\n");
    proof {
        assert(out@ =~= start + decl_text(*d, s as int));
    }
}

fn push_unit(out: &mut String, d: &Design, u: &Unit)
    ensures
        final(out)@ == old(out)@ + unit_text(*d, *u),
{
    let ghost start = out@;
    match u.clock {
        None => {
            out.append("    assign ");
            push_sig(out, d, u.target);
            out.append(" = ");
            push_expr(out, d, &u.body);
            out.append(";\n");
        },
        Some(c) => {
            out.append("    always @(posedge ");
            push_sig(out, d, c);
            out.append(") ");
            push_sig(out, d, u.target);
            out.append(" <= ");
            push_expr(out, d, &u.body);
            out.append(";\n");
        },
    }
    proof {
        assert(out@ =~= start + unit_text(*d, *u));
    }
}

/// Prints a checked design as one Verilog module: a port for every signal
/// that is not internal, a declaration for every signal (`reg` exactly for
/// those a register drives), an `assign` for every combinational unit and an
/// `always @(posedge ..)` block for every register, in declaration order.
/// A name that is not a plain identifier is refused.
pub fn generate(d: &Design) -> (r: Result<String, CodegenError>)
    requires
        d.valid(),
    ensures
        r is Ok <==> names_ok(*d),
        !is_ident(d.name@) ==> r == Err::<String, CodegenError>(CodegenError::BadModuleName),
        r is Err && r->Err_0 is UnsupportedConstruct ==> r->Err_0->UnsupportedConstruct_0 < d.signals@.len()
            && !is_ident(d.signals@[r->Err_0->UnsupportedConstruct_0 as int].name@),
        r is Ok ==> r->Ok_0@ == module_text(*d),
{
    if !check_ident(&d.name) {
        return Err(CodegenError::BadModuleName);
    }
    let n = d.signals.len();
    let mut i: usize = 0;
    while i < n
        invariant
            n == d.signals@.len(),
            i <= n,
            is_ident(d.name@),
            forall|k: int| 0 <= k < i ==> is_ident(#[trigger] d.signals@[k].name@),
        decreases n - i,
    {
        if !check_ident(&d.signals[i].name) {
            return Err(CodegenError::UnsupportedConstruct(i));
        }
        i = i + 1;
    }
    let mut ports = String::new();
    i = 0;
    while i < n
        invariant
            n == d.signals@.len(),
            i <= n,
            ports@ == ports_text(*d, i as int),
        decreases n - i,
    {
        let sig = &d.signals[i];
        if sig.direction != Direction::Internal {
            if ports.unicode_len() != 0 {
                ports.append(", ");
            }
            ports.append(sig.name.as_str());
        }
        i = i + 1;
    }
    let mut out = String::new();
    out.append("module ");
    out.append(d.name.as_str());
    out.append("(");
    out.append(ports.as_str());
    out.append(");\n");
    let ghost head = out@;
    i = 0;
    while i < n
        invariant
            n == d.signals@.len(),
            i <= n,
            d.widths_valid(),
            out@ == head + decls_text(*d, i as int),
        decreases n - i,
    {
        push_decl(&mut out, d, i);
        i = i + 1;
        proof {
            assert(out@ =~= head + decls_text(*d, i as int));
        }
    }
    let ghost mid = out@;
    let m = d.units.len();
    let mut u: usize = 0;
    while u < m
        invariant
            m == d.units@.len(),
            u <= m,
            out@ == mid + units_text(*d, u as int),
        decreases m - u,
    {
        push_unit(&mut out, d, &d.units[u]);
        u = u + 1;
        proof {
            assert(out@ =~= mid + units_text(*d, u as int));
        }
    }
    out.append("endmodule\n");
    proof {
        assert(out@ =~= module_text(*d));
    }
    Ok(out)
}

proof fn lemma_units_prefix(d: Design, j: int, k: int)
    requires
        0 <= j <= k,
    ensures
        units_text(d, j).len() <= units_text(d, k).len(),
        units_text(d, k).subrange(0, units_text(d, j).len() as int) == units_text(d, j),
    decreases k - j,
{
    if j < k {
        lemma_units_prefix(d, j, k - 1);
        let a = units_text(d, k - 1);
        let b = unit_text(d, d.units@[k - 1]);
        assert((a + b).subrange(0, units_text(d, j).len() as int) =~= a.subrange(0, units_text(d, j).len() as int));
    }
}

/// The emitted module holds, for every unit of the design, the statement
/// that prints that unit's own expression tree, the one the simulator
/// evaluates: an `assign` for a combinational unit, a clocked `always` block
/// for a register.
pub proof fn lemma_every_unit_is_printed(d: Design, u: int)
    requires
        0 <= u < d.units@.len(),
    ensures
        exists|i: int|
            0 <= i && i + unit_text(d, d.units@[u]).len() <= module_text(d).len() && #[trigger] module_text(d).subrange(
                i,
                i + unit_text(d, d.units@[u]).len(),
            ) == unit_text(d, d.units@[u]),
{
    let m = d.units@.len() as int;
    let head = "module "@ + d.name@ + "("@ + ports_text(d, d.signals@.len() as int) + ");\n"@ + decls_text(
        d,
        d.signals@.len() as int,
    );
    let t = unit_text(d, d.units@[u]);
    let before = units_text(d, u);
    lemma_units_prefix(d, u + 1, m);
    let all = units_text(d, m);
    assert(units_text(d, u + 1) == before + t);
    let i: int = (head.len() + before.len()) as int;
    assert(module_text(d) == head + all + "endmodule\n"@);
    assert(all.subrange(before.len() as int, (before.len() + t.len()) as int) =~= t) by {
        assert(all.subrange(0, (before + t).len() as int) == before + t);
        assert forall|k: int| 0 <= k < t.len() implies all[before.len() + k] == t[k] by {
            assert(all.subrange(0, (before + t).len() as int)[before.len() + k] == (before + t)[before.len() + k]);
        }
    }
    assert(module_text(d).subrange(i, (i + t.len()) as int) =~= t) by {
        assert forall|k: int| 0 <= k < t.len() implies module_text(d)[i + k] == t[k] by {
            assert((head + all + "endmodule\n"@)[i + k] == all[before.len() + k]);
            assert(all.subrange(before.len() as int, (before.len() + t.len()) as int)[k] == all[before.len() + k]);
        }
    }
}

} // verus!
