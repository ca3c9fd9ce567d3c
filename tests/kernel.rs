use rust_hdl::bits::BitVec;
use rust_hdl::design::{Bundle, BuildError, Design, Direction, Port};
use rust_hdl::expr::{BinOp, CmpOp, Expr};
use rust_hdl::sim::{SimError, Simulation, TraceEvent};
use rust_hdl::verilog::{generate, CodegenError};

fn bv(width: u32, value: u64) -> BitVec {
    BitVec::new(width, value).unwrap()
}

fn sig(d: &mut Design, name: &str, width: u32, dir: Direction) -> usize {
    d.add_signal(name.to_string(), width, dir).unwrap()
}

fn port(name: &str, signal: usize) -> Port {
    Port { name: name.to_string(), signal }
}

fn boxed(e: Expr) -> Box<Expr> {
    Box::new(e)
}

/// A register `q` clocked by `clk` that takes the input `d`.
fn register_design() -> (Design, usize, usize, usize) {
    let mut d = Design::new("regd".to_string());
    let clk = sig(&mut d, "clk", 1, Direction::Input);
    let din = sig(&mut d, "din", 8, Direction::Input);
    let q = sig(&mut d, "q", 8, Direction::Output);
    d.add_reg("r".to_string(), q, clk, Expr::Sig(din));
    (d, clk, din, q)
}

#[test]
fn test_soc_test_chip_synthesizes() {
    let mut d = Design::new("soc_test".to_string());
    let clock = sig(&mut d, "clock", 1, Direction::Input);
    let sys_clock = sig(&mut d, "sys_clock", 1, Direction::Input);
    let cpu_data = sig(&mut d, "cpu_data", 16, Direction::Input);
    let cpu_write = sig(&mut d, "cpu_write", 1, Direction::Input);
    let host_data = sig(&mut d, "host_data", 16, Direction::Output);
    let host_strobe = sig(&mut d, "host_strobe", 1, Direction::Output);
    let port_data = sig(&mut d, "port_data", 16, Direction::Internal);
    let port_strobe = sig(&mut d, "port_strobe", 1, Direction::Internal);
    let staged = sig(&mut d, "staged", 16, Direction::Internal);
    let fifo_in = sig(&mut d, "fifo_in", 16, Direction::Output);
    d.add_reg("from_cpu".to_string(), staged, clock, Expr::Sig(cpu_data));
    d.add_reg("host".to_string(), host_data, sys_clock, Expr::Sig(staged));
    d.add_comb("host_write".to_string(), host_strobe, Expr::Sig(cpu_write));
    let host = Bundle { ports: vec![port("data", host_data), port("strobe", host_strobe)] };
    let mosi = Bundle { ports: vec![port("data", port_data), port("strobe", port_strobe)] };
    d.join(&host, &mosi).unwrap();
    d.add_comb(
        "shift".to_string(),
        fifo_in,
        Expr::Bin(BinOp::Add, boxed(Expr::Sig(port_data)), boxed(Expr::Sig(port_data))),
    );
    assert_eq!(d.connect_all(), Ok(()));
    assert_eq!(d.nets.len(), 2);
    assert_eq!((d.nets[0].source_pin, d.nets[0].dest_pin), (host_data as u64, port_data as u64));
    let text = generate(&d).unwrap();
    assert!(text.starts_with("module soc_test(clock, sys_clock, cpu_data, cpu_write, host_data, host_strobe, fifo_in);\n"));
    assert!(text.contains("    output reg [15:0] host_data;\n"));
    assert!(text.contains("    always @(posedge sys_clock) host_data <= staged;\n"));
    assert!(text.contains("    assign fifo_in = (port_data + port_data);\n"));
    assert!(text.ends_with("endmodule\n"));
}

#[test]
fn join_with_mismatched_widths_fails_at_join_time() {
    let mut d = Design::new("top".to_string());
    let a = sig(&mut d, "a", 8, Direction::Output);
    let b = sig(&mut d, "b", 4, Direction::Input);
    let before_units = d.units.len();
    let r = d.join(&Bundle { ports: vec![port("data", a)] }, &Bundle { ports: vec![port("data", b)] });
    assert_eq!(r, Err(BuildError::BundleShapeMismatch));
    assert_eq!(d.units.len(), before_units);
    assert_eq!(d.nets.len(), 0);
}

#[test]
fn join_with_mismatched_names_or_lengths_fails() {
    let mut d = Design::new("top".to_string());
    let a = sig(&mut d, "a", 8, Direction::Output);
    let b = sig(&mut d, "b", 8, Direction::Input);
    let r = d.join(&Bundle { ports: vec![port("data", a)] }, &Bundle { ports: vec![port("addr", b)] });
    assert_eq!(r, Err(BuildError::BundleShapeMismatch));
    let r = d.join(&Bundle { ports: vec![port("data", a)] }, &Bundle { ports: vec![] });
    assert_eq!(r, Err(BuildError::BundleShapeMismatch));
    let r = d.join(&Bundle { ports: vec![port("data", 9)] }, &Bundle { ports: vec![port("data", b)] });
    assert_eq!(r, Err(BuildError::UnknownSignal));
}

#[test]
fn join_drives_from_the_output_side() {
    let mut d = Design::new("top".to_string());
    let ready_in = sig(&mut d, "ready_in", 1, Direction::Input);
    let ready_out = sig(&mut d, "ready_out", 1, Direction::Output);
    d.join(&Bundle { ports: vec![port("ready", ready_in)] }, &Bundle { ports: vec![port("ready", ready_out)] })
        .unwrap();
    assert_eq!(d.units[0].target, ready_in);
    assert_eq!(d.nets[0].source_pin, ready_out as u64);
    assert_eq!(d.nets[0].name, "ready");
}

#[test]
fn link_hands_a_parent_bundle_to_a_child() {
    let mut d = Design::new("top".to_string());
    let write = sig(&mut d, "write", 1, Direction::Input);
    let full = sig(&mut d, "full", 1, Direction::Output);
    let child_write = sig(&mut d, "child_write", 1, Direction::Input);
    let child_full = sig(&mut d, "child_full", 1, Direction::Output);
    let parent = Bundle { ports: vec![port("write", write), port("full", full)] };
    let child = Bundle { ports: vec![port("write", child_write), port("full", child_full)] };
    d.link(&parent, &child).unwrap();
    assert_eq!((d.units[0].target, d.nets[0].source_pin), (child_write, write as u64));
    assert_eq!((d.units[1].target, d.nets[1].source_pin), (full, child_full as u64));
    let narrow = sig(&mut d, "narrow", 2, Direction::Input);
    let r = d.link(&Bundle { ports: vec![port("write", narrow)] }, &Bundle { ports: vec![port("write", child_write)] });
    assert_eq!(r, Err(BuildError::BundleShapeMismatch));
}

#[test]
fn add_signal_refuses_bad_widths() {
    let mut d = Design::new("top".to_string());
    assert_eq!(d.add_signal("x".to_string(), 0, Direction::Internal), Err(BuildError::WidthError));
    assert_eq!(d.add_signal("x".to_string(), 65, Direction::Internal), Err(BuildError::WidthError));
    assert_eq!(d.add_signal("x".to_string(), 64, Direction::Internal), Ok(0));
}

#[test]
fn connect_all_finds_unconnected_and_multiply_driven_signals() {
    let mut d = Design::new("top".to_string());
    let a = sig(&mut d, "a", 4, Direction::Internal);
    let y = sig(&mut d, "y", 4, Direction::Output);
    d.add_comb("u0".to_string(), y, Expr::Sig(a));
    assert_eq!(d.connect_all(), Err(BuildError::UnconnectedSignal(0)));

    let mut d = Design::new("top".to_string());
    let a = sig(&mut d, "a", 4, Direction::Input);
    let y = sig(&mut d, "y", 4, Direction::Output);
    d.add_comb("u0".to_string(), y, Expr::Sig(a));
    d.add_comb("u1".to_string(), y, Expr::Not(boxed(Expr::Sig(a))));
    assert_eq!(d.connect_all(), Err(BuildError::MultipleDriver(y)));
}

#[test]
fn connect_all_checks_widths_and_indices() {
    let mut d = Design::new("top".to_string());
    let a = sig(&mut d, "a", 4, Direction::Input);
    let y = sig(&mut d, "y", 8, Direction::Output);
    d.add_comb("u0".to_string(), y, Expr::Sig(a));
    assert_eq!(d.connect_all(), Err(BuildError::WidthMismatch));

    let mut d = Design::new("top".to_string());
    let a = sig(&mut d, "a", 4, Direction::Input);
    d.add_comb("u0".to_string(), 7, Expr::Sig(a));
    assert_eq!(d.connect_all(), Err(BuildError::UnknownSignal));

    let mut d = Design::new("top".to_string());
    let a = sig(&mut d, "a", 4, Direction::Input);
    let y = sig(&mut d, "y", 4, Direction::Output);
    d.add_reg("r".to_string(), y, a, Expr::Sig(a));
    assert_eq!(d.connect_all(), Err(BuildError::WidthMismatch));
}

#[test]
fn self_inverting_loop_does_not_converge() {
    let mut d = Design::new("osc".to_string());
    let x = sig(&mut d, "x", 1, Direction::Output);
    d.add_comb("inv".to_string(), x, Expr::Not(boxed(Expr::Sig(x))));
    let mut s = Simulation::new(d, 16).unwrap();
    assert_eq!(s.step_cycle(), Err(SimError::NotConverged(x)));
    assert_eq!(s.read(x), Ok(bv(1, 0)));
    assert_eq!(s.time(), 0);
    assert!(s.trace().is_empty());
}

#[test]
fn combinational_logic_settles() {
    let mut d = Design::new("comb".to_string());
    let a = sig(&mut d, "a", 8, Direction::Input);
    let b = sig(&mut d, "b", 8, Direction::Input);
    let y = sig(&mut d, "y", 8, Direction::Output);
    let z = sig(&mut d, "z", 8, Direction::Output);
    let lt = sig(&mut d, "lt", 1, Direction::Output);
    // z reads y, which is computed after it: settling takes a second pass.
    d.add_comb("z".to_string(), z, Expr::Bin(BinOp::Xor, boxed(Expr::Sig(y)), boxed(Expr::Lit(bv(8, 0xff)))));
    d.add_comb("y".to_string(), y, Expr::Bin(BinOp::Add, boxed(Expr::Sig(a)), boxed(Expr::Sig(b))));
    d.add_comb("lt".to_string(), lt, Expr::Cmp(CmpOp::Lt, boxed(Expr::Sig(a)), boxed(Expr::Sig(b))));
    let mut s = Simulation::new(d, 8).unwrap();
    s.inject(a, bv(8, 200)).unwrap();
    s.inject(b, bv(8, 100)).unwrap();
    s.step_cycle().unwrap();
    assert_eq!(s.read(y), Ok(bv(8, 44)));
    assert_eq!(s.read(z), Ok(bv(8, 44 ^ 0xff)));
    assert_eq!(s.read(lt), Ok(bv(1, 0)));
    assert_eq!(
        s.trace().clone(),
        vec![
            TraceEvent { time: 0, signal: a, value: 200 },
            TraceEvent { time: 0, signal: b, value: 100 },
            TraceEvent { time: 0, signal: y, value: 44 },
            TraceEvent { time: 0, signal: z, value: 44 ^ 0xff },
        ]
    );
}

#[test]
fn settling_within_a_cap_of_one_pass_that_changes() {
    let mut d = Design::new("chain".to_string());
    let a = sig(&mut d, "a", 4, Direction::Input);
    let m = sig(&mut d, "m", 4, Direction::Internal);
    let y = sig(&mut d, "y", 4, Direction::Output);
    d.add_comb("y".to_string(), y, Expr::Sig(m));
    d.add_comb("m".to_string(), m, Expr::Sig(a));
    let mut s = Simulation::new(d, 0).unwrap();
    s.inject(a, bv(4, 3)).unwrap();
    // the first pass sets y from the old m, then m from a: only m changed
    assert_eq!(s.step_cycle(), Err(SimError::NotConverged(m)));
}

#[test]
fn register_captures_on_rising_edges_only() {
    let (d, clk, din, q) = register_design();
    let mut s = Simulation::new(d, 8).unwrap();
    s.inject(din, bv(8, 42)).unwrap();
    s.step_cycle().unwrap();
    assert_eq!(s.read(q), Ok(bv(8, 0)));
    s.inject(clk, bv(1, 1)).unwrap();
    s.step_cycle().unwrap();
    assert_eq!(s.read(q), Ok(bv(8, 42)));
    for cycle in 0..6u64 {
        // the data input changes between edges; the register does not follow it
        s.inject(din, bv(8, 50 + cycle)).unwrap();
        s.inject(clk, bv(1, 0)).unwrap();
        s.step_cycle().unwrap();
        assert_eq!(s.read(q), Ok(bv(8, if cycle == 0 { 42 } else { 50 + cycle - 1 })));
        s.inject(din, bv(8, 50 + cycle)).unwrap();
        s.inject(clk, bv(1, 1)).unwrap();
        s.step_cycle().unwrap();
        assert_eq!(s.read(q), Ok(bv(8, 50 + cycle)));
    }
}

#[test]
fn register_with_constant_input_holds_it_from_the_first_edge() {
    let (d, clk, din, q) = register_design();
    let mut s = Simulation::new(d, 8).unwrap();
    s.inject(din, bv(8, 9)).unwrap();
    for n in 0..10u64 {
        s.inject(clk, bv(1, n % 2)).unwrap();
        s.step_cycle().unwrap();
        let expected = if n == 0 { 0 } else { 9 };
        assert_eq!(s.read(q), Ok(bv(8, expected)));
    }
}

#[test]
fn simulation_is_deterministic() {
    let run = || {
        let (d, clk, din, _q) = register_design();
        let mut s = Simulation::new(d, 8).unwrap();
        for n in 0..8u64 {
            s.inject(din, bv(8, n * 3)).unwrap();
            s.inject(clk, bv(1, n % 2)).unwrap();
            s.step_cycle().unwrap();
        }
        s.finish()
    };
    let first = run();
    let second = run();
    assert!(!first.is_empty());
    assert_eq!(first, second);
    assert!(first.windows(2).all(|w| w[0].time <= w[1].time));
}

#[test]
fn driver_calls_check_index_and_width() {
    let (d, clk, _din, _q) = register_design();
    let mut s = Simulation::new(d, 8).unwrap();
    assert_eq!(s.inject(9, bv(1, 1)), Err(SimError::UnknownSignal));
    assert_eq!(s.inject(clk, bv(2, 1)), Err(SimError::WidthMismatch));
    assert_eq!(s.read(9), Err(SimError::UnknownSignal));
}

#[test]
fn simulation_refuses_an_unchecked_design() {
    let mut d = Design::new("top".to_string());
    let a = sig(&mut d, "a", 4, Direction::Internal);
    let y = sig(&mut d, "y", 4, Direction::Output);
    d.add_comb("u0".to_string(), y, Expr::Sig(a));
    assert_eq!(Simulation::new(d, 4).err(), Some(SimError::Build(BuildError::UnconnectedSignal(0))));
}

#[test]
fn mux_selects_by_one_bit() {
    let mut d = Design::new("mux".to_string());
    let sel = sig(&mut d, "sel", 1, Direction::Input);
    let y = sig(&mut d, "y", 4, Direction::Output);
    d.add_comb(
        "m".to_string(),
        y,
        Expr::Mux(boxed(Expr::Sig(sel)), boxed(Expr::Lit(bv(4, 5))), boxed(Expr::Lit(bv(4, 10)))),
    );
    let mut s = Simulation::new(d, 4).unwrap();
    s.step_cycle().unwrap();
    assert_eq!(s.read(y), Ok(bv(4, 10)));
    s.inject(sel, bv(1, 1)).unwrap();
    s.step_cycle().unwrap();
    assert_eq!(s.read(y), Ok(bv(4, 5)));
}

#[test]
fn verilog_text_of_a_small_design() {
    let mut d = Design::new("blink".to_string());
    let clk = sig(&mut d, "clk", 1, Direction::Input);
    let count = sig(&mut d, "count", 12, Direction::Output);
    let top = sig(&mut d, "top", 1, Direction::Internal);
    d.add_reg(
        "counter".to_string(),
        count,
        clk,
        Expr::Bin(BinOp::Add, boxed(Expr::Sig(count)), boxed(Expr::Lit(bv(12, 1)))),
    );
    d.add_comb(
        "top".to_string(),
        top,
        Expr::Cmp(CmpOp::Eq, boxed(Expr::Sig(count)), boxed(Expr::Lit(bv(12, 4095)))),
    );
    assert_eq!(d.connect_all(), Ok(()));
    let text = generate(&d).unwrap();
    assert_eq!(
        text,
        "module blink(clk, count);\n    input wire [0:0] clk;\n    output reg [11:0] count;\n    wire [0:0] top;\n    always @(posedge clk) count <= (count + 12'd1);\n    assign top = (count == 12'd4095);\nendmodule\n"
    );
}

#[test]
fn verilog_refuses_names_that_are_not_identifiers() {
    let mut d = Design::new("9lives".to_string());
    sig(&mut d, "a", 1, Direction::Input);
    assert_eq!(generate(&d), Err(CodegenError::BadModuleName));
    let mut d = Design::new("ok".to_string());
    sig(&mut d, "a", 1, Direction::Input);
    sig(&mut d, "bad name", 1, Direction::Input);
    assert_eq!(generate(&d), Err(CodegenError::UnsupportedConstruct(1)));
}
