use rust_hdl::bits::BitVec;
use rust_hdl::design::{Design, Direction};
use rust_hdl::expr::Expr;
use rust_hdl::sim::{Simulation, TraceEvent};
use rust_hdl::trace::{trace_header, trace_records};

#[test]
fn header_declares_every_signal() {
    let mut d = Design::new("top".to_string());
    d.add_signal("clk".to_string(), 1, Direction::Input).unwrap();
    d.add_signal("data".to_string(), 16, Direction::Output).unwrap();
    assert_eq!(
        trace_header(&d),
        "$scope module top $end\n$var wire 1 s0 clk $end\n$var wire 16 s1 data $end\n$upscope $end\n$enddefinitions $end\n"
    );
}

#[test]
fn records_keep_event_order() {
    let events = vec![
        TraceEvent { time: 0, signal: 1, value: 255 },
        TraceEvent { time: 0, signal: 0, value: 1 },
        TraceEvent { time: 12, signal: 1, value: 0 },
    ];
    assert_eq!(trace_records(&events), "#0 s1 255\n#0 s0 1\n#12 s1 0\n");
    assert_eq!(trace_records(&vec![]), "");
}

#[test]
fn records_of_a_simulation_run() {
    let mut d = Design::new("top".to_string());
    let a = d.add_signal("a".to_string(), 4, Direction::Input).unwrap();
    let y = d.add_signal("y".to_string(), 4, Direction::Output).unwrap();
    d.add_comb("inv".to_string(), y, Expr::Not(Box::new(Expr::Sig(a))));
    let mut s = Simulation::new(d, 4).unwrap();
    s.step_cycle().unwrap();
    s.inject(a, BitVec::new(4, 5).unwrap()).unwrap();
    s.step_cycle().unwrap();
    assert_eq!(trace_records(&s.finish()), "#0 s1 15\n#1 s0 5\n#1 s1 10\n");
}
