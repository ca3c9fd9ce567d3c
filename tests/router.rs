use rust_hdl::bits::BitVec;
use rust_hdl::design::{Bundle, BuildError, Design, Direction, Port};
use rust_hdl::router::{
    NodeIn, NodeOut, Router, RouterError, UpstreamIn, UpstreamOut, ADDRESS, ADDRESS_STROBE, CLOCK,
    FROM_CONTROLLER, NODE_BASE, NODE_STRIDE, READY, STROBE, TO_CONTROLLER,
};
use rust_hdl::sim::Simulation;
use rust_hdl::verilog::generate;

fn idle_inputs(n: usize) -> Vec<NodeIn> {
    (0..n).map(|i| NodeIn { to_controller: 100 + i as u64, ready: true }).collect()
}

#[test]
fn test_router_is_synthesizable() {
    let router = Router::new(8, &vec![4, 8, 12, 4, 4, 4]).unwrap();
    let starts: Vec<u64> = (0..6).map(|i| router.node_start(i)).collect();
    let ends: Vec<u64> = (0..6).map(|i| router.node_end(i)).collect();
    assert_eq!(starts, vec![0, 4, 12, 24, 28, 32]);
    assert_eq!(ends, vec![4, 12, 24, 28, 32, 36]);
    let design = router.to_design(16).unwrap();
    assert_eq!(design.signals.len(), NODE_BASE + NODE_STRIDE * 6);
    assert_eq!(design.connect_all(), Ok(()));
    let vlog = generate(&design).unwrap();
    println!("{}", vlog);
    assert!(vlog.starts_with("module router(clock, address, address_strobe, from_controller, strobe, ready, to_controller, node0_from_controller"));
    assert!(vlog.contains("    output wire [15:0] node5_from_controller;\n"));
    assert!(vlog.contains("    always @(posedge clock) strobe_delay <= address_strobe;\n"));
    assert!(vlog.ends_with("endmodule\n"));
}

#[test]
fn router_netlist_simulates_like_update() {
    let router = Router::new(8, &vec![4, 8, 12, 4, 4, 4]).unwrap();
    let design = router.to_design(16).unwrap();
    let mut s = Simulation::new(design, 32).unwrap();
    let set = |s: &mut Simulation, i: usize, w: u32, v: u64| s.inject(i, BitVec::new(w, v).unwrap()).unwrap();
    let node = |i: usize, k: usize| NODE_BASE + NODE_STRIDE * i + k;
    for i in 0..6 {
        set(&mut s, node(i, 5), 16, 100 + i as u64);
        set(&mut s, node(i, 6), 1, 1);
    }
    set(&mut s, ADDRESS, 8, 13);
    set(&mut s, ADDRESS_STROBE, 1, 1);
    set(&mut s, CLOCK, 1, 0);
    s.step_cycle().unwrap();
    set(&mut s, CLOCK, 1, 1);
    s.step_cycle().unwrap();
    set(&mut s, ADDRESS_STROBE, 1, 0);
    set(&mut s, FROM_CONTROLLER, 16, 77);
    set(&mut s, STROBE, 1, 1);
    set(&mut s, CLOCK, 1, 0);
    s.step_cycle().unwrap();
    for i in 0..6 {
        let chosen = i == 2;
        assert_eq!(s.read(node(i, 0)).unwrap().value, if chosen { 77 } else { 0 });
        assert_eq!(s.read(node(i, 1)).unwrap().value, if chosen { 1 } else { 0 });
        assert_eq!(s.read(node(i, 2)).unwrap().value, if chosen { 1 } else { 0 });
        assert_eq!(s.read(node(i, 3)).unwrap().value, if chosen { 1 } else { 0 });
    }
    assert_eq!(s.read(TO_CONTROLLER).unwrap().value, 102);
    assert_eq!(s.read(READY).unwrap().value, 1);
}

#[test]
fn router_netlist_needs_a_valid_data_width() {
    let router = Router::new(8, &vec![4]).unwrap();
    assert_eq!(router.to_design(0).err(), Some(BuildError::WidthError));
}

#[test]
fn router_new_refuses_empty_and_overflowing_ranges() {
    assert_eq!(Router::new(8, &vec![4, 0, 4]).unwrap_err(), RouterError::OverlapError);
    assert_eq!(Router::new(4, &vec![8, 8]).unwrap_err(), RouterError::AddressOverflow);
    assert_eq!(Router::new(4, &vec![8, 7]).map(|r| r.node_end(1)), Ok(15));
    assert_eq!(Router::new(0, &vec![1]).unwrap_err(), RouterError::WidthError);
    assert_eq!(Router::new(8, &vec![1; 257]).unwrap_err(), RouterError::TooManyNodes);
}

#[test]
fn router_with_overlapping_ranges_is_refused() {
    let r = Router::with_ranges(8, vec![0, 2], vec![4, 6]);
    assert_eq!(r.unwrap_err(), RouterError::OverlapError);
}

#[test]
fn router_with_ranges_checks_shape_and_order() {
    assert_eq!(Router::with_ranges(8, vec![0, 4], vec![4]).unwrap_err(), RouterError::ShapeMismatch);
    assert_eq!(Router::with_ranges(8, vec![4], vec![4]).unwrap_err(), RouterError::OverlapError);
    assert_eq!(Router::with_ranges(8, vec![0], vec![256]).unwrap_err(), RouterError::AddressOverflow);
    let r = Router::with_ranges(8, vec![16, 0], vec![32, 16]).unwrap();
    assert_eq!(r.node_start(0), 16);
    assert_eq!(r.node_end(1), 16);
}

#[test]
fn router_update_starts_idle() {
    let router = Router::new(8, &vec![4, 4]).unwrap();
    assert_eq!(router.len(), 2);
    assert_eq!(router.addr_width(), 8);
    let st = Router::initial_state();
    let up = UpstreamIn { clock: true, address: 0, address_strobe: false, from_controller: 0, strobe: false };
    let step = router.update(&st, &up, &idle_inputs(2));
    assert_eq!(step.nodes.len(), 2);
    assert_eq!(step.next, st);
}

#[test]
fn router_forwards_to_the_decoded_node_after_the_strobe_delay() {
    let router = Router::new(8, &vec![4, 8, 12, 4, 4, 4]).unwrap();
    let nodes = idle_inputs(6);
    let st = Router::initial_state();
    let strobe = UpstreamIn { clock: true, address: 13, address_strobe: true, from_controller: 0, strobe: false };
    let first = router.update(&st, &strobe, &nodes);
    assert_eq!(first.next.active, 2);
    assert_eq!(first.next.virtual_address, 1);
    assert!(first.next.strobe_delay);
    assert!(!first.upstream.ready);
    let traffic = UpstreamIn { clock: false, address: 13, address_strobe: false, from_controller: 77, strobe: true };
    let second = router.update(&first.next, &traffic, &nodes);
    for (i, out) in second.nodes.iter().enumerate() {
        if i == 2 {
            assert_eq!(
                *out,
                NodeOut { clock: false, from_controller: 77, address: 1, address_strobe: true, strobe: true }
            );
        } else {
            assert_eq!(
                *out,
                NodeOut { clock: false, from_controller: 0, address: 0, address_strobe: false, strobe: false }
            );
        }
    }
    assert_eq!(second.upstream, UpstreamOut { ready: true, to_controller: 102 });
    assert!(!second.next.strobe_delay);
}

#[test]
fn router_ignores_addresses_outside_every_range() {
    let router = Router::new(8, &vec![4, 4]).unwrap();
    let st = Router::initial_state();
    let up = UpstreamIn { clock: true, address: 200, address_strobe: true, from_controller: 0, strobe: false };
    let step = router.update(&st, &up, &idle_inputs(2));
    assert_eq!(step.next.active, 0);
    assert_eq!(step.next.virtual_address, 0);
}

fn port_bus(d: &mut Design, prefix: &str, addr_width: u32) -> Bundle {
    let fields = [
        ("from_controller", 16, Direction::Input),
        ("address", addr_width, Direction::Input),
        ("address_strobe", 1, Direction::Input),
        ("strobe", 1, Direction::Input),
        ("clock", 1, Direction::Input),
        ("to_controller", 16, Direction::Output),
        ("ready", 1, Direction::Output),
    ];
    let ports = fields
        .iter()
        .map(|(name, width, dir)| {
            let signal = d.add_signal(format!("{}_{}", prefix, name), *width, *dir).unwrap();
            Port { name: name.to_string(), signal }
        })
        .collect();
    Bundle { ports }
}

#[test]
fn router_node_bus_joins_only_a_bus_of_the_same_widths() {
    let router = Router::new(8, &vec![4, 4]).unwrap();
    let mut design = router.to_design(16).unwrap();
    let narrow = port_bus(&mut design, "narrow", 4);
    let node = router.node_bundle(0);
    let units = design.units.len();
    assert_eq!(design.join(&node, &narrow), Err(BuildError::BundleShapeMismatch));
    assert_eq!(design.units.len(), units);
    let port = port_bus(&mut design, "port", 8);
    assert_eq!(design.join(&node, &port), Ok(()));
    assert_eq!(design.units.len(), units + 7);
    let up = router.upstream_bundle();
    assert_eq!(up.ports.len(), 7);
    assert_eq!((up.ports[1].name.as_str(), up.ports[1].signal), ("address", ADDRESS));
}

fn run_router_netlist(counts: &Vec<u64>) -> Vec<rust_hdl::sim::TraceEvent> {
    let router = Router::new(8, counts).unwrap();
    let mut s = Simulation::new(router.to_design(16).unwrap(), 8).unwrap();
    for n in 0..12u64 {
        s.inject(CLOCK, BitVec::new(1, n % 2).unwrap()).unwrap();
        s.inject(ADDRESS, BitVec::new(8, (n * 7) % 36).unwrap()).unwrap();
        s.inject(ADDRESS_STROBE, BitVec::new(1, (n / 2) % 3 % 2).unwrap()).unwrap();
        s.inject(FROM_CONTROLLER, BitVec::new(16, n * 11).unwrap()).unwrap();
        s.step_cycle().unwrap();
    }
    s.finish()
}

#[test]
fn two_routers_built_alike_trace_alike() {
    let counts = vec![4, 8, 12, 4, 4, 4];
    let first = run_router_netlist(&counts);
    let second = run_router_netlist(&counts);
    assert!(!first.is_empty());
    assert_eq!(first, second);
}

#[test]
fn ready_fed_back_through_a_node_does_not_converge() {
    let router = Router::new(8, &vec![4, 4]).unwrap();
    let mut design = router.to_design(16).unwrap();
    let node0_ready = NODE_BASE + 6;
    design.add_comb(
        "loopback".to_string(),
        node0_ready,
        rust_hdl::expr::Expr::Not(Box::new(rust_hdl::expr::Expr::Sig(READY))),
    );
    assert_eq!(design.connect_all(), Ok(()));
    let mut s = Simulation::new(design, 16).unwrap();
    assert!(matches!(s.step_cycle(), Err(rust_hdl::sim::SimError::NotConverged(_))));
}
