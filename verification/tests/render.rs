use synth_core::fixed::Fixed;
use synth_core::graph::{Connection, SignalGraph, Sink, Source};
use synth_core::mixer::Mixer;
use synth_core::render::{next_value, write_data};
use synth_core::unit::{Constant, Unit};

/// A graph whose one output carries what its one input holds.
fn wire() -> SignalGraph<Unit> {
    let units = vec![Unit::Mixer(Mixer::new(1))];
    let connections = vec![
        Connection { from: Source::Endpoint { input: 0 }, to: Sink::Unit { unit: 0, port: 0 } },
        Connection { from: Source::Unit { unit: 0, port: 0 }, to: Sink::Endpoint { output: 0 } },
    ];
    let graph = SignalGraph::build(vec!["in".to_string()], vec!["out".to_string()], units, connections, 64);
    graph.ok().unwrap()
}

#[test]
fn every_channel_of_a_frame_gets_the_same_sample() {
    let mut graph = wire();
    for n in 1..=4 {
        graph.enqueue(0, Fixed::from_int(n));
    }
    let mut data = vec![Fixed::from_int(-1); 8];
    write_data(&mut data, 2, &mut graph, 0);
    let seen: Vec<i64> = data.iter().map(|x| x.raw >> 32).collect();
    assert_eq!(seen, vec![1, 1, 2, 2, 3, 3, 4, 4]);
}

#[test]
fn short_last_frame_is_filled_too() {
    let mut graph = wire();
    for n in 1..=3 {
        graph.enqueue(0, Fixed::from_int(n));
    }
    let mut data = vec![Fixed::from_int(-1); 7];
    write_data(&mut data, 3, &mut graph, 0);
    let seen: Vec<i64> = data.iter().map(|x| x.raw >> 32).collect();
    assert_eq!(seen, vec![1, 1, 1, 2, 2, 2, 3]);
    // three frames were rendered: the next sample holds the last value
    assert_eq!(next_value(&mut graph, 0), Fixed::from_int(3));
}

#[test]
fn empty_block_renders_nothing() {
    let mut graph = wire();
    graph.enqueue(0, Fixed::from_int(9));
    let mut data: Vec<Fixed> = vec![];
    write_data(&mut data, 2, &mut graph, 0);
    assert_eq!(next_value(&mut graph, 0), Fixed::from_int(9));
}

#[test]
fn mono_block_is_one_sample_per_frame() {
    let mut graph = wire();
    for n in 1..=2 {
        graph.enqueue(0, Fixed::from_int(n));
    }
    let mut data = vec![Fixed::zero(); 4];
    write_data(&mut data, 1, &mut graph, 0);
    let seen: Vec<i64> = data.iter().map(|x| x.raw >> 32).collect();
    assert_eq!(seen, vec![1, 2, 2, 2]);
}

#[test]
fn unconnected_output_renders_silence() {
    let units = vec![Unit::Constant(Constant::new(Fixed::from_int(7)))];
    let graph = SignalGraph::build(vec![], vec!["out".to_string()], units, vec![], 4);
    let mut graph = graph.ok().unwrap();
    assert_eq!(next_value(&mut graph, 0), Fixed::zero());
    let mut data = vec![Fixed::from_int(5); 4];
    write_data(&mut data, 2, &mut graph, 0);
    assert_eq!(data, vec![Fixed::zero(); 4]);
}

#[test]
fn samples_left_on_the_stream_come_first() {
    let mut graph = wire();
    graph.enqueue(0, Fixed::from_int(1));
    graph.enqueue(0, Fixed::from_int(2));
    graph.render(1);
    // one rendered sample waits on the output; the next frame takes it
    assert_eq!(next_value(&mut graph, 0), Fixed::from_int(1));
    assert_eq!(next_value(&mut graph, 0), Fixed::from_int(2));
}
