use synth_core::stream::{InputEndpoint, OutputEndpoint, ParameterStream};

#[test]
fn stream_is_first_in_first_out() {
    let mut stream: ParameterStream<f32> = ParameterStream::new(8);
    let values = [0.5f32, 1.0, 0.0, 440.0, 3.25];
    for value in values {
        assert_eq!(stream.enqueue(value), None);
    }
    assert_eq!(stream.len(), 5);
    for value in &values[..3] {
        assert_eq!(stream.try_dequeue(), Some(*value));
    }
    assert_eq!(stream.len(), 2);
}

#[test]
fn empty_stream_gives_nothing() {
    let mut stream: ParameterStream<u32> = ParameterStream::new(2);
    assert!(stream.is_empty());
    assert_eq!(stream.try_dequeue(), None);
    stream.enqueue(7);
    assert!(!stream.is_empty());
    assert_eq!(stream.try_dequeue(), Some(7));
    assert_eq!(stream.try_dequeue(), None);
}

#[test]
fn full_stream_drops_its_oldest_value() {
    let mut stream: ParameterStream<u32> = ParameterStream::new(3);
    assert_eq!(stream.limit(), 3);
    assert_eq!(stream.enqueue(1), None);
    assert_eq!(stream.enqueue(2), None);
    assert!(!stream.is_full());
    assert_eq!(stream.enqueue(3), None);
    assert!(stream.is_full());
    assert_eq!(stream.enqueue(4), Some(1));
    assert_eq!(stream.enqueue(5), Some(2));
    assert_eq!(stream.len(), 3);
    assert_eq!(stream.try_dequeue(), Some(3));
    assert_eq!(stream.try_dequeue(), Some(4));
    assert_eq!(stream.try_dequeue(), Some(5));
    assert_eq!(stream.try_dequeue(), None);
}

#[test]
fn capacity_of_zero_is_raised_to_one() {
    let mut stream: ParameterStream<u32> = ParameterStream::new(0);
    assert_eq!(stream.limit(), 1);
    assert_eq!(stream.enqueue(1), None);
    assert_eq!(stream.enqueue(2), Some(1));
    assert_eq!(stream.try_dequeue(), Some(2));
}

#[test]
fn input_endpoint_samples_and_holds() {
    let mut endpoint: InputEndpoint<f32> = InputEndpoint::new(4, 0.0);
    assert_eq!(endpoint.output(), 0.0);
    assert_eq!(endpoint.advance(), 0.0);
    endpoint.enqueue(440.0);
    assert_eq!(endpoint.output(), 0.0);
    assert_eq!(endpoint.advance(), 440.0);
    assert_eq!(endpoint.advance(), 440.0);
    assert_eq!(endpoint.advance(), 440.0);
    assert_eq!(endpoint.output(), 440.0);
}

#[test]
fn pulse_is_seen_on_exactly_one_sample() {
    let mut endpoint: InputEndpoint<f32> = InputEndpoint::new(4, 0.0);
    endpoint.enqueue(1.0);
    endpoint.enqueue(0.0);
    let seen: Vec<f32> = (0..5).map(|_| endpoint.advance()).collect();
    assert_eq!(seen, vec![1.0, 0.0, 0.0, 0.0, 0.0]);
}

#[test]
fn input_endpoint_drops_its_oldest_value_when_full() {
    let mut endpoint: InputEndpoint<u8> = InputEndpoint::new(2, 9);
    assert_eq!(endpoint.enqueue(1), None);
    assert_eq!(endpoint.enqueue(2), None);
    assert_eq!(endpoint.enqueue(3), Some(1));
    assert_eq!(endpoint.advance(), 2);
    assert_eq!(endpoint.advance(), 3);
    assert_eq!(endpoint.advance(), 3);
}

#[test]
fn output_endpoint_hands_out_in_order() {
    let mut endpoint: OutputEndpoint<i32> = OutputEndpoint::new(2);
    assert_eq!(endpoint.dequeue(), None);
    assert_eq!(endpoint.push(-1), None);
    assert_eq!(endpoint.push(-2), None);
    assert_eq!(endpoint.push(-3), Some(-1));
    assert_eq!(endpoint.dequeue(), Some(-2));
    assert_eq!(endpoint.dequeue(), Some(-3));
    assert_eq!(endpoint.dequeue(), None);
}
