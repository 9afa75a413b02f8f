use foundations_telemetry::producers::{
    add_extra_producer, collect, protobuf_available, ExtraProducer, ExtraProducers,
};

struct Fixed(&'static [u8]);

impl ExtraProducer for Fixed {
    fn produce(&self, buffer: &mut Vec<u8>) {
        buffer.extend_from_slice(self.0);
    }
}

#[test]
fn producers_run_in_order_without_terminators() {
    let mut producers = ExtraProducers::new();
    assert!(protobuf_available(&producers));
    add_extra_producer(&mut producers, Fixed(b"a_total 1\n# EOF\n"));
    add_extra_producer(&mut producers, Fixed(b"b 2\n"));
    assert!(!protobuf_available(&producers));

    let mut buffer = b"x 0\n".to_vec();
    producers.produce_all(&mut buffer);
    assert_eq!(buffer, b"x 0\na_total 1\nb 2\n");
}

struct Tally(std::rc::Rc<std::cell::RefCell<Vec<u8>>>, u8);

impl ExtraProducer for Tally {
    fn produce(&self, buffer: &mut Vec<u8>) {
        self.0.borrow_mut().push(self.1);
        buffer.push(b'0' + self.1);
    }
}

#[test]
fn each_producer_runs_once_in_the_order_added() {
    let calls = std::rc::Rc::new(std::cell::RefCell::new(Vec::new()));
    let mut producers = ExtraProducers::new();
    for i in 1..=3u8 {
        add_extra_producer(&mut producers, Tally(calls.clone(), i));
    }
    let mut buffer = Vec::new();
    producers.produce_all(&mut buffer);
    assert_eq!(*calls.borrow(), vec![1, 2, 3]);
    assert_eq!(buffer, b"123");
}

#[test]
fn collect_ends_with_a_single_terminator() {
    let mut producers = ExtraProducers::new();
    assert_eq!(collect(b"x 0\n# EOF\n", &producers), b"x 0\n# EOF\n");
    assert_eq!(collect(b"x 0\n", &producers), b"x 0\n# EOF\n");
    assert_eq!(collect(b"", &producers), b"# EOF\n");
    add_extra_producer(&mut producers, Fixed(b"a_total 1\n# EOF\n"));
    add_extra_producer(&mut producers, Fixed(b"b 2\n"));
    assert_eq!(
        collect(b"x 0\n# EOF\n", &producers),
        b"x 0\na_total 1\nb 2\n# EOF\n"
    );
}
