use bit_to_byte::discovery::{launch_id, Discovery, StartError, HELLO_INTERVAL, PACKET_BUFFER_SIZE};
use bit_to_byte::state::App;

const START: u64 = 1_000_000;

#[test]
fn launch_ids_join_the_start_time_and_process_id() {
    assert_eq!(launch_id(1_700_000_000_123_456_789, 4242), "1700000000123456789-4242");
    assert_eq!(launch_id(0, 0), "0-0");
}

#[test]
fn discovery_needs_a_valid_name() {
    assert_eq!(
        Discovery::start("   ", String::from("1-2"), START).err(),
        Some(StartError::InvalidName)
    );
    let discovery = match Discovery::start("Alex", String::from("1-2"), START) {
        Ok(discovery) => discovery,
        Err(error) => panic!("Could not start: {:?}", error),
    };
    assert_eq!(discovery.goodbye(), "bit-to-byte/1\ngoodbye\n1-2\nAlex");
}

#[test]
fn hellos_repeat_and_packets_from_others_list_people() {
    let mut discovery = match Discovery::start("Alex", String::from("self"), START) {
        Ok(discovery) => discovery,
        Err(error) => panic!("Could not start: {:?}", error),
    };
    let mut app = App::new();
    let packets = vec![
        b"bit-to-byte/1\nhello\nself\nAlex".to_vec(),
        b"bit-to-byte/1\nhello\nmaya-1\nMaya".to_vec(),
        vec![b'x'; PACKET_BUFFER_SIZE],
    ];
    let hello = discovery.update(&mut app, START, &packets);
    assert_eq!(hello, Some(String::from("bit-to-byte/1\nhello\nself\nAlex")));
    assert_eq!(app.people.len(), 1);
    assert_eq!(app.people[0].name, "Maya");
    assert_eq!(discovery.update(&mut app, START + HELLO_INTERVAL - 1, &Vec::new()), None);
    assert!(discovery
        .update(&mut app, START + HELLO_INTERVAL, &Vec::new())
        .is_some());
    discovery.update(&mut app, START + 8000, &Vec::new());
    assert!(!app.people[0].online);
}
