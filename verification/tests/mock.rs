//! The network that loses packets.

use protocol::mock::{port_index, set_num_den, Datagram, Loss, MAX_PORT, MIN_PORT, PORTS};
use protocol::MSS;
use rand::rngs::StdRng;
use rand::SeedableRng;

#[test]
fn share_of_lost_packets() {
    let tenth = Loss { num: 1, den: 10 };
    assert!(tenth.is_wf());
    assert!(tenth.loses(0));
    assert!(tenth.loses(429_496_728));
    assert!(!tenth.loses(429_496_729));
    assert!(!tenth.loses(u32::MAX));
}

#[test]
fn nothing_is_lost_without_a_loss() {
    let none = Loss { num: 0, den: 10_000 };
    let mut rng = StdRng::seed_from_u64(1);
    for _ in 0..10_000 {
        assert!(!none.draw(&mut rng));
    }
    assert!(!none.loses(0));
}

#[test]
fn losses_are_drawn_by_the_generator() {
    let half = Loss { num: 1, den: 2 };
    let mut rng = StdRng::seed_from_u64(7);
    let lost = (0..10_000).filter(|_| half.draw(&mut rng)).count();
    assert!((4_500..5_500).contains(&lost));
}

#[test]
fn shares_that_cannot_be_lost() {
    assert!(!Loss { num: 1, den: 0 }.is_wf());
    assert!(!Loss { num: 2, den: 1 }.is_wf());
    assert!(Loss { num: 1, den: 1 }.is_wf());
    assert!(Loss { num: 7, den: 7 }.is_wf());
    assert!(Loss { num: 0, den: 1 }.is_wf());
    assert!(!Loss { num: u32::MAX, den: 3 }.is_wf());
}

#[test]
fn losses_can_be_set() {
    let mut loss = Loss { num: 0, den: 1 };
    set_num_den(&mut loss, 300, 10_000);
    assert_eq!(loss, Loss { num: 300, den: 10_000 });
}

#[test]
fn ports_have_their_places() {
    assert_eq!(port_index(MIN_PORT), 0);
    assert_eq!(port_index(10_203), 3);
    assert_eq!(port_index(MAX_PORT), PORTS - 1);
}

#[test]
fn datagrams_are_handed_out_as_they_were_sent() {
    for len in [0, 1, 5, MSS] {
        let sent: Vec<u8> = (0..len).map(|i| (i % 251) as u8 + 1).collect();
        let datagram = Datagram::pack(&sent);
        let mut buf = [0xFF; MSS];
        assert_eq!(datagram.unpack(&mut buf), len);
        assert_eq!(buf[..len], sent[..]);
        assert!(buf[len..].iter().all(|b| *b == 0xFF));
    }
}
