use phys_sandbox::channels::{BoundedChannel, DT_CHANNEL_CAP};
use phys_sandbox::phys::PhyisicsStatus;

#[test]
fn submitting_a_second_timestep_is_refused_until_the_first_is_consumed() {
    let mut dt_chan: BoundedChannel<u64> = BoundedChannel::new(DT_CHANNEL_CAP);

    assert!(dt_chan.try_send(16_000).is_ok());
    // The previous timestep is unconsumed: the submitter is held back, and
    // retrying changes nothing.
    assert_eq!(dt_chan.try_send(17_000), Err(17_000));
    assert_eq!(dt_chan.try_send(17_000), Err(17_000));
    assert_eq!(dt_chan.len(), 1);

    // The moment the scheduler consumes, the blocked submission goes through.
    assert_eq!(dt_chan.try_recv(), Some(16_000));
    assert!(dt_chan.try_send(17_000).is_ok());
    assert_eq!(dt_chan.try_recv(), Some(17_000));
    assert_eq!(dt_chan.try_recv(), None);
}

#[test]
fn channel_delivers_in_fifo_order() {
    let mut chan: BoundedChannel<u64> = BoundedChannel::new(16);
    assert!(chan.try_send(1).is_ok());
    assert!(chan.try_send(2).is_ok());
    assert!(chan.try_send(3).is_ok());
    assert_eq!(chan.try_recv(), Some(1));
    assert_eq!(chan.try_recv(), Some(2));
    assert_eq!(chan.try_recv(), Some(3));
    assert_eq!(chan.try_recv(), None);
}

#[test]
fn full_channel_refuses_and_returns_the_message() {
    let mut chan: BoundedChannel<u64> = BoundedChannel::new(2);
    assert!(chan.try_send(10).is_ok());
    assert!(chan.try_send(11).is_ok());
    assert_eq!(chan.try_send(12), Err(12));
    assert_eq!(chan.len(), 2);
    assert_eq!(chan.try_recv(), Some(10));
    assert!(chan.try_send(12).is_ok());
}

#[test]
fn status_consumer_keeps_only_the_newest_entry() {
    let mut chan: BoundedChannel<PhyisicsStatus> = BoundedChannel::new(16);
    assert!(chan.try_send(PhyisicsStatus { solve_time: 100 }).is_ok());
    assert!(chan.try_send(PhyisicsStatus { solve_time: 200 }).is_ok());
    assert!(chan.try_send(PhyisicsStatus { solve_time: 300 }).is_ok());

    // Latest value wins; older unread entries are superseded.
    assert_eq!(chan.recv_latest(), Some(PhyisicsStatus { solve_time: 300 }));
    assert_eq!(chan.len(), 0);
    assert_eq!(chan.recv_latest(), None);
}
