//! Live fan-out: a subscriber attached before a message is published
//! receives it; one attached after does not, and reconciles via history.

use band::state::State;
use band::store::Store;
use band::types::Event;
use futures_util::FutureExt;
use futures_util::StreamExt;

#[test]
fn subscriber_before_publish_receives_exactly_one_event() {
    let store = Store::open_temporary().expect("temporary store should open");
    let mut st = State::new(store);
    let room = st.create_room().unwrap();
    let session = st.create_session(room, "alice").unwrap();

    // Attach a live subscriber, then persist and publish one message:
    // persistence first, publication after, as the dispatcher requires.
    let mut sub = st.subscribe(room).unwrap();
    let out = st.post_message(room, session, "later".to_string()).unwrap();
    let publisher = st.get_chan(room);

    async_std::task::block_on(async {
        publisher.inner.send(&Event::Message(out.clone())).await.unwrap();
        match sub.inner.next().await.unwrap() {
            Event::Message(m) => {
                assert_eq!(m.body, "later");
                assert_eq!(m.id, out.id);
            },
            Event::Vote(_) => panic!("expected a message event"),
        }
    });
    // Exactly one event: nothing else is pending.
    assert!(sub.inner.next().now_or_never().is_none());

    // A subscriber attached after the publish does not receive the event
    // retroactively, but sees the message via the durable history.
    let mut late = st.subscribe(room).unwrap();
    assert!(late.inner.next().now_or_never().is_none());
    let hist = st.get_history(room).unwrap();
    assert_eq!(hist.len(), 1);
    assert_eq!(hist[0].body, "later");
}

#[test]
fn vote_events_fan_out_to_all_subscribers() {
    let store = Store::open_temporary().expect("temporary store should open");
    let mut st = State::new(store);
    let room = st.create_room().unwrap();
    let author = st.create_session(room, "alice").unwrap();
    let voter = st.create_session(room, "bob").unwrap();
    let m = st.post_message(room, author, "vote".to_string()).unwrap().id;

    let mut sub_a = st.subscribe(room).unwrap();
    let mut sub_b = st.subscribe(room).unwrap();
    let change = st.cast_vote(room, voter, m, true).unwrap();
    let publisher = st.get_chan(room);

    async_std::task::block_on(async {
        publisher.inner.send(&Event::Vote(change.clone())).await.unwrap();
        for sub in [&mut sub_a, &mut sub_b] {
            match sub.inner.next().await.unwrap() {
                Event::Vote(v) => {
                    assert_eq!(v.message, m);
                    assert_eq!(v.delta, 1);
                },
                Event::Message(_) => panic!("expected a vote event"),
            }
        }
    });
}
