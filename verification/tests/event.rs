use demys::event::{EventReceiver, Mint, UniqueNext, Uuid};

#[test]
fn uuid() {
    let uuid1 = Uuid::first().next();
    let uuid2 = uuid1.next();
    assert_ne!(uuid1, uuid2);
}

#[test]
fn single_post_receive() {
    let mut mint: Mint<Uuid> = Mint::new();
    let mut receiver = EventReceiver::<String, Uuid>::new();
    let poster = receiver.new_poster(&mut mint);

    let message = String::from("Hello World");
    poster.post(&mut receiver, message.clone());

    let vec = receiver.poll();

    // correct number of events
    assert_eq!(vec.len(), 1);

    // events consumed
    assert_eq!(receiver.poll().len(), 0);

    // correct uuid
    assert_eq!(vec[0].0.clone(), *poster.get_uuid());

    // correct message
    assert_eq!(vec[0].1, message.clone());
}

#[test]
fn multiple_post_receive() {
    let mut mint: Mint<Uuid> = Mint::new();
    let mut receiver = EventReceiver::<String, Uuid>::new();
    let poster_vec = vec![receiver.new_poster(&mut mint); 10];

    for p in poster_vec.iter().take(5) {
        p.post(&mut receiver, "first".into());
    }

    // all 5 first events were receive
    let received1 = receiver.poll();
    assert_eq!(received1.len(), 5);
    assert_eq!(receiver.poll().len(), 0);

    for p in poster_vec.iter().skip(5) {
        p.post(&mut receiver, "second".into());
    }

    // all 5 first events were receive
    let received2 = receiver.poll();
    assert_eq!(received2.len(), 5);
    assert_eq!(receiver.poll().len(), 0);
}

#[test]
fn posts_come_out_in_the_order_they_went_in() {
    let mut mint: Mint<Uuid> = Mint::new();
    let mut receiver = EventReceiver::<u32, Uuid>::new();
    let first = receiver.new_poster(&mut mint);
    let second = receiver.new_poster(&mut mint);
    assert_ne!(first.get_uuid(), second.get_uuid());

    first.post(&mut receiver, 1);
    second.post(&mut receiver, 2);
    first.post(&mut receiver, 3);
    second.post_lie(&mut receiver, 4, Uuid(77));

    let polled = receiver.poll();
    assert_eq!(
        polled,
        vec![
            (*first.get_uuid(), 1),
            (*second.get_uuid(), 2),
            (*first.get_uuid(), 3),
            (Uuid(77), 4),
        ]
    );
    assert!(receiver.poll().is_empty());
}

#[test]
fn identifiers_are_minted_in_order() {
    let mut mint: Mint<Uuid> = Mint::new();
    let mut receiver = EventReceiver::<u8, Uuid>::new();
    assert!(mint.can_mint());
    let a = receiver.new_poster(&mut mint);
    let b = receiver.new_poster(&mut mint);
    assert_eq!(*a.get_uuid(), Uuid(1));
    assert_eq!(*b.get_uuid(), Uuid(2));
    assert!(!Uuid(usize::MAX).can_mint());
}

#[test]
fn event_construction() {
    let mut mint: Mint<Uuid> = Mint::new();
    let mut receiver = EventReceiver::<String, Uuid>::new();
    let poster = receiver.new_poster(&mut mint);

    // poster has correct receiver: what it posts arrives there, under its identifier
    assert_eq!(receiver.newest, *poster.get_uuid());
    poster.post(&mut receiver, "x".to_string());
    assert_eq!(receiver.poll(), vec![(*poster.get_uuid(), "x".to_string())]);
}

#[test]
fn posters_of_different_receivers_share_no_identifier() {
    let mut mint: Mint<Uuid> = Mint::new();
    let mut one = EventReceiver::<u8, Uuid>::new();
    let mut other = EventReceiver::<u8, Uuid>::new();
    let a = one.new_poster(&mut mint);
    let b = other.new_poster(&mut mint);
    let c = one.new_poster(&mut mint);
    assert_eq!(*a.get_uuid(), Uuid(1));
    assert_eq!(*b.get_uuid(), Uuid(2));
    assert_eq!(*c.get_uuid(), Uuid(3));
    assert_eq!(mint.peek(), Uuid(3));
    assert_eq!(mint.mint(), Uuid(4));
}
