use shvcall::pending::PendingCalls;

#[test]
fn a_one_shot_call_gets_one_frame() {
    let mut calls: PendingCalls<char> = PendingCalls::new();
    calls.register(3, 'a', true);
    assert_eq!(calls.find(3).map(|c| c.sender), Some('a'));
    calls.settle(4);
    assert!(calls.find(3).is_some());
    calls.settle(3);
    assert!(calls.find(3).is_none());
}

#[test]
fn a_lasting_call_waits_until_it_is_unregistered() {
    let mut calls: PendingCalls<char> = PendingCalls::new();
    calls.register(3, 'a', false);
    calls.register(4, 'b', false);
    for _ in 0..5 {
        assert_eq!(calls.find(3).map(|c| c.sender), Some('a'));
        calls.settle(3);
    }
    calls.unregister(3);
    assert!(calls.find(3).is_none());
    assert_eq!(calls.find(4).map(|c| c.sender), Some('b'));
    calls.unregister(3);
}

#[test]
fn a_later_call_takes_the_place_of_an_earlier_one() {
    let mut calls: PendingCalls<char> = PendingCalls::new();
    calls.register(3, 'a', false);
    calls.register(3, 'b', true);
    let call = calls.find(3).unwrap();
    assert_eq!((call.sender, call.one_shot), ('b', true));
    assert!(calls.find(0).is_none());
}
