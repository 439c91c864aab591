use noded::node::NodeId;
use noded::subscription::{Callback, Event, Subscription};

#[test]
fn subscribing_twice_notifies_once() {
    let mut s = Subscription::new();
    s.subscribe(NodeId(3), Event::OnChange, Callback::MarkSceneDirty);
    s.subscribe(NodeId(3), Event::OnChange, Callback::MarkSceneDirty);
    assert_eq!(s.len(), 1);
    assert_eq!(s.notify(Event::OnChange), vec![(NodeId(3), Callback::MarkSceneDirty)]);
}

#[test]
fn notify_reaches_every_subscriber_in_order() {
    let mut s = Subscription::new();
    s.subscribe(NodeId(5), Event::OnChange, Callback::MarkSceneDirty);
    s.subscribe(NodeId(2), Event::OnChange, Callback::MarkSceneDirty);
    assert!(s.has_subscription(NodeId(5), Event::OnChange));
    assert!(!s.has_subscription(NodeId(4), Event::OnChange));
    assert_eq!(
        s.notify(Event::OnChange),
        vec![(NodeId(5), Callback::MarkSceneDirty), (NodeId(2), Callback::MarkSceneDirty)]
    );
}

#[test]
fn unsubscribe_removes_only_that_subscriber() {
    let mut s = Subscription::new();
    s.subscribe(NodeId(1), Event::OnChange, Callback::MarkSceneDirty);
    s.subscribe(NodeId(2), Event::OnChange, Callback::MarkSceneDirty);
    s.unsubscribe(NodeId(1), Event::OnChange);
    assert!(!s.has_subscription(NodeId(1), Event::OnChange));
    assert_eq!(s.notify(Event::OnChange), vec![(NodeId(2), Callback::MarkSceneDirty)]);
    s.unsubscribe(NodeId(9), Event::OnChange);
    assert_eq!(s.len(), 1);
}
