use synapse::receiver_funnel::{Control, ReceiverFunnel};

#[test]
fn identifiers_are_allocated_from_zero_upwards() {
    let (mut funnel, _mux) = ReceiverFunnel::start();
    assert_eq!(funnel.add_subscription(), Some(0));
    assert_eq!(funnel.add_subscription(), Some(1));
    assert_eq!(funnel.add_subscription(), Some(2));
}

#[test]
fn freed_identifier_is_reused_only_when_it_is_the_smallest_free() {
    let (mut funnel, _mux) = ReceiverFunnel::start();
    assert_eq!(funnel.add_subscription(), Some(0));
    assert_eq!(funnel.add_subscription(), Some(1));
    assert_eq!(funnel.add_subscription(), Some(2));
    // freeing 1 makes it the smallest free identifier, so it comes back
    funnel.remove_subscription(1);
    assert_eq!(funnel.add_subscription(), Some(1));
    // freeing 2 does not: 3 is not handed out before it, 2 is
    funnel.remove_subscription(2);
    funnel.remove_subscription(0);
    // 0 is now the smallest free, so the freed 2 is not reused first
    assert_eq!(funnel.add_subscription(), Some(0));
    assert_eq!(funnel.add_subscription(), Some(2));
    assert_eq!(funnel.add_subscription(), Some(3));
}

#[test]
fn the_owning_task_forwards_only_from_active_sources() {
    let (_funnel, mut mux) = ReceiverFunnel::start();
    mux.handle_control(Control::Add { id: 4 });
    mux.handle_control(Control::Add { id: 5 });
    assert!(mux.should_forward(4));
    assert!(mux.should_forward(5));
    assert!(!mux.should_forward(6));
    // after removal an in-flight item from that source is dropped at the
    // next decision point
    mux.handle_control(Control::Rmv(4));
    assert!(!mux.should_forward(4));
    assert!(mux.should_forward(5));
}
