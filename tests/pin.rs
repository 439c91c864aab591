use noded::pin::NodePin;

#[test]
fn disconnect_restores_user_value() {
    let mut pin = NodePin::new(7u32);
    assert_eq!(pin.get(), 7);
    pin.set(42);
    assert_eq!(pin.get(), 42);
    assert!(pin.is_connected());
    pin.reset();
    assert_eq!(pin.get(), 7);
    assert!(!pin.is_connected());
}

#[test]
fn shadow_edit_while_connected_keeps_user_value() {
    let mut pin = NodePin::new(1u32);
    pin.set(5);
    *pin.as_mut() = 9;
    assert_eq!(pin.get(), 9);
    pin.reset();
    assert_eq!(pin.get(), 1);
}

#[test]
fn edit_while_unconnected_changes_user_value() {
    let mut pin = NodePin::new(1u32);
    *pin.as_mut() = 3;
    assert_eq!(pin.get(), 3);
    pin.set(8);
    pin.reset();
    assert_eq!(pin.get(), 3);
}

#[test]
fn pin_of_option_defaults_to_none() {
    let pin: NodePin<Option<u32>> = NodePin::with_default();
    assert_eq!(pin.get(), None);
    assert_eq!(*pin.as_ref(), None);
}
