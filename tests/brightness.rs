use brightness_adapter::brightness::BrightnessProperty;
use brightness_adapter::controller::Controller;
use brightness_adapter::request::{Reply, RequestOutcome};

#[test]
fn write_75_commits_after_success_reply() {
    let mut p = BrightnessProperty::new(Controller::new(10), 3);
    let cmd = p.on_update(75, 0);
    assert_eq!(cmd.raw, 191);
    assert_eq!(cmd.slot, 3);
    let res = p.on_reply(cmd.id, Reply::Ack(vec![])).unwrap();
    assert_eq!(p.update_result(res.outcome), Ok(()));
    assert!(!p.is_pending(cmd.id));
}

#[test]
fn write_10_without_reply_times_out() {
    let mut p = BrightnessProperty::new(Controller::new(10), 3);
    let cmd = p.on_update(10, 0);
    assert_eq!(cmd.raw, 26);
    let expired = p.on_tick(10);
    assert_eq!(expired.len(), 1);
    assert_eq!(expired[0].id, cmd.id);
    let err = p.update_result(expired[0].outcome.clone()).unwrap_err();
    assert!(err.contains("timeout"));
    assert!(err.contains("3"));
    assert_eq!(err, "Failed to set brightness of 3: timeout");
    assert!(p.on_reply(cmd.id, Reply::Ack(vec![])).is_none());
}

#[test]
fn write_0_with_closed_channel_reports_cause() {
    let mut p = BrightnessProperty::new(Controller::new(10), 3);
    let cmd = p.on_update(0, 0);
    assert_eq!(cmd.raw, 0);
    let res = p.on_reply(cmd.id, Reply::Failed(String::from("channel closed"))).unwrap();
    let err = p.update_result(res.outcome).unwrap_err();
    assert!(err.contains("channel closed"));
    assert!(!err.contains("timeout"));
    assert_eq!(err, "Failed to set brightness of 3: channel closed");
}

#[test]
fn message_renders_multi_digit_device_ids() {
    let p = BrightnessProperty::new(Controller::new(1), 255);
    assert_eq!(
        p.update_result(RequestOutcome::Timeout),
        Err(String::from("Failed to set brightness of 255: timeout"))
    );
    let p = BrightnessProperty::new(Controller::new(1), 42);
    assert_eq!(
        p.update_result(RequestOutcome::TransportError(String::from("x"))),
        Err(String::from("Failed to set brightness of 42: x"))
    );
    let p = BrightnessProperty::new(Controller::new(1), 0);
    assert_eq!(
        p.update_result(RequestOutcome::Timeout),
        Err(String::from("Failed to set brightness of 0: timeout"))
    );
}

#[test]
fn name_and_description() {
    let p = BrightnessProperty::new(Controller::new(1), 7);
    assert_eq!(p.name(), "brightness");
    assert_eq!(p.device_id(), 7);
    let d = p.description();
    assert_eq!(d.at_type, "BrightnessProperty");
    assert_eq!(d.title, "Brightness");
    assert_eq!((d.minimum, d.maximum, d.multiple_of, d.value), (0, 100, 1, 0));
    assert!(!d.read_only);
    assert!(d.visible);
}

#[test]
fn full_brightness_encodes_to_255() {
    let mut p = BrightnessProperty::new(Controller::new(1), 9);
    let cmd = p.on_update(100, 0);
    assert_eq!(cmd.raw, 255);
    assert_eq!(cmd.slot, 9);
}
