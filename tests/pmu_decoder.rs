use gadget_events::pmu::{irq_reason, IrqStatus, PmuEvent};

#[test]
fn short_power_key_press_decodes_alone() {
    assert_eq!(IrqStatus(0, 0x10, 0).events(), vec![PmuEvent::PowerKeyEventShort]);
}

#[test]
fn bus_insert_and_remove_are_masked() {
    let status = IrqStatus(0, 0b0000_0011, 0);
    assert_eq!(status.decode(), vec![PmuEvent::VbusInsert, PmuEvent::VbusRemove]);
    assert!(status.events().is_empty());
}

#[test]
fn third_register_mask_drops_two_causes() {
    let status = IrqStatus(0, 0, 0b1010_0000);
    assert_eq!(
        status.decode(),
        vec![PmuEvent::BatfetOverCurrent, PmuEvent::WatchdogExpire]
    );
    assert!(status.events().is_empty());
    assert_eq!(status.masked(), IrqStatus(0, 0, 0));
}

#[test]
fn all_bits_set_keep_register_order() {
    let status = IrqStatus(0xFF, 0xFF, 0xFF);
    assert_eq!(status.masked(), IrqStatus(0xFF, 0xFC, 0x5F));
    let events = status.events();
    assert_eq!(events.len(), 20);
    assert_eq!(events[0], PmuEvent::BatteryPercentWarnLevel2);
    assert_eq!(events[1], PmuEvent::BatteryPercentWarnLevel1);
    assert_eq!(events[7], PmuEvent::BatteryWorkUnderTemperature);
    assert_eq!(events[8], PmuEvent::BatteryInsert);
    assert_eq!(events[10], PmuEvent::PowerKeyEventShort);
    assert_eq!(events[14], PmuEvent::BatteryOverVoltage);
    assert_eq!(events[19], PmuEvent::LdoOverCurrent);
    assert_eq!(status.decode().len(), 24);
}

#[test]
fn battery_warnings_decode_in_order() {
    assert_eq!(
        IrqStatus(0b0000_0011, 0, 0).events(),
        vec![PmuEvent::BatteryPercentWarnLevel2, PmuEvent::BatteryPercentWarnLevel1]
    );
}

#[test]
fn no_bits_no_events() {
    assert!(IrqStatus(0, 0, 0).events().is_empty());
}

#[test]
fn reason_table_ends() {
    assert_eq!(irq_reason(0), PmuEvent::BatteryPercentWarnLevel2);
    assert_eq!(irq_reason(12), PmuEvent::PowerKeyEventShort);
    assert_eq!(irq_reason(23), PmuEvent::WatchdogExpire);
}
