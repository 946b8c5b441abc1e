use gadget_events::dispatch::{
    brightness_voltage, frame_delay_ms, DispatchAction, Dispatcher, InputEvent,
};
use gadget_events::pmu::PmuEvent;
use gadget_events::touch::{TouchKey, WindowEvent};

#[test]
fn window_events_pass_while_unlocked() {
    let mut d = Dispatcher::new();
    let w = WindowEvent::KeyPressed { key: TouchKey::Left };
    assert_eq!(d.handle(InputEvent::WindowEvent(w)), DispatchAction::Forward(w));
}

#[test]
fn short_press_locks_and_unlocks() {
    let mut d = Dispatcher::new();
    let w = WindowEvent::PointerPressed { x: 1, y: 2 };
    assert_eq!(
        d.handle(InputEvent::Pmu(PmuEvent::PowerKeyEventShort)),
        DispatchAction::SetBacklight(false)
    );
    assert!(d.locked);
    assert_eq!(d.handle(InputEvent::WindowEvent(w)), DispatchAction::Discard);
    assert_eq!(
        d.handle(InputEvent::Pmu(PmuEvent::PowerKeyEventShort)),
        DispatchAction::SetBacklight(true)
    );
    assert!(!d.locked);
    assert_eq!(d.handle(InputEvent::WindowEvent(w)), DispatchAction::Forward(w));
}

#[test]
fn battery_warnings_act_even_when_locked() {
    let mut d = Dispatcher { locked: true };
    assert_eq!(
        d.handle(InputEvent::Pmu(PmuEvent::BatteryPercentWarnLevel2)),
        DispatchAction::SlowBlinkChargeLed
    );
    assert_eq!(
        d.handle(InputEvent::Pmu(PmuEvent::BatteryPercentWarnLevel1)),
        DispatchAction::PowerOff
    );
    assert_eq!(d.handle(InputEvent::Pmu(PmuEvent::VbusInsert)), DispatchAction::LogOnly);
    assert!(d.locked);
}

#[test]
fn tick_handles_events_in_order() {
    let mut d = Dispatcher::new();
    let w = WindowEvent::PointerExited;
    let actions = d.handle_all(&vec![
        InputEvent::WindowEvent(w),
        InputEvent::Pmu(PmuEvent::PowerKeyEventShort),
        InputEvent::WindowEvent(w),
        InputEvent::Pmu(PmuEvent::PowerKeyEventLong),
    ]);
    assert_eq!(
        actions,
        vec![
            DispatchAction::Forward(w),
            DispatchAction::SetBacklight(false),
            DispatchAction::Discard,
            DispatchAction::LogOnly,
        ]
    );
    assert!(d.locked);
}

#[test]
fn brightness_steps() {
    assert_eq!(brightness_voltage(0), 2600);
    assert_eq!(brightness_voltage(3), 2900);
    assert_eq!(brightness_voltage(4), 3000);
    assert_eq!(brightness_voltage(5), 2600);
    assert_eq!(brightness_voltage(u16::MAX), 2600);
}

#[test]
fn frame_delays() {
    assert_eq!(frame_delay_ms(true), 10);
    assert_eq!(frame_delay_ms(false), 50);
}
