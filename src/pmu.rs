//! Decoding of the power management unit's interrupt status.
//!
//! The PMU latches its interrupt causes in three status registers. After a
//! read, a fixed mask suppresses causes that are noisy or unused, and each
//! remaining set bit becomes one event, in register order and, within a
//! register, from the lowest bit up.

use vstd::prelude::*;

verus! {

/// Pause after each decoded interrupt before waiting again, in milliseconds.
pub const PMU_GUARD_INTERVAL_MS: u32 = 50;

/// Causes kept from the first status register (all of them).
pub const IRQ_MASK_0: u8 = 0b1111_1111;

/// Causes kept from the second status register: the bus insert and remove
/// bits are dropped.
pub const IRQ_MASK_1: u8 = 0b1111_1100;

/// Causes kept from the third status register: the battery switch
/// over-current and watchdog expiry bits are dropped.
pub const IRQ_MASK_2: u8 = 0b0101_1111;

/// One interrupt cause of the power management unit.
#[derive(Debug, Clone, Copy, PartialEq, Eq, Structural)]
pub enum PmuEvent {
    BatteryPercentWarnLevel2,
    BatteryPercentWarnLevel1,
    GaugeWatchdogTimeout,
    BatteryPercentNewLow,
    BatteryChargeOverTemperature,
    BatteryChargeUnderTemperature,
    BatteryWorkOverTemperature,
    BatteryWorkUnderTemperature,
    VbusInsert,
    VbusRemove,
    BatteryInsert,
    BatteryRemove,
    PowerKeyEventShort,
    PowerKeyEventLong,
    PowerKeyNegativeEdge,
    PowerKeyPositiveEdge,
    BatteryOverVoltage,
    ChargerSafetyTimerExpire,
    DieOverTemperature,
    ChargerStart,
    BatteryChargeDone,
    BatfetOverCurrent,
    LdoOverCurrent,
    WatchdogExpire,
}

/// The cause that bit `k` (0 to 23, counted across the three registers from
/// the lowest bit of the first) stands for.
pub open spec fn reason_spec(k: int) -> PmuEvent {
    if k == 0 {
        PmuEvent::BatteryPercentWarnLevel2
    } else if k == 1 {
        PmuEvent::BatteryPercentWarnLevel1
    } else if k == 2 {
        PmuEvent::GaugeWatchdogTimeout
    } else if k == 3 {
        PmuEvent::BatteryPercentNewLow
    } else if k == 4 {
        PmuEvent::BatteryChargeOverTemperature
    } else if k == 5 {
        PmuEvent::BatteryChargeUnderTemperature
    } else if k == 6 {
        PmuEvent::BatteryWorkOverTemperature
    } else if k == 7 {
        PmuEvent::BatteryWorkUnderTemperature
    } else if k == 8 {
        PmuEvent::VbusInsert
    } else if k == 9 {
        PmuEvent::VbusRemove
    } else if k == 10 {
        PmuEvent::BatteryInsert
    } else if k == 11 {
        PmuEvent::BatteryRemove
    } else if k == 12 {
        PmuEvent::PowerKeyEventShort
    } else if k == 13 {
        PmuEvent::PowerKeyEventLong
    } else if k == 14 {
        PmuEvent::PowerKeyNegativeEdge
    } else if k == 15 {
        PmuEvent::PowerKeyPositiveEdge
    } else if k == 16 {
        PmuEvent::BatteryOverVoltage
    } else if k == 17 {
        PmuEvent::ChargerSafetyTimerExpire
    } else if k == 18 {
        PmuEvent::DieOverTemperature
    } else if k == 19 {
        PmuEvent::ChargerStart
    } else if k == 20 {
        PmuEvent::BatteryChargeDone
    } else if k == 21 {
        PmuEvent::BatfetOverCurrent
    } else if k == 22 {
        PmuEvent::LdoOverCurrent
    } else {
        PmuEvent::WatchdogExpire
    }
}

/// The cause that status bit `k` (below 24) stands for.
pub fn irq_reason(k: u8) -> (r: PmuEvent)
    requires
        k < 24,
    ensures
        r == reason_spec(k as int),
{
    match k {
        0 => PmuEvent::BatteryPercentWarnLevel2,
        1 => PmuEvent::BatteryPercentWarnLevel1,
        2 => PmuEvent::GaugeWatchdogTimeout,
        3 => PmuEvent::BatteryPercentNewLow,
        4 => PmuEvent::BatteryChargeOverTemperature,
        5 => PmuEvent::BatteryChargeUnderTemperature,
        6 => PmuEvent::BatteryWorkOverTemperature,
        7 => PmuEvent::BatteryWorkUnderTemperature,
        8 => PmuEvent::VbusInsert,
        9 => PmuEvent::VbusRemove,
        10 => PmuEvent::BatteryInsert,
        11 => PmuEvent::BatteryRemove,
        12 => PmuEvent::PowerKeyEventShort,
        13 => PmuEvent::PowerKeyEventLong,
        14 => PmuEvent::PowerKeyNegativeEdge,
        15 => PmuEvent::PowerKeyPositiveEdge,
        16 => PmuEvent::BatteryOverVoltage,
        17 => PmuEvent::ChargerSafetyTimerExpire,
        18 => PmuEvent::DieOverTemperature,
        19 => PmuEvent::ChargerStart,
        20 => PmuEvent::BatteryChargeDone,
        21 => PmuEvent::BatfetOverCurrent,
        22 => PmuEvent::LdoOverCurrent,
        _ => PmuEvent::WatchdogExpire,
    }
}

/// The latched contents of the three interrupt status registers, in register
/// order.
#[derive(Debug, Clone, Copy, PartialEq, Eq, Structural)]
pub struct IrqStatus(pub u8, pub u8, pub u8);

impl IrqStatus {
    /// Status register `i` (0 to 2).
    pub open spec fn byte(self, i: int) -> u8 {
        if i == 0 {
            self.0
        } else if i == 1 {
            self.1
        } else {
            self.2
        }
    }

    /// Whether bit `k` (below 24) of the three registers is set.
    pub open spec fn bit_set(self, k: int) -> bool {
        (self.byte(k / 8) >> ((k % 8) as u8)) & 1u8 == 1u8
    }

    /// The causes of the set bits among the first `n` bits, lowest first.
    pub open spec fn reasons_upto(self, n: int) -> Seq<PmuEvent>
        decreases n,
    {
        if n <= 0 {
            seq![]
        } else if self.bit_set(n - 1) {
            self.reasons_upto(n - 1).push(reason_spec(n - 1))
        } else {
            self.reasons_upto(n - 1)
        }
    }

    /// The causes of all set bits, in register order, lowest bit first.
    pub open spec fn reasons(self) -> Seq<PmuEvent> {
        self.reasons_upto(24)
    }

    /// The status with the suppressed causes cleared.
    pub open spec fn masked_spec(self) -> IrqStatus {
        IrqStatus(self.0 & IRQ_MASK_0, self.1 & IRQ_MASK_1, self.2 & IRQ_MASK_2)
    }

    /// Clears the suppressed causes.
    pub fn masked(&self) -> (r: IrqStatus)
        ensures
            r == self.masked_spec(),
            r.0 == self.0,
            r.1 == self.1 & 0b1111_1100u8,
            r.2 == self.2 & 0b0101_1111u8,
    {
        let b0 = self.0;
        assert(b0 & 0b1111_1111u8 == b0) by (bit_vector);
        IrqStatus(self.0 & IRQ_MASK_0, self.1 & IRQ_MASK_1, self.2 & IRQ_MASK_2)
    }

    /// One event per set bit, in register order, lowest bit first.
    pub fn decode(&self) -> (r: Vec<PmuEvent>)
        ensures
            r@ == self.reasons(),
    {
        let mut r: Vec<PmuEvent> = Vec::new();
        let mut k: u8 = 0;
        while k < 24
            invariant
                k <= 24,
                r@ == self.reasons_upto(k as int),
            decreases 24 - k,
        {
            let byte: u8 = if k < 8 {
                self.0
            } else if k < 16 {
                self.1
            } else {
                self.2
            };
            if (byte >> (k % 8)) & 1u8 == 1u8 {
                r.push(irq_reason(k));
            }
            k = k + 1;
        }
        r
    }

    /// The events of one interrupt: the causes that survive the mask, in
    /// register order, lowest bit first.
    pub fn events(&self) -> (r: Vec<PmuEvent>)
        ensures
            r@ == self.masked_spec().reasons(),
    {
        self.masked().decode()
    }
}

} // verus!
