//! Event logic of a handheld gadget: touch gesture arbitration, power
//! management interrupt decoding, advertisement identity rotation and the
//! dispatch of merged input events.

pub mod advert;
pub mod dispatch;
pub mod pmu;
pub mod touch;
