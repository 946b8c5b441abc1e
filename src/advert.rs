//! Advertisement identity rotation.
//!
//! A background loop rotates the advertised identity: each cycle it drains the
//! pending control commands, and while running builds a fresh advertisement
//! profile (payload, random address, connectable mode, transmit power) from two
//! 32-bit random words.

use vstd::prelude::*;

verus! {

/// Capacity of the control command channel.
pub const CONTROL_CHANNEL_CAPACITY: usize = 3;

/// Back-off while stopped, in milliseconds.
pub const IDLE_BACKOFF_MS: u32 = 500;

/// How long each profile stays on air, in milliseconds.
pub const ADVERTISE_WINDOW_MS: u32 = 1000;

/// Pause after advertising stops, before the next cycle, in milliseconds.
pub const SETTLE_DELAY_MS: u32 = 50;

/// Highest transmit power setting.
pub const MAX_POWER_SETTING: u8 = 7;

/// Control commands accepted by the advertisement loop.
#[derive(Debug, Clone, Copy, PartialEq, Eq, Structural)]
pub enum JuicyTaskControl {
    Start,
    Stop,
    SetPower(u8),
    Terminate,
}

/// The eight transmit power steps of the radio, in dBm: from -12 up to +9.
#[derive(Debug, Clone, Copy, PartialEq, Eq, Structural)]
pub enum PowerLevel {
    N12,
    N9,
    N6,
    N3,
    N0,
    P3,
    P6,
    P9,
}

/// How a peer may react to the advertisement.
#[derive(Debug, Clone, Copy, PartialEq, Eq, Structural)]
pub enum ConnMode {
    NonConnectable,
    Undirected,
}

/// The power step of setting `value`; settings from 7 up give the highest step.
pub open spec fn power_level_spec(value: u8) -> PowerLevel {
    if value == 0 {
        PowerLevel::N12
    } else if value == 1 {
        PowerLevel::N9
    } else if value == 2 {
        PowerLevel::N6
    } else if value == 3 {
        PowerLevel::N3
    } else if value == 4 {
        PowerLevel::N0
    } else if value == 5 {
        PowerLevel::P3
    } else if value == 6 {
        PowerLevel::P6
    } else {
        PowerLevel::P9
    }
}

/// Maps a power setting to the radio's power step: 0 is -12 dBm, each step
/// adds 3 dBm, and 7 or more is +9 dBm.
pub fn to_power_level(value: u8) -> (r: PowerLevel)
    ensures
        r == power_level_spec(value),
        value >= 7 ==> r == PowerLevel::P9,
{
    match value {
        0 => PowerLevel::N12,
        1 => PowerLevel::N9,
        2 => PowerLevel::N6,
        3 => PowerLevel::N3,
        4 => PowerLevel::N0,
        5 => PowerLevel::P3,
        6 => PowerLevel::P6,
        _ => PowerLevel::P9,
    }
}

impl PowerLevel {
    /// The transmit power of the step, in dBm.
    pub open spec fn dbm_spec(self) -> int {
        match self {
            PowerLevel::N12 => -12,
            PowerLevel::N9 => -9,
            PowerLevel::N6 => -6,
            PowerLevel::N3 => -3,
            PowerLevel::N0 => 0,
            PowerLevel::P3 => 3,
            PowerLevel::P6 => 6,
            PowerLevel::P9 => 9,
        }
    }

    /// The transmit power of the step, in dBm.
    pub fn dbm(&self) -> (r: i8)
        ensures
            r as int == self.dbm_spec(),
    {
        match self {
            PowerLevel::N12 => -12,
            PowerLevel::N9 => -9,
            PowerLevel::N6 => -6,
            PowerLevel::N3 => -3,
            PowerLevel::N0 => 0,
            PowerLevel::P3 => 3,
            PowerLevel::P6 => 6,
            PowerLevel::P9 => 9,
        }
    }
}

/// Power mapping: every setting from 0 to 7 has its own step, 3 dBm above
/// the one before, starting at -12 dBm; any larger value is the top step.
pub proof fn lemma_power_mapping(a: u8, b: u8)
    ensures
        a <= 7 ==> power_level_spec(a).dbm_spec() == -12 + 3 * a,
        a <= 7 && b <= 7 && a != b ==> power_level_spec(a) != power_level_spec(b),
        a >= 7 ==> power_level_spec(a) == power_level_spec(7),
{
}


/// The two pools of advertisement payloads ("long" and "short" device
/// fingerprints); neither is empty.
pub struct PayloadPools {
    long: Vec<Vec<u8>>,
    short: Vec<Vec<u8>>,
}

impl PayloadPools {
    pub closed spec fn long_spec(self) -> Seq<Seq<u8>> {
        self.long@.map_values(|v: Vec<u8>| v@)
    }

    pub closed spec fn short_spec(self) -> Seq<Seq<u8>> {
        self.short@.map_values(|v: Vec<u8>| v@)
    }

    pub open spec fn wf(self) -> bool {
        self.long_spec().len() > 0 && self.short_spec().len() > 0
    }

    /// Builds the pools; `None` when either is empty.
    pub fn new(long: Vec<Vec<u8>>, short: Vec<Vec<u8>>) -> (r: Option<PayloadPools>)
        ensures
            r is None <==> (long@.len() == 0 || short@.len() == 0),
            r matches Some(p) ==> p.wf() && p.long_spec() == long@.map_values(|v: Vec<u8>| v@)
                && p.short_spec() == short@.map_values(|v: Vec<u8>| v@),
    {
        if long.len() == 0 || short.len() == 0 {
            None
        } else {
            Some(PayloadPools { long, short })
        }
    }
}

/// Everything the radio is set to for one advertising cycle.
pub struct AdvertisementProfile {
    pub payload: Vec<u8>,
    pub address: Vec<u8>,
    pub conn_mode: ConnMode,
    pub power: PowerLevel,
}

/// Whether the first random word selects the long pool (its bit 8).
pub open spec fn uses_long_pool(r1: u32) -> bool {
    (r1 >> 8u32) & 1u32 == 1u32
}

/// The payload that random word `r1` picks from the pools.
pub open spec fn payload_spec(long: Seq<Seq<u8>>, short: Seq<Seq<u8>>, r1: u32) -> Seq<u8> {
    if uses_long_pool(r1) {
        long[r1 as int % long.len() as int]
    } else {
        short[r1 as int % short.len() as int]
    }
}

/// The random address built from the two words: bytes 2 and 3 of `r1` (the
/// first with its two top bits set), then the four bytes of `r2`, lowest first.
pub open spec fn address_spec(r1: u32, r2: u32) -> Seq<u8> {
    seq![
        ((r1 >> 16u32) | 0xC0u32) as u8,
        (r1 >> 24u32) as u8,
        r2 as u8,
        (r2 >> 8u32) as u8,
        (r2 >> 16u32) as u8,
        (r2 >> 24u32) as u8,
    ]
}

/// The connectable mode that the second word picks (its bit 0).
pub open spec fn conn_mode_spec(r2: u32) -> ConnMode {
    if r2 & 1u32 == 0u32 {
        ConnMode::NonConnectable
    } else {
        ConnMode::Undirected
    }
}

/// Builds the random address from the two random words.
pub fn random_address(r1: u32, r2: u32) -> (r: Vec<u8>)
    ensures
        r@ == address_spec(r1, r2),
        r@.len() == 6,
        r@[0] & 0xC0u8 == 0xC0u8,
{
    let r = vec![
        ((r1 >> 16u32) | 0xC0u32) as u8,
        (r1 >> 24u32) as u8,
        r2 as u8,
        (r2 >> 8u32) as u8,
        (r2 >> 16u32) as u8,
        (r2 >> 24u32) as u8,
    ];
    proof {
        lemma_address_marked(r1, r2);
    }
    r
}

/// Address invariant: every generated address has the two top bits of its
/// first byte set, as a static random device address requires.
pub proof fn lemma_address_marked(r1: u32, r2: u32)
    ensures
        address_spec(r1, r2).len() == 6,
        address_spec(r1, r2)[0] & 0xC0u8 == 0xC0u8,
{
    let b = ((r1 >> 16u32) | 0xC0u32) as u8;
    assert(b & 0xC0u8 == 0xC0u8) by (bit_vector)
        requires
            b == ((r1 >> 16u32) | 0xC0u32) as u8,
    ;
}

/// Builds the profile for one cycle from two random words, at power setting
/// `power`: bit 8 of `r1` picks the pool and `r1` modulo its size the payload,
/// the address comes from both words, and bit 0 of `r2` the connectable mode.
pub fn make_profile(pools: &PayloadPools, power: u8, r1: u32, r2: u32) -> (r: AdvertisementProfile)
    requires
        pools.wf(),
    ensures
        r.payload@ == payload_spec(pools.long_spec(), pools.short_spec(), r1),
        r.address@ == address_spec(r1, r2),
        r.conn_mode == conn_mode_spec(r2),
        r.power == power_level_spec(power),
{
    let payload = if (r1 >> 8u32) & 1u32 == 1u32 {
        let i = (r1 as usize) % pools.long.len();
        pools.long[i].clone()
    } else {
        let i = (r1 as usize) % pools.short.len();
        pools.short[i].clone()
    };
    let conn_mode = if r2 & 1u32 == 0u32 {
        ConnMode::NonConnectable
    } else {
        ConnMode::Undirected
    };
    AdvertisementProfile {
        payload,
        address: random_address(r1, r2),
        conn_mode,
        power: to_power_level(power),
    }
}


/// What the advertisement loop does after draining its commands.
#[derive(Debug, Clone, Copy, PartialEq, Eq, Structural)]
pub enum CycleAction {
    /// A terminate command came: the loop ends.
    Terminate,
    /// Not running: back off and poll the commands again.
    Idle,
    /// Running: advertise one freshly built profile.
    Advertise,
}

/// Control state of the advertisement loop.
#[derive(Debug, Clone, Copy, PartialEq, Eq, Structural)]
pub struct Advertiser {
    pub running: bool,
    pub power: u8,
}

impl Advertiser {
    /// The power setting never exceeds the highest step.
    pub open spec fn wf(self) -> bool {
        self.power <= 7
    }

    /// Effect of one command other than terminate.
    pub open spec fn command_step(self, c: JuicyTaskControl) -> Advertiser {
        match c {
            JuicyTaskControl::Start => Advertiser { running: true, ..self },
            JuicyTaskControl::Stop => Advertiser { running: false, ..self },
            JuicyTaskControl::SetPower(v) => Advertiser {
                power: if v <= 7 {
                    v
                } else {
                    7
                },
                ..self
            },
            JuicyTaskControl::Terminate => self,
        }
    }

    /// Effect of the commands `cmds` in order, up to the first terminate; the
    /// flag tells whether a terminate came.
    pub open spec fn drain_spec(self, cmds: Seq<JuicyTaskControl>) -> (Advertiser, bool)
        decreases cmds.len(),
    {
        if cmds.len() == 0 {
            (self, false)
        } else {
            let (s, done) = self.drain_spec(cmds.drop_last());
            if done || cmds.last() == JuicyTaskControl::Terminate {
                (s, true)
            } else {
                (s.command_step(cmds.last()), false)
            }
        }
    }

    /// The state when the loop starts: stopped, at the highest power setting.
    pub fn new() -> (r: Advertiser)
        ensures
            r.wf(),
            !r.running,
            r.power == 7,
    {
        Advertiser { running: false, power: MAX_POWER_SETTING }
    }

    /// The current power step.
    pub fn power_level(&self) -> (r: PowerLevel)
        ensures
            r == power_level_spec(self.power),
    {
        to_power_level(self.power)
    }

    /// Applies one command; returns `false` on terminate, which changes
    /// nothing. A power setting above 7 is stored as 7.
    pub fn apply(&mut self, c: JuicyTaskControl) -> (r: bool)
        ensures
            r == (c != JuicyTaskControl::Terminate),
            *final(self) == old(self).command_step(c),
            old(self).wf() ==> final(self).wf(),
    {
        match c {
            JuicyTaskControl::Start => {
                self.running = true;
            },
            JuicyTaskControl::Stop => {
                self.running = false;
            },
            JuicyTaskControl::SetPower(v) => {
                self.power = if v <= MAX_POWER_SETTING {
                    v
                } else {
                    MAX_POWER_SETTING
                };
            },
            JuicyTaskControl::Terminate => {
                return false;
            },
        }
        true
    }

    /// One turn of the loop's decisions: applies the pending commands in
    /// order up to the first terminate, then says what to do next.
    pub fn cycle(&mut self, cmds: &Vec<JuicyTaskControl>) -> (r: CycleAction)
        ensures
            *final(self) == old(self).drain_spec(cmds@).0,
            r == if old(self).drain_spec(cmds@).1 {
                CycleAction::Terminate
            } else if final(self).running {
                CycleAction::Advertise
            } else {
                CycleAction::Idle
            },
            old(self).wf() ==> final(self).wf(),
    {
        let ghost start = *self;
        let mut k: usize = 0;
        while k < cmds.len()
            invariant
                0 <= k <= cmds@.len(),
                start == *old(self),
                start.drain_spec(cmds@.subrange(0, k as int)) == (*self, false),
                start.wf() ==> self.wf(),
            decreases cmds@.len() - k,
        {
            let c = cmds[k];
            assert(cmds@.subrange(0, k + 1).drop_last() == cmds@.subrange(0, k as int));
            if !self.apply(c) {
                proof {
                    assert(cmds@.subrange(0, k + 1).last() == c);
                    assert(start.drain_spec(cmds@.subrange(0, k + 1)) == (*self, true));
                    lemma_drain_stays_done(start, cmds@, k as int + 1);
                    assert(cmds@.subrange(0, cmds@.len() as int) == cmds@);
                }
                return CycleAction::Terminate;
            }
            k = k + 1;
        }
        assert(cmds@.subrange(0, cmds@.len() as int) == cmds@);
        if self.running {
            CycleAction::Advertise
        } else {
            CycleAction::Idle
        }
    }
}

/// Once a terminate has been seen, later commands change nothing.
proof fn lemma_drain_stays_done(s: Advertiser, cmds: Seq<JuicyTaskControl>, k: int)
    requires
        0 <= k <= cmds.len(),
        s.drain_spec(cmds.subrange(0, k)).1,
    ensures
        s.drain_spec(cmds) == s.drain_spec(cmds.subrange(0, k)),
    decreases cmds.len() - k,
{
    if k < cmds.len() {
        assert(cmds.subrange(0, k + 1).drop_last() == cmds.subrange(0, k));
        lemma_drain_stays_done(s, cmds, k + 1);
    } else {
        assert(cmds.subrange(0, k) == cmds);
    }
}

} // verus!
