//! Relay sequences: resetting a target and forcing it into MASKROM mode.
//!
//! A sequence is a list of steps. Where a step fails, the channels that the
//! sequence uses are switched off again.

use vstd::prelude::*;
use vstd::string::*;

verus! {

/// One step of a relay sequence.
#[derive(Debug, Clone, Copy, PartialEq, Eq, Structural)]
pub enum RelayStep {
    /// Switch a channel on.
    On(u8),
    /// Switch a channel off.
    Off(u8),
    /// Wait, in milliseconds.
    Wait(u64),
}

/// What to do after trying to send a packet.
#[derive(Debug, Clone, Copy, PartialEq, Eq, Structural)]
pub enum SendNext {
    /// Go on with the response.
    Proceed,
    /// Drop the connection and try once more.
    Retry,
    /// Report the error.
    Fail,
}

/// A relay board that resets a target.
pub struct RelayManager {
    pub host: String,
    pub port: u16,
    pub reset_ch: u8,
    pub maskrom_ch: u8,
}

impl RelayManager {
    /// A port and a reset channel from 1 to 4 are configured.
    pub open spec fn ready(self) -> bool {
        self.port > 0 && 1 <= self.reset_ch <= 4
    }

    /// Also a MASKROM channel from 1 to 4 is configured.
    pub open spec fn maskrom_ready(self) -> bool {
        self.ready() && 1 <= self.maskrom_ch <= 4
    }

    pub fn new(host: String, port: u16, reset_channel: u8, maskrom_channel: u8) -> (r: Self)
        ensures
            r == (RelayManager { host, port, reset_ch: reset_channel, maskrom_ch: maskrom_channel }),
    {
        RelayManager { host, port, reset_ch: reset_channel, maskrom_ch: maskrom_channel }
    }

    /// Whether a port and a reset channel from 1 to 4 are configured.
    pub fn configured(&self) -> (r: bool)
        ensures
            r == self.ready(),
    {
        self.port > 0 && self.reset_ch > 0 && self.reset_ch <= 4
    }

    /// Whether MASKROM mode is available.
    pub fn maskrom_configured(&self) -> (r: bool)
        ensures
            r == self.maskrom_ready(),
    {
        self.configured() && self.maskrom_ch > 0 && self.maskrom_ch <= 4
    }

    /// The MASKROM channel.
    pub fn maskrom_ch(&self) -> (r: u8)
        ensures
            r == self.maskrom_ch,
    {
        self.maskrom_ch
    }

    /// The steps of a reset: the channel on for half a second. None where no
    /// reset is configured.
    pub fn reset(&self) -> (r: Option<Vec<RelayStep>>)
        ensures
            r is Some <==> self.ready(),
            r matches Some(s) ==> s@ == seq![
                RelayStep::On(self.reset_ch),
                RelayStep::Wait(500),
                RelayStep::Off(self.reset_ch),
            ],
    {
        if !self.configured() {
            return None;
        }
        let mut s: Vec<RelayStep> = Vec::new();
        s.push(RelayStep::On(self.reset_ch));
        s.push(RelayStep::Wait(500));
        s.push(RelayStep::Off(self.reset_ch));
        assert(s@ =~= seq![
            RelayStep::On(self.reset_ch),
            RelayStep::Wait(500),
            RelayStep::Off(self.reset_ch),
        ]);
        Some(s)
    }

    /// The steps after a failed reset.
    pub fn reset_rollback(&self) -> (r: Vec<RelayStep>)
        ensures
            r@ == seq![RelayStep::Off(self.reset_ch)],
    {
        let mut s: Vec<RelayStep> = Vec::new();
        s.push(RelayStep::Off(self.reset_ch));
        assert(s@ =~= seq![RelayStep::Off(self.reset_ch)]);
        s
    }

    /// The steps into MASKROM mode: MASKROM on, RESET on, RESET off, MASKROM
    /// off, a second apart. None where MASKROM mode is not available.
    pub fn enter_maskrom(&self) -> (r: Option<Vec<RelayStep>>)
        ensures
            r is Some <==> self.maskrom_ready(),
            r matches Some(s) ==> s@ == seq![
                RelayStep::On(self.maskrom_ch),
                RelayStep::Wait(1000),
                RelayStep::On(self.reset_ch),
                RelayStep::Wait(1000),
                RelayStep::Off(self.reset_ch),
                RelayStep::Wait(1000),
                RelayStep::Off(self.maskrom_ch),
            ],
    {
        if !self.maskrom_configured() {
            return None;
        }
        let mut s: Vec<RelayStep> = Vec::new();
        s.push(RelayStep::On(self.maskrom_ch));
        s.push(RelayStep::Wait(1000));
        s.push(RelayStep::On(self.reset_ch));
        s.push(RelayStep::Wait(1000));
        s.push(RelayStep::Off(self.reset_ch));
        s.push(RelayStep::Wait(1000));
        s.push(RelayStep::Off(self.maskrom_ch));
        assert(s@ =~= seq![
            RelayStep::On(self.maskrom_ch),
            RelayStep::Wait(1000),
            RelayStep::On(self.reset_ch),
            RelayStep::Wait(1000),
            RelayStep::Off(self.reset_ch),
            RelayStep::Wait(1000),
            RelayStep::Off(self.maskrom_ch),
        ]);
        Some(s)
    }

    /// The steps after a failed MASKROM sequence: both channels off.
    pub fn maskrom_rollback(&self) -> (r: Vec<RelayStep>)
        ensures
            r@ == seq![RelayStep::Off(self.reset_ch), RelayStep::Off(self.maskrom_ch)],
    {
        let mut s: Vec<RelayStep> = Vec::new();
        s.push(RelayStep::Off(self.reset_ch));
        s.push(RelayStep::Off(self.maskrom_ch));
        assert(s@ =~= seq![RelayStep::Off(self.reset_ch), RelayStep::Off(self.maskrom_ch)]);
        s
    }
}

/// What follows the attempt to open the connection or to write a packet: the
/// first failure is tried again, the second is reported.
pub fn after_attempt(attempt: u32, worked: bool) -> (r: SendNext)
    ensures
        r == (if worked {
            SendNext::Proceed
        } else if attempt == 0 {
            SendNext::Retry
        } else {
            SendNext::Fail
        }),
{
    if worked {
        SendNext::Proceed
    } else if attempt == 0 {
        SendNext::Retry
    } else {
        SendNext::Fail
    }
}

/// The channels that are on after the first `k` steps.
pub open spec fn on_after(steps: Seq<RelayStep>, k: int) -> Set<u8>
    decreases k,
{
    if k <= 0 {
        Set::empty()
    } else {
        let before = on_after(steps, k - 1);
        match steps[k - 1] {
            RelayStep::On(c) => before.insert(c),
            RelayStep::Off(c) => before.remove(c),
            RelayStep::Wait(_) => before,
        }
    }
}

/// Law: a reset that runs to its end leaves every channel off, and wherever it
/// fails, the rollback does.
pub proof fn law_reset_leaves_channels_off(m: RelayManager, steps: Seq<RelayStep>, k: int)
    requires
        m.ready(),
        steps == seq![
            RelayStep::On(m.reset_ch),
            RelayStep::Wait(500),
            RelayStep::Off(m.reset_ch),
        ],
        0 <= k <= 3,
    ensures
        on_after(steps, 3) == Set::<u8>::empty(),
        on_after(steps, k).remove(m.reset_ch) == Set::<u8>::empty(),
{
    reveal_with_fuel(on_after, 4);
    assert(on_after(steps, 3) =~= Set::<u8>::empty());
    assert(on_after(steps, k).remove(m.reset_ch) =~= Set::<u8>::empty());
}

/// Law: a MASKROM sequence that runs to its end leaves every channel off, and
/// wherever it fails, the rollback does.
pub proof fn law_maskrom_leaves_channels_off(m: RelayManager, steps: Seq<RelayStep>, k: int)
    requires
        m.maskrom_ready(),
        steps == seq![
            RelayStep::On(m.maskrom_ch),
            RelayStep::Wait(1000),
            RelayStep::On(m.reset_ch),
            RelayStep::Wait(1000),
            RelayStep::Off(m.reset_ch),
            RelayStep::Wait(1000),
            RelayStep::Off(m.maskrom_ch),
        ],
        0 <= k <= 7,
    ensures
        on_after(steps, 7) == Set::<u8>::empty(),
        on_after(steps, k).remove(m.reset_ch).remove(m.maskrom_ch) == Set::<u8>::empty(),
{
    reveal_with_fuel(on_after, 8);
    assert(on_after(steps, 7) =~= Set::<u8>::empty());
    assert(on_after(steps, k).remove(m.reset_ch).remove(m.maskrom_ch) =~= Set::<u8>::empty());
}

/// Law: a relay can reset with a port and a channel from 1 to 4, and force the mask ROM
/// where that channel is one of them too.
pub proof fn law_relay_is_ready(m: RelayManager)
    ensures
        m.ready() <==> m.port != 0 && (m.reset_ch == 1 || m.reset_ch == 2 || m.reset_ch == 3
            || m.reset_ch == 4),
        m.maskrom_ready() <==> m.ready() && (m.maskrom_ch == 1 || m.maskrom_ch == 2
            || m.maskrom_ch == 3 || m.maskrom_ch == 4),
{
}

/// Law: a reset switches its channel alone on, for half a second, and off again.
pub proof fn law_reset_pulses_its_channel(m: RelayManager, r: Option<Vec<RelayStep>>, k: int)
    requires
        call_ensures(RelayManager::reset, (&m,), r),
    ensures
        r is Some <==> m.port > 0 && 1 <= m.reset_ch <= 4,
        r matches Some(s) ==> {
            &&& on_after(s@, s@.len() as int) == Set::<u8>::empty()
            &&& 0 <= k < s@.len() && s@[k] is Wait ==> on_after(s@, k) == Set::<u8>::empty().insert(
                m.reset_ch,
            )
            &&& waited(s@, s@.len() as int) == 500
        },
{
    if let Some(s) = r {
        reveal_with_fuel(on_after, 5);
        reveal_with_fuel(waited, 5);
        assert(on_after(s@, 3) =~= Set::<u8>::empty());
        assert(on_after(s@, 1) =~= Set::<u8>::empty().insert(m.reset_ch));
    }
}

/// How long the first `k` steps wait, in milliseconds.
pub open spec fn waited(steps: Seq<RelayStep>, k: int) -> int
    decreases k,
{
    if k <= 0 {
        0
    } else {
        waited(steps, k - 1) + (match steps[k - 1] {
            RelayStep::Wait(ms) => ms as int,
            _ => 0,
        })
    }
}

/// Law: the mask ROM is forced by a reset within the time that its channel is on; both
/// are off in the end.
#[verifier::rlimit(50)]
pub proof fn law_maskrom_holds_through_the_reset(
    m: RelayManager,
    r: Option<Vec<RelayStep>>,
    k: int,
)
    requires
        call_ensures(RelayManager::enter_maskrom, (&m,), r),
    ensures
        r is Some <==> m.port > 0 && 1 <= m.reset_ch <= 4 && 1 <= m.maskrom_ch <= 4,
        r matches Some(s) ==> {
            &&& on_after(s@, s@.len() as int) == Set::<u8>::empty()
            &&& m.reset_ch != m.maskrom_ch ==> {
                &&& exists|i: int|
                    0 < i < s@.len() && #[trigger] s@[i] == RelayStep::On(m.reset_ch) && s@[i - 1]
                        == RelayStep::Wait(1000)
                &&& 0 <= k <= s@.len() && on_after(s@, k).contains(m.reset_ch) ==> on_after(
                    s@,
                    k,
                ).contains(m.maskrom_ch)
                &&& 0 <= k < s@.len() && s@[k] is Wait ==> on_after(s@, k).contains(m.maskrom_ch)
            }
            &&& waited(s@, s@.len() as int) == 3000
        },
{
    if let Some(s) = r {
        reveal_with_fuel(on_after, 8);
        reveal_with_fuel(waited, 8);
        assert(on_after(s@, 7) =~= Set::<u8>::empty());
        assert(s@[2] == RelayStep::On(m.reset_ch));
    }
}

/// Law: a packet that could not be sent is tried once more.
pub proof fn law_one_more_try(attempt: u32, worked: bool, r: SendNext)
    requires
        call_ensures(after_attempt, (attempt, worked), r),
    ensures
        r == SendNext::Proceed <==> worked,
        r == SendNext::Retry <==> !worked && attempt == 0,
{
}

} // verus!
