//! The state that the tasks of the device share.
//!
//! The ADC engine writes the channel values and the active channel; the
//! screen director reads them and moves the screen state; the host watcher
//! sets the force-publish flag and restarts the screen. Every field stands on
//! its own: no reader needs two fields to agree, so a value that is one tick
//! old is good enough. A task takes the state by reference for one tick and
//! hands it back.

use crate::graphics::ScreenState;
use vstd::prelude::*;

verus! {

/// The most channels the device can have: the inputs of its converter.
pub const MAX_CHANNELS: usize = 8;

/// The highest normalized channel value.
pub const VALUE_MAX: u32 = 1023;

/// The stored byte that stands for "no active channel".
pub const NO_CHANNEL: i8 = -1;

/// What the shared state holds.
pub struct SharedView {
    /// One normalized value per channel, each 0 to 1023.
    pub values: Seq<u32>,
    /// The active channel, an index into `values`.
    pub active: Option<usize>,
    /// Whether the next ADC tick publishes even if no value changed.
    pub force_push: bool,
    pub screen: ScreenState,
    /// Whether input is flagged active, which switches the glitch on.
    pub active_input: bool,
}

/// The shared state: the channel values, the active channel, the
/// force-publish flag, the state of the screen and the active-input flag.
pub struct SharedState {
    values: [u32; 8],
    count: usize,
    active: Option<usize>,
    force_push: bool,
    screen: ScreenState,
    active_input: bool,
}

/// The byte under which an active channel is stored.
pub open spec fn encode_active_spec(active: Option<usize>, channels: int) -> i8 {
    match active {
        Some(c) => if c < channels && c <= 127 {
            c as i8
        } else {
            NO_CHANNEL
        },
        None => NO_CHANNEL,
    }
}

/// The active channel that a stored byte stands for.
pub open spec fn decode_active_spec(raw: i8) -> Option<usize> {
    if raw >= 0 {
        Some(raw as usize)
    } else {
        None
    }
}

/// The byte under which an active channel is stored: its index, or the
/// sentinel for none and for an index that is no channel.
pub fn encode_active_channel(active: Option<usize>, channels: usize) -> (raw: i8)
    ensures
        raw == encode_active_spec(active, channels as int),
{
    match active {
        Some(c) => {
            if c < channels && c <= 127 {
                c as i8
            } else {
                NO_CHANNEL
            }
        },
        None => NO_CHANNEL,
    }
}

/// The active channel that a stored byte stands for.
pub fn decode_active_channel(raw: i8) -> (active: Option<usize>)
    ensures
        active == decode_active_spec(raw),
{
    if raw >= 0 {
        Some(raw as usize)
    } else {
        None
    }
}

impl View for SharedState {
    type V = SharedView;

    closed spec fn view(&self) -> SharedView {
        SharedView {
            values: self.values@.subrange(0, self.count as int),
            active: self.active,
            force_push: self.force_push,
            screen: self.screen,
            active_input: self.active_input,
        }
    }
}

/// What holds of the shared state at all times: at most eight channels, every
/// value at most 1023, and the active channel one of the channels.
pub open spec fn shared_inv(v: SharedView) -> bool {
    &&& v.values.len() <= MAX_CHANNELS
    &&& forall|i: int| 0 <= i < v.values.len() ==> v.values[i] <= VALUE_MAX
    &&& v.active is Some ==> v.active->0 < v.values.len()
}

impl SharedState {
    #[verifier::type_invariant]
    spec fn well_formed(&self) -> bool {
        &&& self.count <= MAX_CHANNELS
        &&& forall|i: int| 0 <= i < 8 ==> self.values@[i] <= VALUE_MAX
        &&& self.active is Some ==> self.active->0 < self.count
    }

    /// The state at start: every value 0, no active channel, nothing to
    /// publish, the screen off. `None` where `channels` is more than eight.
    pub fn new(channels: usize) -> (r: Option<SharedState>)
        ensures
            r is Some <==> channels <= MAX_CHANNELS,
            r is Some ==> r->0@ == (SharedView {
                values: Seq::new(channels as nat, |i: int| 0u32),
                active: None,
                force_push: false,
                screen: ScreenState::OFF,
                active_input: false,
            }),
    {
        if channels > MAX_CHANNELS {
            return None;
        }
        let values: [u32; 8] = [0u32; 8];
        assert(values@.subrange(0, channels as int) =~= Seq::new(channels as nat, |k: int| 0u32));
        Some(
            SharedState {
                values,
                count: channels,
                active: None,
                force_push: false,
                screen: ScreenState::OFF,
                active_input: false,
            },
        )
    }

    /// Puts the state back to what it was at start, for the same channels.
    pub fn reset(&mut self)
        ensures
            final(self)@ == (SharedView {
                values: Seq::new(old(self)@.values.len(), |i: int| 0u32),
                active: None,
                force_push: false,
                screen: ScreenState::OFF,
                active_input: false,
            }),
    {
        proof {
            use_type_invariant(&*self);
        }
        self.values = [0u32; 8];
        self.active = None;
        self.force_push = false;
        self.screen = ScreenState::OFF;
        self.active_input = false;
        assert(self.values@.subrange(0, self.count as int) =~= Seq::new(
            self.count as nat,
            |i: int| 0u32,
        ));
    }

    /// The number of channels.
    pub fn channel_count(&self) -> (n: usize)
        ensures
            n == self@.values.len(),
            n <= MAX_CHANNELS,
            shared_inv(self@),
    {
        proof {
            use_type_invariant(self);
        }
        self.count
    }

    /// The value of a channel, or 0 for an index that is no channel.
    pub fn value(&self, channel: usize) -> (v: u32)
        ensures
            v == if channel < self@.values.len() {
                self@.values[channel as int]
            } else {
                0u32
            },
            v <= VALUE_MAX,
    {
        proof {
            use_type_invariant(self);
        }
        if channel < self.count {
            self.values[channel]
        } else {
            0
        }
    }

    /// All channel values, in channel order.
    pub fn values(&self) -> (r: &[u32])
        ensures
            r@ == self@.values,
            shared_inv(self@),
    {
        proof {
            use_type_invariant(self);
        }
        vstd::slice::slice_subrange(self.values.as_slice(), 0, self.count)
    }

    /// Stores a channel's value.
    pub fn set_value(&mut self, channel: usize, v: u32)
        requires
            channel < old(self)@.values.len(),
            v <= VALUE_MAX,
        ensures
            final(self)@ == (SharedView {
                values: old(self)@.values.update(channel as int, v),
                ..old(self)@
            }),
    {
        proof {
            use_type_invariant(&*self);
        }
        let ghost before = self.values@;
        self.values[channel] = v;
        assert(self.values@.subrange(0, self.count as int) =~= before.subrange(
            0,
            self.count as int,
        ).update(channel as int, v));
    }

    /// The active channel, if there is one.
    pub fn active_channel(&self) -> (r: Option<usize>)
        ensures
            r == self@.active,
            r is Some ==> r->0 < self@.values.len(),
    {
        proof {
            use_type_invariant(self);
        }
        self.active
    }

    /// Makes `channel` the active one; an index that is no channel, like
    /// `None`, leaves no channel active.
    pub fn set_active_channel(&mut self, channel: Option<usize>)
        ensures
            final(self)@ == (SharedView {
                active: match channel {
                    Some(c) => if c < old(self)@.values.len() {
                        Some(c)
                    } else {
                        None
                    },
                    None => None,
                },
                ..old(self)@
            }),
    {
        proof {
            use_type_invariant(&*self);
        }
        let n = self.count;
        self.active = match channel {
            Some(c) => if c < n {
                Some(c)
            } else {
                None
            },
            None => None,
        };
    }

    /// Whether the next ADC tick publishes even if no value changed.
    pub fn force_push(&self) -> (r: bool)
        ensures
            r == self@.force_push,
    {
        self.force_push
    }

    /// Sets or clears the force-publish flag.
    pub fn set_force_push(&mut self, on: bool)
        ensures
            final(self)@ == (SharedView { force_push: on, ..old(self)@ }),
    {
        proof {
            use_type_invariant(&*self);
        }
        self.force_push = on;
    }

    /// The state of the screen.
    pub fn screen_state(&self) -> (r: ScreenState)
        ensures
            r == self@.screen,
    {
        self.screen
    }

    /// Moves the screen to a state.
    pub fn set_screen_state(&mut self, screen: ScreenState)
        ensures
            final(self)@ == (SharedView { screen, ..old(self)@ }),
    {
        proof {
            use_type_invariant(&*self);
        }
        self.screen = screen;
    }

    /// Whether input is flagged active.
    pub fn active_input(&self) -> (r: bool)
        ensures
            r == self@.active_input,
    {
        self.active_input
    }

    /// Sets or clears the active-input flag.
    pub fn set_active_input(&mut self, on: bool)
        ensures
            final(self)@ == (SharedView { active_input: on, ..old(self)@ }),
    {
        proof {
            use_type_invariant(&*self);
        }
        self.active_input = on;
    }
}

} // verus!
