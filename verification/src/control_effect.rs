//! The 64-bit word that crosses every stack switch.
//!
//! The low 32 bits hold the discriminant of the effect, the high 32 bits the
//! handler index of a suspension.

use vstd::prelude::*;

verus! {

/// Discriminant of [`ControlEffect::Return`].
pub const CONTROL_EFFECT_RETURN_DISCRIMINANT: u32 = 0;

/// Discriminant of [`ControlEffect::Resume`].
pub const CONTROL_EFFECT_RESUME_DISCRIMINANT: u32 = 1;

/// Discriminant of [`ControlEffect::Suspend`].
pub const CONTROL_EFFECT_SUSPEND_DISCRIMINANT: u32 = 2;

/// Discriminant of [`ControlEffect::Switch`].
pub const CONTROL_EFFECT_SWITCH_DISCRIMINANT: u32 = 3;

/// Why control arrived on a stack.
#[derive(Clone, Copy, Debug, PartialEq, Eq, Structural)]
pub enum ControlEffect {
    /// The continuation's entry function returned.
    Return,
    /// The continuation is being resumed; only ever the initiating signal.
    Resume,
    /// The continuation suspended to the handler at `handler_index` in the
    /// handler list of the stack that receives the effect.
    Suspend {
        /// Position of the handler in the receiving stack's handler list.
        handler_index: u32,
    },
    /// The continuation switched to a sibling.
    Switch,
}

/// The value of bits 0 to 31 of `word`.
pub open spec fn low_half(word: u64) -> u32 {
    (word as int % 0x1_0000_0000) as u32
}

/// The value of bits 32 to 63 of `word`.
pub open spec fn high_half(word: u64) -> u32 {
    (word as int / 0x1_0000_0000) as u32
}

/// The word with `low` in bits 0 to 31 and `high` in bits 32 to 63.
pub open spec fn join_halves(low: u32, high: u32) -> u64 {
    (low as int + high as int * 0x1_0000_0000) as u64
}

impl ControlEffect {
    /// The discriminant that identifies the variant on the wire.
    pub open spec fn discriminant(self) -> u32 {
        match self {
            ControlEffect::Return => CONTROL_EFFECT_RETURN_DISCRIMINANT,
            ControlEffect::Resume => CONTROL_EFFECT_RESUME_DISCRIMINANT,
            ControlEffect::Suspend { .. } => CONTROL_EFFECT_SUSPEND_DISCRIMINANT,
            ControlEffect::Switch => CONTROL_EFFECT_SWITCH_DISCRIMINANT,
        }
    }

    /// The payload carried in the high half: the handler index of a
    /// suspension, zero for every other variant.
    pub open spec fn payload(self) -> u32 {
        match self {
            ControlEffect::Suspend { handler_index } => handler_index,
            _ => 0,
        }
    }

    /// The wire encoding of an effect.
    pub open spec fn encoding(self) -> u64 {
        join_halves(self.discriminant(), self.payload())
    }

    /// The effect that a word stands for, if its low half is a discriminant.
    /// The high half is read only for a suspension.
    pub open spec fn decoding(word: u64) -> Option<ControlEffect> {
        let low = low_half(word);
        if low == CONTROL_EFFECT_RETURN_DISCRIMINANT {
            Some(ControlEffect::Return)
        } else if low == CONTROL_EFFECT_RESUME_DISCRIMINANT {
            Some(ControlEffect::Resume)
        } else if low == CONTROL_EFFECT_SUSPEND_DISCRIMINANT {
            Some(ControlEffect::Suspend { handler_index: high_half(word) })
        } else if low == CONTROL_EFFECT_SWITCH_DISCRIMINANT {
            Some(ControlEffect::Switch)
        } else {
            None
        }
    }

    /// The effect of a normal return.
    pub fn return_() -> (effect: ControlEffect)
        ensures
            effect == ControlEffect::Return,
    {
        ControlEffect::Return
    }

    /// The effect that starts or continues a continuation.
    pub fn resume() -> (effect: ControlEffect)
        ensures
            effect == ControlEffect::Resume,
    {
        ControlEffect::Resume
    }

    /// The effect of suspending to the handler at `handler_index`.
    pub fn suspend(handler_index: u32) -> (effect: ControlEffect)
        ensures
            effect == (ControlEffect::Suspend { handler_index }),
    {
        ControlEffect::Suspend { handler_index }
    }

    /// The effect of switching to a sibling.
    pub fn switch() -> (effect: ControlEffect)
        ensures
            effect == ControlEffect::Switch,
    {
        ControlEffect::Switch
    }

    /// The discriminant of this effect.
    pub fn signal(&self) -> (discriminant: u32)
        ensures
            discriminant == self.discriminant(),
            discriminant == low_half(self.encoding()),
    {
        proof {
            lemma_halves_of_join(self.discriminant(), self.payload());
        }
        match self {
            ControlEffect::Return => CONTROL_EFFECT_RETURN_DISCRIMINANT,
            ControlEffect::Resume => CONTROL_EFFECT_RESUME_DISCRIMINANT,
            ControlEffect::Suspend { .. } => CONTROL_EFFECT_SUSPEND_DISCRIMINANT,
            ControlEffect::Switch => CONTROL_EFFECT_SWITCH_DISCRIMINANT,
        }
    }

    /// The payload of this effect: the handler index of a suspension, zero
    /// otherwise.
    pub fn handler_index(self) -> (index: u32)
        ensures
            index == self.payload(),
            index == high_half(self.encoding()),
    {
        proof {
            lemma_halves_of_join(self.discriminant(), self.payload());
        }
        match self {
            ControlEffect::Suspend { handler_index } => handler_index,
            _ => 0,
        }
    }

    /// Encodes the effect as the word handed to a stack switch.
    pub fn encode(self) -> (word: u64)
        ensures
            word == self.encoding(),
            ControlEffect::decoding(word) == Some(self),
    {
        let low: u32 = self.signal();
        let high: u32 = self.handler_index();
        proof {
            lemma_decoding_inverts_encoding(self);
        }
        pack(low, high)
    }

    /// Decodes the word that a stack switch handed back. `None` exactly when
    /// the low half of `word` is not a discriminant.
    pub fn decode(word: u64) -> (effect: Option<ControlEffect>)
        ensures
            effect == ControlEffect::decoding(word),
            effect is None <==> low_half(word) > CONTROL_EFFECT_SWITCH_DISCRIMINANT,
    {
        let low: u32 = unpack_low(word);
        if low == CONTROL_EFFECT_RETURN_DISCRIMINANT {
            Some(ControlEffect::Return)
        } else if low == CONTROL_EFFECT_RESUME_DISCRIMINANT {
            Some(ControlEffect::Resume)
        } else if low == CONTROL_EFFECT_SUSPEND_DISCRIMINANT {
            Some(ControlEffect::Suspend { handler_index: unpack_high(word) })
        } else if low == CONTROL_EFFECT_SWITCH_DISCRIMINANT {
            Some(ControlEffect::Switch)
        } else {
            None
        }
    }

    /// Same as [`ControlEffect::encode`].
    pub fn to_u64(&self) -> (word: u64)
        ensures
            word == self.encoding(),
    {
        self.encode()
    }

    /// The effect that `word` encodes.
    pub fn from_u64(word: u64) -> (effect: ControlEffect)
        requires
            low_half(word) <= CONTROL_EFFECT_SWITCH_DISCRIMINANT,
        ensures
            ControlEffect::decoding(word) == Some(effect),
    {
        match ControlEffect::decode(word) {
            Some(effect) => effect,
            None => ControlEffect::Return,
        }
    }

    /// The word of a resume signal.
    pub fn encode_resume() -> (word: u64)
        ensures
            word == ControlEffect::Resume.encoding(),
            word == 1,
    {
        ControlEffect::Resume.encode()
    }

    /// The word of a switch signal.
    pub fn encode_switch() -> (word: u64)
        ensures
            word == ControlEffect::Switch.encoding(),
            word == 3,
    {
        ControlEffect::Switch.encode()
    }

    /// The word of a suspension to the handler at `handler_index`.
    pub fn encode_suspend(handler_index: u32) -> (word: u64)
        ensures
            word == (ControlEffect::Suspend { handler_index }).encoding(),
            word == 2 + handler_index as int * 0x1_0000_0000,
    {
        (ControlEffect::Suspend { handler_index }).encode()
    }
}

impl From<ControlEffect> for u64 {
    fn from(effect: ControlEffect) -> (word: u64) {
        effect.encode()
    }
}

impl vstd::std_specs::convert::FromSpecImpl<ControlEffect> for u64 {
    open spec fn obeys_from_spec() -> bool {
        true
    }

    open spec fn from_spec(effect: ControlEffect) -> u64 {
        effect.encoding()
    }
}

/// Packs two halves into one word.
fn pack(low: u32, high: u32) -> (word: u64)
    ensures
        word == join_halves(low, high),
{
    let word: u64 = ((high as u64) << 32) | (low as u64);
    assert(((high as u64) << 32) | (low as u64) == low as int + high as int * 0x1_0000_0000)
        by (bit_vector);
    word
}

/// Bits 0 to 31 of a word.
fn unpack_low(word: u64) -> (low: u32)
    ensures
        low == low_half(word),
{
    let low: u64 = word & 0xffff_ffff;
    assert(word & 0xffff_ffff == word % 0x1_0000_0000) by (bit_vector);
    low as u32
}

/// Bits 32 to 63 of a word.
fn unpack_high(word: u64) -> (high: u32)
    ensures
        high == high_half(word),
{
    let high: u64 = word >> 32;
    assert(word >> 32 == word / 0x1_0000_0000) by (bit_vector);
    assert(word >> 32 <= 0xffff_ffff) by (bit_vector);
    high as u32
}

/// Splitting a joined word gives the two halves back.
pub proof fn lemma_halves_of_join(low: u32, high: u32)
    ensures
        low_half(join_halves(low, high)) == low,
        high_half(join_halves(low, high)) == high,
{
}

/// Joining the halves of a word gives the word back.
pub proof fn lemma_join_of_halves(word: u64)
    ensures
        join_halves(low_half(word), high_half(word)) == word,
{
}

/// Every effect survives the trip through its encoding: decoding the word of
/// an effect gives that effect, handler index included.
pub proof fn lemma_decoding_inverts_encoding(effect: ControlEffect)
    ensures
        ControlEffect::decoding(effect.encoding()) == Some(effect),
{
    lemma_halves_of_join(effect.discriminant(), effect.payload());
}

/// Two effects with the same encoding are the same effect.
pub proof fn lemma_encoding_is_injective(a: ControlEffect, b: ControlEffect)
    requires
        a.encoding() == b.encoding(),
    ensures
        a == b,
{
    lemma_decoding_inverts_encoding(a);
    lemma_decoding_inverts_encoding(b);
}

/// A word that decodes to a suspension is the encoding of what it decodes
/// to; for the other variants the same holds once the unused high half is
/// zero.
pub proof fn lemma_encoding_inverts_decoding(word: u64)
    requires
        ControlEffect::decoding(word) is Some,
        low_half(word) == CONTROL_EFFECT_SUSPEND_DISCRIMINANT || high_half(word) == 0,
    ensures
        ControlEffect::decoding(word).unwrap().encoding() == word,
{
    lemma_join_of_halves(word);
}

} // verus!
