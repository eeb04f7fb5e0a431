//! The equalizer window: its switch, its presets and its sliders.

use vstd::prelude::*;

use crate::audio;
use crate::bits;
use crate::bits::Double;
use crate::eq;
use crate::eq::{gains_equal, EqSettings};
use crate::model::PlayerCommand;

verus! {

/// What was touched.
#[derive(Clone, Copy, Debug)]
pub enum EqEvent {
    Power,
    /// Lays the bands flat.
    Flat,
    /// A preset's gains.
    Preset([Double; 10]),
    Preamp(Double),
    Band(usize, Double),
}

/// The gain of a band after an event, before it is clamped.
pub open spec fn asked_gain(s: EqSettings, event: EqEvent, i: int) -> Double {
    match event {
        EqEvent::Flat => bits::double_zero(),
        EqEvent::Preset(gains_db) => gains_db@[i],
        EqEvent::Band(band, gain) if band == i => gain,
        _ => s.gains_db@[i],
    }
}

/// What a touch of the equalizer sends: the settings with the change in them,
/// every gain moved into the range.
pub fn touched(settings: EqSettings, event: EqEvent) -> (cmd: PlayerCommand)
    requires
        event matches EqEvent::Band(band, _) ==> band < 10,
    ensures
        match cmd {
            PlayerCommand::SetEq { enabled, gains_db, preamp_db } => {
                &&& enabled == (settings.enabled != (event is Power))
                &&& preamp_db == audio::in_range(
                    match event {
                        EqEvent::Preamp(p) => p,
                        _ => settings.preamp_db,
                    },
                )
                &&& forall|i: int|
                    0 <= i < 10 ==> #[trigger] gains_db@[i] == audio::in_range(
                        asked_gain(settings, event, i),
                    )
            },
            _ => false,
        },
{
    let mut s = settings;
    match event {
        EqEvent::Power => {
            s.enabled = !s.enabled;
        },
        EqEvent::Flat => {
            s.gains_db = [Double::zero();10];
        },
        EqEvent::Preset(gains_db) => {
            s.gains_db = gains_db;
        },
        EqEvent::Preamp(preamp_db) => {
            s.preamp_db = preamp_db;
        },
        EqEvent::Band(band, gain) => {
            s.gains_db[band] = gain;
        },
    }
    s.clamped().command()
}

/// Whether the bands stand as a preset has them.
pub fn is_chosen(preset_gains: &[Double; 10], current: &EqSettings) -> (yes: bool)
    ensures
        yes == eq::same_gains(*preset_gains, current.gains_db),
{
    gains_equal(preset_gains, &current.gains_db)
}

/// The looks of a small slider's thumb.
#[derive(Clone, Copy, Debug, PartialEq, Eq, Structural)]
pub enum Look {
    Low,
    Middle,
    High,
}

/// Which look goes with a value from zero to one: they change at the thirds.
/// The thirds are the singles nearest to them.
pub open spec fn look_of(value: bits::Single) -> Look {
    if value.below(bits::Single { bits: 0x3eaa_aaab }) {
        Look::Low
    } else if value.below(bits::Single { bits: 0x3f2a_aaab }) {
        Look::Middle
    } else {
        Look::High
    }
}

/// Which gain a touch asks for: a band's own slider moves that band and no
/// other, laying flat and presets move all, the switch and the preamp none.
pub proof fn lemma_asked_gain(s: EqSettings, event: EqEvent, i: int, j: usize, gain: Double)
    requires
        0 <= i < 10,
        j < 10,
    ensures
        asked_gain(s, EqEvent::Band(j, gain), j as int) == gain,
        i != j ==> asked_gain(s, EqEvent::Band(j, gain), i) == s.gains_db@[i],
        asked_gain(s, EqEvent::Flat, i).bits == 0,
        event matches EqEvent::Preset(gains) ==> asked_gain(s, event, i) == gains@[i],
        asked_gain(s, EqEvent::Power, i) == s.gains_db@[i],
        asked_gain(s, EqEvent::Preamp(gain), i) == s.gains_db@[i],
{
}

/// The thumb's look changes at one third and at two thirds: both are the singles
/// nearest to them, and a higher value never has a lower look.
pub proof fn lemma_looks(value: bits::Single, third: bits::Single, thirds: bits::Single)
    requires
        !value.nan(),
        third.bits == 0x3eaa_aaab,
        thirds.bits == 0x3f2a_aaab,
    ensures
        look_of(value) == Look::Low <==> value.rank() < third.rank(),
        look_of(value) == Look::Middle <==> third.rank() <= value.rank() < thirds.rank(),
        look_of(value) == Look::High <==> value.rank() >= thirds.rank(),
        third.bits / 0x80_0000 == 125 && -3 < 2 * (3 * (0x80_0000 + third.bits % 0x80_0000)
            - 0x200_0000) < 3,
        thirds.bits / 0x80_0000 == 126 && -3 < 2 * (3 * (0x80_0000 + thirds.bits % 0x80_0000) - 2
            * 0x100_0000) < 3,
{
}

/// Which look goes with a value from zero to one.
pub fn look(value: bits::Single) -> (l: Look)
    ensures
        l == look_of(value),
{
    if value.less(bits::Single { bits: 0x3eaa_aaab }) {
        Look::Low
    } else if value.less(bits::Single { bits: 0x3f2a_aaab }) {
        Look::Middle
    } else {
        Look::High
    }
}

} // verus!
