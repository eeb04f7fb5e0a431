//! The ten-band equalizer's settings and the presets it ships with.

use vstd::prelude::*;

use crate::audio;
use crate::audio::EqSpec;
use crate::bits;
use crate::bits::Double;
use crate::model::PlayerCommand;

verus! {

/// The centre frequencies, in hertz.
pub const BANDS: [u32; 10] = [60, 170, 310, 600, 1000, 3000, 6000, 12000, 14000, 16000];

/// How far a band goes either way, in tenths of a decibel.
pub const RANGE_TENTHS: i32 = 120;

/// How many of the presets are the classic ones, in their order; what follows
/// are scenario presets, shown behind a separator.
pub const WINAMP_PRESET_COUNT: usize = 18;

/// How many presets there are.
pub const PRESET_COUNT: usize = 26;

/// Equalizer settings: the switch, the ten band gains, and the preamp, in
/// decibels.
#[derive(Clone, Copy, Debug)]
pub struct EqSettings {
    pub enabled: bool,
    pub gains_db: [Double; 10],
    pub preamp_db: Double,
}

impl Default for EqSettings {
    fn default() -> (s: Self)
        ensures
            !s.enabled,
            s.preamp_db == bits::double_zero(),
            forall|i: int| 0 <= i < 10 ==> #[trigger] s.gains_db@[i] == bits::double_zero(),
    {
        let zero = Double::zero();
        EqSettings {
            enabled: false,
            gains_db: [zero, zero, zero, zero, zero, zero, zero, zero, zero, zero],
            preamp_db: zero,
        }
    }
}

impl EqSettings {
    /// The same settings kept within what the equalizer can do.
    pub fn clamped(self) -> (r: Self)
        ensures
            r.enabled == self.enabled,
            r.preamp_db == audio::in_range(self.preamp_db),
            forall|i: int|
                0 <= i < 10 ==> #[trigger] r.gains_db@[i] == audio::in_range(self.gains_db@[i]),
    {
        let spec = EqSpec {
            enabled: self.enabled,
            gains_db: self.gains_db,
            preamp_db: self.preamp_db,
        }.clamped();
        EqSettings { enabled: spec.enabled, gains_db: spec.gains_db, preamp_db: spec.preamp_db }
    }

    /// The command that hands the settings to the player.
    pub fn command(&self) -> (cmd: PlayerCommand)
        ensures
            cmd == (PlayerCommand::SetEq {
                enabled: self.enabled,
                gains_db: self.gains_db,
                preamp_db: self.preamp_db,
            }),
    {
        PlayerCommand::SetEq {
            enabled: self.enabled,
            gains_db: self.gains_db,
            preamp_db: self.preamp_db,
        }
    }
}

/// Keeping settings within the range twice is keeping them there once.
pub proof fn lemma_clamped_twice(gain: Double)
    ensures
        audio::in_range(audio::in_range(gain)) == audio::in_range(gain),
        !gain.nan() ==> audio::range_bottom().rank() <= audio::in_range(gain).rank()
            <= audio::range_top().rank(),
{
}

/// Whether two settings of the equalizer are equal as numbers.
pub open spec fn same_eq(a: EqSettings, b: EqSettings) -> bool {
    &&& a.enabled == b.enabled
    &&& a.preamp_db.equals(b.preamp_db)
    &&& same_gains(a.gains_db, b.gains_db)
}

/// Whether the gains are equal as numbers, band by band.
pub open spec fn same_gains(a: [Double; 10], b: [Double; 10]) -> bool {
    forall|i: int| 0 <= i < 10 ==> (#[trigger] a@[i]).equals(b@[i])
}

/// Settings of the equalizer are equal to themselves where they are numbers;
/// a switch, a preamp or any one band that differs makes them differ.
pub proof fn lemma_same_eq(a: EqSettings, b: EqSettings, i: int)
    requires
        0 <= i < 10,
    ensures
        !a.preamp_db.nan() && (forall|k: int| 0 <= k < 10 ==> !(#[trigger] a.gains_db@[k]).nan())
            ==> same_eq(a, a),
        a.enabled != b.enabled ==> !same_eq(a, b),
        a.preamp_db.rank() != b.preamp_db.rank() ==> !same_eq(a, b),
        a.gains_db@[i].rank() != b.gains_db@[i].rank() ==> !same_gains(a.gains_db, b.gains_db)
            && !same_eq(a, b),
{
    if same_gains(a.gains_db, b.gains_db) {
        assert(a.gains_db@[i].equals(b.gains_db@[i]));
    }
}

/// Whether the gains are equal as numbers, band by band.
pub fn gains_equal(a: &[Double; 10], b: &[Double; 10]) -> (yes: bool)
    ensures
        yes == same_gains(*a, *b),
{
    let mut i: usize = 0;
    while i < 10
        invariant
            i <= 10,
            forall|k: int| 0 <= k < i ==> (#[trigger] a@[k]).equals(b@[k]),
        decreases 10 - i,
    {
        if !a[i].same(b[i]) {
            assert(!a@[i as int].equals(b@[i as int]));
            return false;
        }
        i += 1;
    }
    true
}

/// The settings that an equalizer's filters were built for, and the rate they
/// are shaped for.
pub struct EqTracker {
    sample_rate: u32,
    applied: EqSettings,
}

impl EqTracker {
    pub closed spec fn rate(&self) -> u32 {
        self.sample_rate
    }

    pub closed spec fn current(&self) -> EqSettings {
        self.applied
    }

    /// Flat and off, at that rate.
    pub fn new(sample_rate: u32) -> (t: Self)
        ensures
            t.rate() == sample_rate,
            !t.current().enabled,
            t.current().preamp_db == bits::double_zero(),
            forall|i: int| 0 <= i < 10 ==> #[trigger] t.current().gains_db@[i] == bits::double_zero(),
    {
        EqTracker { sample_rate, applied: EqSettings::default() }
    }

    /// The sample rate that the filters are shaped for.
    pub fn sample_rate(&self) -> (rate: u32)
        ensures
            rate == self.rate(),
    {
        self.sample_rate
    }

    /// Takes settings, held to the range. The result says whether they differ
    /// from those applied, so that the filters have to be built anew.
    pub fn set(&mut self, enabled: bool, gains_db: [Double; 10], preamp_db: Double) -> (rebuild: bool)
        ensures
            final(self).rate() == old(self).rate(),
            ({
                let now = final(self).current();
                let wanted = EqSettings {
                    enabled,
                    gains_db: if rebuild {
                        now.gains_db
                    } else {
                        old(self).current().gains_db
                    },
                    preamp_db: audio::in_range(preamp_db),
                };
                if rebuild {
                    &&& now == wanted
                    &&& forall|i: int|
                        0 <= i < 10 ==> #[trigger] now.gains_db@[i] == audio::in_range(gains_db@[i])
                    &&& !same_eq(now, old(self).current())
                } else {
                    &&& now == old(self).current()
                    &&& now.enabled == enabled
                    &&& audio::in_range(preamp_db).equals(now.preamp_db)
                    &&& forall|i: int|
                        0 <= i < 10 ==> audio::in_range(gains_db@[i]).equals(
                            #[trigger] now.gains_db@[i],
                        )
                }
            }),
    {
        let wanted = EqSettings { enabled, gains_db, preamp_db }.clamped();
        if wanted.enabled == self.applied.enabled && wanted.preamp_db.same(self.applied.preamp_db)
            && gains_equal(&wanted.gains_db, &self.applied.gains_db) {
            assert forall|i: int| 0 <= i < 10 implies audio::in_range(gains_db@[i]).equals(
                #[trigger] self.applied.gains_db@[i],
            ) by {
                assert(wanted.gains_db@[i].equals(self.applied.gains_db@[i]));
            }
            false
        } else {
            self.applied = wanted;
            true
        }
    }

    /// The settings that are applied.
    pub fn settings(&self) -> (s: EqSettings)
        ensures
            s == self.current(),
    {
        self.applied
    }
}

/// A named set of band gains, in tenths of a decibel.
#[derive(Clone, Copy, Debug)]
pub struct Preset {
    pub name: &'static str,
    pub gains_tenths: [i32; 10],
}

/// The name of preset `i`.
pub open spec fn preset_name(i: int) -> Seq<char> {
    if i == 0 {
        "Flat"@
    } else if i == 1 {
        "Classical"@
    } else if i == 2 {
        "Club"@
    } else if i == 3 {
        "Dance"@
    } else if i == 4 {
        "Full Bass"@
    } else if i == 5 {
        "Full Bass & Treble"@
    } else if i == 6 {
        "Full Treble"@
    } else if i == 7 {
        "Laptop Speakers / Headphones"@
    } else if i == 8 {
        "Large Hall"@
    } else if i == 9 {
        "Live"@
    } else if i == 10 {
        "Party"@
    } else if i == 11 {
        "Pop"@
    } else if i == 12 {
        "Reggae"@
    } else if i == 13 {
        "Rock"@
    } else if i == 14 {
        "Ska"@
    } else if i == 15 {
        "Soft"@
    } else if i == 16 {
        "Soft Rock"@
    } else if i == 17 {
        "Techno"@
    } else if i == 18 {
        "Bass Booster"@
    } else if i == 19 {
        "Bass Reducer"@
    } else if i == 20 {
        "Treble Booster"@
    } else if i == 21 {
        "Vocal Booster"@
    } else if i == 22 {
        "Small Speakers"@
    } else if i == 23 {
        "Spoken Word"@
    } else if i == 24 {
        "Loudness"@
    } else {
        "Night Listening"@
    }
}

/// The gains of preset `i`, in tenths of a decibel.
pub open spec fn preset_gains(i: int) -> Seq<i32> {
    if i == 0 {
        seq![0i32, 0i32, 0i32, 0i32, 0i32, 0i32, 0i32, 0i32, 0i32, 0i32]
    } else if i == 1 {
        seq![0i32, 0i32, 0i32, 0i32, 0i32, 0i32, -72i32, -72i32, -72i32, -96i32]
    } else if i == 2 {
        seq![0i32, 0i32, 80i32, 56i32, 56i32, 56i32, 32i32, 0i32, 0i32, 0i32]
    } else if i == 3 {
        seq![96i32, 72i32, 24i32, 0i32, 0i32, -56i32, -72i32, -72i32, 0i32, 0i32]
    } else if i == 4 {
        seq![-80i32, 96i32, 96i32, 56i32, 16i32, -40i32, -80i32, -104i32, -112i32, -112i32]
    } else if i == 5 {
        seq![72i32, 56i32, 0i32, -72i32, -48i32, 16i32, 80i32, 112i32, 120i32, 120i32]
    } else if i == 6 {
        seq![-96i32, -96i32, -96i32, -40i32, 24i32, 112i32, 120i32, 120i32, 120i32, 120i32]
    } else if i == 7 {
        seq![48i32, 112i32, 56i32, -32i32, -24i32, 16i32, 48i32, 96i32, 120i32, 120i32]
    } else if i == 8 {
        seq![104i32, 104i32, 56i32, 56i32, 0i32, -48i32, -48i32, -48i32, 0i32, 0i32]
    } else if i == 9 {
        seq![-48i32, 0i32, 40i32, 56i32, 56i32, 56i32, 40i32, 24i32, 24i32, 24i32]
    } else if i == 10 {
        seq![72i32, 72i32, 0i32, 0i32, 0i32, 0i32, 0i32, 0i32, 72i32, 72i32]
    } else if i == 11 {
        seq![-16i32, 48i32, 72i32, 80i32, 56i32, 0i32, -24i32, -24i32, -16i32, -16i32]
    } else if i == 12 {
        seq![0i32, 0i32, 0i32, -56i32, 0i32, 64i32, 64i32, 0i32, 0i32, 0i32]
    } else if i == 13 {
        seq![80i32, 48i32, -56i32, -80i32, -32i32, 40i32, 88i32, 112i32, 112i32, 112i32]
    } else if i == 14 {
        seq![-24i32, -48i32, -40i32, 0i32, 40i32, 56i32, 88i32, 96i32, 112i32, 96i32]
    } else if i == 15 {
        seq![48i32, 16i32, 0i32, -24i32, 0i32, 40i32, 80i32, 96i32, 112i32, 120i32]
    } else if i == 16 {
        seq![40i32, 40i32, 24i32, 0i32, -40i32, -56i32, -32i32, 0i32, 24i32, 88i32]
    } else if i == 17 {
        seq![80i32, 56i32, 0i32, -56i32, -48i32, 0i32, 80i32, 96i32, 96i32, 88i32]
    } else if i == 18 {
        seq![88i32, 72i32, 56i32, 32i32, 8i32, 0i32, 0i32, 0i32, 0i32, 0i32]
    } else if i == 19 {
        seq![-88i32, -72i32, -56i32, -32i32, -8i32, 0i32, 0i32, 0i32, 0i32, 0i32]
    } else if i == 20 {
        seq![0i32, 0i32, 0i32, 0i32, 0i32, 8i32, 32i32, 56i32, 72i32, 88i32]
    } else if i == 21 {
        seq![-24i32, -48i32, -48i32, 16i32, 56i32, 56i32, 40i32, 16i32, 0i32, -24i32]
    } else if i == 22 {
        seq![-80i32, -64i32, -40i32, -16i32, 16i32, 32i32, 48i32, 56i32, 56i32, 56i32]
    } else if i == 23 {
        seq![-32i32, -8i32, 0i32, 8i32, 40i32, 56i32, 48i32, 24i32, 8i32, 0i32]
    } else if i == 24 {
        seq![96i32, 64i32, 0i32, 0i32, -24i32, 0i32, -16i32, 0i32, 80i32, 16i32]
    } else {
        seq![-48i32, -32i32, -16i32, 8i32, 24i32, 32i32, 24i32, 8i32, -16i32, -32i32]
    }
}

/// Every preset stays within the range.
pub proof fn lemma_presets_in_range(i: int, band: int)
    requires
        0 <= i < PRESET_COUNT,
        0 <= band < 10,
    ensures
        preset_gains(i).len() == 10,
        -RANGE_TENTHS <= preset_gains(i)[band] <= RANGE_TENTHS,
{
}

/// The list of presets, by name: what each of them does to the ten bands from
/// 60 Hz to 16 kHz, in tenths of a decibel.
pub proof fn lemma_preset_table()
    ensures
        preset_name(0) == "Flat"@,
        preset_gains(0) == seq![0i32, 0i32, 0i32, 0i32, 0i32, 0i32, 0i32, 0i32, 0i32, 0i32],
        preset_name(1) == "Classical"@,
        preset_gains(1) == seq![0i32, 0i32, 0i32, 0i32, 0i32, 0i32, -72i32, -72i32, -72i32, -96i32],
        preset_name(2) == "Club"@,
        preset_gains(2) == seq![0i32, 0i32, 80i32, 56i32, 56i32, 56i32, 32i32, 0i32, 0i32, 0i32],
        preset_name(3) == "Dance"@,
        preset_gains(3) == seq![96i32, 72i32, 24i32, 0i32, 0i32, -56i32, -72i32, -72i32, 0i32, 0i32],
        preset_name(4) == "Full Bass"@,
        preset_gains(4) == seq![-80i32, 96i32, 96i32, 56i32, 16i32, -40i32, -80i32, -104i32, -112i32, -112i32],
        preset_name(5) == "Full Bass & Treble"@,
        preset_gains(5) == seq![72i32, 56i32, 0i32, -72i32, -48i32, 16i32, 80i32, 112i32, 120i32, 120i32],
        preset_name(6) == "Full Treble"@,
        preset_gains(6) == seq![-96i32, -96i32, -96i32, -40i32, 24i32, 112i32, 120i32, 120i32, 120i32, 120i32],
        preset_name(7) == "Laptop Speakers / Headphones"@,
        preset_gains(7) == seq![48i32, 112i32, 56i32, -32i32, -24i32, 16i32, 48i32, 96i32, 120i32, 120i32],
        preset_name(8) == "Large Hall"@,
        preset_gains(8) == seq![104i32, 104i32, 56i32, 56i32, 0i32, -48i32, -48i32, -48i32, 0i32, 0i32],
        preset_name(9) == "Live"@,
        preset_gains(9) == seq![-48i32, 0i32, 40i32, 56i32, 56i32, 56i32, 40i32, 24i32, 24i32, 24i32],
        preset_name(10) == "Party"@,
        preset_gains(10) == seq![72i32, 72i32, 0i32, 0i32, 0i32, 0i32, 0i32, 0i32, 72i32, 72i32],
        preset_name(11) == "Pop"@,
        preset_gains(11) == seq![-16i32, 48i32, 72i32, 80i32, 56i32, 0i32, -24i32, -24i32, -16i32, -16i32],
        preset_name(12) == "Reggae"@,
        preset_gains(12) == seq![0i32, 0i32, 0i32, -56i32, 0i32, 64i32, 64i32, 0i32, 0i32, 0i32],
        preset_name(13) == "Rock"@,
        preset_gains(13) == seq![80i32, 48i32, -56i32, -80i32, -32i32, 40i32, 88i32, 112i32, 112i32, 112i32],
        preset_name(14) == "Ska"@,
        preset_gains(14) == seq![-24i32, -48i32, -40i32, 0i32, 40i32, 56i32, 88i32, 96i32, 112i32, 96i32],
        preset_name(15) == "Soft"@,
        preset_gains(15) == seq![48i32, 16i32, 0i32, -24i32, 0i32, 40i32, 80i32, 96i32, 112i32, 120i32],
        preset_name(16) == "Soft Rock"@,
        preset_gains(16) == seq![40i32, 40i32, 24i32, 0i32, -40i32, -56i32, -32i32, 0i32, 24i32, 88i32],
        preset_name(17) == "Techno"@,
        preset_gains(17) == seq![80i32, 56i32, 0i32, -56i32, -48i32, 0i32, 80i32, 96i32, 96i32, 88i32],
        preset_name(18) == "Bass Booster"@,
        preset_gains(18) == seq![88i32, 72i32, 56i32, 32i32, 8i32, 0i32, 0i32, 0i32, 0i32, 0i32],
        preset_name(19) == "Bass Reducer"@,
        preset_gains(19) == seq![-88i32, -72i32, -56i32, -32i32, -8i32, 0i32, 0i32, 0i32, 0i32, 0i32],
        preset_name(20) == "Treble Booster"@,
        preset_gains(20) == seq![0i32, 0i32, 0i32, 0i32, 0i32, 8i32, 32i32, 56i32, 72i32, 88i32],
        preset_name(21) == "Vocal Booster"@,
        preset_gains(21) == seq![-24i32, -48i32, -48i32, 16i32, 56i32, 56i32, 40i32, 16i32, 0i32, -24i32],
        preset_name(22) == "Small Speakers"@,
        preset_gains(22) == seq![-80i32, -64i32, -40i32, -16i32, 16i32, 32i32, 48i32, 56i32, 56i32, 56i32],
        preset_name(23) == "Spoken Word"@,
        preset_gains(23) == seq![-32i32, -8i32, 0i32, 8i32, 40i32, 56i32, 48i32, 24i32, 8i32, 0i32],
        preset_name(24) == "Loudness"@,
        preset_gains(24) == seq![96i32, 64i32, 0i32, 0i32, -24i32, 0i32, -16i32, 0i32, 80i32, 16i32],
        preset_name(25) == "Night Listening"@,
        preset_gains(25) == seq![-48i32, -32i32, -16i32, 8i32, 24i32, 32i32, 24i32, 8i32, -16i32, -32i32],
{
}

/// No two presets have the same name, so a name picks one row of gains.
#[verifier::rlimit(60)]
pub proof fn lemma_preset_names_differ(i: int, j: int)
    requires
        0 <= i < j < PRESET_COUNT,
    ensures
        preset_name(i) != preset_name(j),
{
    reveal_strlit("Flat");
    reveal_strlit("Classical");
    reveal_strlit("Club");
    reveal_strlit("Dance");
    reveal_strlit("Full Bass");
    reveal_strlit("Full Bass & Treble");
    reveal_strlit("Full Treble");
    reveal_strlit("Laptop Speakers / Headphones");
    reveal_strlit("Large Hall");
    reveal_strlit("Live");
    reveal_strlit("Party");
    reveal_strlit("Pop");
    reveal_strlit("Reggae");
    reveal_strlit("Rock");
    reveal_strlit("Ska");
    reveal_strlit("Soft");
    reveal_strlit("Soft Rock");
    reveal_strlit("Techno");
    reveal_strlit("Bass Booster");
    reveal_strlit("Bass Reducer");
    reveal_strlit("Treble Booster");
    reveal_strlit("Vocal Booster");
    reveal_strlit("Small Speakers");
    reveal_strlit("Spoken Word");
    reveal_strlit("Loudness");
    reveal_strlit("Night Listening");
    let a = preset_name(i);
    let b = preset_name(j);
    if a == b {
        assert(a.len() == b.len());
        assert(a[0] == b[0]);
        assert(a[5] == b[5]);
    }
}

/// A booster raises what it is named for. The bass booster lifts the lowest
/// band, never lowers one, and lifts no band more than the band below it; the
/// bass reducer takes away in every band what the booster adds; the treble
/// booster is the bass booster with the bands in the opposite order.
pub proof fn lemma_boosters(i: int, j: int, k: int)
    requires
        0 <= i < PRESET_COUNT,
        0 <= j < PRESET_COUNT,
        0 <= k < PRESET_COUNT,
        preset_name(i) == "Bass Booster"@,
        preset_name(j) == "Bass Reducer"@,
        preset_name(k) == "Treble Booster"@,
    ensures
        preset_gains(i)[0] > 0,
        forall|b: int| 0 <= b < 10 ==> #[trigger] preset_gains(i)[b] >= 0,
        forall|b: int, c: int|
            0 <= b <= c < 10 ==> #[trigger] preset_gains(i)[c] <= #[trigger] preset_gains(i)[b],
        forall|b: int| 0 <= b < 10 ==> #[trigger] preset_gains(j)[b] == -preset_gains(i)[b],
        forall|b: int| 0 <= b < 10 ==> #[trigger] preset_gains(k)[b] == preset_gains(i)[9 - b],
{
    if i != 18 {
        if i < 18 {
            lemma_preset_names_differ(i, 18);
        } else {
            lemma_preset_names_differ(18, i);
        }
    }
    if j != 19 {
        if j < 19 {
            lemma_preset_names_differ(j, 19);
        } else {
            lemma_preset_names_differ(19, j);
        }
    }
    if k != 20 {
        if k < 20 {
            lemma_preset_names_differ(k, 20);
        } else {
            lemma_preset_names_differ(20, k);
        }
    }
}

/// A gain within twelve decibels stays as it is; one beyond becomes twelve
/// decibels on its own side.
pub proof fn lemma_range_is_twelve(gain: Double)
    requires
        !gain.nan(),
    ensures
        audio::range_top() == bits::double_of(12),
        audio::range_bottom().rank() == -bits::double_of(12).rank(),
        -bits::double_of(12).rank() <= gain.rank() <= bits::double_of(12).rank()
            ==> audio::in_range(gain) == gain,
        gain.rank() > bits::double_of(12).rank() ==> audio::in_range(gain) == bits::double_of(12),
        gain.rank() < -bits::double_of(12).rank() ==> audio::in_range(gain).rank()
            == -bits::double_of(12).rank(),
{
    reveal_with_fuel(bits::log_two, 5);
    vstd::arithmetic::power2::lemma2_to64_rest();
    assert(bits::log_two(12) == 3);
    assert(bits::significand(12) == 12 * 0x2_0000_0000_0000);
    assert(bits::double_of(12) == audio::range_top());
}

/// Preset `i` of the list.
#[verifier::rlimit(50)]
pub fn preset(i: usize) -> (p: Preset)
    requires
        i < PRESET_COUNT,
    ensures
        p.name@ == preset_name(i as int),
        p.gains_tenths@ == preset_gains(i as int),
{
    let p =
    if i == 0 {
        Preset { name: "Flat", gains_tenths: [0, 0, 0, 0, 0, 0, 0, 0, 0, 0] }
    } else if i == 1 {
        Preset { name: "Classical", gains_tenths: [0, 0, 0, 0, 0, 0, -72, -72, -72, -96] }
    } else if i == 2 {
        Preset { name: "Club", gains_tenths: [0, 0, 80, 56, 56, 56, 32, 0, 0, 0] }
    } else if i == 3 {
        Preset { name: "Dance", gains_tenths: [96, 72, 24, 0, 0, -56, -72, -72, 0, 0] }
    } else if i == 4 {
        Preset { name: "Full Bass", gains_tenths: [-80, 96, 96, 56, 16, -40, -80, -104, -112, -112] }
    } else if i == 5 {
        Preset { name: "Full Bass & Treble", gains_tenths: [72, 56, 0, -72, -48, 16, 80, 112, 120, 120] }
    } else if i == 6 {
        Preset { name: "Full Treble", gains_tenths: [-96, -96, -96, -40, 24, 112, 120, 120, 120, 120] }
    } else if i == 7 {
        Preset { name: "Laptop Speakers / Headphones", gains_tenths: [48, 112, 56, -32, -24, 16, 48, 96, 120, 120] }
    } else if i == 8 {
        Preset { name: "Large Hall", gains_tenths: [104, 104, 56, 56, 0, -48, -48, -48, 0, 0] }
    } else if i == 9 {
        Preset { name: "Live", gains_tenths: [-48, 0, 40, 56, 56, 56, 40, 24, 24, 24] }
    } else if i == 10 {
        Preset { name: "Party", gains_tenths: [72, 72, 0, 0, 0, 0, 0, 0, 72, 72] }
    } else if i == 11 {
        Preset { name: "Pop", gains_tenths: [-16, 48, 72, 80, 56, 0, -24, -24, -16, -16] }
    } else if i == 12 {
        Preset { name: "Reggae", gains_tenths: [0, 0, 0, -56, 0, 64, 64, 0, 0, 0] }
    } else if i == 13 {
        Preset { name: "Rock", gains_tenths: [80, 48, -56, -80, -32, 40, 88, 112, 112, 112] }
    } else if i == 14 {
        Preset { name: "Ska", gains_tenths: [-24, -48, -40, 0, 40, 56, 88, 96, 112, 96] }
    } else if i == 15 {
        Preset { name: "Soft", gains_tenths: [48, 16, 0, -24, 0, 40, 80, 96, 112, 120] }
    } else if i == 16 {
        Preset { name: "Soft Rock", gains_tenths: [40, 40, 24, 0, -40, -56, -32, 0, 24, 88] }
    } else if i == 17 {
        Preset { name: "Techno", gains_tenths: [80, 56, 0, -56, -48, 0, 80, 96, 96, 88] }
    } else if i == 18 {
        Preset { name: "Bass Booster", gains_tenths: [88, 72, 56, 32, 8, 0, 0, 0, 0, 0] }
    } else if i == 19 {
        Preset { name: "Bass Reducer", gains_tenths: [-88, -72, -56, -32, -8, 0, 0, 0, 0, 0] }
    } else if i == 20 {
        Preset { name: "Treble Booster", gains_tenths: [0, 0, 0, 0, 0, 8, 32, 56, 72, 88] }
    } else if i == 21 {
        Preset { name: "Vocal Booster", gains_tenths: [-24, -48, -48, 16, 56, 56, 40, 16, 0, -24] }
    } else if i == 22 {
        Preset { name: "Small Speakers", gains_tenths: [-80, -64, -40, -16, 16, 32, 48, 56, 56, 56] }
    } else if i == 23 {
        Preset { name: "Spoken Word", gains_tenths: [-32, -8, 0, 8, 40, 56, 48, 24, 8, 0] }
    } else if i == 24 {
        Preset { name: "Loudness", gains_tenths: [96, 64, 0, 0, -24, 0, -16, 0, 80, 16] }
    } else {
        Preset { name: "Night Listening", gains_tenths: [-48, -32, -16, 8, 24, 32, 24, 8, -16, -32] }
    };
    assert(p.gains_tenths@ =~= preset_gains(i as int));
    p
}

/// All presets in order.
pub fn presets() -> (all: Vec<Preset>)
    ensures
        all@.len() == PRESET_COUNT,
        forall|i: int|
            0 <= i < PRESET_COUNT ==> (#[trigger] all@[i]).name@ == preset_name(i)
                && all@[i].gains_tenths@ == preset_gains(i),
{
    let mut all: Vec<Preset> = Vec::new();
    let mut i: usize = 0;
    while i < PRESET_COUNT
        invariant
            i <= PRESET_COUNT,
            all@.len() == i,
            forall|k: int|
                0 <= k < i ==> (#[trigger] all@[k]).name@ == preset_name(k)
                    && all@[k].gains_tenths@ == preset_gains(k),
        decreases PRESET_COUNT - i,
    {
        all.push(preset(i));
        i += 1;
    }
    all
}

} // verus!
