//! The sound side: equalizer settings, the decode loop's decisions, the ranged
//! source behind it, and what the sinks count.

use vstd::prelude::*;

use crate::bits;
use crate::bits::Double;

pub mod analyser;
pub mod decode;
pub mod sink;

pub use sink::AudioSpec;

verus! {

/// How far a band goes either way: twelve decibels.
pub open spec fn range_top() -> Double {
    Double { bits: 0x4028_0000_0000_0000 }
}

/// The other end of the range.
pub open spec fn range_bottom() -> Double {
    Double { bits: 0xc028_0000_0000_0000 }
}

fn clamp_gain(gain: Double) -> (r: Double)
    ensures
        r == in_range(gain),
{
    gain.clamp(Double { bits: 0xc028_0000_0000_0000 }, Double { bits: 0x4028_0000_0000_0000 })
}

/// The band centres, in hertz.
pub const EQ_BANDS: [u32; 10] = [60, 170, 310, 600, 1000, 3000, 6000, 12000, 14000, 16000];

/// Equalizer settings as the player applies them.
#[derive(Clone, Copy, Debug)]
pub struct EqSpec {
    pub enabled: bool,
    pub gains_db: [Double; 10],
    pub preamp_db: Double,
}

impl Default for EqSpec {
    fn default() -> (s: Self)
        ensures
            !s.enabled,
            s.preamp_db == bits::double_zero(),
            s.gains_db@ == Seq::new(10, |i: int| bits::double_zero()),
    {
        let zero = Double::zero();
        let s = EqSpec {
            enabled: false,
            gains_db: [zero, zero, zero, zero, zero, zero, zero, zero, zero, zero],
            preamp_db: zero,
        };
        assert(s.gains_db@ =~= Seq::new(10, |i: int| bits::double_zero()));
        s
    }
}

/// A gain within the range.
pub open spec fn in_range(gain: Double) -> Double {
    gain.clamped(range_bottom(), range_top())
}

/// Whether the two settings compare as equal, number by number.
pub open spec fn same_settings(a: EqSpec, b: EqSpec) -> bool {
    &&& a.enabled == b.enabled
    &&& a.preamp_db.equals(b.preamp_db)
    &&& forall|i: int| 0 <= i < 10 ==> (#[trigger] a.gains_db@[i]).equals(b.gains_db@[i])
}

impl EqSpec {
    /// The settings with every gain within the range.
    pub fn clamped(self) -> (r: Self)
        ensures
            r.enabled == self.enabled,
            r.preamp_db == in_range(self.preamp_db),
            forall|i: int| 0 <= i < 10 ==> #[trigger] r.gains_db@[i] == in_range(self.gains_db@[i]),
    {
        let mut r = self;
        r.preamp_db = clamp_gain(self.preamp_db);
        let mut i: usize = 0;
        while i < 10
            invariant
                0 <= i <= 10,
                r.enabled == self.enabled,
                r.preamp_db == in_range(self.preamp_db),
                forall|k: int|
                    0 <= k < i ==> #[trigger] r.gains_db@[k] == in_range(self.gains_db@[k]),
            decreases 10 - i,
        {
            r.gains_db[i] = clamp_gain(self.gains_db[i]);
            i += 1;
        }
        r
    }

    pub fn same(&self, other: &EqSpec) -> (yes: bool)
        ensures
            yes == same_settings(*self, *other),
    {
        if self.enabled != other.enabled || !self.preamp_db.same(other.preamp_db) {
            return false;
        }
        let mut i: usize = 0;
        while i < 10
            invariant
                0 <= i <= 10,
                forall|k: int|
                    0 <= k < i ==> (#[trigger] self.gains_db@[k]).equals(other.gains_db@[k]),
            decreases 10 - i,
        {
            if !self.gains_db[i].same(other.gains_db[i]) {
                assert(!self.gains_db@[i as int].equals(other.gains_db@[i as int]));
                return false;
            }
            i += 1;
        }
        true
    }
}

/// Settings are equal to themselves where they are numbers; a switch, a preamp
/// or any one band that differs makes them differ.
pub proof fn lemma_same_settings(a: EqSpec, b: EqSpec, i: int)
    requires
        0 <= i < 10,
    ensures
        !a.preamp_db.nan() && (forall|k: int| 0 <= k < 10 ==> !(#[trigger] a.gains_db@[k]).nan())
            ==> same_settings(a, a),
        a.enabled != b.enabled ==> !same_settings(a, b),
        a.preamp_db.rank() != b.preamp_db.rank() ==> !same_settings(a, b),
        a.gains_db@[i].rank() != b.gains_db@[i].rank() ==> !same_settings(a, b),
        same_settings(a, b) ==> same_settings(b, a),
{
    if same_settings(a, b) {
        assert(a.gains_db@[i].equals(b.gains_db@[i]));
        assert forall|k: int| 0 <= k < 10 implies (#[trigger] b.gains_db@[k]).equals(
            a.gains_db@[k],
        ) by {
            assert(a.gains_db@[k].equals(b.gains_db@[k]));
        }
    }
}

/// Filters that were never built are not up to date, nor are those built for
/// other settings.
pub proof fn lemma_up_to_date(s: EqState)
    ensures
        !s.built ==> !s.up_to_date(),
        !same_settings(s.applied, s.spec) ==> !s.up_to_date(),
        s.built && same_settings(s.applied, s.spec) ==> s.up_to_date(),
{
}

/// When the equalizer's filters have to be built anew: after the settings or
/// the format of the stream changed, and before the first packet.
pub struct EqState {
    pub spec: EqSpec,
    pub applied: EqSpec,
    pub rate: u32,
    pub channels: usize,
    pub built: bool,
}

impl EqState {
    /// Whether the filters still stand for what is set.
    pub open spec fn up_to_date(self) -> bool {
        self.built && same_settings(self.applied, self.spec)
    }

    pub fn new() -> (s: Self)
        ensures
            !s.spec.enabled,
            s.spec.preamp_db == bits::double_zero(),
            s.spec.gains_db@ == Seq::new(10, |i: int| bits::double_zero()),
            !s.applied.enabled,
            s.applied.preamp_db == bits::double_zero(),
            s.applied.gains_db@ == Seq::new(10, |i: int| bits::double_zero()),
            s.rate == 0,
            s.channels == 0,
            !s.built,
            !s.up_to_date(),
    {
        EqState {
            spec: EqSpec::default(),
            applied: EqSpec::default(),
            rate: 0,
            channels: 0,
            built: false,
        }
    }

    /// Takes new settings, which apply before the next packet.
    pub fn set_spec(&mut self, spec: EqSpec)
        ensures
            final(self).spec.enabled == spec.enabled,
            final(self).spec.preamp_db == in_range(spec.preamp_db),
            forall|i: int|
                0 <= i < 10 ==> #[trigger] final(self).spec.gains_db@[i] == in_range(
                    spec.gains_db@[i],
                ),
            final(self).applied == old(self).applied,
            final(self).rate == old(self).rate,
            final(self).channels == old(self).channels,
            final(self).built == old(self).built,
    {
        self.spec = spec.clamped();
    }

    /// Notes the format of the stream. A change puts the filters out of date.
    pub fn configure(&mut self, rate: u32, channels: usize)
        ensures
            if rate != old(self).rate || channels != old(self).channels {
                &&& *final(self) == (EqState {
                    rate,
                    channels,
                    applied: EqSpec { enabled: !old(self).spec.enabled, ..old(self).spec },
                    ..*old(self)
                })
                &&& !final(self).up_to_date()
            } else {
                *final(self) == *old(self)
            },
    {
        if rate != self.rate || channels != self.channels {
            self.rate = rate;
            self.channels = channels;
            let mut stale = self.spec;
            stale.enabled = !self.spec.enabled;
            self.applied = stale;
        }
    }

    /// Whether the filters have to be built before this packet; they count as
    /// built afterwards.
    pub fn rebuild_if_dirty(&mut self) -> (rebuild: bool)
        ensures
            rebuild == !old(self).up_to_date(),
            final(self).built,
            rebuild ==> final(self).applied == old(self).spec,
            !rebuild ==> final(self).applied == old(self).applied,
            final(self).spec == old(self).spec,
            final(self).rate == old(self).rate,
            final(self).channels == old(self).channels,
    {
        if self.built && self.applied.same(&self.spec) {
            false
        } else {
            self.applied = self.spec;
            self.built = true;
            true
        }
    }
}

} // verus!
