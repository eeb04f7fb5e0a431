//! The classic analyser's nineteen bars: they jump to the sound and fall at a
//! fixed rate on a clock of their own, and peaks hang above them and pick up
//! speed as they drop.

use vstd::prelude::*;

verus! {

/// The analyser's height in skin pixels.
pub const ROWS: u8 = 16;

/// The bars, each three columns wide with one between.
pub const BARS: usize = 19;

/// The tallest a bar gets.
pub const MAX_HEIGHT: u8 = 15;

/// How far a bar falls each step, in quarters of a row.
pub const FALLOFF_QUARTERS: u32 = 3;

/// How often the bars move, in nanoseconds: sixty times a second, however often
/// the window paints.
pub const STEP_NS: u64 = 16_667_000;

/// How much too early a frame may come and still count, in nanoseconds.
pub const GRACE_NS: u64 = 1_000_000;

/// What the visualiser shows.
#[derive(Clone, Copy, Debug, PartialEq, Eq, Structural)]
pub enum VisMode {
    /// The spectrum analyser's bars.
    Bars,
    /// Nothing at all.
    Off,
}

impl Default for VisMode {
    fn default() -> (m: Self)
        ensures
            m == VisMode::Bars,
    {
        VisMode::Bars
    }
}

/// One bar of the analyser, in rows from the bottom.
#[derive(Clone, Copy, Debug, PartialEq, Eq, Structural)]
pub struct Bar {
    /// How tall the bar is, 0 to 15.
    pub height: u8,
    /// Where the peak mark sits, as the height of a bar whose top row it would
    /// be, 1 to 16; `None` while it is out of sight.
    pub peak: Option<u8>,
}

impl Default for Bar {
    fn default() -> (b: Self)
        ensures
            b == flat_bar(),
    {
        Bar { height: 0, peak: None }
    }
}

/// A bar without sound.
pub open spec fn flat_bar() -> Bar {
    Bar { height: 0, peak: None }
}

/// Where a bar and its peak are.
#[derive(Clone, Copy, Debug, PartialEq, Eq, Structural)]
pub struct Column {
    /// The bar's top in quarters of a row.
    pub quarters: u32,
    /// The peak in 256ths of a row.
    pub peak: u32,
    /// For how many steps the peak has been dropping.
    pub drops: u32,
}

/// A column at rest.
pub open spec fn resting() -> Column {
    Column { quarters: 0, peak: 0, drops: 0 }
}

/// How far a peak drops in its `k`th step, in 256ths of a row: three to begin
/// with, a tenth more each step, to the nearest whole number.
pub open spec fn drop_at(k: int) -> int {
    drop_table()[k]
}

pub open spec fn drop_table() -> Seq<int> {
    seq![
        3, 3, 4, 4, 4, 5, 5, 6, 6, 7, 8, 9,
        9, 10, 11, 13, 14, 15, 17, 18, 20, 22, 24, 27,
        30, 33, 36, 39, 43, 48, 52, 58, 63, 70, 77, 84,
        93, 102, 112, 123, 136, 149, 164, 181, 199, 219, 241, 265,
        291, 320, 352,
    ]
}

/// How far a peak has dropped after `k` steps.
pub open spec fn dropped(k: nat) -> int
    decreases k,
{
    if k == 0 {
        0
    } else {
        dropped((k - 1) as nat) + drop_at(k - 1)
    }
}

/// What a column can be: the bar within its rows, and the peak no higher than
/// the tallest bar minus what it has dropped since.
pub open spec fn column_ok(c: Column) -> bool {
    &&& c.quarters <= 4 * MAX_HEIGHT
    &&& c.drops <= 51
    &&& c.peak + (if c.peak > 0 {
        dropped(c.drops as nat)
    } else {
        0
    }) <= 256 * MAX_HEIGHT
}

/// The bar after a step: down by the falloff, but not below the sound.
pub open spec fn fallen(quarters: int, target: int) -> int {
    if quarters - FALLOFF_QUARTERS <= 4 * target {
        4 * target
    } else {
        quarters - FALLOFF_QUARTERS
    }
}

/// A column one step later, where the sound reaches `target` rows. A peak that
/// the bar has reached starts again from the bar's top.
pub open spec fn moved(c: Column, target: int) -> Column {
    let q = fallen(c.quarters as int, target);
    let caught = c.peak <= 64 * q;
    let peak = if caught {
        64 * q
    } else {
        c.peak as int
    };
    let k = if caught {
        0
    } else {
        c.drops as int
    };
    let lower = peak - drop_at(k);
    Column {
        quarters: q as u32,
        peak: (if lower > 0 {
            lower
        } else {
            0
        }) as u32,
        drops: (k + 1) as u32,
    }
}

/// The bar that a step shows: its height rounded to whole rows, and the peak
/// where it was before it dropped, if that is at least a row up.
pub open spec fn shown(c: Column, target: int) -> Bar {
    let q = fallen(c.quarters as int, target);
    let peak = if c.peak <= 64 * q {
        64 * q
    } else {
        c.peak as int
    };
    Bar {
        height: ((q + 2) / 4) as u8,
        peak: if peak / 256 >= 1 {
            Some((peak / 256 + 1) as u8)
        } else {
            None
        },
    }
}

/// The spectrum analyser's memory: where each bar and its peak are, when they
/// last moved, and what was shown.
#[derive(Debug)]
pub struct Analyser {
    columns: Vec<Column>,
    last_step: Option<u64>,
    bars: Vec<Bar>,
}

/// What an [`Analyser`] holds.
#[verifier::ext_equal]
pub ghost struct AnalyserView {
    pub columns: Seq<Column>,
    pub last_step: Option<u64>,
    pub bars: Seq<Bar>,
}

impl View for Analyser {
    type V = AnalyserView;

    closed spec fn view(&self) -> AnalyserView {
        AnalyserView { columns: self.columns@, last_step: self.last_step, bars: self.bars@ }
    }
}

/// When the next step is due.
pub open spec fn due_at(last_step: Option<u64>, now: u64) -> int {
    match last_step {
        Some(last) => last + STEP_NS,
        None => now as int,
    }
}

/// Whether a frame at `now` moves the bars.
pub open spec fn moves(last_step: Option<u64>, now: u64) -> bool {
    now + GRACE_NS >= due_at(last_step, now)
}

/// The analyser after a frame at `now` whose sound reaches `targets`. A frame
/// that comes sooner than the next step leaves it as it is; a late one owes no
/// more than one step.
pub open spec fn after_frame(a: AnalyserView, targets: Seq<u8>, now: u64) -> AnalyserView {
    if moves(a.last_step, now) {
        AnalyserView {
            last_step: Some(
                (if due_at(a.last_step, now) >= now - STEP_NS {
                    due_at(a.last_step, now)
                } else {
                    now - STEP_NS
                }) as u64,
            ),
            columns: Seq::new(BARS as nat, |i: int| moved(a.columns[i], targets[i] as int)),
            bars: Seq::new(BARS as nat, |i: int| shown(a.columns[i], targets[i] as int)),
        }
    } else {
        a
    }
}

/// A frame that comes more than the grace before the next step is due leaves
/// the bars and everything else alone, whatever the sound.
pub proof fn lemma_early_frame(a: AnalyserView, last: u64, targets: Seq<u8>, now: u64)
    requires
        a.last_step == Some(last),
        now + GRACE_NS < last + STEP_NS,
    ensures
        after_frame(a, targets, now) == a,
{
}

/// A fast frame rate leaves the bars alone: after the first frame, those that
/// follow within a step show what it showed, however many there are and
/// whatever they sound like.
pub proof fn lemma_fast_frames(
    a: AnalyserView,
    first: Seq<u8>,
    start: u64,
    frames: Seq<(Seq<u8>, u64)>,
)
    requires
        a.last_step is None,
        forall|i: int|
            0 <= i < frames.len() ==> (#[trigger] frames[i]).1 + GRACE_NS < start + STEP_NS,
    ensures
        after_frames(after_frame(a, first, start), frames) == after_frame(a, first, start),
    decreases frames.len(),
{
    if frames.len() > 0 {
        let earlier = frames.drop_last();
        assert forall|i: int| 0 <= i < earlier.len() implies (#[trigger] earlier[i]).1 + GRACE_NS
            < start + STEP_NS by {
            assert(earlier[i] == frames[i]);
        }
        lemma_fast_frames(a, first, start, earlier);
        let (targets, now) = frames[frames.len() - 1];
        lemma_early_frame(after_frame(a, first, start), start, targets, now);
    }
}

/// The analyser after frames one after another, each with its sound and time.
pub open spec fn after_frames(a: AnalyserView, frames: Seq<(Seq<u8>, u64)>) -> AnalyserView
    decreases frames.len(),
{
    if frames.len() == 0 {
        a
    } else {
        after_frame(after_frames(a, frames.drop_last()), frames.last().0, frames.last().1)
    }
}

/// `base` to the power of `k`.
pub open spec fn power(base: int, k: nat) -> int
    decreases k,
{
    if k == 0 {
        1
    } else {
        base * power(base, (k - 1) as nat)
    }
}

proof fn lemma_power_step(base: int, k: nat)
    ensures
        power(base, k + 1) == base * power(base, k),
        power(base, 0) == 1,
{
}

/// A peak drops three 256ths of a row in its first step and a tenth more in
/// every step after: in step `k`, three times eleven tenths to the power of `k`,
/// to the nearest whole number.
#[verifier::rlimit(100)]
pub proof fn lemma_drops_speed_up(k: nat)
    requires
        k < 51,
    ensures
        -power(10, k) <= 2 * (drop_at(k as int) * power(10, k) - 3 * power(11, k)) <= power(10, k),
{
    lemma_powers_to_fifty();
    let d = drop_at(k as int);
    assert(d * power(10, k) == power(10, k) * d) by (nonlinear_arith);
    if k == 0 {
        assert(power(10, k) == 1int && power(11, k) == 1int && d == 3);
        assert(d * power(10, k) == 3int) by (nonlinear_arith)
            requires
                d == 3,
                power(10, k) == 1int,
        ;
    }
    if k == 1 {
        assert(power(10, k) == 10int && power(11, k) == 11int && d == 3);
        assert(d * power(10, k) == 30int) by (nonlinear_arith)
            requires
                d == 3,
                power(10, k) == 10int,
        ;
    }
    if k == 2 {
        assert(power(10, k) == 100int && power(11, k) == 121int && d == 4);
        assert(d * power(10, k) == 400int) by (nonlinear_arith)
            requires
                d == 4,
                power(10, k) == 100int,
        ;
    }
    if k == 3 {
        assert(power(10, k) == 1000int && power(11, k) == 1331int && d == 4);
        assert(d * power(10, k) == 4000int) by (nonlinear_arith)
            requires
                d == 4,
                power(10, k) == 1000int,
        ;
    }
    if k == 4 {
        assert(power(10, k) == 10000int && power(11, k) == 14641int && d == 4);
        assert(d * power(10, k) == 40000int) by (nonlinear_arith)
            requires
                d == 4,
                power(10, k) == 10000int,
        ;
    }
    if k == 5 {
        assert(power(10, k) == 100000int && power(11, k) == 161051int && d == 5);
        assert(d * power(10, k) == 500000int) by (nonlinear_arith)
            requires
                d == 5,
                power(10, k) == 100000int,
        ;
    }
    if k == 6 {
        assert(power(10, k) == 1000000int && power(11, k) == 1771561int && d == 5);
        assert(d * power(10, k) == 5000000int) by (nonlinear_arith)
            requires
                d == 5,
                power(10, k) == 1000000int,
        ;
    }
    if k == 7 {
        assert(power(10, k) == 10000000int && power(11, k) == 19487171int && d == 6);
        assert(d * power(10, k) == 60000000int) by (nonlinear_arith)
            requires
                d == 6,
                power(10, k) == 10000000int,
        ;
    }
    if k == 8 {
        assert(power(10, k) == 100000000int && power(11, k) == 214358881int && d == 6);
        assert(d * power(10, k) == 600000000int) by (nonlinear_arith)
            requires
                d == 6,
                power(10, k) == 100000000int,
        ;
    }
    if k == 9 {
        assert(power(10, k) == 1000000000int && power(11, k) == 2357947691int && d == 7);
        assert(d * power(10, k) == 7000000000int) by (nonlinear_arith)
            requires
                d == 7,
                power(10, k) == 1000000000int,
        ;
    }
    if k == 10 {
        assert(power(10, k) == 10000000000int && power(11, k) == 25937424601int && d == 8);
        assert(d * power(10, k) == 80000000000int) by (nonlinear_arith)
            requires
                d == 8,
                power(10, k) == 10000000000int,
        ;
    }
    if k == 11 {
        assert(power(10, k) == 100000000000int && power(11, k) == 285311670611int && d == 9);
        assert(d * power(10, k) == 900000000000int) by (nonlinear_arith)
            requires
                d == 9,
                power(10, k) == 100000000000int,
        ;
    }
    if k == 12 {
        assert(power(10, k) == 1000000000000int && power(11, k) == 3138428376721int && d == 9);
        assert(d * power(10, k) == 9000000000000int) by (nonlinear_arith)
            requires
                d == 9,
                power(10, k) == 1000000000000int,
        ;
    }
    if k == 13 {
        assert(power(10, k) == 10000000000000int && power(11, k) == 34522712143931int && d == 10);
        assert(d * power(10, k) == 100000000000000int) by (nonlinear_arith)
            requires
                d == 10,
                power(10, k) == 10000000000000int,
        ;
    }
    if k == 14 {
        assert(power(10, k) == 100000000000000int && power(11, k) == 379749833583241int && d == 11);
        assert(d * power(10, k) == 1100000000000000int) by (nonlinear_arith)
            requires
                d == 11,
                power(10, k) == 100000000000000int,
        ;
    }
    if k == 15 {
        assert(power(10, k) == 1000000000000000int && power(11, k) == 4177248169415651int && d == 13);
        assert(d * power(10, k) == 13000000000000000int) by (nonlinear_arith)
            requires
                d == 13,
                power(10, k) == 1000000000000000int,
        ;
    }
    if k == 16 {
        assert(power(10, k) == 10000000000000000int && power(11, k) == 45949729863572161int && d == 14);
        assert(d * power(10, k) == 140000000000000000int) by (nonlinear_arith)
            requires
                d == 14,
                power(10, k) == 10000000000000000int,
        ;
    }
    if k == 17 {
        assert(power(10, k) == 100000000000000000int && power(11, k) == 505447028499293771int && d == 15);
        assert(d * power(10, k) == 1500000000000000000int) by (nonlinear_arith)
            requires
                d == 15,
                power(10, k) == 100000000000000000int,
        ;
    }
    if k == 18 {
        assert(power(10, k) == 1000000000000000000int && power(11, k) == 5559917313492231481int && d == 17);
        assert(d * power(10, k) == 17000000000000000000int) by (nonlinear_arith)
            requires
                d == 17,
                power(10, k) == 1000000000000000000int,
        ;
    }
    if k == 19 {
        assert(power(10, k) == 10000000000000000000int && power(11, k) == 61159090448414546291int && d == 18);
        assert(d * power(10, k) == 180000000000000000000int) by (nonlinear_arith)
            requires
                d == 18,
                power(10, k) == 10000000000000000000int,
        ;
    }
    if k == 20 {
        assert(power(10, k) == 100000000000000000000int && power(11, k) == 672749994932560009201int && d == 20);
        assert(d * power(10, k) == 2000000000000000000000int) by (nonlinear_arith)
            requires
                d == 20,
                power(10, k) == 100000000000000000000int,
        ;
    }
    if k == 21 {
        assert(power(10, k) == 1000000000000000000000int && power(11, k) == 7400249944258160101211int && d == 22);
        assert(d * power(10, k) == 22000000000000000000000int) by (nonlinear_arith)
            requires
                d == 22,
                power(10, k) == 1000000000000000000000int,
        ;
    }
    if k == 22 {
        assert(power(10, k) == 10000000000000000000000int && power(11, k) == 81402749386839761113321int && d == 24);
        assert(d * power(10, k) == 240000000000000000000000int) by (nonlinear_arith)
            requires
                d == 24,
                power(10, k) == 10000000000000000000000int,
        ;
    }
    if k == 23 {
        assert(power(10, k) == 100000000000000000000000int && power(11, k) == 895430243255237372246531int && d == 27);
        assert(d * power(10, k) == 2700000000000000000000000int) by (nonlinear_arith)
            requires
                d == 27,
                power(10, k) == 100000000000000000000000int,
        ;
    }
    if k == 24 {
        assert(power(10, k) == 1000000000000000000000000int && power(11, k) == 9849732675807611094711841int && d == 30);
        assert(d * power(10, k) == 30000000000000000000000000int) by (nonlinear_arith)
            requires
                d == 30,
                power(10, k) == 1000000000000000000000000int,
        ;
    }
    if k == 25 {
        assert(power(10, k) == 10000000000000000000000000int && power(11, k) == 108347059433883722041830251int && d == 33);
        assert(d * power(10, k) == 330000000000000000000000000int) by (nonlinear_arith)
            requires
                d == 33,
                power(10, k) == 10000000000000000000000000int,
        ;
    }
    if k == 26 {
        assert(power(10, k) == 100000000000000000000000000int && power(11, k) == 1191817653772720942460132761int && d == 36);
        assert(d * power(10, k) == 3600000000000000000000000000int) by (nonlinear_arith)
            requires
                d == 36,
                power(10, k) == 100000000000000000000000000int,
        ;
    }
    if k == 27 {
        assert(power(10, k) == 1000000000000000000000000000int && power(11, k) == 13109994191499930367061460371int && d == 39);
        assert(d * power(10, k) == 39000000000000000000000000000int) by (nonlinear_arith)
            requires
                d == 39,
                power(10, k) == 1000000000000000000000000000int,
        ;
    }
    if k == 28 {
        assert(power(10, k) == 10000000000000000000000000000int && power(11, k) == 144209936106499234037676064081int && d == 43);
        assert(d * power(10, k) == 430000000000000000000000000000int) by (nonlinear_arith)
            requires
                d == 43,
                power(10, k) == 10000000000000000000000000000int,
        ;
    }
    if k == 29 {
        assert(power(10, k) == 100000000000000000000000000000int && power(11, k) == 1586309297171491574414436704891int && d == 48);
        assert(d * power(10, k) == 4800000000000000000000000000000int) by (nonlinear_arith)
            requires
                d == 48,
                power(10, k) == 100000000000000000000000000000int,
        ;
    }
    if k == 30 {
        assert(power(10, k) == 1000000000000000000000000000000int && power(11, k) == 17449402268886407318558803753801int && d == 52);
        assert(d * power(10, k) == 52000000000000000000000000000000int) by (nonlinear_arith)
            requires
                d == 52,
                power(10, k) == 1000000000000000000000000000000int,
        ;
    }
    if k == 31 {
        assert(power(10, k) == 10000000000000000000000000000000int && power(11, k) == 191943424957750480504146841291811int && d == 58);
        assert(d * power(10, k) == 580000000000000000000000000000000int) by (nonlinear_arith)
            requires
                d == 58,
                power(10, k) == 10000000000000000000000000000000int,
        ;
    }
    if k == 32 {
        assert(power(10, k) == 100000000000000000000000000000000int && power(11, k) == 2111377674535255285545615254209921int && d == 63);
        assert(d * power(10, k) == 6300000000000000000000000000000000int) by (nonlinear_arith)
            requires
                d == 63,
                power(10, k) == 100000000000000000000000000000000int,
        ;
    }
    if k == 33 {
        assert(power(10, k) == 1000000000000000000000000000000000int && power(11, k) == 23225154419887808141001767796309131int && d == 70);
        assert(d * power(10, k) == 70000000000000000000000000000000000int) by (nonlinear_arith)
            requires
                d == 70,
                power(10, k) == 1000000000000000000000000000000000int,
        ;
    }
    if k == 34 {
        assert(power(10, k) == 10000000000000000000000000000000000int && power(11, k) == 255476698618765889551019445759400441int && d == 77);
        assert(d * power(10, k) == 770000000000000000000000000000000000int) by (nonlinear_arith)
            requires
                d == 77,
                power(10, k) == 10000000000000000000000000000000000int,
        ;
    }
    if k == 35 {
        assert(power(10, k) == 100000000000000000000000000000000000int && power(11, k) == 2810243684806424785061213903353404851int && d == 84);
        assert(d * power(10, k) == 8400000000000000000000000000000000000int) by (nonlinear_arith)
            requires
                d == 84,
                power(10, k) == 100000000000000000000000000000000000int,
        ;
    }
    if k == 36 {
        assert(power(10, k) == 1000000000000000000000000000000000000int && power(11, k) == 30912680532870672635673352936887453361int && d == 93);
        assert(d * power(10, k) == 93000000000000000000000000000000000000int) by (nonlinear_arith)
            requires
                d == 93,
                power(10, k) == 1000000000000000000000000000000000000int,
        ;
    }
    if k == 37 {
        assert(power(10, k) == 10000000000000000000000000000000000000int && power(11, k) == 340039485861577398992406882305761986971int && d == 102);
        assert(d * power(10, k) == 1020000000000000000000000000000000000000int) by (nonlinear_arith)
            requires
                d == 102,
                power(10, k) == 10000000000000000000000000000000000000int,
        ;
    }
    if k == 38 {
        assert(power(10, k) == 100000000000000000000000000000000000000int && power(11, k) == 3740434344477351388916475705363381856681int && d == 112);
        assert(d * power(10, k) == 11200000000000000000000000000000000000000int) by (nonlinear_arith)
            requires
                d == 112,
                power(10, k) == 100000000000000000000000000000000000000int,
        ;
    }
    if k == 39 {
        assert(power(10, k) == 1000000000000000000000000000000000000000int && power(11, k) == 41144777789250865278081232758997200423491int && d == 123);
        assert(d * power(10, k) == 123000000000000000000000000000000000000000int) by (nonlinear_arith)
            requires
                d == 123,
                power(10, k) == 1000000000000000000000000000000000000000int,
        ;
    }
    if k == 40 {
        assert(power(10, k) == 10000000000000000000000000000000000000000int && power(11, k) == 452592555681759518058893560348969204658401int && d == 136);
        assert(d * power(10, k) == 1360000000000000000000000000000000000000000int) by (nonlinear_arith)
            requires
                d == 136,
                power(10, k) == 10000000000000000000000000000000000000000int,
        ;
    }
    if k == 41 {
        assert(power(10, k) == 100000000000000000000000000000000000000000int && power(11, k) == 4978518112499354698647829163838661251242411int && d == 149);
        assert(d * power(10, k) == 14900000000000000000000000000000000000000000int) by (nonlinear_arith)
            requires
                d == 149,
                power(10, k) == 100000000000000000000000000000000000000000int,
        ;
    }
    if k == 42 {
        assert(power(10, k) == 1000000000000000000000000000000000000000000int && power(11, k) == 54763699237492901685126120802225273763666521int && d == 164);
        assert(d * power(10, k) == 164000000000000000000000000000000000000000000int) by (nonlinear_arith)
            requires
                d == 164,
                power(10, k) == 1000000000000000000000000000000000000000000int,
        ;
    }
    if k == 43 {
        assert(power(10, k) == 10000000000000000000000000000000000000000000int && power(11, k) == 602400691612421918536387328824478011400331731int && d == 181);
        assert(d * power(10, k) == 1810000000000000000000000000000000000000000000int) by (nonlinear_arith)
            requires
                d == 181,
                power(10, k) == 10000000000000000000000000000000000000000000int,
        ;
    }
    if k == 44 {
        assert(power(10, k) == 100000000000000000000000000000000000000000000int && power(11, k) == 6626407607736641103900260617069258125403649041int && d == 199);
        assert(d * power(10, k) == 19900000000000000000000000000000000000000000000int) by (nonlinear_arith)
            requires
                d == 199,
                power(10, k) == 100000000000000000000000000000000000000000000int,
        ;
    }
    if k == 45 {
        assert(power(10, k) == 1000000000000000000000000000000000000000000000int && power(11, k) == 72890483685103052142902866787761839379440139451int && d == 219);
        assert(d * power(10, k) == 219000000000000000000000000000000000000000000000int) by (nonlinear_arith)
            requires
                d == 219,
                power(10, k) == 1000000000000000000000000000000000000000000000int,
        ;
    }
    if k == 46 {
        assert(power(10, k) == 10000000000000000000000000000000000000000000000int && power(11, k) == 801795320536133573571931534665380233173841533961int && d == 241);
        assert(d * power(10, k) == 2410000000000000000000000000000000000000000000000int) by (nonlinear_arith)
            requires
                d == 241,
                power(10, k) == 10000000000000000000000000000000000000000000000int,
        ;
    }
    if k == 47 {
        assert(power(10, k) == 100000000000000000000000000000000000000000000000int && power(11, k) == 8819748525897469309291246881319182564912256873571int && d == 265);
        assert(d * power(10, k) == 26500000000000000000000000000000000000000000000000int) by (nonlinear_arith)
            requires
                d == 265,
                power(10, k) == 100000000000000000000000000000000000000000000000int,
        ;
    }
    if k == 48 {
        assert(power(10, k) == 1000000000000000000000000000000000000000000000000int && power(11, k) == 97017233784872162402203715694511008214034825609281int && d == 291);
        assert(d * power(10, k) == 291000000000000000000000000000000000000000000000000int) by (nonlinear_arith)
            requires
                d == 291,
                power(10, k) == 1000000000000000000000000000000000000000000000000int,
        ;
    }
    if k == 49 {
        assert(power(10, k) == 10000000000000000000000000000000000000000000000000int && power(11, k) == 1067189571633593786424240872639621090354383081702091int && d == 320);
        assert(d * power(10, k) == 3200000000000000000000000000000000000000000000000000int) by (nonlinear_arith)
            requires
                d == 320,
                power(10, k) == 10000000000000000000000000000000000000000000000000int,
        ;
    }
    if k == 50 {
        assert(power(10, k) == 100000000000000000000000000000000000000000000000000int && power(11, k) == 11739085287969531650666649599035831993898213898723001int && d == 352);
        assert(d * power(10, k) == 35200000000000000000000000000000000000000000000000000int) by (nonlinear_arith)
            requires
                d == 352,
                power(10, k) == 100000000000000000000000000000000000000000000000000int,
        ;
    }
}

#[verifier::rlimit(50)]
proof fn lemma_powers_to_fifty()
    ensures
        power(10, 0) == 1int && power(11, 0) == 1int,
        power(10, 1) == 10int && power(11, 1) == 11int,
        power(10, 2) == 100int && power(11, 2) == 121int,
        power(10, 3) == 1000int && power(11, 3) == 1331int,
        power(10, 4) == 10000int && power(11, 4) == 14641int,
        power(10, 5) == 100000int && power(11, 5) == 161051int,
        power(10, 6) == 1000000int && power(11, 6) == 1771561int,
        power(10, 7) == 10000000int && power(11, 7) == 19487171int,
        power(10, 8) == 100000000int && power(11, 8) == 214358881int,
        power(10, 9) == 1000000000int && power(11, 9) == 2357947691int,
        power(10, 10) == 10000000000int && power(11, 10) == 25937424601int,
        power(10, 11) == 100000000000int && power(11, 11) == 285311670611int,
        power(10, 12) == 1000000000000int && power(11, 12) == 3138428376721int,
        power(10, 13) == 10000000000000int && power(11, 13) == 34522712143931int,
        power(10, 14) == 100000000000000int && power(11, 14) == 379749833583241int,
        power(10, 15) == 1000000000000000int && power(11, 15) == 4177248169415651int,
        power(10, 16) == 10000000000000000int && power(11, 16) == 45949729863572161int,
        power(10, 17) == 100000000000000000int && power(11, 17) == 505447028499293771int,
        power(10, 18) == 1000000000000000000int && power(11, 18) == 5559917313492231481int,
        power(10, 19) == 10000000000000000000int && power(11, 19) == 61159090448414546291int,
        power(10, 20) == 100000000000000000000int && power(11, 20) == 672749994932560009201int,
        power(10, 21) == 1000000000000000000000int && power(11, 21) == 7400249944258160101211int,
        power(10, 22) == 10000000000000000000000int && power(11, 22) == 81402749386839761113321int,
        power(10, 23) == 100000000000000000000000int && power(11, 23) == 895430243255237372246531int,
        power(10, 24) == 1000000000000000000000000int && power(11, 24) == 9849732675807611094711841int,
        power(10, 25) == 10000000000000000000000000int && power(11, 25) == 108347059433883722041830251int,
        power(10, 26) == 100000000000000000000000000int && power(11, 26) == 1191817653772720942460132761int,
        power(10, 27) == 1000000000000000000000000000int && power(11, 27) == 13109994191499930367061460371int,
        power(10, 28) == 10000000000000000000000000000int && power(11, 28) == 144209936106499234037676064081int,
        power(10, 29) == 100000000000000000000000000000int && power(11, 29) == 1586309297171491574414436704891int,
        power(10, 30) == 1000000000000000000000000000000int && power(11, 30) == 17449402268886407318558803753801int,
        power(10, 31) == 10000000000000000000000000000000int && power(11, 31) == 191943424957750480504146841291811int,
        power(10, 32) == 100000000000000000000000000000000int && power(11, 32) == 2111377674535255285545615254209921int,
        power(10, 33) == 1000000000000000000000000000000000int && power(11, 33) == 23225154419887808141001767796309131int,
        power(10, 34) == 10000000000000000000000000000000000int && power(11, 34) == 255476698618765889551019445759400441int,
        power(10, 35) == 100000000000000000000000000000000000int && power(11, 35) == 2810243684806424785061213903353404851int,
        power(10, 36) == 1000000000000000000000000000000000000int && power(11, 36) == 30912680532870672635673352936887453361int,
        power(10, 37) == 10000000000000000000000000000000000000int && power(11, 37) == 340039485861577398992406882305761986971int,
        power(10, 38) == 100000000000000000000000000000000000000int && power(11, 38) == 3740434344477351388916475705363381856681int,
        power(10, 39) == 1000000000000000000000000000000000000000int && power(11, 39) == 41144777789250865278081232758997200423491int,
        power(10, 40) == 10000000000000000000000000000000000000000int && power(11, 40) == 452592555681759518058893560348969204658401int,
        power(10, 41) == 100000000000000000000000000000000000000000int && power(11, 41) == 4978518112499354698647829163838661251242411int,
        power(10, 42) == 1000000000000000000000000000000000000000000int && power(11, 42) == 54763699237492901685126120802225273763666521int,
        power(10, 43) == 10000000000000000000000000000000000000000000int && power(11, 43) == 602400691612421918536387328824478011400331731int,
        power(10, 44) == 100000000000000000000000000000000000000000000int && power(11, 44) == 6626407607736641103900260617069258125403649041int,
        power(10, 45) == 1000000000000000000000000000000000000000000000int && power(11, 45) == 72890483685103052142902866787761839379440139451int,
        power(10, 46) == 10000000000000000000000000000000000000000000000int && power(11, 46) == 801795320536133573571931534665380233173841533961int,
        power(10, 47) == 100000000000000000000000000000000000000000000000int && power(11, 47) == 8819748525897469309291246881319182564912256873571int,
        power(10, 48) == 1000000000000000000000000000000000000000000000000int && power(11, 48) == 97017233784872162402203715694511008214034825609281int,
        power(10, 49) == 10000000000000000000000000000000000000000000000000int && power(11, 49) == 1067189571633593786424240872639621090354383081702091int,
        power(10, 50) == 100000000000000000000000000000000000000000000000000int && power(11, 50) == 11739085287969531650666649599035831993898213898723001int,
{
    lemma_power_step(10, 0);
    lemma_power_step(11, 0);
    assert(power(10, 1) == 10int && power(11, 1) == 11int);
    lemma_power_step(10, 1);
    lemma_power_step(11, 1);
    assert(power(10, 2) == 100int && power(11, 2) == 121int);
    lemma_power_step(10, 2);
    lemma_power_step(11, 2);
    assert(power(10, 3) == 1000int && power(11, 3) == 1331int);
    lemma_power_step(10, 3);
    lemma_power_step(11, 3);
    assert(power(10, 4) == 10000int && power(11, 4) == 14641int);
    lemma_power_step(10, 4);
    lemma_power_step(11, 4);
    assert(power(10, 5) == 100000int && power(11, 5) == 161051int);
    lemma_power_step(10, 5);
    lemma_power_step(11, 5);
    assert(power(10, 6) == 1000000int && power(11, 6) == 1771561int);
    lemma_power_step(10, 6);
    lemma_power_step(11, 6);
    assert(power(10, 7) == 10000000int && power(11, 7) == 19487171int);
    lemma_power_step(10, 7);
    lemma_power_step(11, 7);
    assert(power(10, 8) == 100000000int && power(11, 8) == 214358881int);
    lemma_power_step(10, 8);
    lemma_power_step(11, 8);
    assert(power(10, 9) == 1000000000int && power(11, 9) == 2357947691int);
    lemma_power_step(10, 9);
    lemma_power_step(11, 9);
    assert(power(10, 10) == 10000000000int && power(11, 10) == 25937424601int);
    lemma_power_step(10, 10);
    lemma_power_step(11, 10);
    assert(power(10, 11) == 100000000000int && power(11, 11) == 285311670611int);
    lemma_power_step(10, 11);
    lemma_power_step(11, 11);
    assert(power(10, 12) == 1000000000000int && power(11, 12) == 3138428376721int);
    lemma_power_step(10, 12);
    lemma_power_step(11, 12);
    assert(power(10, 13) == 10000000000000int && power(11, 13) == 34522712143931int);
    lemma_power_step(10, 13);
    lemma_power_step(11, 13);
    assert(power(10, 14) == 100000000000000int && power(11, 14) == 379749833583241int);
    lemma_power_step(10, 14);
    lemma_power_step(11, 14);
    assert(power(10, 15) == 1000000000000000int && power(11, 15) == 4177248169415651int);
    lemma_power_step(10, 15);
    lemma_power_step(11, 15);
    assert(power(10, 16) == 10000000000000000int && power(11, 16) == 45949729863572161int);
    lemma_power_step(10, 16);
    lemma_power_step(11, 16);
    assert(power(10, 17) == 100000000000000000int && power(11, 17) == 505447028499293771int);
    lemma_power_step(10, 17);
    lemma_power_step(11, 17);
    assert(power(10, 18) == 1000000000000000000int && power(11, 18) == 5559917313492231481int);
    lemma_power_step(10, 18);
    lemma_power_step(11, 18);
    assert(power(10, 19) == 10000000000000000000int && power(11, 19) == 61159090448414546291int);
    lemma_power_step(10, 19);
    lemma_power_step(11, 19);
    assert(power(10, 20) == 100000000000000000000int && power(11, 20) == 672749994932560009201int);
    lemma_power_step(10, 20);
    lemma_power_step(11, 20);
    assert(power(10, 21) == 1000000000000000000000int && power(11, 21) == 7400249944258160101211int);
    lemma_power_step(10, 21);
    lemma_power_step(11, 21);
    assert(power(10, 22) == 10000000000000000000000int && power(11, 22) == 81402749386839761113321int);
    lemma_power_step(10, 22);
    lemma_power_step(11, 22);
    assert(power(10, 23) == 100000000000000000000000int && power(11, 23) == 895430243255237372246531int);
    lemma_power_step(10, 23);
    lemma_power_step(11, 23);
    assert(power(10, 24) == 1000000000000000000000000int && power(11, 24) == 9849732675807611094711841int);
    lemma_power_step(10, 24);
    lemma_power_step(11, 24);
    assert(power(10, 25) == 10000000000000000000000000int && power(11, 25) == 108347059433883722041830251int);
    lemma_power_step(10, 25);
    lemma_power_step(11, 25);
    assert(power(10, 26) == 100000000000000000000000000int && power(11, 26) == 1191817653772720942460132761int);
    lemma_power_step(10, 26);
    lemma_power_step(11, 26);
    assert(power(10, 27) == 1000000000000000000000000000int && power(11, 27) == 13109994191499930367061460371int);
    lemma_power_step(10, 27);
    lemma_power_step(11, 27);
    assert(power(10, 28) == 10000000000000000000000000000int && power(11, 28) == 144209936106499234037676064081int);
    lemma_power_step(10, 28);
    lemma_power_step(11, 28);
    assert(power(10, 29) == 100000000000000000000000000000int && power(11, 29) == 1586309297171491574414436704891int);
    lemma_power_step(10, 29);
    lemma_power_step(11, 29);
    assert(power(10, 30) == 1000000000000000000000000000000int && power(11, 30) == 17449402268886407318558803753801int);
    lemma_power_step(10, 30);
    lemma_power_step(11, 30);
    assert(power(10, 31) == 10000000000000000000000000000000int && power(11, 31) == 191943424957750480504146841291811int);
    lemma_power_step(10, 31);
    lemma_power_step(11, 31);
    assert(power(10, 32) == 100000000000000000000000000000000int && power(11, 32) == 2111377674535255285545615254209921int);
    lemma_power_step(10, 32);
    lemma_power_step(11, 32);
    assert(power(10, 33) == 1000000000000000000000000000000000int && power(11, 33) == 23225154419887808141001767796309131int);
    lemma_power_step(10, 33);
    lemma_power_step(11, 33);
    assert(power(10, 34) == 10000000000000000000000000000000000int && power(11, 34) == 255476698618765889551019445759400441int);
    lemma_power_step(10, 34);
    lemma_power_step(11, 34);
    assert(power(10, 35) == 100000000000000000000000000000000000int && power(11, 35) == 2810243684806424785061213903353404851int);
    lemma_power_step(10, 35);
    lemma_power_step(11, 35);
    assert(power(10, 36) == 1000000000000000000000000000000000000int && power(11, 36) == 30912680532870672635673352936887453361int);
    lemma_power_step(10, 36);
    lemma_power_step(11, 36);
    assert(power(10, 37) == 10000000000000000000000000000000000000int && power(11, 37) == 340039485861577398992406882305761986971int);
    lemma_power_step(10, 37);
    lemma_power_step(11, 37);
    assert(power(10, 38) == 100000000000000000000000000000000000000int && power(11, 38) == 3740434344477351388916475705363381856681int);
    lemma_power_step(10, 38);
    lemma_power_step(11, 38);
    assert(power(10, 39) == 1000000000000000000000000000000000000000int && power(11, 39) == 41144777789250865278081232758997200423491int);
    lemma_power_step(10, 39);
    lemma_power_step(11, 39);
    assert(power(10, 40) == 10000000000000000000000000000000000000000int && power(11, 40) == 452592555681759518058893560348969204658401int);
    lemma_power_step(10, 40);
    lemma_power_step(11, 40);
    assert(power(10, 41) == 100000000000000000000000000000000000000000int && power(11, 41) == 4978518112499354698647829163838661251242411int);
    lemma_power_step(10, 41);
    lemma_power_step(11, 41);
    assert(power(10, 42) == 1000000000000000000000000000000000000000000int && power(11, 42) == 54763699237492901685126120802225273763666521int);
    lemma_power_step(10, 42);
    lemma_power_step(11, 42);
    assert(power(10, 43) == 10000000000000000000000000000000000000000000int && power(11, 43) == 602400691612421918536387328824478011400331731int);
    lemma_power_step(10, 43);
    lemma_power_step(11, 43);
    assert(power(10, 44) == 100000000000000000000000000000000000000000000int && power(11, 44) == 6626407607736641103900260617069258125403649041int);
    lemma_power_step(10, 44);
    lemma_power_step(11, 44);
    assert(power(10, 45) == 1000000000000000000000000000000000000000000000int && power(11, 45) == 72890483685103052142902866787761839379440139451int);
    lemma_power_step(10, 45);
    lemma_power_step(11, 45);
    assert(power(10, 46) == 10000000000000000000000000000000000000000000000int && power(11, 46) == 801795320536133573571931534665380233173841533961int);
    lemma_power_step(10, 46);
    lemma_power_step(11, 46);
    assert(power(10, 47) == 100000000000000000000000000000000000000000000000int && power(11, 47) == 8819748525897469309291246881319182564912256873571int);
    lemma_power_step(10, 47);
    lemma_power_step(11, 47);
    assert(power(10, 48) == 1000000000000000000000000000000000000000000000000int && power(11, 48) == 97017233784872162402203715694511008214034825609281int);
    lemma_power_step(10, 48);
    lemma_power_step(11, 48);
    assert(power(10, 49) == 10000000000000000000000000000000000000000000000000int && power(11, 49) == 1067189571633593786424240872639621090354383081702091int);
    lemma_power_step(10, 49);
    lemma_power_step(11, 49);
    assert(power(10, 50) == 100000000000000000000000000000000000000000000000000int && power(11, 50) == 11739085287969531650666649599035831993898213898723001int);
}

/// A bar jumps to a sound that reaches higher than it has fallen, and falls
/// three quarters of a row otherwise; what is shown is its height to the nearest
/// row.
pub proof fn lemma_bar_jumps_and_falls(c: Column, target: u8)
    requires
        column_ok(c),
        target <= 15,
    ensures
        c.quarters <= 4 * target + 3 ==> moved(c, target as int).quarters == 4 * target && shown(
            c,
            target as int,
        ).height == target,
        c.quarters > 4 * target + 3 ==> moved(c, target as int).quarters == c.quarters - 3,
        -2 <= 4 * shown(c, target as int).height - moved(c, target as int).quarters <= 2,
{
}

/// A peak that the bar has reached sits on the bar's top row and begins to drop
/// from there; one above the bar goes on dropping, faster with every step, and
/// is out of sight within the lowest row.
pub proof fn lemma_peak_sits_and_drops(c: Column, target: u8)
    requires
        column_ok(c),
        c.drops <= 50,
        target <= 15,
    ensures
        ({
            let next = moved(c, target as int);
            let bar = shown(c, target as int);
            let top = 64 * next.quarters;
            &&& c.peak <= top ==> next.drops == 1 && (top >= 3 ==> next.peak == top - 3) && (
            top >= 256 ==> bar.peak == Some((top / 256 + 1) as u8)) && (top < 256 ==> bar.peak
                is None)
            &&& c.peak > top ==> next.drops == c.drops + 1 && (next.peak == c.peak - drop_at(
                c.drops as int,
            ) || (next.peak == 0 && c.peak <= drop_at(c.drops as int)))
            &&& c.peak > top && c.peak >= 256 ==> bar.peak == Some((c.peak / 256 + 1) as u8)
            &&& c.peak > top && c.peak < 256 ==> bar.peak is None
        }),
{
}

/// The bars move sixty times a second: with the first frame, and after that
/// when 16.667 milliseconds have passed since the step before, a millisecond
/// early at most. The clock goes on from where the step was due, and a frame
/// that comes late catches up to one step behind.
pub proof fn lemma_frame_clock(a: AnalyserView, last: u64, targets: Seq<u8>, now: u64)
    ensures
        a.last_step is None ==> after_frame(a, targets, now).last_step == Some(now),
        a.last_step == Some(last) && now + 1_000_000 < last + 16_667_000 ==> after_frame(
            a,
            targets,
            now,
        ) == a,
        a.last_step == Some(last) && last + 15_667_000 <= now <= last + 33_334_000 && last
            + 16_667_000 <= u64::MAX ==> after_frame(a, targets, now).last_step == Some(
            (last + 16_667_000) as u64,
        ),
        a.last_step == Some(last) && now > last + 33_334_000 ==> after_frame(
            a,
            targets,
            now,
        ).last_step == Some((now - 16_667_000) as u64),
{
}

/// When the bars move, every one of the nineteen moves by its own sound.
pub proof fn lemma_every_bar_moves(a: AnalyserView, targets: Seq<u8>, now: u64, i: int)
    requires
        moves(a.last_step, now),
        0 <= i < 19,
    ensures
        after_frame(a, targets, now).columns.len() == 19,
        after_frame(a, targets, now).bars.len() == 19,
        after_frame(a, targets, now).columns[i] == moved(a.columns[i], targets[i] as int),
        after_frame(a, targets, now).bars[i] == shown(a.columns[i], targets[i] as int),
{
}

/// A column that is at rest, bar and peak.
pub open spec fn at_rest(c: Column) -> bool {
    c.quarters == 0 && c.peak == 0
}

/// A column at rest stays at rest in silence and shows a flat bar.
pub proof fn lemma_rest_is_flat()
    ensures
        at_rest(resting()) && resting().drops == 0,
        shown(resting(), 0) == (Bar { height: 0, peak: None }),
        at_rest(moved(resting(), 0)),
        flat_bar() == (Bar { height: 0, peak: None }),
        column_ok(resting()),
{
}

proof fn lemma_dropped_grows(j: nat, k: nat)
    requires
        j <= k <= 51,
    ensures
        dropped(j) <= dropped(k),
    decreases k,
{
    if j < k {
        lemma_dropped_grows(j, (k - 1) as nat);
        assert(drop_at(k - 1) >= 0);
    }
}

#[verifier::rlimit(40)]
proof fn lemma_dropped_out()
    ensures
        dropped(51) == 3844,
{
    reveal_with_fuel(dropped, 52);
}

/// A peak in sight has not dropped for so long that it would be gone, and
/// every column that moves stays what a column can be.
pub proof fn lemma_column_moves(c: Column, target: int)
    requires
        column_ok(c),
        0 <= target <= MAX_HEIGHT,
    ensures
        column_ok(moved(c, target)),
        c.peak > 64 * fallen(c.quarters as int, target) ==> c.drops <= 50,
{
    let q = fallen(c.quarters as int, target);
    lemma_dropped_out();
    assert(dropped(0) == 0);
    assert(dropped(1) == dropped(0) + drop_at(0));
    if c.peak > 64 * q && c.drops > 50 {
        lemma_dropped_grows(51, c.drops as nat);
    }
    if c.peak > 64 * q {
        assert(dropped((c.drops + 1) as nat) == dropped(c.drops as nat) + drop_at(c.drops as int));
    }
}

/// Bars reach the sound at once and never leave their rows; a peak in sight is
/// never below the top of its bar.
pub proof fn lemma_bar_in_rows(c: Column, target: int)
    requires
        column_ok(c),
        0 <= target <= MAX_HEIGHT,
    ensures
        target <= shown(c, target).height <= MAX_HEIGHT,
        shown(c, target).peak matches Some(p) ==> 2 <= p <= ROWS && p >= shown(c, target).height,
{
    if c.peak > 0 {
        lemma_dropped_grows(0, c.drops as nat);
    }
}

/// Without sound no bar rises.
pub proof fn lemma_silence_lowers(c: Column)
    requires
        column_ok(c),
    ensures
        moved(c, 0).quarters <= c.quarters,
        shown(c, 0).height <= (c.quarters + 2) / 4,
{
}

/// The column after `n` steps without sound.
pub open spec fn silent(c: Column, n: nat) -> Column
    decreases n,
{
    if n == 0 {
        c
    } else {
        moved(silent(c, (n - 1) as nat), 0)
    }
}

spec fn highest(c: Column) -> int {
    if c.peak >= 64 * c.quarters {
        c.peak as int
    } else {
        64 * c.quarters
    }
}

proof fn lemma_silence_sinks(c: Column, n: nat)
    requires
        column_ok(c),
    ensures
        column_ok(silent(c, n)),
        highest(silent(c, n)) <= 3840 - 3 * n || highest(silent(c, n)) == 0,
    decreases n,
{
    if n == 0 {
        if c.peak > 0 {
            lemma_dropped_grows(0, c.drops as nat);
        }
    } else {
        let before = silent(c, (n - 1) as nat);
        lemma_silence_sinks(c, (n - 1) as nat);
        lemma_column_moves(before, 0);
        assert(forall|k: int| 0 <= k <= 50 ==> #[trigger] drop_at(k) >= 3);
    }
}

/// In silence everything comes to rest, and stays there.
pub proof fn lemma_silence_settles(c: Column, n: nat)
    requires
        column_ok(c),
        n >= 1280,
    ensures
        at_rest(silent(c, n)),
{
    lemma_silence_sinks(c, n);
}

fn drop_of(k: u32) -> (d: u32)
    requires
        k <= 50,
    ensures
        d == drop_at(k as int),
{
    let table: [u32; 51] = [
        3, 3, 4, 4, 4, 5, 5, 6, 6, 7, 8, 9,
        9, 10, 11, 13, 14, 15, 17, 18, 20, 22, 24, 27,
        30, 33, 36, 39, 43, 48, 52, 58, 63, 70, 77, 84,
        93, 102, 112, 123, 136, 149, 164, 181, 199, 219, 241, 265,
        291, 320, 352,
    ];
    assert(forall|i: int| 0 <= i < 51 ==> table@[i] == drop_table()[i]);
    table[k as usize]
}

fn move_column(c: &Column, target: u8) -> (r: (Column, Bar))
    requires
        column_ok(*c),
        target <= MAX_HEIGHT,
    ensures
        r.0 == moved(*c, target as int),
        r.1 == shown(*c, target as int),
        column_ok(r.0),
{
    proof {
        lemma_column_moves(*c, target as int);
        if c.peak > 0 {
            lemma_dropped_grows(0, c.drops as nat);
        }
        assert(forall|k: int| 0 <= k <= 50 ==> 3 <= #[trigger] drop_at(k) <= 352);
    }
    let floor: u32 = 4 * target as u32;
    let q: u32 = if c.quarters <= floor + FALLOFF_QUARTERS {
        floor
    } else {
        c.quarters - FALLOFF_QUARTERS
    };
    let caught = c.peak <= 64 * q;
    let peak: u32 = if caught {
        64 * q
    } else {
        c.peak
    };
    let k: u32 = if caught {
        0
    } else {
        c.drops
    };
    let row: u32 = peak / 256;
    let fall: u32 = drop_of(k);
    let lower: u32 = if peak > fall {
        peak - fall
    } else {
        0
    };
    let height: u8 = ((q + 2) / 4) as u8;
    let mark: Option<u8> = if row >= 1 {
        Some((row + 1) as u8)
    } else {
        None
    };
    (Column { quarters: q, peak: lower, drops: k + 1 }, Bar { height, peak: mark })
}

impl Analyser {
    pub closed spec fn wf(&self) -> bool {
        &&& self.columns@.len() == BARS
        &&& self.bars@.len() == BARS
        &&& forall|i: int| 0 <= i < BARS ==> column_ok(#[trigger] self.columns@[i])
    }

    /// Nothing moves, nothing is shown.
    pub open spec fn blank(&self) -> bool {
        &&& self.wf()
        &&& self@.last_step is None
        &&& self@.columns == Seq::new(BARS as nat, |i: int| resting())
        &&& self@.bars == Seq::new(BARS as nat, |i: int| flat_bar())
    }

    pub fn new() -> (a: Self)
        ensures
            a.blank(),
    {
        let mut columns: Vec<Column> = Vec::new();
        let mut bars: Vec<Bar> = Vec::new();
        let mut i: usize = 0;
        while i < BARS
            invariant
                i <= BARS,
                columns@ == Seq::new(i as nat, |i: int| resting()),
                bars@ == Seq::new(i as nat, |i: int| flat_bar()),
            decreases BARS - i,
        {
            columns.push(Column { quarters: 0, peak: 0, drops: 0 });
            bars.push(Bar { height: 0, peak: None });
            assert(columns@ =~= Seq::new((i + 1) as nat, |i: int| resting()));
            assert(bars@ =~= Seq::new((i + 1) as nat, |i: int| flat_bar()));
            i += 1;
        }
        assert(dropped(0) == 0);
        Analyser { columns, last_step: None, bars }
    }

    /// One frame at `now` (nanoseconds): `targets` are the rows, 0 to 15, that
    /// the sound of each bar reaches. A frame that comes sooner than the next
    /// step shows the bars where they were; a late one owes no more than one
    /// step.
    pub fn step(&mut self, targets: &[u8; 19], now: u64) -> (bars: Vec<Bar>)
        requires
            old(self).wf(),
            forall|i: int| 0 <= i < BARS ==> #[trigger] targets@[i] <= MAX_HEIGHT,
            now <= u64::MAX - GRACE_NS,
        ensures
            final(self).wf(),
            bars@ == final(self)@.bars,
            bars@.len() == BARS,
            final(self)@ == after_frame(old(self)@, targets@, now),
    {
        let due: u128 = match self.last_step {
            Some(last) => last as u128 + STEP_NS as u128,
            None => now as u128,
        };
        if (now as u128) + (GRACE_NS as u128) < due {
            return copy_bars(&self.bars);
        }
        let earliest: u64 = if now >= STEP_NS {
            now - STEP_NS
        } else {
            0
        };
        let begun: u64 = if due >= earliest as u128 {
            due as u64
        } else {
            earliest
        };
        self.last_step = Some(begun);
        let ghost before = self.columns@;
        let mut i: usize = 0;
        while i < BARS
            invariant
                i <= BARS,
                self.columns@.len() == BARS,
                self.bars@.len() == BARS,
                before.len() == BARS,
                self.last_step == Some(begun),
                forall|k: int| 0 <= k < BARS ==> #[trigger] targets@[k] <= MAX_HEIGHT,
                forall|k: int| 0 <= k < BARS ==> column_ok(#[trigger] before[k]),
                forall|k: int| i <= k < BARS ==> #[trigger] self.columns@[k] == before[k],
                forall|k: int|
                    0 <= k < i ==> #[trigger] self.columns@[k] == moved(
                        before[k],
                        targets@[k] as int,
                    ) && column_ok(self.columns@[k]),
                forall|k: int|
                    0 <= k < i ==> #[trigger] self.bars@[k] == shown(before[k], targets@[k] as int),
            decreases BARS - i,
        {
            assert(column_ok(before[i as int]));
            let (column, bar) = move_column(&self.columns[i], targets[i]);
            self.columns.set(i, column);
            self.bars.set(i, bar);
            i += 1;
        }
        assert(self@ =~= after_frame(old(self)@, targets@, now));
        copy_bars(&self.bars)
    }

    /// Whether every bar and peak has come to rest.
    pub fn settled(&self) -> (yes: bool)
        requires
            self.wf(),
        ensures
            yes == forall|i: int| 0 <= i < BARS ==> at_rest(#[trigger] self@.columns[i]),
    {
        let mut i: usize = 0;
        while i < BARS
            invariant
                i <= BARS,
                self.columns@.len() == BARS,
                forall|k: int| 0 <= k < i ==> at_rest(#[trigger] self.columns@[k]),
            decreases BARS - i,
        {
            if self.columns[i].quarters != 0 || self.columns[i].peak != 0 {
                assert(!at_rest(self@.columns[i as int]));
                return false;
            }
            i += 1;
        }
        true
    }

    pub fn reset(&mut self)
        ensures
            final(self).blank(),
    {
        let blank = Analyser::new();
        *self = blank;
    }
}

/// What one band reaches where all do, or the bands of a short frame with
/// silence after them.
pub open spec fn spread_rows(rows: Seq<u8>) -> Seq<u8> {
    Seq::new(
        BARS as nat,
        |i: int|
            if rows.len() == 1 {
                rows[0]
            } else if i < rows.len() {
                rows[i]
            } else {
                0
            },
    )
}

/// A lone band moves all nineteen bars; of several each moves its own, and the
/// bars without a band stay silent.
pub proof fn lemma_spread_rows(rows: Seq<u8>, i: int)
    requires
        0 <= i < 19,
    ensures
        spread_rows(rows).len() == 19,
        rows.len() == 0 ==> spread_rows(rows)[i] == 0,
        rows.len() == 1 ==> spread_rows(rows)[i] == rows[0],
        rows.len() > 1 && i < rows.len() ==> spread_rows(rows)[i] == rows[i],
        rows.len() > 1 && i >= rows.len() ==> spread_rows(rows)[i] == 0,
{
}

/// The rows that the bars of a frame reach, from those that its bands reach:
/// one band per bar, a lone band for all of them, and silence for the bars that
/// a short or empty frame has no band for.
pub fn spread(rows: &[u8]) -> (targets: [u8; 19])
    requires
        rows@.len() <= BARS,
    ensures
        targets@ == spread_rows(rows@),
{
    let mut targets: [u8; 19] = [0; 19];
    let mut i: usize = 0;
    while i < BARS
        invariant
            i <= BARS,
            targets@.len() == BARS,
            rows@.len() <= BARS,
            forall|k: int| 0 <= k < i ==> #[trigger] targets@[k] == spread_rows(rows@)[k],
        decreases BARS - i,
    {
        targets[i] = if rows.len() == 1 {
            rows[0]
        } else if i < rows.len() {
            rows[i]
        } else {
            0
        };
        i += 1;
    }
    assert(targets@ =~= spread_rows(rows@));
    targets
}

/// The rows that the bars of a frame reach: those of its bands while something
/// plays, silence while nothing does.
pub fn heard(playing: bool, rows: &[u8]) -> (targets: [u8; 19])
    requires
        rows@.len() <= BARS,
    ensures
        targets@ == spread_rows(
            if playing {
                rows@
            } else {
                Seq::empty()
            },
        ),
{
    if playing {
        spread(rows)
    } else {
        let targets: [u8; 19] = [0; 19];
        assert(targets@ =~= spread_rows(Seq::empty()));
        targets
    }
}

fn copy_bars(bars: &Vec<Bar>) -> (copy: Vec<Bar>)
    ensures
        copy@ == bars@,
{
    let mut copy: Vec<Bar> = Vec::new();
    let mut i: usize = 0;
    while i < bars.len()
        invariant
            i <= bars@.len(),
            copy@ == bars@.take(i as int),
        decreases bars@.len() - i,
    {
        assert(bars@.take(i + 1) =~= bars@.take(i as int).push(bars@[i as int]));
        copy.push(bars[i]);
        i += 1;
    }
    assert(bars@.take(bars@.len() as int) =~= bars@);
    copy
}

} // verus!
