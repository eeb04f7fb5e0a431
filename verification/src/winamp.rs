//! What the skinned windows keep between frames: sizes and switches, the
//! marquee's place, slider previews, the list's scrolling and selection.

use std::collections::HashSet;

use vstd::prelude::*;

use crate::app::Skin;
use crate::bits::{Double, Single};
use crate::layout;
use crate::text;
use crate::vis::{Analyser, VisMode};

verus! {

/// The most screen pixels a skin pixel may take.
pub const MAX_SCALE: u32 = 4;

/// How many characters the marquee shows: thirty whole ones and the edge of a
/// thirty-first.
pub const MARQUEE_CHARS: usize = 31;

/// Text this long fits the marquee without scrolling.
pub const MARQUEE_FITS: usize = 30;

/// How long the marquee waits between steps of one character, in nanoseconds.
pub const MARQUEE_STEP_NS: u64 = 220_000_000;

/// What separates the end of a scrolling title from its start again.
pub const MARQUEE_GAP: &'static str = "  ***  ";

/// Display state of the skinned windows.
pub struct WinampState {
    /// Screen pixels per skin pixel.
    pub scale: u32,
    /// The main window is rolled up to its title bar.
    pub shaded: bool,
    /// The equalizer hangs under the main window.
    pub eq_open: bool,
    pub eq_shaded: bool,
    /// The playlist hangs under whatever is above it.
    pub playlist_open: bool,
    pub playlist_shaded: bool,
    /// The playlist's height as last stretched, in skin pixels.
    pub playlist_height: u32,
    /// Count down instead of up.
    pub time_remaining: bool,
    /// The balance while its thumb is held.
    pub balance_preview: Option<Single>,
    /// The volume while its thumb is held.
    pub volume_preview: Option<Single>,
    /// The seek position while its thumb is held, as a fraction.
    pub seek_preview: Option<Double>,
    /// Shuffle and repeat, as their lamps show them.
    pub shuffle: bool,
    pub repeat: bool,
    pub marquee_text: String,
    pub marquee_offset: u64,
    pub marquee_moved: Option<u64>,
    /// The visualiser's memory.
    pub analyser: Analyser,
    /// What the visualiser shows.
    pub vis_mode: VisMode,
    /// The list's first visible row.
    pub playlist_scroll: usize,
    /// The rows selected.
    pub playlist_selection: HashSet<usize>,
}

/// The text with the gap that it scrolls through.
pub open spec fn strip(s: Seq<char>) -> Seq<char> {
    s + MARQUEE_GAP@
}

/// The characters that the marquee shows of a text: all of one that fits, else
/// a window onto the strip, beginning at `offset` and wrapping round.
pub open spec fn marquee_window(s: Seq<char>, offset: nat) -> Seq<char> {
    if s.len() <= MARQUEE_FITS {
        s
    } else {
        Seq::new(MARQUEE_CHARS as nat, |i: int| strip(s)[(offset + i) % (strip(s).len() as int)])
    }
}

/// How many whole steps lie between two moments.
pub open spec fn steps_between(from: u64, to: u64) -> nat {
    if to > from {
        (to - from) as nat / MARQUEE_STEP_NS as nat
    } else {
        0
    }
}

/// The marquee's offset when `text` is shown at `now`: back at the start for a
/// new text, else a step on for every period that has passed.
pub open spec fn marquee_offset_at(state: WinampState, s: Seq<char>, now: u64) -> nat {
    if s != state.marquee_text@ {
        0
    } else if s.len() <= MARQUEE_FITS {
        state.marquee_offset as nat
    } else {
        let moved = match state.marquee_moved {
            Some(m) => m,
            None => now,
        };
        (state.marquee_offset + steps_between(moved, now)) as nat % 0x1_0000_0000_0000_0000
    }
}

/// The marquee's window shows the start of the text at offset zero, and is the
/// same again after a full round.
pub proof fn lemma_marquee_round(s: Seq<char>, offset: nat)
    requires
        s.len() > MARQUEE_FITS,
    ensures
        marquee_window(s, offset + strip(s).len()) == marquee_window(s, offset),
        s.len() >= MARQUEE_CHARS ==> marquee_window(s, 0) == s.take(MARQUEE_CHARS as int),
{
    let n = strip(s).len() as int;
    let round = marquee_window(s, offset + strip(s).len());
    assert forall|i: int| 0 <= i < MARQUEE_CHARS implies #[trigger] round[i] == marquee_window(
        s,
        offset,
    )[i] by {
        vstd::arithmetic::div_mod::lemma_mod_add_multiples_vanish(offset + i, n);
        assert(offset + strip(s).len() + i == n + (offset + i));
    }
    assert(round =~= marquee_window(s, offset));
    if s.len() >= MARQUEE_CHARS {
        let first = marquee_window(s, 0);
        assert forall|i: int| 0 <= i < MARQUEE_CHARS implies #[trigger] first[i] == s[i] by {
            vstd::arithmetic::div_mod::lemma_small_mod(i as nat, n as nat);
        }
        assert(first =~= s.take(MARQUEE_CHARS as int));
    }
}

/// A step of one character moves the window by one: what stood second stands
/// first.
pub proof fn lemma_marquee_step(s: Seq<char>, offset: nat, i: int)
    requires
        s.len() > MARQUEE_FITS,
        0 <= i < MARQUEE_CHARS - 1,
    ensures
        marquee_window(s, offset + 1)[i] == marquee_window(s, offset)[i + 1],
{
}

/// The text with the gap that it scrolls through, for drawing it as pixels.
pub fn marquee_strip(s: &str) -> (out: String)
    ensures
        out@ == strip(s@),
{
    let mut out = s.to_owned();
    out.append(MARQUEE_GAP);
    out
}

/// The height of the windows that are open, one under the other.
pub open spec fn stack(state: WinampState) -> int {
    let main = if state.shaded {
        layout::SHADE_HEIGHT as int
    } else {
        layout::WINDOW_HEIGHT as int
    };
    let eq = if !state.eq_open {
        0
    } else if state.eq_shaded {
        layout::EQ_SHADE_HEIGHT as int
    } else {
        layout::EQ_HEIGHT as int
    };
    let list = if !state.playlist_open {
        0
    } else if state.playlist_shaded {
        layout::PLAYLIST_SHADE_HEIGHT as int
    } else {
        clamped_height(state.playlist_height as int)
    };
    main + eq + list
}

/// A height that the playlist can have.
pub open spec fn clamped_height(h: int) -> int {
    if h < layout::PLAYLIST_MIN_HEIGHT {
        layout::PLAYLIST_MIN_HEIGHT as int
    } else if h > layout::PLAYLIST_MAX_HEIGHT {
        layout::PLAYLIST_MAX_HEIGHT as int
    } else {
        h
    }
}

/// A text of up to thirty characters stands still; of a longer one thirty-one
/// characters are shown, read from the text and the gap behind it round and
/// round.
pub proof fn lemma_marquee_shows(s: Seq<char>, offset: nat, i: int)
    ensures
        s.len() <= 30 ==> marquee_window(s, offset) == s,
        s.len() > 30 ==> marquee_window(s, offset).len() == 31,
        s.len() > 30 && 0 <= i < 31 && offset + i < s.len() ==> marquee_window(s, offset)[i]
            == s[offset + i],
        s.len() > 30 && 0 <= i < 31 && s.len() <= offset + i < s.len() + 7 ==> marquee_window(
            s,
            offset,
        )[i] == "  ***  "@[offset + i - s.len()],
        strip(s) == s + "  ***  "@,
{
    reveal_strlit("  ***  ");
    if s.len() > 30 && 0 <= i < 31 && offset + i < s.len() + 7 {
        vstd::arithmetic::div_mod::lemma_small_mod((offset + i) as nat, strip(s).len());
    }
}

/// The marquee moves one character every 220 milliseconds, and begins again with
/// every new text.
pub proof fn lemma_marquee_clock(state: WinampState, s: Seq<char>, moved: u64, now: u64, k: nat)
    ensures
        s != state.marquee_text@ ==> marquee_offset_at(state, s, now) == 0,
        s == state.marquee_text@ && s.len() > 30 && state.marquee_moved == Some(moved) && moved
            + 220_000_000 * k <= now < moved + 220_000_000 * (k + 1) && state.marquee_offset + k
            <= u64::MAX ==> marquee_offset_at(state, s, now) == state.marquee_offset + k,
        s == state.marquee_text@ && state.marquee_moved is None ==> marquee_offset_at(state, s, now)
            == state.marquee_offset,
{
    if moved + 220_000_000 * k <= now < moved + 220_000_000 * (k + 1) {
        let d = (now - moved) as nat;
        assert(d / 220_000_000 == k);
    }
    let held = state.marquee_offset as nat;
    vstd::arithmetic::div_mod::lemma_small_mod(held, 0x1_0000_0000_0000_0000);
    if held + k <= u64::MAX {
        vstd::arithmetic::div_mod::lemma_small_mod(held + k, 0x1_0000_0000_0000_0000);
    }
}

/// The windows are stacked: 116 pixels for the main one, 116 more for the
/// equalizer, for the playlist its height between 116 and 696, and fourteen for
/// each that is rolled up; a window that is shut takes no room.
pub proof fn lemma_stack_parts(state: WinampState)
    ensures
        ({
            let main: int = if state.shaded {
                14
            } else {
                116
            };
            let eq: int = if !state.eq_open {
                0
            } else if state.eq_shaded {
                14
            } else {
                116
            };
            &&& !state.playlist_open ==> stack(state) == main + eq
            &&& state.playlist_open && state.playlist_shaded ==> stack(state) == main + eq + 14
            &&& state.playlist_open && !state.playlist_shaded && 116 <= state.playlist_height <= 696
                ==> stack(state) == main + eq + state.playlist_height
            &&& state.playlist_open && !state.playlist_shaded && state.playlist_height < 116
                ==> stack(state) == main + eq + 116
            &&& state.playlist_open && !state.playlist_shaded && state.playlist_height > 696
                ==> stack(state) == main + eq + 696
        }),
{
}

impl Default for WinampState {
    fn default() -> (s: Self)
        ensures
            s.scale == 2,
            !s.shaded && !s.eq_open && !s.eq_shaded && !s.playlist_open && !s.playlist_shaded,
            s.playlist_height == layout::PLAYLIST_MIN_HEIGHT,
            !s.time_remaining && !s.shuffle && !s.repeat,
            s.balance_preview is None && s.volume_preview is None && s.seek_preview is None,
            s.marquee_text@ == Seq::<char>::empty(),
            s.marquee_offset == 0,
            s.marquee_moved is None,
            s.analyser.blank(),
            s.vis_mode == VisMode::Bars,
            s.playlist_scroll == 0,
            s.playlist_selection@ == Set::<usize>::empty(),
    {
        WinampState {
            scale: 2,
            shaded: false,
            eq_open: false,
            eq_shaded: false,
            playlist_open: false,
            playlist_shaded: false,
            playlist_height: layout::PLAYLIST_MIN_HEIGHT,
            time_remaining: false,
            balance_preview: None,
            volume_preview: None,
            seek_preview: None,
            shuffle: false,
            repeat: false,
            marquee_text: String::new(),
            marquee_offset: 0,
            marquee_moved: None,
            analyser: Analyser::new(),
            vis_mode: VisMode::Bars,
            playlist_scroll: 0,
            playlist_selection: HashSet::new(),
        }
    }
}

impl WinampState {
    /// The stack's height in skin pixels: the main window, and the equalizer
    /// and the playlist under it, whichever are open.
    pub fn stack_height(&self) -> (h: u32)
        ensures
            h == stack(*self),
    {
        let mut height: u32 = if self.shaded {
            layout::SHADE_HEIGHT
        } else {
            layout::WINDOW_HEIGHT
        };
        if self.eq_open {
            height = height + if self.eq_shaded {
                layout::EQ_SHADE_HEIGHT
            } else {
                layout::EQ_HEIGHT
            };
        }
        if self.playlist_open {
            height = height + if self.playlist_shaded {
                layout::PLAYLIST_SHADE_HEIGHT
            } else if self.playlist_height < layout::PLAYLIST_MIN_HEIGHT {
                layout::PLAYLIST_MIN_HEIGHT
            } else if self.playlist_height > layout::PLAYLIST_MAX_HEIGHT {
                layout::PLAYLIST_MAX_HEIGHT
            } else {
                self.playlist_height
            };
        }
        height
    }

    /// The window's size in screen points at its scale, width and height.
    pub fn window_size(&self) -> (size: (u64, u64))
        ensures
            size.0 == layout::WINDOW_WIDTH * self.scale,
            size.1 == stack(*self) * self.scale,
    {
        let h: u32 = self.stack_height();
        let width: u64 = layout::WINDOW_WIDTH as u64 * self.scale as u64;
        assert(h * self.scale <= 1000 * 0xffff_ffff) by (nonlinear_arith)
            requires
                0 <= h <= 1000,
                0 <= self.scale <= 0xffff_ffff,
        ;
        (width, h as u64 * self.scale as u64)
    }

    /// The characters that the marquee shows at `now` (nanoseconds), and its
    /// offset: the text itself when it fits, else a window onto it that moves a
    /// character at a time.
    pub fn marquee(&mut self, s: &str, now: u64) -> (r: (String, u64))
        ensures
            r.0@ == marquee_window(s@, marquee_offset_at(*old(self), s@, now)),
            r.1 == (if s@.len() <= MARQUEE_FITS {
                0
            } else {
                marquee_offset_at(*old(self), s@, now)
            }),
            final(self).marquee_text@ == s@,
            final(self).marquee_offset == marquee_offset_at(*old(self), s@, now),
            ({
                let changed = s@ != old(self).marquee_text@;
                let from = if changed || (old(self).marquee_moved is None && s@.len()
                    > MARQUEE_FITS) {
                    Some(now)
                } else {
                    old(self).marquee_moved
                };
                if s@.len() <= MARQUEE_FITS {
                    final(self).marquee_moved == from
                } else {
                    final(self).marquee_moved == Some(
                        (from->0 + MARQUEE_STEP_NS * (steps_between(from->0, now)
                            % 0x1_0000_0000)) as u64,
                    )
                }
            }),
            *final(self) == (WinampState {
                marquee_text: final(self).marquee_text,
                marquee_offset: final(self).marquee_offset,
                marquee_moved: final(self).marquee_moved,
                ..*old(self)
            }),
    {
        if !text::same(s, self.marquee_text.as_str()) {
            self.marquee_text = s.to_owned();
            self.marquee_offset = 0;
            self.marquee_moved = Some(now);
        }
        let chars = text::chars(s);
        if chars.len() <= MARQUEE_FITS {
            assert(self.marquee_text@ == s@);
            return (s.to_owned(), 0);
        }
        let moved: u64 = match self.marquee_moved {
            Some(m) => m,
            None => now,
        };
        let steps: u64 = if now > moved {
            (now - moved) / MARQUEE_STEP_NS
        } else {
            0
        };
        let whole: u64 = steps % 0x1_0000_0000;
        proof {
            assert(MARQUEE_STEP_NS * whole <= now - moved || whole == 0) by (nonlinear_arith)
                requires
                    whole <= steps,
                    steps == (if now > moved {
                        ((now - moved) as nat / MARQUEE_STEP_NS as nat) as int
                    } else {
                        0
                    }),
                    MARQUEE_STEP_NS == 220_000_000u64,
            ;
        }
        self.marquee_moved = Some(moved + MARQUEE_STEP_NS * whole);
        let offset: u64 = self.marquee_offset.wrapping_add(steps);
        self.marquee_offset = offset;
        let strip_text = marquee_strip(s);
        let all = text::chars(strip_text.as_str());
        let n: usize = all.len();
        proof {
            reveal_strlit("  ***  ");
        }
        let begin: usize = (offset % (n as u64)) as usize;
        let mut shown = String::new();
        let mut at: usize = begin;
        let mut i: usize = 0;
        proof {
            vstd::arithmetic::div_mod::lemma_mod_twice(offset as int, n as int);
        }
        assert(marquee_window(s@, offset as nat).take(0) =~= Seq::empty());
        while i < MARQUEE_CHARS
            invariant
                i <= MARQUEE_CHARS,
                all@ == strip(s@),
                n == all@.len(),
                n > MARQUEE_FITS,
                s@.len() > MARQUEE_FITS,
                at < n,
                at == (offset + i) % (n as int),
                shown@ == marquee_window(s@, offset as nat).take(i as int),
            decreases MARQUEE_CHARS - i,
        {
            let ghost window = marquee_window(s@, offset as nat);
            assert(window.take(i + 1) =~= window.take(i as int).push(all@[at as int]));
            shown.push(all[at]);
            proof {
                assert((offset + i + 1) % (n as int) == if at + 1 == n {
                    0
                } else {
                    at + 1
                }) by (nonlinear_arith)
                    requires
                        n > 0,
                        0 <= at < n,
                        at == (offset + i) % (n as int),
                ;
            }
            if at + 1 == n {
                at = 0;
            } else {
                at = at + 1;
            }
            i += 1;
        }
        assert(marquee_window(s@, offset as nat).take(MARQUEE_CHARS as int) =~= marquee_window(
            s@,
            offset as nat,
        ));
        (shown, offset)
    }

    /// Whether the marquee is on the move, and so wants frames.
    pub fn marquee_scrolling(&self) -> (yes: bool)
        ensures
            yes == (self.marquee_text@.len() > MARQUEE_FITS),
    {
        text::chars(self.marquee_text.as_str()).len() > MARQUEE_FITS
    }
}

/// A whole-number scale from what is asked for.
pub fn clamp_scale(scale: u32) -> (s: u32)
    ensures
        1 <= s <= MAX_SCALE,
        1 <= scale <= MAX_SCALE ==> s == scale,
        scale < 1 ==> s == 1,
        scale > MAX_SCALE ==> s == MAX_SCALE,
{
    if scale < 1 {
        1
    } else if scale > MAX_SCALE {
        MAX_SCALE
    } else {
        scale
    }
}

/// The skin worn when none is loaded.
pub fn default_skin() -> (skin: Skin)
    ensures
        skin.name@ == "built-in"@,
{
    Skin::builtin()
}

} // verus!
