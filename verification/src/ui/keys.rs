//! The keys that the windows know.

use vstd::prelude::*;

verus! {

/// A key that means something somewhere, or any other.
#[derive(Clone, Copy, Debug, PartialEq, Eq, Structural)]
pub enum Key {
    Space,
    Enter,
    ArrowUp,
    ArrowDown,
    B,
    C,
    F,
    L,
    M,
    Q,
    V,
    X,
    Z,
    Other,
}

/// A key that went down, with what was held.
#[derive(Clone, Copy, Debug, PartialEq, Eq, Structural)]
pub struct KeyPress {
    pub key: Key,
    pub ctrl: bool,
    pub shift: bool,
    /// No modifier of any kind was held.
    pub plain: bool,
}

/// Whether the key was pressed with control and without shift.
pub open spec fn with_ctrl(p: KeyPress, key: Key) -> bool {
    p.ctrl && !p.shift && p.key == key
}

/// Whether the key was pressed alone.
pub open spec fn alone(p: KeyPress, key: Key) -> bool {
    p.plain && !(p.ctrl && !p.shift) && p.key == key
}

/// Whether some press asks to flip between the main window and the mini player.
pub open spec fn flips_window(presses: Seq<KeyPress>) -> bool {
    exists|i: int| 0 <= i < presses.len() && with_ctrl(#[trigger] presses[i], Key::M)
}

/// A key with control is never the same key alone, shift keeps it from either,
/// and the window flips with the letter M and control.
pub proof fn lemma_key_kinds(p: KeyPress, key: Key)
    ensures
        !(with_ctrl(p, key) && alone(p, key)),
        with_ctrl(p, key) ==> p.ctrl && !p.shift,
        p.ctrl && !p.shift ==> with_ctrl(p, p.key),
        p.plain && !p.ctrl ==> alone(p, p.key),
        !p.plain ==> !alone(p, key),
        flips_window(seq![p]) <==> p.ctrl && !p.shift && p.key == Key::M,
{
    assert(seq![p][0] == p);
}

/// The window flips whichever of the keys of a frame asks for it.
pub proof fn lemma_flips_window(presses: Seq<KeyPress>, p: KeyPress)
    ensures
        flips_window(presses.push(p)) <==> flips_window(presses) || (p.ctrl && !p.shift && p.key
            == Key::M),
        !flips_window(Seq::empty()),
{
    let more = presses.push(p);
    let n = presses.len() as int;
    assert(more[n] == p);
    if flips_window(presses) {
        let i = choose|i: int| 0 <= i < presses.len() && with_ctrl(#[trigger] presses[i], Key::M);
        assert(with_ctrl(more[i], Key::M));
    }
    if flips_window(more) {
        let i = choose|i: int| 0 <= i < more.len() && with_ctrl(#[trigger] more[i], Key::M);
        if i < n {
            assert(with_ctrl(presses[i], Key::M));
        }
    }
}

/// Whether some press is that key with control.
pub fn any_with_ctrl(presses: &Vec<KeyPress>, key: Key) -> (yes: bool)
    ensures
        yes == (exists|i: int| 0 <= i < presses@.len() && with_ctrl(#[trigger] presses@[i], key)),
{
    let mut i: usize = 0;
    while i < presses.len()
        invariant
            i <= presses@.len(),
            forall|k: int| 0 <= k < i ==> !with_ctrl(#[trigger] presses@[k], key),
        decreases presses@.len() - i,
    {
        let p = presses[i];
        if p.ctrl && !p.shift && p.key == key {
            assert(with_ctrl(presses@[i as int], key));
            return true;
        }
        i += 1;
    }
    false
}

/// Whether some press is that key alone.
pub fn any_alone(presses: &Vec<KeyPress>, key: Key) -> (yes: bool)
    ensures
        yes == (exists|i: int| 0 <= i < presses@.len() && alone(#[trigger] presses@[i], key)),
{
    let mut i: usize = 0;
    while i < presses.len()
        invariant
            i <= presses@.len(),
            forall|k: int| 0 <= k < i ==> !alone(#[trigger] presses@[k], key),
        decreases presses@.len() - i,
    {
        let p = presses[i];
        if p.plain && !(p.ctrl && !p.shift) && p.key == key {
            assert(alone(presses@[i as int], key));
            return true;
        }
        i += 1;
    }
    false
}

/// Ctrl+M flips between the main window and the mini player.
pub fn wants_flip(presses: &Vec<KeyPress>) -> (yes: bool)
    ensures
        yes == flips_window(presses@),
{
    any_with_ctrl(presses, Key::M)
}

} // verus!
