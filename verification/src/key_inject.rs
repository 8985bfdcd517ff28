//! The key events each simulated keystroke consists of. Sending them to the
//! system is the caller's part.
use vstd::prelude::*;

verus! {

/// A key the app presses.
#[derive(PartialEq, Eq, Structural, Clone, Copy)]
pub enum Key {
    Down,
    Up,
    Return,
    Control,
    LeftWin,
    Shift,
    /// A UTF-16 code unit typed as a Unicode key event.
    Unicode(u16),
}

/// One key going down or up.
#[derive(PartialEq, Eq, Structural, Clone, Copy)]
pub struct KeyEvent {
    pub key: Key,
    pub up: bool,
}

/// A key pressed and released.
pub open spec fn tap(k: Key) -> Seq<KeyEvent> {
    seq![KeyEvent { key: k, up: false }, KeyEvent { key: k, up: true }]
}

fn press_key(k: Key) -> (v: Vec<KeyEvent>)
    ensures
        v@ == tap(k),
{
    let mut v: Vec<KeyEvent> = Vec::new();
    v.push(KeyEvent { key: k, up: false });
    v.push(KeyEvent { key: k, up: true });
    assert(v@ =~= tap(k));
    v
}

/// The Down arrow, pressed and released.
pub fn press_down_arrow() -> (v: Vec<KeyEvent>)
    ensures
        v@ == tap(Key::Down),
{
    press_key(Key::Down)
}

/// The Up arrow, pressed and released.
pub fn press_up_arrow() -> (v: Vec<KeyEvent>)
    ensures
        v@ == tap(Key::Up),
{
    press_key(Key::Up)
}

/// Enter, pressed and released.
pub fn press_enter() -> (v: Vec<KeyEvent>)
    ensures
        v@ == tap(Key::Return),
{
    press_key(Key::Return)
}

/// The target app's voice-input toggle: Ctrl, Win and Shift go down in that
/// order and come up in reverse, one complete press.
pub open spec fn voice_toggle() -> Seq<KeyEvent> {
    seq![
        KeyEvent { key: Key::Control, up: false },
        KeyEvent { key: Key::LeftWin, up: false },
        KeyEvent { key: Key::Shift, up: false },
        KeyEvent { key: Key::Shift, up: true },
        KeyEvent { key: Key::LeftWin, up: true },
        KeyEvent { key: Key::Control, up: true },
    ]
}

/// Ctrl+Win+Shift, pressed and released (see `voice_toggle`).
pub fn press_voice_toggle() -> (v: Vec<KeyEvent>)
    ensures
        v@ == voice_toggle(),
{
    let mut v: Vec<KeyEvent> = Vec::new();
    v.push(KeyEvent { key: Key::Control, up: false });
    v.push(KeyEvent { key: Key::LeftWin, up: false });
    v.push(KeyEvent { key: Key::Shift, up: false });
    v.push(KeyEvent { key: Key::Shift, up: true });
    v.push(KeyEvent { key: Key::LeftWin, up: true });
    v.push(KeyEvent { key: Key::Control, up: true });
    assert(v@ =~= voice_toggle());
    v
}

/// The UTF-16 code units of one character.
pub open spec fn utf16_of(c: char) -> Seq<u16> {
    let v = c as u32;
    if v < 0x10000 {
        seq![v as u16]
    } else {
        seq![(0xD800 + (v - 0x10000) / 1024) as u16, (0xDC00 + (v - 0x10000) % 1024) as u16]
    }
}

/// The UTF-16 code units of a text.
pub open spec fn utf16(s: Seq<char>) -> Seq<u16>
    decreases s.len(),
{
    if s.len() == 0 {
        Seq::empty()
    } else {
        utf16(s.drop_last()) + utf16_of(s.last())
    }
}

/// Each code unit pressed and released as a Unicode key event.
pub open spec fn unicode_taps(units: Seq<u16>) -> Seq<KeyEvent>
    decreases units.len(),
{
    if units.len() == 0 {
        Seq::empty()
    } else {
        unicode_taps(units.drop_last()) + tap(Key::Unicode(units.last()))
    }
}

fn push_unit(v: &mut Vec<KeyEvent>, u: u16)
    ensures
        final(v)@ == old(v)@ + tap(Key::Unicode(u)),
{
    v.push(KeyEvent { key: Key::Unicode(u), up: false });
    v.push(KeyEvent { key: Key::Unicode(u), up: true });
    assert(final(v)@ =~= old(v)@ + tap(Key::Unicode(u)));
}

/// Pressing units `a` then `b` is pressing each in turn.
proof fn lemma_unicode_taps_add(a: Seq<u16>, b: Seq<u16>)
    ensures
        unicode_taps(a + b) == unicode_taps(a) + unicode_taps(b),
    decreases b.len(),
{
    if b.len() == 0 {
        assert(a + b =~= a);
        assert(unicode_taps(a) + unicode_taps(b) =~= unicode_taps(a));
    } else {
        lemma_unicode_taps_add(a, b.drop_last());
        assert((a + b).drop_last() =~= a + b.drop_last());
        assert((a + b).last() == b.last());
        assert(unicode_taps(a) + unicode_taps(b) =~= unicode_taps(a) + unicode_taps(b.drop_last()) + tap(Key::Unicode(b.last())));
    }
}

/// One unit pressed and released.
proof fn lemma_unicode_taps_one(u: u16)
    ensures
        unicode_taps(seq![u]) == tap(Key::Unicode(u)),
{
    assert(unicode_taps(Seq::<u16>::empty()) =~= Seq::<KeyEvent>::empty());
    assert(seq![u].drop_last() =~= Seq::<u16>::empty());
    assert(unicode_taps(seq![u]) =~= tap(Key::Unicode(u)));
}

/// Types `text` as Unicode key events, one press and release per UTF-16
/// code unit, so it does not depend on the keyboard layout.
pub fn type_text(text: &str) -> (v: Vec<KeyEvent>)
    ensures
        v@ == unicode_taps(utf16(text@)),
{
    let mut v: Vec<KeyEvent> = Vec::new();
    let chars = crate::text::chars_of(text);
    let n = chars.len();
    let mut i: usize = 0;
    while i < n
        invariant
            n == chars@.len(),
            chars@ == text@,
            i <= n,
            v@ == unicode_taps(utf16(chars@.take(i as int))),
        decreases n - i,
    {
        let c = chars[i];
        let cv = c as u32;
        proof {
            vstd::utf8::char_is_scalar(c);
        }
        let ghost before = utf16(chars@.take(i as int));
        proof {
            assert(chars@.take(i + 1).drop_last() =~= chars@.take(i as int));
            assert(chars@.take(i + 1).last() == c);
            lemma_unicode_taps_add(before, utf16_of(c));
        }
        if cv < 0x10000 {
            push_unit(&mut v, cv as u16);
            proof {
                assert(utf16_of(c) =~= seq![cv as u16]);
                lemma_unicode_taps_one(cv as u16);
            }
        } else {
            let w = cv - 0x10000;
            assert(w < 0x100000);
            let hi = (0xD800 + w / 1024) as u16;
            let lo = (0xDC00 + w % 1024) as u16;
            push_unit(&mut v, hi);
            push_unit(&mut v, lo);
            proof {
                let pair = seq![hi, lo];
                assert(utf16_of(c) =~= pair);
                assert(seq![hi] + seq![lo] =~= pair);
                lemma_unicode_taps_add(seq![hi], seq![lo]);
                lemma_unicode_taps_one(hi);
                lemma_unicode_taps_one(lo);
            }
        }
        i += 1;
    }
    assert(chars@.take(n as int) =~= text@);
    v
}

} // verus!
