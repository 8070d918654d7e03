//! The global hotkey: how its text is read, and whether a press counts.

use vstd::prelude::*;
use crate::text::str_equal;
use crate::text::texts;

verus! {

/// The hotkey as it is registered, and whether it is switched on.
#[derive(Debug, Clone, Copy)]
pub struct HotkeyState {
    /// Whether presses are acted on.
    pub enabled: bool,
    /// Identifier of the registered key combination.
    pub current_id: u32,
}

impl HotkeyState {
    /// The state at start: switched on, with nothing registered.
    pub fn new() -> (state: Self)
        ensures
            state.enabled,
            state.current_id == 0,
    {
        HotkeyState { enabled: true, current_id: 0 }
    }

    /// Records the identifier of a newly registered key combination.
    pub fn register(&mut self, id: u32)
        ensures
            final(self).current_id == id,
            final(self).enabled == old(self).enabled,
    {
        self.current_id = id;
    }

    /// Whether a hotkey event toggles the window: it has to be a press of
    /// the registered combination while the hotkey is switched on.
    pub fn fires(&self, event_id: u32, pressed: bool) -> (fire: bool)
        ensures
            fire == (event_id == self.current_id && pressed && self.enabled),
    {
        event_id == self.current_id && pressed && self.enabled
    }
}

/// Switches the hotkey on or off.
pub fn set_hotkey_enabled(state: &mut HotkeyState, enabled: bool)
    ensures
        final(state).enabled == enabled,
        final(state).current_id == old(state).current_id,
{
    state.enabled = enabled;
}

/// The modifier keys of a key combination.
#[derive(Debug, Clone, Copy, PartialEq, Eq, Structural)]
pub struct HotkeyModifiers {
    pub control: bool,
    pub shift: bool,
    pub alt: bool,
    pub meta: bool,
}

/// The keys that a hotkey can end in, named by their place on the keyboard.
#[derive(Debug, Clone, Copy, PartialEq, Eq, Structural)]
pub enum KeyCode {
    KeyA,
    KeyB,
    KeyC,
    KeyD,
    KeyE,
    KeyF,
    KeyG,
    KeyH,
    KeyI,
    KeyJ,
    KeyK,
    KeyL,
    KeyM,
    KeyN,
    KeyO,
    KeyP,
    KeyQ,
    KeyR,
    KeyS,
    KeyT,
    KeyU,
    KeyV,
    KeyW,
    KeyX,
    KeyY,
    KeyZ,
    Digit0,
    Digit1,
    Digit2,
    Digit3,
    Digit4,
    Digit5,
    Digit6,
    Digit7,
    Digit8,
    Digit9,
    F1,
    F2,
    F3,
    F4,
    F5,
    F6,
    F7,
    F8,
    F9,
    F10,
    F11,
    F12,
    Space,
    Tab,
    Enter,
    Backspace,
    Delete,
    Insert,
    Home,
    End,
    PageUp,
    PageDown,
    ArrowUp,
    ArrowDown,
    ArrowLeft,
    ArrowRight,
    Backquote,
}

/// What the standard library makes of `text` when it turns it to upper case.
pub uninterp spec fn uppercase_of(text: Seq<char>) -> Seq<char>;

/// What the standard library leaves of `text` when it takes the white space
/// off both ends.
pub uninterp spec fn trim_of(text: Seq<char>) -> Seq<char>;

/// Calls `str::to_uppercase` on `text`.
///
/// Trusted: the result is what the standard library returns, which is named
/// [`uppercase_of`]; nothing is claimed about which characters change.
#[verifier::external_body]
fn uppercased(text: &str) -> (upper: String)
    ensures
        upper@ == uppercase_of(text@),
{
    text.to_uppercase()
}

/// Calls `str::trim` on `text` and copies the result.
///
/// Trusted: the result is what the standard library returns, which is named
/// [`trim_of`]; nothing is claimed about which characters count as white
/// space.
#[verifier::external_body]
fn trimmed(text: &str) -> (inner: String)
    ensures
        inner@ == trim_of(text@),
{
    text.trim().to_string()
}

/// The parts of `text` between its plus signs: one more than there are
/// plus signs, each possibly empty.
pub open spec fn split_plus(text: Seq<char>) -> Seq<Seq<char>>
    decreases text.len(),
{
    if text.len() == 0 {
        seq![Seq::empty()]
    } else {
        let earlier = split_plus(text.drop_last());
        if text.last() == '+' {
            earlier.push(Seq::empty())
        } else if earlier.len() == 0 {
            seq![seq![text.last()]]
        } else {
            earlier.update(earlier.len() - 1, earlier.last().push(text.last()))
        }
    }
}

/// The key that a name in upper case stands for.
pub open spec fn key_of(name: Seq<char>) -> Option<KeyCode> {
    if name == "A"@ {
        Some(KeyCode::KeyA)
    } else if name == "B"@ {
        Some(KeyCode::KeyB)
    } else if name == "C"@ {
        Some(KeyCode::KeyC)
    } else if name == "D"@ {
        Some(KeyCode::KeyD)
    } else if name == "E"@ {
        Some(KeyCode::KeyE)
    } else if name == "F"@ {
        Some(KeyCode::KeyF)
    } else if name == "G"@ {
        Some(KeyCode::KeyG)
    } else if name == "H"@ {
        Some(KeyCode::KeyH)
    } else if name == "I"@ {
        Some(KeyCode::KeyI)
    } else if name == "J"@ {
        Some(KeyCode::KeyJ)
    } else if name == "K"@ {
        Some(KeyCode::KeyK)
    } else if name == "L"@ {
        Some(KeyCode::KeyL)
    } else if name == "M"@ {
        Some(KeyCode::KeyM)
    } else if name == "N"@ {
        Some(KeyCode::KeyN)
    } else if name == "O"@ {
        Some(KeyCode::KeyO)
    } else if name == "P"@ {
        Some(KeyCode::KeyP)
    } else if name == "Q"@ {
        Some(KeyCode::KeyQ)
    } else if name == "R"@ {
        Some(KeyCode::KeyR)
    } else if name == "S"@ {
        Some(KeyCode::KeyS)
    } else if name == "T"@ {
        Some(KeyCode::KeyT)
    } else if name == "U"@ {
        Some(KeyCode::KeyU)
    } else if name == "V"@ {
        Some(KeyCode::KeyV)
    } else if name == "W"@ {
        Some(KeyCode::KeyW)
    } else if name == "X"@ {
        Some(KeyCode::KeyX)
    } else if name == "Y"@ {
        Some(KeyCode::KeyY)
    } else if name == "Z"@ {
        Some(KeyCode::KeyZ)
    } else if name == "0"@ {
        Some(KeyCode::Digit0)
    } else if name == "1"@ {
        Some(KeyCode::Digit1)
    } else if name == "2"@ {
        Some(KeyCode::Digit2)
    } else if name == "3"@ {
        Some(KeyCode::Digit3)
    } else if name == "4"@ {
        Some(KeyCode::Digit4)
    } else if name == "5"@ {
        Some(KeyCode::Digit5)
    } else if name == "6"@ {
        Some(KeyCode::Digit6)
    } else if name == "7"@ {
        Some(KeyCode::Digit7)
    } else if name == "8"@ {
        Some(KeyCode::Digit8)
    } else if name == "9"@ {
        Some(KeyCode::Digit9)
    } else if name == "F1"@ {
        Some(KeyCode::F1)
    } else if name == "F2"@ {
        Some(KeyCode::F2)
    } else if name == "F3"@ {
        Some(KeyCode::F3)
    } else if name == "F4"@ {
        Some(KeyCode::F4)
    } else if name == "F5"@ {
        Some(KeyCode::F5)
    } else if name == "F6"@ {
        Some(KeyCode::F6)
    } else if name == "F7"@ {
        Some(KeyCode::F7)
    } else if name == "F8"@ {
        Some(KeyCode::F8)
    } else if name == "F9"@ {
        Some(KeyCode::F9)
    } else if name == "F10"@ {
        Some(KeyCode::F10)
    } else if name == "F11"@ {
        Some(KeyCode::F11)
    } else if name == "F12"@ {
        Some(KeyCode::F12)
    } else if name == "SPACE"@ {
        Some(KeyCode::Space)
    } else if name == "TAB"@ {
        Some(KeyCode::Tab)
    } else if name == "ENTER"@ {
        Some(KeyCode::Enter)
    } else if name == "RETURN"@ {
        Some(KeyCode::Enter)
    } else if name == "BACKSPACE"@ {
        Some(KeyCode::Backspace)
    } else if name == "DELETE"@ {
        Some(KeyCode::Delete)
    } else if name == "INSERT"@ {
        Some(KeyCode::Insert)
    } else if name == "HOME"@ {
        Some(KeyCode::Home)
    } else if name == "END"@ {
        Some(KeyCode::End)
    } else if name == "PAGEUP"@ {
        Some(KeyCode::PageUp)
    } else if name == "PAGEDOWN"@ {
        Some(KeyCode::PageDown)
    } else if name == "UP"@ {
        Some(KeyCode::ArrowUp)
    } else if name == "DOWN"@ {
        Some(KeyCode::ArrowDown)
    } else if name == "LEFT"@ {
        Some(KeyCode::ArrowLeft)
    } else if name == "RIGHT"@ {
        Some(KeyCode::ArrowRight)
    } else if name == "`"@ {
        Some(KeyCode::Backquote)
    } else if name == "BACKQUOTE"@ {
        Some(KeyCode::Backquote)
    } else {
        None
    }
}

/// The modifiers with the one added that a name in upper case stands for,
/// or `None` where the name is no modifier's.
pub open spec fn with_modifier(held: HotkeyModifiers, name: Seq<char>) -> Option<HotkeyModifiers> {
    if name == "CTRL"@ || name == "CONTROL"@ {
        Some(HotkeyModifiers { control: true, ..held })
    } else if name == "SHIFT"@ {
        Some(HotkeyModifiers { shift: true, ..held })
    } else if name == "ALT"@ {
        Some(HotkeyModifiers { alt: true, ..held })
    } else if name == "WIN"@ || name == "SUPER"@ || name == "META"@ {
        Some(HotkeyModifiers { meta: true, ..held })
    } else {
        None
    }
}

/// What one more part, given by its name in upper case, makes of the
/// modifiers and the key read so far: a modifier joins the modifiers; any
/// other name takes the key's place, with a key or with none.
pub open spec fn with_part(
    held: HotkeyModifiers,
    key: Option<KeyCode>,
    name: Seq<char>,
) -> (HotkeyModifiers, Option<KeyCode>) {
    match with_modifier(held, name) {
        Some(more) => (more, key),
        None => (held, key_of(name)),
    }
}

/// What the parts of a hotkey text make together, read from the left, each
/// part trimmed and turned to upper case before it is looked up.
pub open spec fn parsed(parts: Seq<Seq<char>>) -> (HotkeyModifiers, Option<KeyCode>)
    decreases parts.len(),
{
    if parts.len() == 0 {
        (HotkeyModifiers { control: false, shift: false, alt: false, meta: false }, None)
    } else {
        let earlier = parsed(parts.drop_last());
        with_part(earlier.0, earlier.1, uppercase_of(trim_of(parts.last())))
    }
}

/// What a hotkey text such as `Ctrl+Shift+S` stands for: the modifiers of
/// all its parts and the key of its last part that is no modifier, or
/// nothing where that part names no key or there is no such part.
pub open spec fn hotkey_of(text: Seq<char>) -> Option<(HotkeyModifiers, KeyCode)> {
    let read = parsed(split_plus(text));
    match read.1 {
        Some(key) => Some((read.0, key)),
        None => None,
    }
}

/// Looks up the key that a name in upper case stands for.
pub fn key_code(name: &str) -> (key: Option<KeyCode>)
    ensures
        key == key_of(name@),
{
    if str_equal(name, "A") {
        Some(KeyCode::KeyA)
    } else if str_equal(name, "B") {
        Some(KeyCode::KeyB)
    } else if str_equal(name, "C") {
        Some(KeyCode::KeyC)
    } else if str_equal(name, "D") {
        Some(KeyCode::KeyD)
    } else if str_equal(name, "E") {
        Some(KeyCode::KeyE)
    } else if str_equal(name, "F") {
        Some(KeyCode::KeyF)
    } else if str_equal(name, "G") {
        Some(KeyCode::KeyG)
    } else if str_equal(name, "H") {
        Some(KeyCode::KeyH)
    } else if str_equal(name, "I") {
        Some(KeyCode::KeyI)
    } else if str_equal(name, "J") {
        Some(KeyCode::KeyJ)
    } else if str_equal(name, "K") {
        Some(KeyCode::KeyK)
    } else if str_equal(name, "L") {
        Some(KeyCode::KeyL)
    } else if str_equal(name, "M") {
        Some(KeyCode::KeyM)
    } else if str_equal(name, "N") {
        Some(KeyCode::KeyN)
    } else if str_equal(name, "O") {
        Some(KeyCode::KeyO)
    } else if str_equal(name, "P") {
        Some(KeyCode::KeyP)
    } else if str_equal(name, "Q") {
        Some(KeyCode::KeyQ)
    } else if str_equal(name, "R") {
        Some(KeyCode::KeyR)
    } else if str_equal(name, "S") {
        Some(KeyCode::KeyS)
    } else if str_equal(name, "T") {
        Some(KeyCode::KeyT)
    } else if str_equal(name, "U") {
        Some(KeyCode::KeyU)
    } else if str_equal(name, "V") {
        Some(KeyCode::KeyV)
    } else if str_equal(name, "W") {
        Some(KeyCode::KeyW)
    } else if str_equal(name, "X") {
        Some(KeyCode::KeyX)
    } else if str_equal(name, "Y") {
        Some(KeyCode::KeyY)
    } else if str_equal(name, "Z") {
        Some(KeyCode::KeyZ)
    } else if str_equal(name, "0") {
        Some(KeyCode::Digit0)
    } else if str_equal(name, "1") {
        Some(KeyCode::Digit1)
    } else if str_equal(name, "2") {
        Some(KeyCode::Digit2)
    } else if str_equal(name, "3") {
        Some(KeyCode::Digit3)
    } else if str_equal(name, "4") {
        Some(KeyCode::Digit4)
    } else if str_equal(name, "5") {
        Some(KeyCode::Digit5)
    } else if str_equal(name, "6") {
        Some(KeyCode::Digit6)
    } else if str_equal(name, "7") {
        Some(KeyCode::Digit7)
    } else if str_equal(name, "8") {
        Some(KeyCode::Digit8)
    } else if str_equal(name, "9") {
        Some(KeyCode::Digit9)
    } else if str_equal(name, "F1") {
        Some(KeyCode::F1)
    } else if str_equal(name, "F2") {
        Some(KeyCode::F2)
    } else if str_equal(name, "F3") {
        Some(KeyCode::F3)
    } else if str_equal(name, "F4") {
        Some(KeyCode::F4)
    } else if str_equal(name, "F5") {
        Some(KeyCode::F5)
    } else if str_equal(name, "F6") {
        Some(KeyCode::F6)
    } else if str_equal(name, "F7") {
        Some(KeyCode::F7)
    } else if str_equal(name, "F8") {
        Some(KeyCode::F8)
    } else if str_equal(name, "F9") {
        Some(KeyCode::F9)
    } else if str_equal(name, "F10") {
        Some(KeyCode::F10)
    } else if str_equal(name, "F11") {
        Some(KeyCode::F11)
    } else if str_equal(name, "F12") {
        Some(KeyCode::F12)
    } else if str_equal(name, "SPACE") {
        Some(KeyCode::Space)
    } else if str_equal(name, "TAB") {
        Some(KeyCode::Tab)
    } else if str_equal(name, "ENTER") {
        Some(KeyCode::Enter)
    } else if str_equal(name, "RETURN") {
        Some(KeyCode::Enter)
    } else if str_equal(name, "BACKSPACE") {
        Some(KeyCode::Backspace)
    } else if str_equal(name, "DELETE") {
        Some(KeyCode::Delete)
    } else if str_equal(name, "INSERT") {
        Some(KeyCode::Insert)
    } else if str_equal(name, "HOME") {
        Some(KeyCode::Home)
    } else if str_equal(name, "END") {
        Some(KeyCode::End)
    } else if str_equal(name, "PAGEUP") {
        Some(KeyCode::PageUp)
    } else if str_equal(name, "PAGEDOWN") {
        Some(KeyCode::PageDown)
    } else if str_equal(name, "UP") {
        Some(KeyCode::ArrowUp)
    } else if str_equal(name, "DOWN") {
        Some(KeyCode::ArrowDown)
    } else if str_equal(name, "LEFT") {
        Some(KeyCode::ArrowLeft)
    } else if str_equal(name, "RIGHT") {
        Some(KeyCode::ArrowRight)
    } else if str_equal(name, "`") {
        Some(KeyCode::Backquote)
    } else if str_equal(name, "BACKQUOTE") {
        Some(KeyCode::Backquote)
    } else {
        None
    }
}

/// Takes in one more part of a hotkey text, given by its name in upper
/// case.
pub fn add_part(held: HotkeyModifiers, key: Option<KeyCode>, name: &str) -> (read: (
    HotkeyModifiers,
    Option<KeyCode>,
))
    ensures
        read == with_part(held, key, name@),
{
    if str_equal(name, "CTRL") || str_equal(name, "CONTROL") {
        (HotkeyModifiers { control: true, shift: held.shift, alt: held.alt, meta: held.meta }, key)
    } else if str_equal(name, "SHIFT") {
        (HotkeyModifiers { control: held.control, shift: true, alt: held.alt, meta: held.meta }, key)
    } else if str_equal(name, "ALT") {
        (HotkeyModifiers { control: held.control, shift: held.shift, alt: true, meta: held.meta }, key)
    } else if str_equal(name, "WIN") || str_equal(name, "SUPER") || str_equal(name, "META") {
        (HotkeyModifiers { control: held.control, shift: held.shift, alt: held.alt, meta: true }, key)
    } else {
        (held, key_code(name))
    }
}

/// Cuts `text` at its plus signs.
pub fn split_at_plus(text: &str) -> (parts: Vec<String>)
    ensures
        texts(parts@) == split_plus(text@),
{
    let n = text.unicode_len();
    let mut parts: Vec<String> = Vec::new();
    let mut start: usize = 0;
    let mut i: usize = 0;
    proof {
        assert(text@.subrange(0, 0) =~= Seq::<char>::empty());
        assert(texts(parts@).push(text@.subrange(0, 0)) =~= split_plus(text@.subrange(0, 0)));
    }
    while i < n
        invariant
            n == text@.len(),
            start <= i <= n,
            texts(parts@).push(text@.subrange(start as int, i as int)) == split_plus(
                text@.subrange(0, i as int),
            ),
        decreases n - i,
    {
        let ghost before = parts@;
        let ghost current = text@.subrange(start as int, i as int);
        let ghost seen = text@.subrange(0, i as int);
        let ghost more = text@.subrange(0, i as int + 1);
        proof {
            assert(more.drop_last() =~= seen);
            assert(more.last() == text@[i as int]);
        }
        if text.get_char(i) == '+' {
            let part = text.substring_char(start, i);
            parts.push(String::from_str(part));
            start = i + 1;
            proof {
                assert(texts(parts@) =~= texts(before).push(current));
                assert(text@.subrange(start as int, i as int + 1) =~= Seq::<char>::empty());
            }
        } else {
            proof {
                let earlier = split_plus(seen);
                assert(earlier == texts(before).push(current));
                assert(text@.subrange(start as int, i as int + 1) =~= current.push(
                    text@[i as int],
                ));
                assert(earlier.update(earlier.len() - 1, earlier.last().push(text@[i as int]))
                    =~= texts(before).push(current.push(text@[i as int])));
            }
        }
        i += 1;
    }
    let ghost before = parts@;
    let part = text.substring_char(start, n);
    parts.push(String::from_str(part));
    proof {
        assert(texts(parts@) =~= texts(before).push(text@.subrange(start as int, n as int)));
        assert(text@.subrange(0, n as int) =~= text@);
    }
    parts
}

/// Reads a hotkey text such as `Ctrl+Shift+S`. The parts stand between plus
/// signs; white space around a part and the case of its letters do not
/// matter. `Ctrl` or `Control`, `Shift`, `Alt`, and `Win`, `Super` or `Meta`
/// are modifiers. Of the other parts the last one has to name the key: a
/// letter, a digit, `F1` to `F12`, or one of the named keys.
pub fn parse_hotkey_string(s: &str) -> (hotkey: Option<(HotkeyModifiers, KeyCode)>)
    ensures
        hotkey == hotkey_of(s@),
{
    let parts = split_at_plus(s);
    let mut held = HotkeyModifiers { control: false, shift: false, alt: false, meta: false };
    let mut key: Option<KeyCode> = None;
    let mut i: usize = 0;
    let ghost all = texts(parts@);
    proof {
        assert(all.subrange(0, 0) =~= Seq::<Seq<char>>::empty());
    }
    while i < parts.len()
        invariant
            i <= parts@.len(),
            all == texts(parts@),
            (held, key) == parsed(all.subrange(0, i as int)),
        decreases parts@.len() - i,
    {
        proof {
            assert(all.subrange(0, i as int + 1).drop_last() =~= all.subrange(0, i as int));
            assert(all.subrange(0, i as int + 1).last() == parts@[i as int]@);
        }
        let inner = trimmed(parts[i].as_str());
        let name = uppercased(inner.as_str());
        let read = add_part(held, key, name.as_str());
        held = read.0;
        key = read.1;
        i += 1;
    }
    proof {
        assert(all.subrange(0, parts@.len() as int) =~= all);
    }
    match key {
        Some(code) => Some((held, code)),
        None => None,
    }
}

} // verus!
