//! Keyboard input: key codes, modifier sets and chords, the chord
//! grammar plugins and user overrides write (`"ctrl+shift+p"`), and the
//! key names handed to plugin callbacks.

use vstd::prelude::*;

use crate::paths::{owned, push_str};
use crate::text::{ascii_lower, ascii_lower_char, decimal, lower_char, push_char, push_decimal};

verus! {

/// A media key.
#[derive(Copy, Clone, Debug, PartialEq, Eq, Hash, Structural)]
pub enum MediaKeyCode {
    Play,
    Pause,
    PlayPause,
    Reverse,
    Stop,
    FastForward,
    Rewind,
    TrackNext,
    TrackPrevious,
    Record,
    LowerVolume,
    RaiseVolume,
    MuteVolume,
}

/// A modifier key pressed on its own.
#[derive(Copy, Clone, Debug, PartialEq, Eq, Hash, Structural)]
pub enum ModifierKeyCode {
    LeftShift,
    LeftControl,
    LeftAlt,
    LeftSuper,
    LeftHyper,
    LeftMeta,
    RightShift,
    RightControl,
    RightAlt,
    RightSuper,
    RightHyper,
    RightMeta,
    IsoLevel3Shift,
    IsoLevel5Shift,
}

/// A key on the keyboard.
#[derive(Copy, Clone, Debug, PartialEq, Eq, Hash, Structural)]
pub enum KeyCode {
    Backspace,
    Enter,
    Left,
    Right,
    Up,
    Down,
    Home,
    End,
    PageUp,
    PageDown,
    Tab,
    BackTab,
    Delete,
    Insert,
    /// Function key `F<n>`.
    F(u8),
    /// A character key.
    Char(char),
    Null,
    Esc,
    CapsLock,
    ScrollLock,
    NumLock,
    PrintScreen,
    Pause,
    Menu,
    KeypadBegin,
    Media(MediaKeyCode),
    Modifier(ModifierKeyCode),
}

/// The modifier keys held with a key.
#[derive(Copy, Clone, Debug, PartialEq, Eq, Hash, Structural)]
pub struct KeyModifiers {
    pub shift: bool,
    pub control: bool,
    pub alt: bool,
    pub super_key: bool,
    pub hyper: bool,
    pub meta: bool,
}

/// No modifier held.
pub open spec fn no_mods() -> KeyModifiers {
    KeyModifiers {
        shift: false,
        control: false,
        alt: false,
        super_key: false,
        hyper: false,
        meta: false,
    }
}

impl KeyModifiers {
    /// No modifier held.
    pub fn none() -> (m: Self)
        ensures
            m == no_mods(),
    {
        KeyModifiers {
            shift: false,
            control: false,
            alt: false,
            super_key: false,
            hyper: false,
            meta: false,
        }
    }

    /// Every modifier of `self` and of `other`.
    pub fn union(self, other: Self) -> (m: Self)
        ensures
            m.shift == (self.shift || other.shift),
            m.control == (self.control || other.control),
            m.alt == (self.alt || other.alt),
            m.super_key == (self.super_key || other.super_key),
            m.hyper == (self.hyper || other.hyper),
            m.meta == (self.meta || other.meta),
    {
        KeyModifiers {
            shift: self.shift || other.shift,
            control: self.control || other.control,
            alt: self.alt || other.alt,
            super_key: self.super_key || other.super_key,
            hyper: self.hyper || other.hyper,
            meta: self.meta || other.meta,
        }
    }

    /// Whether every modifier of `other` is held in `self`.
    pub fn contains(self, other: Self) -> (b: bool)
        ensures
            b == ((other.shift ==> self.shift) && (other.control ==> self.control) && (other.alt
                ==> self.alt) && (other.super_key ==> self.super_key) && (other.hyper
                ==> self.hyper) && (other.meta ==> self.meta)),
    {
        (!other.shift || self.shift) && (!other.control || self.control) && (!other.alt
            || self.alt) && (!other.super_key || self.super_key) && (!other.hyper || self.hyper)
            && (!other.meta || self.meta)
    }
}

/// A key with its modifiers: the unit the keymap binds.
#[derive(Copy, Clone, Debug, PartialEq, Eq, Hash, Structural)]
pub struct Chord {
    pub code: KeyCode,
    pub mods: KeyModifiers,
}

impl Chord {
    pub fn new(code: KeyCode, mods: KeyModifiers) -> (c: Self)
        ensures
            c.code == code,
            c.mods == mods,
    {
        Chord { code, mods }
    }
}

/// An ASCII letter.
pub open spec fn is_ascii_alpha(c: char) -> bool {
    ('a' <= c && c <= 'z') || ('A' <= c && c <= 'Z')
}

/// The chord a key event stands for: ASCII letters fold to lower case
/// (so Ctrl+s and Ctrl+S share a chord); modifiers are kept as they are.
pub open spec fn spec_chord_from_key(code: KeyCode, mods: KeyModifiers) -> Chord {
    match code {
        KeyCode::Char(c) => if is_ascii_alpha(c) {
            Chord { code: KeyCode::Char(lower_char(c)), mods }
        } else {
            Chord { code, mods }
        },
        _ => Chord { code, mods },
    }
}

/// Normalise a key event into a chord.
pub fn chord_from_key(code: KeyCode, mods: KeyModifiers) -> (c: Chord)
    ensures
        c == spec_chord_from_key(code, mods),
{
    let code = match code {
        KeyCode::Char(c) => if ('a' <= c && c <= 'z') || ('A' <= c && c <= 'Z') {
            KeyCode::Char(ascii_lower_char(c))
        } else {
            KeyCode::Char(c)
        },
        other => other,
    };
    Chord::new(code, mods)
}

// -- Key names ------------------------------------------------------------

/// Lower-case name of a media key.
pub open spec fn media_name(m: MediaKeyCode) -> Seq<char> {
    match m {
        MediaKeyCode::Play => "play"@,
        MediaKeyCode::Pause => "pause"@,
        MediaKeyCode::PlayPause => "playpause"@,
        MediaKeyCode::Reverse => "reverse"@,
        MediaKeyCode::Stop => "stop"@,
        MediaKeyCode::FastForward => "fastforward"@,
        MediaKeyCode::Rewind => "rewind"@,
        MediaKeyCode::TrackNext => "tracknext"@,
        MediaKeyCode::TrackPrevious => "trackprevious"@,
        MediaKeyCode::Record => "record"@,
        MediaKeyCode::LowerVolume => "lowervolume"@,
        MediaKeyCode::RaiseVolume => "raisevolume"@,
        MediaKeyCode::MuteVolume => "mutevolume"@,
    }
}

/// Lower-case name of a modifier key.
pub open spec fn modifier_name(m: ModifierKeyCode) -> Seq<char> {
    match m {
        ModifierKeyCode::LeftShift => "leftshift"@,
        ModifierKeyCode::LeftControl => "leftcontrol"@,
        ModifierKeyCode::LeftAlt => "leftalt"@,
        ModifierKeyCode::LeftSuper => "leftsuper"@,
        ModifierKeyCode::LeftHyper => "lefthyper"@,
        ModifierKeyCode::LeftMeta => "leftmeta"@,
        ModifierKeyCode::RightShift => "rightshift"@,
        ModifierKeyCode::RightControl => "rightcontrol"@,
        ModifierKeyCode::RightAlt => "rightalt"@,
        ModifierKeyCode::RightSuper => "rightsuper"@,
        ModifierKeyCode::RightHyper => "righthyper"@,
        ModifierKeyCode::RightMeta => "rightmeta"@,
        ModifierKeyCode::IsoLevel3Shift => "isolevel3shift"@,
        ModifierKeyCode::IsoLevel5Shift => "isolevel5shift"@,
    }
}

/// The name a key is reported by to plugin callbacks: the character for
/// a character key, `f<n>` for function keys, and otherwise the key's
/// variant name in lower case (`enter`, `pageup`, `media(play)`).
pub open spec fn key_name(code: KeyCode) -> Seq<char> {
    match code {
        KeyCode::Char(c) => seq![c],
        KeyCode::Enter => "enter"@,
        KeyCode::Tab => "tab"@,
        KeyCode::BackTab => "backtab"@,
        KeyCode::Esc => "esc"@,
        KeyCode::Left => "left"@,
        KeyCode::Right => "right"@,
        KeyCode::Up => "up"@,
        KeyCode::Down => "down"@,
        KeyCode::Home => "home"@,
        KeyCode::End => "end"@,
        KeyCode::PageUp => "pageup"@,
        KeyCode::PageDown => "pagedown"@,
        KeyCode::Backspace => "backspace"@,
        KeyCode::Delete => "delete"@,
        KeyCode::Insert => "insert"@,
        KeyCode::F(n) => seq!['f'] + decimal(n as nat),
        KeyCode::Null => "null"@,
        KeyCode::CapsLock => "capslock"@,
        KeyCode::ScrollLock => "scrolllock"@,
        KeyCode::NumLock => "numlock"@,
        KeyCode::PrintScreen => "printscreen"@,
        KeyCode::Pause => "pause"@,
        KeyCode::Menu => "menu"@,
        KeyCode::KeypadBegin => "keypadbegin"@,
        KeyCode::Media(m) => "media("@ + media_name(m) + ")"@,
        KeyCode::Modifier(m) => "modifier("@ + modifier_name(m) + ")"@,
    }
}

fn media_name_str(m: MediaKeyCode) -> (s: &'static str)
    ensures
        s@ == media_name(m),
{
    match m {
        MediaKeyCode::Play => "play",
        MediaKeyCode::Pause => "pause",
        MediaKeyCode::PlayPause => "playpause",
        MediaKeyCode::Reverse => "reverse",
        MediaKeyCode::Stop => "stop",
        MediaKeyCode::FastForward => "fastforward",
        MediaKeyCode::Rewind => "rewind",
        MediaKeyCode::TrackNext => "tracknext",
        MediaKeyCode::TrackPrevious => "trackprevious",
        MediaKeyCode::Record => "record",
        MediaKeyCode::LowerVolume => "lowervolume",
        MediaKeyCode::RaiseVolume => "raisevolume",
        MediaKeyCode::MuteVolume => "mutevolume",
    }
}

fn modifier_name_str(m: ModifierKeyCode) -> (s: &'static str)
    ensures
        s@ == modifier_name(m),
{
    match m {
        ModifierKeyCode::LeftShift => "leftshift",
        ModifierKeyCode::LeftControl => "leftcontrol",
        ModifierKeyCode::LeftAlt => "leftalt",
        ModifierKeyCode::LeftSuper => "leftsuper",
        ModifierKeyCode::LeftHyper => "lefthyper",
        ModifierKeyCode::LeftMeta => "leftmeta",
        ModifierKeyCode::RightShift => "rightshift",
        ModifierKeyCode::RightControl => "rightcontrol",
        ModifierKeyCode::RightAlt => "rightalt",
        ModifierKeyCode::RightSuper => "rightsuper",
        ModifierKeyCode::RightHyper => "righthyper",
        ModifierKeyCode::RightMeta => "rightmeta",
        ModifierKeyCode::IsoLevel3Shift => "isolevel3shift",
        ModifierKeyCode::IsoLevel5Shift => "isolevel5shift",
    }
}

fn simple_key_str(code: KeyCode) -> (s: &'static str)
    requires
        !(code is Char || code is F || code is Media || code is Modifier),
    ensures
        s@ == key_name(code),
{
    match code {
        KeyCode::Enter => "enter",
        KeyCode::Tab => "tab",
        KeyCode::BackTab => "backtab",
        KeyCode::Esc => "esc",
        KeyCode::Left => "left",
        KeyCode::Right => "right",
        KeyCode::Up => "up",
        KeyCode::Down => "down",
        KeyCode::Home => "home",
        KeyCode::End => "end",
        KeyCode::PageUp => "pageup",
        KeyCode::PageDown => "pagedown",
        KeyCode::Backspace => "backspace",
        KeyCode::Delete => "delete",
        KeyCode::Insert => "insert",
        KeyCode::Null => "null",
        KeyCode::CapsLock => "capslock",
        KeyCode::ScrollLock => "scrolllock",
        KeyCode::NumLock => "numlock",
        KeyCode::PrintScreen => "printscreen",
        KeyCode::Pause => "pause",
        KeyCode::Menu => "menu",
        _ => "keypadbegin",
    }
}

/// The name plugin callbacks receive for `code`.
pub fn key_code_to_string(code: KeyCode) -> (s: String)
    ensures
        s@ == key_name(code),
{
    match code {
        KeyCode::Char(c) => {
            let mut s = String::new();
            push_char(&mut s, c);
            proof {
                assert(s@ =~= seq![c]);
            }
            s
        },
        KeyCode::F(n) => {
            let mut s = String::new();
            push_char(&mut s, 'f');
            push_decimal(&mut s, n as u64);
            proof {
                assert(s@ =~= seq!['f'] + decimal(n as nat));
            }
            s
        },
        KeyCode::Media(m) => {
            let mut s = owned("media(");
            push_str(&mut s, media_name_str(m));
            push_str(&mut s, ")");
            s
        },
        KeyCode::Modifier(m) => {
            let mut s = owned("modifier(");
            push_str(&mut s, modifier_name_str(m));
            push_str(&mut s, ")");
            s
        },
        other => owned(simple_key_str(other)),
    }
}


// -- Chord grammar --------------------------------------------------------

/// Unicode white space (the `White_Space` property, as
/// `char::is_whitespace` tests it).
pub open spec fn is_ws(c: char) -> bool {
    ||| ('\u{9}' <= c && c <= '\u{d}')
    ||| c == ' '
    ||| c == '\u{85}'
    ||| c == '\u{a0}'
    ||| c == '\u{1680}'
    ||| ('\u{2000}' <= c && c <= '\u{200a}')
    ||| c == '\u{2028}'
    ||| c == '\u{2029}'
    ||| c == '\u{202f}'
    ||| c == '\u{205f}'
    ||| c == '\u{3000}'
}

fn is_ws_char(c: char) -> (b: bool)
    ensures
        b == is_ws(c),
{
    ('\u{9}' <= c && c <= '\u{d}') || c == ' ' || c == '\u{85}' || c == '\u{a0}' || c == '\u{1680}'
        || ('\u{2000}' <= c && c <= '\u{200a}') || c == '\u{2028}' || c == '\u{2029}' || c
        == '\u{202f}' || c == '\u{205f}' || c == '\u{3000}'
}

/// `s` without leading white space.
pub open spec fn trim_start(s: Seq<char>) -> Seq<char>
    decreases s.len(),
{
    if s.len() > 0 && is_ws(s[0]) {
        trim_start(s.drop_first())
    } else {
        s
    }
}

/// `s` without trailing white space.
pub open spec fn trim_end(s: Seq<char>) -> Seq<char>
    decreases s.len(),
{
    if s.len() > 0 && is_ws(s.last()) {
        trim_end(s.drop_last())
    } else {
        s
    }
}

/// `s` without leading and trailing white space (`str::trim`).
pub open spec fn trim(s: Seq<char>) -> Seq<char> {
    trim_end(trim_start(s))
}

/// The pieces of `s` between occurrences of `sep` (`str::split`): one
/// more piece than there are separators, empty pieces included.
pub open spec fn split_on(s: Seq<char>, sep: char) -> Seq<Seq<char>>
    decreases s.len(),
{
    if s.len() == 0 {
        seq![Seq::<char>::empty()]
    } else {
        let rest = split_on(s.drop_last(), sep);
        if s.last() == sep {
            rest.push(Seq::empty())
        } else {
            rest.update(rest.len() - 1, rest.last().push(s.last()))
        }
    }
}

/// The key a lower-cased key fragment names: any single character names
/// itself; otherwise one of the key words (`enter`, `pgup`, `f5`, ...).
pub open spec fn spec_parse_key(lower: Seq<char>) -> Option<KeyCode> {
    if lower.len() == 1 {
        Some(KeyCode::Char(lower[0]))
    } else if lower == "enter"@ || lower == "return"@ {
        Some(KeyCode::Enter)
    } else if lower == "tab"@ {
        Some(KeyCode::Tab)
    } else if lower == "esc"@ || lower == "escape"@ {
        Some(KeyCode::Esc)
    } else if lower == "space"@ {
        Some(KeyCode::Char(' '))
    } else if lower == "left"@ {
        Some(KeyCode::Left)
    } else if lower == "right"@ {
        Some(KeyCode::Right)
    } else if lower == "up"@ {
        Some(KeyCode::Up)
    } else if lower == "down"@ {
        Some(KeyCode::Down)
    } else if lower == "home"@ {
        Some(KeyCode::Home)
    } else if lower == "end"@ {
        Some(KeyCode::End)
    } else if lower == "pageup"@ || lower == "pgup"@ {
        Some(KeyCode::PageUp)
    } else if lower == "pagedown"@ || lower == "pgdn"@ {
        Some(KeyCode::PageDown)
    } else if lower == "backspace"@ {
        Some(KeyCode::Backspace)
    } else if lower == "delete"@ || lower == "del"@ {
        Some(KeyCode::Delete)
    } else if lower == "f1"@ {
        Some(KeyCode::F(1))
    } else if lower == "f2"@ {
        Some(KeyCode::F(2))
    } else if lower == "f3"@ {
        Some(KeyCode::F(3))
    } else if lower == "f4"@ {
        Some(KeyCode::F(4))
    } else if lower == "f5"@ {
        Some(KeyCode::F(5))
    } else if lower == "f6"@ {
        Some(KeyCode::F(6))
    } else if lower == "f7"@ {
        Some(KeyCode::F(7))
    } else if lower == "f8"@ {
        Some(KeyCode::F(8))
    } else if lower == "f9"@ {
        Some(KeyCode::F(9))
    } else if lower == "f10"@ {
        Some(KeyCode::F(10))
    } else if lower == "f11"@ {
        Some(KeyCode::F(11))
    } else if lower == "f12"@ {
        Some(KeyCode::F(12))
    } else {
        None
    }
}

/// Chord parse state after one more `+`-separated fragment: modifier
/// words add their modifier; any other fragment names the key, and a
/// second key fragment rejects the chord.
pub open spec fn chord_step(st: (KeyModifiers, Option<KeyCode>), part: Seq<char>) -> Option<
    (KeyModifiers, Option<KeyCode>),
> {
    let lower = ascii_lower(trim(part));
    let (m, key) = st;
    if lower == "ctrl"@ || lower == "control"@ {
        Some((KeyModifiers { control: true, ..m }, key))
    } else if lower == "shift"@ {
        Some((KeyModifiers { shift: true, ..m }, key))
    } else if lower == "alt"@ || lower == "option"@ {
        Some((KeyModifiers { alt: true, ..m }, key))
    } else if lower == "meta"@ || lower == "cmd"@ || lower == "super"@ {
        Some((KeyModifiers { super_key: true, ..m }, key))
    } else if key is Some {
        None
    } else {
        Some((m, spec_parse_key(lower)))
    }
}

/// Chord parse state after the fragments `parts`, in order.
pub open spec fn chord_fold(parts: Seq<Seq<char>>) -> Option<(KeyModifiers, Option<KeyCode>)>
    decreases parts.len(),
{
    if parts.len() == 0 {
        Some((no_mods(), None))
    } else {
        match chord_fold(parts.drop_last()) {
            Some(st) => chord_step(st, parts.last()),
            None => None,
        }
    }
}

/// The chord a string like `"ctrl+shift+p"` names: `+`-separated
/// fragments, trimmed and case-insensitive, exactly one of which names
/// the key.
pub open spec fn spec_parse_chord(s: Seq<char>) -> Option<Chord> {
    match chord_fold(split_on(s, '+')) {
        Some((m, Some(k))) => Some(Chord { code: k, mods: m }),
        _ => None,
    }
}

/// Text with no separator in it is a single piece.
proof fn lemma_split_no_sep(s: Seq<char>, sep: char)
    requires
        forall|i: int| 0 <= i < s.len() ==> s[i] != sep,
    ensures
        split_on(s, sep) == seq![s],
    decreases s.len(),
{
    if s.len() > 0 {
        lemma_split_no_sep(s.drop_last(), sep);
        assert(s.drop_last().push(s.last()) =~= s);
        assert(seq![s.drop_last()].update(0, s.drop_last().push(s.last())) =~= seq![s]);
    } else {
        assert(s =~= Seq::<char>::empty());
    }
}

/// `w+c`, with no `+` in `w` and `c`, splits into `w` and `c`.
proof fn lemma_split_word_key(w: Seq<char>, c: char)
    requires
        forall|i: int| 0 <= i < w.len() ==> w[i] != '+',
        c != '+',
    ensures
        split_on(w + seq!['+', c], '+') == seq![w, seq![c]],
{
    let s = w + seq!['+', c];
    assert(s.drop_last() =~= w.push('+'));
    assert(s.last() == c);
    assert(w.push('+').drop_last() =~= w);
    assert(w.push('+').last() == '+');
    lemma_split_no_sep(w, '+');
    assert(split_on(w.push('+'), '+') =~= seq![w, Seq::<char>::empty()]);
    assert(seq![w, Seq::<char>::empty()].update(1, Seq::<char>::empty().push(c)) =~= seq![w, seq![c]]);
}

/// A lower-case word with no white space at its ends reads as itself.
proof fn lemma_plain_word(w: Seq<char>)
    requires
        w.len() > 0,
        !is_ws(w[0]),
        !is_ws(w.last()),
        forall|i: int| 0 <= i < w.len() ==> lower_char(#[trigger] w[i]) == w[i],
    ensures
        ascii_lower(trim(w)) == w,
{
    assert(trim_start(w) == w);
    assert(trim_end(w) == w);
    assert(ascii_lower(w) =~= w);
}

/// A modifier word followed by one key character: the chord of that key
/// (lower-cased) with the modifiers the word alone gives.
proof fn lemma_parse_word_key(w: Seq<char>, c: char, m: KeyModifiers)
    requires
        forall|i: int| 0 <= i < w.len() ==> w[i] != '+',
        c != '+',
        !is_ws(c),
        chord_step((no_mods(), None), w) == Some((m, None::<KeyCode>)),
    ensures
        spec_parse_chord(w + seq!['+', c]) == Some(Chord { code: KeyCode::Char(lower_char(c)), mods: m }),
{
    lemma_split_word_key(w, c);
    let parts = seq![w, seq![c]];
    assert(parts.drop_last() =~= seq![w]);
    assert(seq![w].drop_last() =~= Seq::<Seq<char>>::empty());
    let k = seq![c];
    assert(trim_start(k) == k);
    assert(trim_end(k) == k);
    assert(ascii_lower(k) =~= seq![lower_char(c)]);
    reveal_strlit("ctrl");
    reveal_strlit("control");
    reveal_strlit("shift");
    reveal_strlit("alt");
    reveal_strlit("option");
    reveal_strlit("meta");
    reveal_strlit("cmd");
    reveal_strlit("super");
    assert(chord_step((m, None), k) == Some((m, Some(KeyCode::Char(lower_char(c))))));
    reveal_with_fuel(chord_fold, 3);
}

/// Each modifier word sets exactly its own modifier: `ctrl+<k>` and
/// `control+<k>` give Ctrl, `shift+<k>` Shift, `alt+<k>` and
/// `option+<k>` Alt, `meta+<k>`, `cmd+<k>` and `super+<k>` Super, each
/// with no other modifier, on the key `<k>` (lower-cased).
pub proof fn lemma_parse_modifier_chords(c: char)
    requires
        c != '+',
        !is_ws(c),
    ensures
        ({
            let key = KeyCode::Char(lower_char(c));
            let only = |control: bool, shift: bool, alt: bool, super_key: bool|
                KeyModifiers { shift, control, alt, super_key, hyper: false, meta: false };
            &&& spec_parse_chord("ctrl"@ + seq!['+', c]) == Some(
                Chord { code: key, mods: only(true, false, false, false) },
            )
            &&& spec_parse_chord("control"@ + seq!['+', c]) == Some(
                Chord { code: key, mods: only(true, false, false, false) },
            )
            &&& spec_parse_chord("shift"@ + seq!['+', c]) == Some(
                Chord { code: key, mods: only(false, true, false, false) },
            )
            &&& spec_parse_chord("alt"@ + seq!['+', c]) == Some(
                Chord { code: key, mods: only(false, false, true, false) },
            )
            &&& spec_parse_chord("option"@ + seq!['+', c]) == Some(
                Chord { code: key, mods: only(false, false, true, false) },
            )
            &&& spec_parse_chord("meta"@ + seq!['+', c]) == Some(
                Chord { code: key, mods: only(false, false, false, true) },
            )
            &&& spec_parse_chord("cmd"@ + seq!['+', c]) == Some(
                Chord { code: key, mods: only(false, false, false, true) },
            )
            &&& spec_parse_chord("super"@ + seq!['+', c]) == Some(
                Chord { code: key, mods: only(false, false, false, true) },
            )
        }),
{
    reveal_strlit("ctrl");
    reveal_strlit("control");
    reveal_strlit("shift");
    reveal_strlit("alt");
    reveal_strlit("option");
    reveal_strlit("meta");
    reveal_strlit("cmd");
    reveal_strlit("super");
    let words = seq!["ctrl"@, "control"@, "shift"@, "alt"@, "option"@, "meta"@, "cmd"@, "super"@];
    assert forall|j: int| 0 <= j < 8 implies {
        let w = #[trigger] words[j];
        &&& w.len() > 0
        &&& !is_ws(w[0])
        &&& !is_ws(w.last())
        &&& forall|i: int| 0 <= i < w.len() ==> lower_char(#[trigger] w[i]) == w[i] && w[i] != '+'
    } by {
        let w = words[j];
        assert(forall|i: int| 0 <= i < w.len() ==> 'a' <= #[trigger] w[i] <= 'z');
    }
    assert(words[0] == "ctrl"@);
    assert(words[1] == "control"@);
    assert(words[2] == "shift"@);
    assert(words[3] == "alt"@);
    assert(words[4] == "option"@);
    assert(words[5] == "meta"@);
    assert(words[6] == "cmd"@);
    assert(words[7] == "super"@);
    lemma_plain_word("ctrl"@);
    lemma_plain_word("control"@);
    lemma_plain_word("shift"@);
    lemma_plain_word("alt"@);
    lemma_plain_word("option"@);
    lemma_plain_word("meta"@);
    lemma_plain_word("cmd"@);
    lemma_plain_word("super"@);
    let n = no_mods();
    lemma_parse_word_key("ctrl"@, c, KeyModifiers { control: true, ..n });
    lemma_parse_word_key("control"@, c, KeyModifiers { control: true, ..n });
    lemma_parse_word_key("shift"@, c, KeyModifiers { shift: true, ..n });
    lemma_parse_word_key("alt"@, c, KeyModifiers { alt: true, ..n });
    lemma_parse_word_key("option"@, c, KeyModifiers { alt: true, ..n });
    lemma_parse_word_key("meta"@, c, KeyModifiers { super_key: true, ..n });
    lemma_parse_word_key("cmd"@, c, KeyModifiers { super_key: true, ..n });
    lemma_parse_word_key("super"@, c, KeyModifiers { super_key: true, ..n });
}

/// A lone key character is that key (lower-cased) with no modifier, and
/// two key characters joined by `+` name no chord.
pub proof fn lemma_parse_plain_keys(a: char, c: char)
    requires
        a != '+',
        !is_ws(a),
        c != '+',
        !is_ws(c),
    ensures
        spec_parse_chord(seq![c]) == Some(Chord { code: KeyCode::Char(lower_char(c)), mods: no_mods() }),
        spec_parse_chord(seq![a] + seq!['+', c]) is None,
{
    reveal_strlit("ctrl");
    reveal_strlit("control");
    reveal_strlit("shift");
    reveal_strlit("alt");
    reveal_strlit("option");
    reveal_strlit("meta");
    reveal_strlit("cmd");
    reveal_strlit("super");
    let kc = seq![c];
    let ka = seq![a];
    lemma_split_no_sep(kc, '+');
    assert(trim_start(kc) == kc);
    assert(trim_end(kc) == kc);
    assert(ascii_lower(kc) =~= seq![lower_char(c)]);
    assert(trim_start(ka) == ka);
    assert(trim_end(ka) == ka);
    assert(ascii_lower(ka) =~= seq![lower_char(a)]);
    assert(seq![kc].drop_last() =~= Seq::<Seq<char>>::empty());
    reveal_with_fuel(chord_fold, 3);
    lemma_split_word_key(ka, c);
    let parts = seq![ka, kc];
    assert(parts.drop_last() =~= seq![ka]);
    assert(seq![ka].drop_last() =~= Seq::<Seq<char>>::empty());
    let st = chord_step((no_mods(), None), ka);
    assert(st == Some((no_mods(), Some(KeyCode::Char(lower_char(a))))));
    assert(chord_step(st.unwrap(), kc) is None);
}

/// Whether `s[a..b]`, ASCII-lower-cased, equals `lit`.
fn lower_eq(s: &str, a: usize, b: usize, lit: &str) -> (r: bool)
    requires
        a <= b <= s@.len(),
    ensures
        r == (ascii_lower(s@.subrange(a as int, b as int)) == lit@),
{
    let ghost part = s@.subrange(a as int, b as int);
    let n = lit.unicode_len();
    if n != b - a {
        proof {
            assert(ascii_lower(part).len() == part.len());
        }
        return false;
    }
    let mut k: usize = 0;
    while k < n
        invariant
            n == lit@.len(),
            n == b - a,
            a <= b <= s@.len(),
            part == s@.subrange(a as int, b as int),
            k <= n,
            forall|j: int| 0 <= j < k ==> lower_char(#[trigger] part[j]) == lit@[j],
        decreases n - k,
    {
        let c = ascii_lower_char(s.get_char(a + k));
        if c != lit.get_char(k) {
            proof {
                assert(ascii_lower(part)[k as int] != lit@[k as int]);
            }
            return false;
        }
        k = k + 1;
    }
    proof {
        assert(ascii_lower(part) =~= lit@);
    }
    true
}

/// The range of `s[a..b]` left after trimming white space.
fn trim_range(s: &str, a: usize, b: usize) -> (r: (usize, usize))
    requires
        a <= b <= s@.len(),
    ensures
        a <= r.0 <= r.1 <= b,
        s@.subrange(r.0 as int, r.1 as int) == trim(s@.subrange(a as int, b as int)),
{
    let mut lo = a;
    while lo < b && is_ws_char(s.get_char(lo))
        invariant
            a <= lo <= b <= s@.len(),
            trim_start(s@.subrange(a as int, b as int)) == trim_start(s@.subrange(lo as int, b as int)),
        decreases b - lo,
    {
        proof {
            assert(s@.subrange(lo as int, b as int).drop_first() =~= s@.subrange(lo + 1, b as int));
        }
        lo = lo + 1;
    }
    proof {
        assert(trim_start(s@.subrange(lo as int, b as int)) == s@.subrange(lo as int, b as int));
    }
    let mut hi = b;
    while hi > lo && is_ws_char(s.get_char(hi - 1))
        invariant
            a <= lo <= hi <= b <= s@.len(),
            trim(s@.subrange(a as int, b as int)) == trim_end(s@.subrange(lo as int, hi as int)),
        decreases hi - lo,
    {
        proof {
            assert(s@.subrange(lo as int, hi as int).drop_last() =~= s@.subrange(lo as int, hi - 1));
        }
        hi = hi - 1;
    }
    (lo, hi)
}

fn parse_key_range(s: &str, a: usize, b: usize) -> (r: Option<KeyCode>)
    requires
        a <= b <= s@.len(),
    ensures
        r == spec_parse_key(ascii_lower(s@.subrange(a as int, b as int))),
{
    let ghost lower = ascii_lower(s@.subrange(a as int, b as int));
    if b - a == 1 {
        let c = ascii_lower_char(s.get_char(a));
        return Some(KeyCode::Char(c));
    }
    proof {
        assert(lower.len() != 1);
    }
    if lower_eq(s, a, b, "enter") || lower_eq(s, a, b, "return") {
        Some(KeyCode::Enter)
    } else if lower_eq(s, a, b, "tab") {
        Some(KeyCode::Tab)
    } else if lower_eq(s, a, b, "esc") || lower_eq(s, a, b, "escape") {
        Some(KeyCode::Esc)
    } else if lower_eq(s, a, b, "space") {
        Some(KeyCode::Char(' '))
    } else if lower_eq(s, a, b, "left") {
        Some(KeyCode::Left)
    } else if lower_eq(s, a, b, "right") {
        Some(KeyCode::Right)
    } else if lower_eq(s, a, b, "up") {
        Some(KeyCode::Up)
    } else if lower_eq(s, a, b, "down") {
        Some(KeyCode::Down)
    } else if lower_eq(s, a, b, "home") {
        Some(KeyCode::Home)
    } else if lower_eq(s, a, b, "end") {
        Some(KeyCode::End)
    } else if lower_eq(s, a, b, "pageup") || lower_eq(s, a, b, "pgup") {
        Some(KeyCode::PageUp)
    } else if lower_eq(s, a, b, "pagedown") || lower_eq(s, a, b, "pgdn") {
        Some(KeyCode::PageDown)
    } else if lower_eq(s, a, b, "backspace") {
        Some(KeyCode::Backspace)
    } else if lower_eq(s, a, b, "delete") || lower_eq(s, a, b, "del") {
        Some(KeyCode::Delete)
    } else if lower_eq(s, a, b, "f1") {
        Some(KeyCode::F(1))
    } else if lower_eq(s, a, b, "f2") {
        Some(KeyCode::F(2))
    } else if lower_eq(s, a, b, "f3") {
        Some(KeyCode::F(3))
    } else if lower_eq(s, a, b, "f4") {
        Some(KeyCode::F(4))
    } else if lower_eq(s, a, b, "f5") {
        Some(KeyCode::F(5))
    } else if lower_eq(s, a, b, "f6") {
        Some(KeyCode::F(6))
    } else if lower_eq(s, a, b, "f7") {
        Some(KeyCode::F(7))
    } else if lower_eq(s, a, b, "f8") {
        Some(KeyCode::F(8))
    } else if lower_eq(s, a, b, "f9") {
        Some(KeyCode::F(9))
    } else if lower_eq(s, a, b, "f10") {
        Some(KeyCode::F(10))
    } else if lower_eq(s, a, b, "f11") {
        Some(KeyCode::F(11))
    } else if lower_eq(s, a, b, "f12") {
        Some(KeyCode::F(12))
    } else {
        None
    }
}

/// The key a key fragment names, case-insensitively: a single
/// character names itself, otherwise one of the key words.
pub fn parse_key(s: &str) -> (r: Option<KeyCode>)
    ensures
        r == spec_parse_key(ascii_lower(s@)),
{
    proof {
        assert(s@.subrange(0, s@.len() as int) =~= s@);
    }
    parse_key_range(s, 0, s.unicode_len())
}


/// `split_on` of a prefix one character longer.
proof fn lemma_split_step(s: Seq<char>, i: int, sep: char)
    requires
        0 <= i < s.len(),
    ensures
        split_on(s.take(i + 1), sep) == (if s[i] == sep {
            split_on(s.take(i), sep).push(Seq::empty())
        } else {
            let r = split_on(s.take(i), sep);
            r.update(r.len() - 1, r.last().push(s[i]))
        }),
{
    assert(s.take(i + 1).drop_last() =~= s.take(i));
}

/// The complete pieces of a prefix start the pieces of the whole.
proof fn lemma_split_prefix(s: Seq<char>, j: int, sep: char)
    requires
        0 <= j <= s.len(),
    ensures
        ({
            let d = split_on(s.take(j), sep).drop_last();
            &&& d.len() <= split_on(s, sep).len()
            &&& split_on(s, sep).take(d.len() as int) == d
        }),
    decreases s.len() - j,
{
    lemma_split_nonempty(s.take(j), sep);
    if j == s.len() {
        assert(s.take(j) =~= s);
        let p = split_on(s, sep);
        assert(p.take(p.drop_last().len() as int) =~= p.drop_last());
    } else {
        lemma_split_prefix(s, j + 1, sep);
        lemma_split_step(s, j, sep);
        let d0 = split_on(s.take(j), sep).drop_last();
        let d1 = split_on(s.take(j + 1), sep).drop_last();
        let full = split_on(s, sep);
        if s[j] == sep {
            assert(d1 =~= split_on(s.take(j), sep));
            assert(full.take(d0.len() as int) =~= d1.take(d0.len() as int));
            assert(d1.take(d0.len() as int) =~= d0);
        } else {
            assert(d1 =~= d0);
        }
    }
}

/// A rejected prefix of fragments rejects every extension.
proof fn lemma_fold_none_extends(p: Seq<Seq<char>>, q: Seq<Seq<char>>)
    requires
        chord_fold(p) is None,
        p.len() <= q.len(),
        q.take(p.len() as int) == p,
    ensures
        chord_fold(q) is None,
    decreases q.len(),
{
    if q.len() == p.len() {
        assert(q =~= p);
    } else {
        assert(q.drop_last().take(p.len() as int) =~= q.take(p.len() as int));
        lemma_fold_none_extends(p, q.drop_last());
    }
}

/// `split_on` never yields an empty list.
proof fn lemma_split_nonempty(s: Seq<char>, sep: char)
    ensures
        split_on(s, sep).len() > 0,
    decreases s.len(),
{
    if s.len() > 0 {
        lemma_split_nonempty(s.drop_last(), sep);
    }
}

/// Parse a chord string like `"ctrl+h"` or `"Ctrl+Shift+P"`. `None` when
/// a fragment is neither a modifier word nor a key, or when two
/// fragments name a key.
pub fn parse_chord(s: &str) -> (r: Option<Chord>)
    ensures
        r == spec_parse_chord(s@),
{
    let n = s.unicode_len();
    let mut mods = KeyModifiers::none();
    let mut key: Option<KeyCode> = None;
    let mut start: usize = 0;
    let mut i: usize = 0;
    proof {
        assert(s@.take(0) =~= Seq::<char>::empty());
        assert(split_on(Seq::<char>::empty(), '+').drop_last() =~= Seq::<Seq<char>>::empty());
        assert(s@.subrange(0, 0) =~= Seq::<char>::empty());
    }
    while i < n
        invariant
            n == s@.len(),
            start <= i <= n,
            chord_fold(split_on(s@.take(i as int), '+').drop_last()) == Some((mods, key)),
            split_on(s@.take(i as int), '+').len() > 0,
            split_on(s@.take(i as int), '+').last() == s@.subrange(start as int, i as int),
        decreases n - i,
    {
        let c = s.get_char(i);
        proof {
            lemma_split_step(s@, i as int, '+');
            lemma_split_nonempty(s@.take(i + 1), '+');
        }
        if c == '+' {
            let ghost parts = split_on(s@.take(i as int), '+');
            let (a, b) = trim_range(s, start, i);
            let ghost st = (mods, key);
            proof {
                assert(parts.drop_last().push(parts.last()) =~= parts);
                assert(parts =~= parts.drop_last().push(parts.last()));
                assert(chord_fold(parts) == chord_step(st, parts.last()));
                assert(parts.push(Seq::<char>::empty()).drop_last() =~= parts);
                assert(s@.subrange((i + 1) as int, (i + 1) as int) =~= Seq::<char>::empty());
            }
            if lower_eq(s, a, b, "ctrl") || lower_eq(s, a, b, "control") {
                mods = KeyModifiers { control: true, ..mods };
            } else if lower_eq(s, a, b, "shift") {
                mods = KeyModifiers { shift: true, ..mods };
            } else if lower_eq(s, a, b, "alt") || lower_eq(s, a, b, "option") {
                mods = KeyModifiers { alt: true, ..mods };
            } else if lower_eq(s, a, b, "meta") || lower_eq(s, a, b, "cmd") || lower_eq(
                s,
                a,
                b,
                "super",
            ) {
                mods = KeyModifiers { super_key: true, ..mods };
            } else {
                if key.is_some() {
                    proof {
                        assert(split_on(s@.take(i + 1), '+').drop_last() =~= parts);
                        lemma_split_prefix(s@, i + 1, '+');
                        lemma_fold_none_extends(parts, split_on(s@, '+'));
                    }
                    return None;
                }
                key = parse_key_range(s, a, b);
            }
            start = i + 1;
        } else {
            proof {
                let parts = split_on(s@.take(i as int), '+');
                let np = parts.update(parts.len() - 1, parts.last().push(c));
                assert(np.drop_last() =~= parts.drop_last());
                assert(s@.subrange(start as int, i + 1) =~= parts.last().push(c));
            }
        }
        i = i + 1;
    }
    let ghost parts = split_on(s@, '+');
    proof {
        assert(s@.take(n as int) =~= s@);
        assert(parts =~= parts.drop_last().push(parts.last()));
    }
    let (a, b) = trim_range(s, start, n);
    if lower_eq(s, a, b, "ctrl") || lower_eq(s, a, b, "control") {
        mods = KeyModifiers { control: true, ..mods };
    } else if lower_eq(s, a, b, "shift") {
        mods = KeyModifiers { shift: true, ..mods };
    } else if lower_eq(s, a, b, "alt") || lower_eq(s, a, b, "option") {
        mods = KeyModifiers { alt: true, ..mods };
    } else if lower_eq(s, a, b, "meta") || lower_eq(s, a, b, "cmd") || lower_eq(s, a, b, "super") {
        mods = KeyModifiers { super_key: true, ..mods };
    } else {
        if key.is_some() {
            return None;
        }
        key = parse_key_range(s, a, b);
    }
    match key {
        Some(k) => Some(Chord::new(k, mods)),
        None => None,
    }
}


// -- Wire chords ----------------------------------------------------------

/// A key as manifests and override files write it.
#[derive(Copy, Clone, Debug, PartialEq, Eq, Structural)]
pub enum ProtoKey {
    Char(char),
    Enter,
    Tab,
    BackTab,
    Esc,
    Backspace,
    Delete,
    Insert,
    Left,
    Right,
    Up,
    Down,
    Home,
    End,
    PageUp,
    PageDown,
    F(u8),
}

/// The modifiers of a wire chord.
#[derive(Copy, Clone, Debug, PartialEq, Eq, Structural)]
pub struct ProtoModifiers {
    pub ctrl: bool,
    pub alt: bool,
    pub shift: bool,
    pub super_key: bool,
}

/// A chord as manifests and override files write it.
#[derive(Copy, Clone, Debug, PartialEq, Eq, Structural)]
pub struct ProtoChord {
    pub key: ProtoKey,
    pub modifiers: ProtoModifiers,
}

/// The key code a wire key stands for, function keys included whatever
/// their number.
pub open spec fn proto_key_code(k: ProtoKey) -> KeyCode {
    match k {
        ProtoKey::Char(c) => KeyCode::Char(c),
        ProtoKey::Enter => KeyCode::Enter,
        ProtoKey::Tab => KeyCode::Tab,
        ProtoKey::BackTab => KeyCode::BackTab,
        ProtoKey::Esc => KeyCode::Esc,
        ProtoKey::Backspace => KeyCode::Backspace,
        ProtoKey::Delete => KeyCode::Delete,
        ProtoKey::Insert => KeyCode::Insert,
        ProtoKey::Left => KeyCode::Left,
        ProtoKey::Right => KeyCode::Right,
        ProtoKey::Up => KeyCode::Up,
        ProtoKey::Down => KeyCode::Down,
        ProtoKey::Home => KeyCode::Home,
        ProtoKey::End => KeyCode::End,
        ProtoKey::PageUp => KeyCode::PageUp,
        ProtoKey::PageDown => KeyCode::PageDown,
        ProtoKey::F(n) => KeyCode::F(n),
    }
}

/// The keymap modifiers a wire modifier set stands for.
pub open spec fn proto_mods(m: ProtoModifiers) -> KeyModifiers {
    KeyModifiers {
        shift: m.shift,
        control: m.ctrl,
        alt: m.alt,
        super_key: m.super_key,
        hyper: false,
        meta: false,
    }
}

/// The keymap chord a wire chord stands for: none for a function key
/// outside F1..F12.
pub open spec fn spec_chord_from_protocol(p: ProtoChord) -> Option<Chord> {
    match p.key {
        ProtoKey::F(n) => if 1 <= n <= 12 {
            Some(Chord { code: KeyCode::F(n), mods: proto_mods(p.modifiers) })
        } else {
            None
        },
        k => Some(Chord { code: proto_key_code(k), mods: proto_mods(p.modifiers) }),
    }
}

/// Why a function key has no keymap chord.
pub open spec fn f_key_reason(n: u8) -> Seq<char> {
    "F-key "@ + decimal(n as nat) + " out of range"@
}

/// The wire chord text: modifiers as `ctrl-`, `alt-`, `shift-`,
/// `super-` (in that order) before the key's name.
pub open spec fn proto_chord_text(p: ProtoChord) -> Seq<char> {
    (if p.modifiers.ctrl { "ctrl-"@ } else { Seq::empty() }) + (if p.modifiers.alt {
        "alt-"@
    } else {
        Seq::empty()
    }) + (if p.modifiers.shift { "shift-"@ } else { Seq::empty() }) + (if p.modifiers.super_key {
        "super-"@
    } else {
        Seq::empty()
    }) + key_name(proto_key_code(p.key))
}

fn proto_code(k: ProtoKey) -> (c: KeyCode)
    ensures
        c == proto_key_code(k),
{
    match k {
        ProtoKey::Char(c) => KeyCode::Char(c),
        ProtoKey::Enter => KeyCode::Enter,
        ProtoKey::Tab => KeyCode::Tab,
        ProtoKey::BackTab => KeyCode::BackTab,
        ProtoKey::Esc => KeyCode::Esc,
        ProtoKey::Backspace => KeyCode::Backspace,
        ProtoKey::Delete => KeyCode::Delete,
        ProtoKey::Insert => KeyCode::Insert,
        ProtoKey::Left => KeyCode::Left,
        ProtoKey::Right => KeyCode::Right,
        ProtoKey::Up => KeyCode::Up,
        ProtoKey::Down => KeyCode::Down,
        ProtoKey::Home => KeyCode::Home,
        ProtoKey::End => KeyCode::End,
        ProtoKey::PageUp => KeyCode::PageUp,
        ProtoKey::PageDown => KeyCode::PageDown,
        ProtoKey::F(n) => KeyCode::F(n),
    }
}

/// The text of a wire chord, as error messages quote it.
pub fn proto_chord_to_string(p: &ProtoChord) -> (s: String)
    ensures
        s@ == proto_chord_text(*p),
{
    let mut s = String::new();
    let ghost m0: Seq<char> = if p.modifiers.ctrl { "ctrl-"@ } else { Seq::empty() };
    let ghost m1: Seq<char> = if p.modifiers.alt { "alt-"@ } else { Seq::empty() };
    let ghost m2: Seq<char> = if p.modifiers.shift { "shift-"@ } else { Seq::empty() };
    let ghost m3: Seq<char> = if p.modifiers.super_key { "super-"@ } else { Seq::empty() };
    if p.modifiers.ctrl {
        push_str(&mut s, "ctrl-");
    }
    proof {
        assert(s@ =~= m0);
    }
    if p.modifiers.alt {
        push_str(&mut s, "alt-");
    }
    proof {
        assert(s@ =~= m0 + m1);
    }
    if p.modifiers.shift {
        push_str(&mut s, "shift-");
    }
    proof {
        assert(s@ =~= m0 + m1 + m2);
    }
    if p.modifiers.super_key {
        push_str(&mut s, "super-");
    }
    proof {
        assert(s@ =~= m0 + m1 + m2 + m3);
    }
    let name = key_code_to_string(proto_code(p.key));
    push_str(&mut s, name.as_str());
    s
}

/// Convert a wire chord into a keymap chord. A function key outside
/// F1..F12 has none; the error says which.
pub fn chord_from_protocol(p: &ProtoChord) -> (r: Result<Chord, String>)
    ensures
        match spec_chord_from_protocol(*p) {
            Some(c) => r == Ok::<Chord, String>(c),
            None => r matches Err(e) && p.key matches ProtoKey::F(n) && e@ == f_key_reason(n),
        },
{
    let mods = KeyModifiers {
        shift: p.modifiers.shift,
        control: p.modifiers.ctrl,
        alt: p.modifiers.alt,
        super_key: p.modifiers.super_key,
        hyper: false,
        meta: false,
    };
    match p.key {
        ProtoKey::F(n) => {
            if 1 <= n && n <= 12 {
                Ok(Chord { code: KeyCode::F(n), mods })
            } else {
                let mut e = owned("F-key ");
                push_decimal(&mut e, n as u64);
                push_str(&mut e, " out of range");
                Err(e)
            }
        },
        k => Ok(Chord { code: proto_code(k), mods }),
    }
}

/// The wire key a keymap key stands for: letters fold to lower case;
/// none for keys the wire form has no name for and for function keys
/// outside F1..F12.
pub open spec fn key_code_proto(code: KeyCode) -> Option<ProtoKey> {
    match code {
        KeyCode::Char(c) => Some(ProtoKey::Char(lower_char(c))),
        KeyCode::Enter => Some(ProtoKey::Enter),
        KeyCode::Tab => Some(ProtoKey::Tab),
        KeyCode::BackTab => Some(ProtoKey::BackTab),
        KeyCode::Esc => Some(ProtoKey::Esc),
        KeyCode::Backspace => Some(ProtoKey::Backspace),
        KeyCode::Delete => Some(ProtoKey::Delete),
        KeyCode::Insert => Some(ProtoKey::Insert),
        KeyCode::Left => Some(ProtoKey::Left),
        KeyCode::Right => Some(ProtoKey::Right),
        KeyCode::Up => Some(ProtoKey::Up),
        KeyCode::Down => Some(ProtoKey::Down),
        KeyCode::Home => Some(ProtoKey::Home),
        KeyCode::End => Some(ProtoKey::End),
        KeyCode::PageUp => Some(ProtoKey::PageUp),
        KeyCode::PageDown => Some(ProtoKey::PageDown),
        KeyCode::F(n) => if 1 <= n <= 12 {
            Some(ProtoKey::F(n))
        } else {
            None
        },
        _ => None,
    }
}

/// The wire chord a keymap chord stands for (hyper and meta have no
/// wire form and are dropped).
pub open spec fn spec_chord_to_protocol(c: Chord) -> Option<ProtoChord> {
    match key_code_proto(c.code) {
        Some(key) => Some(
            ProtoChord {
                key,
                modifiers: ProtoModifiers {
                    ctrl: c.mods.control,
                    alt: c.mods.alt,
                    shift: c.mods.shift,
                    super_key: c.mods.super_key,
                },
            },
        ),
        None => None,
    }
}

/// Convert a keymap chord into its wire form.
pub fn chord_to_protocol(c: Chord) -> (r: Option<ProtoChord>)
    ensures
        r == spec_chord_to_protocol(c),
{
    let key = match c.code {
        KeyCode::Char(ch) => ProtoKey::Char(ascii_lower_char(ch)),
        KeyCode::Enter => ProtoKey::Enter,
        KeyCode::Tab => ProtoKey::Tab,
        KeyCode::BackTab => ProtoKey::BackTab,
        KeyCode::Esc => ProtoKey::Esc,
        KeyCode::Backspace => ProtoKey::Backspace,
        KeyCode::Delete => ProtoKey::Delete,
        KeyCode::Insert => ProtoKey::Insert,
        KeyCode::Left => ProtoKey::Left,
        KeyCode::Right => ProtoKey::Right,
        KeyCode::Up => ProtoKey::Up,
        KeyCode::Down => ProtoKey::Down,
        KeyCode::Home => ProtoKey::Home,
        KeyCode::End => ProtoKey::End,
        KeyCode::PageUp => ProtoKey::PageUp,
        KeyCode::PageDown => ProtoKey::PageDown,
        KeyCode::F(n) => {
            if 1 <= n && n <= 12 {
                ProtoKey::F(n)
            } else {
                return None;
            }
        },
        _ => {
            return None;
        },
    };
    Some(
        ProtoChord {
            key,
            modifiers: ProtoModifiers {
                ctrl: c.mods.control,
                alt: c.mods.alt,
                shift: c.mods.shift,
                super_key: c.mods.super_key,
            },
        },
    )
}

/// An ASCII upper-case letter key.
pub open spec fn is_upper_key(k: ProtoKey) -> bool {
    k matches ProtoKey::Char(c) && 'A' <= c && c <= 'Z'
}

/// A wire chord that has a keymap chord converts back to itself, unless
/// it names an upper-case letter (letters fold to lower case).
pub proof fn lemma_protocol_round_trip(p: ProtoChord)
    requires
        spec_chord_from_protocol(p) is Some,
        !is_upper_key(p.key),
    ensures
        spec_chord_to_protocol(spec_chord_from_protocol(p).unwrap()) == Some(p),
{
}

/// A keymap chord that has a wire form converts back to itself when it
/// holds no hyper or meta modifier and no upper-case letter.
pub proof fn lemma_keymap_chord_round_trip(c: Chord)
    requires
        spec_chord_to_protocol(c) is Some,
        !c.mods.hyper,
        !c.mods.meta,
        !(c.code matches KeyCode::Char(ch) && 'A' <= ch && ch <= 'Z'),
    ensures
        spec_chord_from_protocol(spec_chord_to_protocol(c).unwrap()) == Some(c),
{
}

} // verus!
