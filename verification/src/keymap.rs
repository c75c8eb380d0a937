use vstd::prelude::*;

verus! {

/// What a key press means to the interactive screens.
#[derive(Debug, PartialEq, Eq, Clone, Copy)]
pub enum KeyMapping {
    Unmapped,
    Up,
    Down,
    Left,
    Right,
    Abort,
    Accept,
    Tab,
    ScrollUp,
    ScrollDown,
    SelectTarget,
    ToggleHelp,
    ToggleWrap,
    ToggleHeaders,
    Reload,
    Editor,
    New,
    IncreaseWidth,
    DecreaseWitdh,
}

/// A key of the keyboard, as far as the screens tell keys apart.
#[derive(Debug, PartialEq, Eq, Clone, Copy)]
pub enum KeyCode {
    Up,
    Down,
    Left,
    Right,
    Esc,
    Enter,
    Tab,
    Backspace,
    Char(char),
    Other,
}

/// The modifier keys held during a key event.
#[derive(Debug, PartialEq, Eq, Clone, Copy)]
pub struct KeyModifiers {
    pub shift: bool,
    pub control: bool,
    pub alt: bool,
    pub super_key: bool,
    pub hyper: bool,
    pub meta: bool,
}

/// Whether a key went down, repeats or went up.
#[derive(Debug, PartialEq, Eq, Clone, Copy)]
pub enum KeyEventKind {
    Press,
    Repeat,
    Release,
}

/// A key event.
#[derive(Debug, PartialEq, Eq, Clone, Copy)]
pub struct KeyEvent {
    pub code: KeyCode,
    pub modifiers: KeyModifiers,
    pub kind: KeyEventKind,
}

/// An event of the terminal: a key, or anything else (mouse, resize..).
#[derive(Debug, PartialEq, Eq, Clone, Copy)]
pub enum Event {
    Key(KeyEvent),
    Other,
}

/// No modifier is held.
pub open spec fn no_modifiers(m: KeyModifiers) -> bool {
    !m.shift && !m.control && !m.alt && !m.super_key && !m.hyper && !m.meta
}

/// Control alone is held.
pub open spec fn control_only(m: KeyModifiers) -> bool {
    !m.shift && m.control && !m.alt && !m.super_key && !m.hyper && !m.meta
}

/// The meaning of a key pressed with the modifiers `m`: the arrows, escape,
/// enter and tab alone; the control chords of the emacs and vi styles; and
/// a few punctuation keys alone.
pub open spec fn key_meaning(m: KeyModifiers, code: KeyCode) -> KeyMapping {
    if no_modifiers(m) {
        match code {
            KeyCode::Up => KeyMapping::Up,
            KeyCode::Down => KeyMapping::Down,
            KeyCode::Left => KeyMapping::Left,
            KeyCode::Right => KeyMapping::Right,
            KeyCode::Esc => KeyMapping::Abort,
            KeyCode::Enter => KeyMapping::Accept,
            KeyCode::Tab => KeyMapping::Tab,
            KeyCode::Char('<') => KeyMapping::IncreaseWidth,
            KeyCode::Char('>') => KeyMapping::DecreaseWitdh,
            KeyCode::Char(';') => KeyMapping::ToggleWrap,
            KeyCode::Char(',') => KeyMapping::ToggleWrap,
            KeyCode::Char('?') => KeyMapping::ToggleHelp,
            _ => KeyMapping::Unmapped,
        }
    } else if control_only(m) {
        match code {
            KeyCode::Char('k') => KeyMapping::Up,
            KeyCode::Char('j') => KeyMapping::Down,
            KeyCode::Char('h') => KeyMapping::Left,
            KeyCode::Char('l') => KeyMapping::Right,
            KeyCode::Char('p') => KeyMapping::Up,
            KeyCode::Char('n') => KeyMapping::Down,
            KeyCode::Char('c') => KeyMapping::Abort,
            KeyCode::Char('u') => KeyMapping::ScrollUp,
            KeyCode::Char('d') => KeyMapping::ScrollDown,
            KeyCode::Char('s') => KeyMapping::SelectTarget,
            KeyCode::Char('r') => KeyMapping::Reload,
            KeyCode::Char('e') => KeyMapping::Editor,
            KeyCode::Char('a') => KeyMapping::New,
            KeyCode::Char(' ') => KeyMapping::ToggleHeaders,
            _ => KeyMapping::Unmapped,
        }
    } else {
        KeyMapping::Unmapped
    }
}

/// The meaning of an event: only key presses mean anything.
pub open spec fn event_meaning(e: Event) -> KeyMapping {
    match e {
        Event::Key(k) => if k.kind == KeyEventKind::Press {
            key_meaning(k.modifiers, k.code)
        } else {
            KeyMapping::Unmapped
        },
        Event::Other => KeyMapping::Unmapped,
    }
}

/// The meaning of an event.
pub fn mapkey(event: &Event) -> (res: KeyMapping)
    ensures
        res == event_meaning(*event),
{
    match event {
        Event::Key(key) => match key.kind {
            KeyEventKind::Press => mapkey_keypress(key),
            _ => KeyMapping::Unmapped,
        },
        Event::Other => KeyMapping::Unmapped,
    }
}

fn mapkey_keypress(key: &KeyEvent) -> (res: KeyMapping)
    ensures
        res == key_meaning(key.modifiers, key.code),
{
    let m = key.modifiers;
    let none = !m.shift && !m.control && !m.alt && !m.super_key && !m.hyper && !m.meta;
    let control = !m.shift && m.control && !m.alt && !m.super_key && !m.hyper && !m.meta;
    if none {
        match key.code {
            KeyCode::Up => KeyMapping::Up,
            KeyCode::Down => KeyMapping::Down,
            KeyCode::Left => KeyMapping::Left,
            KeyCode::Right => KeyMapping::Right,
            KeyCode::Esc => KeyMapping::Abort,
            KeyCode::Enter => KeyMapping::Accept,
            KeyCode::Tab => KeyMapping::Tab,
            KeyCode::Char('<') => KeyMapping::IncreaseWidth,
            KeyCode::Char('>') => KeyMapping::DecreaseWitdh,
            KeyCode::Char(';') => KeyMapping::ToggleWrap,
            KeyCode::Char(',') => KeyMapping::ToggleWrap,
            KeyCode::Char('?') => KeyMapping::ToggleHelp,
            _ => KeyMapping::Unmapped,
        }
    } else if control {
        match key.code {
            KeyCode::Char('k') => KeyMapping::Up,
            KeyCode::Char('j') => KeyMapping::Down,
            KeyCode::Char('h') => KeyMapping::Left,
            KeyCode::Char('l') => KeyMapping::Right,
            KeyCode::Char('p') => KeyMapping::Up,
            KeyCode::Char('n') => KeyMapping::Down,
            KeyCode::Char('c') => KeyMapping::Abort,
            KeyCode::Char('u') => KeyMapping::ScrollUp,
            KeyCode::Char('d') => KeyMapping::ScrollDown,
            KeyCode::Char('s') => KeyMapping::SelectTarget,
            KeyCode::Char('r') => KeyMapping::Reload,
            KeyCode::Char('e') => KeyMapping::Editor,
            KeyCode::Char('a') => KeyMapping::New,
            KeyCode::Char(' ') => KeyMapping::ToggleHeaders,
            _ => KeyMapping::Unmapped,
        }
    } else {
        KeyMapping::Unmapped
    }
}

/// The keyboard shortcuts, as shown in the help screen: the keys and what
/// they do.
pub fn keymap_list() -> (res: Vec<(&'static str, &'static str)>)
    ensures
        res@.len() == 14,
        res@[0].0@ == "<C-j> or <C-n>"@ && res@[0].1@ == "Select next"@,
        res@[1].0@ == "<C-k> or <C-p>"@ && res@[1].1@ == "Select previous"@,
        res@[2].0@ == "<C-u>"@ && res@[2].1@ == "Scroll up"@,
        res@[3].0@ == "<C-d>"@ && res@[3].1@ == "Scroll down"@,
        res@[4].0@ == "<C-s>"@ && res@[4].1@ == "Select target"@,
        res@[5].0@ == "<C-r>"@ && res@[5].1@ == "Re-scan folder"@,
        res@[6].0@ == "<C-e>"@ && res@[6].1@ == "Edit selected request"@,
        res@[7].0@ == "<C-a>"@ && res@[7].1@ == "New request"@,
        res@[8].0@ == "<Esc> or <C-c>"@ && res@[8].1@ == "Abort"@,
        res@[9].0@ == "<C-space>"@ && res@[9].1@ == "Toggle request headers"@,
        res@[10].0@ == ","@ && res@[10].1@ == "Toggle output wrapping"@,
        res@[11].0@ == "?"@ && res@[11].1@ == "Toggle this help message"@,
        res@[12].0@ == "<"@ && res@[12].1@ == "Increase output width"@,
        res@[13].0@ == ">"@ && res@[13].1@ == "Decrease output width"@,
{
    vec![
        ("<C-j> or <C-n>", "Select next"),
        ("<C-k> or <C-p>", "Select previous"),
        ("<C-u>", "Scroll up"),
        ("<C-d>", "Scroll down"),
        ("<C-s>", "Select target"),
        ("<C-r>", "Re-scan folder"),
        ("<C-e>", "Edit selected request"),
        ("<C-a>", "New request"),
        ("<Esc> or <C-c>", "Abort"),
        ("<C-space>", "Toggle request headers"),
        (",", "Toggle output wrapping"),
        ("?", "Toggle this help message"),
        ("<", "Increase output width"),
        (">", "Decrease output width"),
    ]
}

} // verus!
