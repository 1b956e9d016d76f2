//! What a key press sends to the shell.
use vstd::prelude::*;

verus! {

/// The named keys that send a fixed sequence, and `Other` for the rest.
#[derive(Clone, Copy, PartialEq, Eq, Debug, Structural)]
pub enum NamedKey {
    Backspace,
    Enter,
    Tab,
    Escape,
    ArrowUp,
    ArrowDown,
    ArrowRight,
    ArrowLeft,
    Home,
    End,
    Space,
    Other,
}

/// The logical key of a key event.
pub enum LogicalKey {
    /// A named key.
    Named(NamedKey),
    /// A key that produces the given characters.
    Character(String),
    /// A key that is neither.
    Unidentified,
}

/// A keyboard event: whether the key went down, which key, and the text that
/// the platform says it produces, if any.
pub struct KeyEvent {
    pub pressed: bool,
    pub key: LogicalKey,
    pub text: Option<String>,
}

/// The fixed sequence of a named key: the control characters for backspace,
/// enter, tab and escape, the cursor-key and home/end escape sequences, and
/// a space for the space bar; `None` for other keys.
pub open spec fn named_key_sequence(k: NamedKey) -> Option<Seq<char>> {
    match k {
        NamedKey::Backspace => Some(seq!['\x08']),
        NamedKey::Enter => Some(seq!['\r']),
        NamedKey::Tab => Some(seq!['\t']),
        NamedKey::Escape => Some(seq!['\x1b']),
        NamedKey::ArrowUp => Some(seq!['\x1b', '[', 'A']),
        NamedKey::ArrowDown => Some(seq!['\x1b', '[', 'B']),
        NamedKey::ArrowRight => Some(seq!['\x1b', '[', 'C']),
        NamedKey::ArrowLeft => Some(seq!['\x1b', '[', 'D']),
        NamedKey::Home => Some(seq!['\x1b', '[', 'H']),
        NamedKey::End => Some(seq!['\x1b', '[', 'F']),
        NamedKey::Space => Some(seq![' ']),
        NamedKey::Other => None,
    }
}

pub open spec fn opt_view(s: Option<String>) -> Option<Seq<char>> {
    match s {
        Some(t) => Some(t@),
        None => None,
    }
}

impl KeyEvent {
    /// What the event sends to the shell: nothing for a release; for a press,
    /// a named key's fixed sequence, otherwise the event's text, otherwise
    /// the characters of a character key, otherwise nothing.
    pub open spec fn input_spec(self) -> Option<Seq<char>> {
        let fixed = match self.key {
            LogicalKey::Named(k) => named_key_sequence(k),
            _ => None,
        };
        if !self.pressed {
            None
        } else if fixed is Some {
            fixed
        } else if self.text is Some {
            opt_view(self.text)
        } else {
            match self.key {
                LogicalKey::Character(s) => Some(s@),
                _ => None,
            }
        }
    }

    /// What the event sends to the shell (see `input_spec`).
    pub fn input(&self) -> (r: Option<String>)
        ensures
            opt_view(r) == self.input_spec(),
            !self.pressed ==> r is None,
    {
        if !self.pressed {
            return None;
        }
        if let LogicalKey::Named(k) = &self.key {
            let s = named_key_text(*k);
            if s.is_some() {
                return s;
            }
        }
        match &self.text {
            Some(t) => Some(t.clone()),
            None => match &self.key {
                LogicalKey::Character(s) => Some(s.clone()),
                _ => None,
            },
        }
    }
}

/// A key release sends nothing, whatever the key and its text.
pub proof fn lemma_release_sends_nothing(e: KeyEvent)
    requires
        !e.pressed,
    ensures
        e.input_spec() is None,
{
}

/// A pressed named key sends its fixed sequence, whatever text comes with it:
/// backspace sends BS, enter CR, tab HT, escape ESC, the arrows `ESC [ A`
/// (up), `ESC [ B` (down), `ESC [ C` (right) and `ESC [ D` (left), home
/// `ESC [ H`, end `ESC [ F`, and the space bar a space.
pub proof fn lemma_named_key_sequences(e: KeyEvent)
    requires
        e.pressed,
    ensures
        e.key == LogicalKey::Named(NamedKey::Backspace) ==> e.input_spec() == Some(seq!['\x08']),
        e.key == LogicalKey::Named(NamedKey::Enter) ==> e.input_spec() == Some(seq!['\r']),
        e.key == LogicalKey::Named(NamedKey::Tab) ==> e.input_spec() == Some(seq!['\t']),
        e.key == LogicalKey::Named(NamedKey::Escape) ==> e.input_spec() == Some(seq!['\x1b']),
        e.key == LogicalKey::Named(NamedKey::ArrowUp) ==> e.input_spec() == Some(seq!['\x1b', '[', 'A']),
        e.key == LogicalKey::Named(NamedKey::ArrowDown) ==> e.input_spec() == Some(seq!['\x1b', '[', 'B']),
        e.key == LogicalKey::Named(NamedKey::ArrowRight) ==> e.input_spec() == Some(seq!['\x1b', '[', 'C']),
        e.key == LogicalKey::Named(NamedKey::ArrowLeft) ==> e.input_spec() == Some(seq!['\x1b', '[', 'D']),
        e.key == LogicalKey::Named(NamedKey::Home) ==> e.input_spec() == Some(seq!['\x1b', '[', 'H']),
        e.key == LogicalKey::Named(NamedKey::End) ==> e.input_spec() == Some(seq!['\x1b', '[', 'F']),
        e.key == LogicalKey::Named(NamedKey::Space) ==> e.input_spec() == Some(seq![' ']),
{
}

/// A pressed key without a fixed sequence sends the event's text when there
/// is one, else the characters of a character key, else nothing.
pub proof fn lemma_other_keys_send_text(e: KeyEvent)
    requires
        e.pressed,
        !(e.key matches LogicalKey::Named(k) && k != NamedKey::Other),
    ensures
        e.text matches Some(t) ==> e.input_spec() == Some(t@),
        e.text is None ==> (e.key matches LogicalKey::Character(s) ==> e.input_spec() == Some(s@)),
        (e.text is None && !(e.key is Character)) ==> e.input_spec() is None,
{
}

/// The fixed sequence of a named key (see `named_key_sequence`).
pub fn named_key_text(k: NamedKey) -> (r: Option<String>)
    ensures
        opt_view(r) == named_key_sequence(k),
{
    proof {
        reveal_strlit("\x08");
        reveal_strlit("\r");
        reveal_strlit("\t");
        reveal_strlit("\x1b");
        reveal_strlit("\x1b[A");
        reveal_strlit("\x1b[B");
        reveal_strlit("\x1b[C");
        reveal_strlit("\x1b[D");
        reveal_strlit("\x1b[H");
        reveal_strlit("\x1b[F");
        reveal_strlit(" ");
    }
    let r = match k {
        NamedKey::Backspace => Some(String::from_str("\x08")),
        NamedKey::Enter => Some(String::from_str("\r")),
        NamedKey::Tab => Some(String::from_str("\t")),
        NamedKey::Escape => Some(String::from_str("\x1b")),
        NamedKey::ArrowUp => Some(String::from_str("\x1b[A")),
        NamedKey::ArrowDown => Some(String::from_str("\x1b[B")),
        NamedKey::ArrowRight => Some(String::from_str("\x1b[C")),
        NamedKey::ArrowLeft => Some(String::from_str("\x1b[D")),
        NamedKey::Home => Some(String::from_str("\x1b[H")),
        NamedKey::End => Some(String::from_str("\x1b[F")),
        NamedKey::Space => Some(String::from_str(" ")),
        NamedKey::Other => None,
    };
    assert(opt_view(r) =~= named_key_sequence(k));
    r
}

} // verus!
