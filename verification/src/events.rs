//! What travels through the widget tree: events on the way down, broadcasts on
//! the way back up.

use ratatui::layout::Rect;
use vstd::prelude::*;

verus! {

/// A failure, carried as its message.
#[derive(Debug)]
pub struct StringError(pub String);

impl Clone for StringError {
    fn clone(&self) -> (copy: Self)
        ensures
            copy == *self,
    {
        StringError(self.0.clone())
    }
}

impl StringError {
    /// The message of the failure.
    pub fn message(&self) -> (message: String)
        ensures
            message == self.0,
    {
        self.0.clone()
    }
}

/// A key as the widgets see it.
#[derive(Clone, Copy, Debug, PartialEq, Eq, Structural)]
pub enum Keypress {
    /// Control-C: the operator asks for the session to end.
    EndOfText,
    /// Escape: the operator asks to leave what is in front.
    Escape,
    /// A visible ASCII character.
    Printable(char),
    /// Any other input.
    Unknown,
}

/// The byte that a terminal sends for control-C.
pub const END_OF_TEXT: u8 = 0x03;

/// The byte that a terminal sends for the escape key.
pub const ESCAPE: u8 = 0x1b;

/// The key that a chunk of terminal input stands for: a lone control-C or
/// escape byte, a lone visible ASCII byte, and `Unknown` for everything else.
pub open spec fn keypress_of(raw: Seq<u8>) -> Keypress {
    if raw.len() != 1 {
        Keypress::Unknown
    } else if raw[0] == END_OF_TEXT {
        Keypress::EndOfText
    } else if raw[0] == ESCAPE {
        Keypress::Escape
    } else if 0x20 <= raw[0] <= 0x7e {
        Keypress::Printable(raw[0] as char)
    } else {
        Keypress::Unknown
    }
}

/// The key that a key of the operator's own keyboard stands for. `escape`
/// says that it is the escape key, `character` is the character on it where
/// there is one, and `control` says that the control key is held down with
/// it: control-C ends the session, escape is escape, a visible ASCII
/// character is itself, and everything else is `Unknown`.
pub open spec fn pressed(escape: bool, character: Option<char>, control: bool) -> Keypress {
    if control && character == Some('c') {
        Keypress::EndOfText
    } else if escape {
        Keypress::Escape
    } else {
        match character {
            Some(c) => if 0x20 <= c as u32 <= 0x7e {
                Keypress::Printable(c)
            } else {
                Keypress::Unknown
            },
            None => Keypress::Unknown,
        }
    }
}

impl Keypress {
    /// Reads a key of the operator's own keyboard.
    pub fn of_key(escape: bool, character: Option<char>, control: bool) -> (key: Keypress)
        ensures
            key == pressed(escape, character, control),
    {
        match character {
            Some(c) => {
                if control && c == 'c' {
                    Keypress::EndOfText
                } else if escape {
                    Keypress::Escape
                } else if 0x20 <= c as u32 && c as u32 <= 0x7e {
                    Keypress::Printable(c)
                } else {
                    Keypress::Unknown
                }
            },
            None => {
                if escape {
                    Keypress::Escape
                } else {
                    Keypress::Unknown
                }
            },
        }
    }

    /// Reads one chunk of terminal input as a key.
    pub fn decode(raw: &Vec<u8>) -> (key: Keypress)
        ensures
            key == keypress_of(raw@),
    {
        if raw.len() != 1 {
            return Keypress::Unknown;
        }
        let byte: u8 = raw[0];
        if byte == END_OF_TEXT {
            Keypress::EndOfText
        } else if byte == ESCAPE {
            Keypress::Escape
        } else if 0x20 <= byte && byte <= 0x7e {
            Keypress::Printable(byte as char)
        } else {
            Keypress::Unknown
        }
    }

    /// Whether the key ends a session that reads the keyboard directly.
    pub open spec fn quits(self) -> bool {
        self == Keypress::EndOfText || self == Keypress::Escape
    }

    /// Whether the key ends a session that reads the keyboard directly:
    /// control-C and escape do.
    pub fn is_quit(&self) -> (quits: bool)
        ensures
            quits == self.quits(),
    {
        match self {
            Keypress::EndOfText | Keypress::Escape => true,
            _ => false,
        }
    }
}

/// One chunk of terminal input: the key it was read as, and the bytes
/// themselves for whoever wants them raw.
#[derive(Debug)]
pub struct Input {
    pub key: Keypress,
    pub raw: Vec<u8>,
}

impl Clone for Input {
    fn clone(&self) -> (copy: Self)
        ensures
            copy.key == self.key,
            copy.raw@ == self.raw@,
    {
        let raw = self.raw.clone();
        Input { key: self.key, raw }
    }
}

impl Input {
    /// Wraps a chunk of terminal input, reading its key.
    pub fn new(raw: Vec<u8>) -> (input: Input)
        ensures
            input.key == keypress_of(raw@),
            input.raw == raw,
    {
        let key = Keypress::decode(&raw);
        Input { key, raw }
    }
}

/// Something that happened and that the widgets may react to.
#[derive(Debug)]
pub enum Event {
    /// A key, from a session that reads the keyboard directly.
    Keypress(Keypress),
    /// The timer ticked: time to draw.
    Render,
    /// The terminal now has this area.
    Resize(Rect),
    /// A chunk of input from the transport.
    Input(Input),
    /// A raw passthrough ended, with its outcome.
    Finished(Result<(), StringError>),
    /// News of a tunnel in the background: what it is, or why it failed.
    Tunnel(Result<String, StringError>),
}

impl Clone for Event {
    fn clone(&self) -> (copy: Self)
        ensures
            !(self is Input) ==> copy == *self,
            self is Input ==> copy is Input && copy->Input_0.key == self->Input_0.key
                && copy->Input_0.raw@ == self->Input_0.raw@,
    {
        match self {
            Event::Keypress(key) => Event::Keypress(*key),
            Event::Render => Event::Render,
            Event::Resize(area) => Event::Resize(*area),
            Event::Input(input) => Event::Input(input.clone()),
            Event::Finished(Ok(done)) => Event::Finished(Ok(*done)),
            Event::Finished(Err(error)) => Event::Finished(Err(error.clone())),
            Event::Tunnel(Ok(tunnel)) => Event::Tunnel(Ok(tunnel.clone())),
            Event::Tunnel(Err(error)) => Event::Tunnel(Err(error.clone())),
        }
    }
}

impl Event {
    /// The key that the event carries, if it carries one.
    pub open spec fn key_of(self) -> Option<Keypress> {
        match self {
            Event::Keypress(key) => Some(key),
            Event::Input(input) => Some(input.key),
            _ => None,
        }
    }

    /// The key that the event carries, if it carries one.
    pub fn key(&self) -> (key: Option<Keypress>)
        ensures
            key == self.key_of(),
    {
        match self {
            Event::Keypress(key) => Some(*key),
            Event::Input(input) => Some(input.key),
            _ => None,
        }
    }

    /// The area that the event resizes the terminal to, if it is a resize.
    pub open spec fn resized_to(self) -> Option<Rect> {
        match self {
            Event::Resize(area) => Some(area),
            _ => None,
        }
    }

    /// The area that the event resizes the terminal to, if it is a resize.
    pub fn resize(&self) -> (area: Option<Rect>)
        ensures
            area == self.resized_to(),
    {
        match self {
            Event::Resize(area) => Some(*area),
            _ => None,
        }
    }

    /// The event that a chunk of input from the transport becomes.
    pub fn input(raw: Vec<u8>) -> (event: Event)
        ensures
            event == Event::Input(Input { key: keypress_of(raw@), raw }),
    {
        Event::Input(Input::new(raw))
    }
}

/// What a widget answers to an event, and so what its caller does next.
pub enum Broadcast<R> {
    /// Not mine: ask the next widget.
    Ignored,
    /// Mine: stop asking.
    Consumed,
    /// Remove me; from a terminal widget, end the session.
    Exited,
    /// Lend the terminal to this raw widget until it is done.
    Raw(R),
}

/// What `dispatch` returns: the widget's answer, or its failure.
pub type Answer<R> = Result<Broadcast<R>, StringError>;

} // verus!
