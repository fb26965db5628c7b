//! Keys, and the commands of media keyboards.
use vstd::prelude::*;

verus! {

/// A key on the keyboard.
#[derive(Clone, Copy, Debug, PartialEq, Eq, Structural)]
pub enum Key {
    Up,
    Down,
    Left,
    Right,
    PageUp,
    PageDown,
    Enter,
    Esc,
    Backspace,
    Delete,
    Char(char),
    Other,
}

/// A key, and whether Ctrl was held.
#[derive(Clone, Copy, Debug, PartialEq, Eq, Structural)]
pub struct KeyPress {
    pub key: Key,
    pub control: bool,
}

impl KeyPress {
    pub fn plain(key: Key) -> (r: KeyPress)
        ensures
            r == (KeyPress { key, control: false }),
    {
        KeyPress { key, control: false }
    }

    pub fn with_control(key: Key) -> (r: KeyPress)
        ensures
            r == (KeyPress { key, control: true }),
    {
        KeyPress { key, control: true }
    }
}

/// The keys that leave the program: `q`, and Ctrl with `c`.
pub open spec fn quits(press: KeyPress) -> bool {
    press.key == Key::Char('q') || press.key == Key::Char('c') && press.control
}

pub fn menu_quit_key(press: KeyPress) -> (r: bool)
    ensures
        r == quits(press),
{
    match press.key {
        Key::Char(c) => c == 'q' || c == 'c' && press.control,
        _ => false,
    }
}

/// What a media key asks of the player.
#[derive(Clone, Copy, Debug, PartialEq, Eq, Structural)]
pub enum MediaCommand {
    Play,
    Pause,
    Next,
    Previous,
}

/// The buttons that the system's media controls report.
#[derive(Clone, Copy, Debug, PartialEq, Eq, Structural)]
pub enum TransportButton {
    Play,
    Pause,
    Stop,
    Record,
    FastForward,
    Rewind,
    Next,
    Previous,
    ChannelUp,
    ChannelDown,
}

/// The command of a button, for those that have one.
pub fn media_command(button: TransportButton) -> (r: Option<MediaCommand>)
    ensures
        r == match button {
            TransportButton::Play => Some(MediaCommand::Play),
            TransportButton::Pause => Some(MediaCommand::Pause),
            TransportButton::Next => Some(MediaCommand::Next),
            TransportButton::Previous => Some(MediaCommand::Previous),
            _ => None,
        },
{
    match button {
        TransportButton::Play => Some(MediaCommand::Play),
        TransportButton::Pause => Some(MediaCommand::Pause),
        TransportButton::Next => Some(MediaCommand::Next),
        TransportButton::Previous => Some(MediaCommand::Previous),
        _ => None,
    }
}

/// The letter `q` leaves, with Ctrl or without it, and `c` only with it.
pub proof fn two_keys_leave(key: Key, control: bool)
    ensures
        quits(KeyPress { key: Key::Char('q'), control }),
        quits(KeyPress { key: Key::Char('c'), control: true }),
        !quits(KeyPress { key: Key::Char('c'), control: false }),
        key != Key::Char('q') && key != Key::Char('c') ==> !quits(KeyPress { key, control }),
{
}

} // verus!
