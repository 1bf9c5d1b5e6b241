//! Keyboard-to-action mapping for the front-end's modal input, and the
//! control-key byte table.

use vstd::prelude::*;

verus! {

/// The front-end's input mode.
#[derive(Clone, Copy, PartialEq, Eq, Structural, Debug)]
pub enum Mode {
    Normal,
    Prefix,
    Copy,
    CopySearch,
}

/// An action a key press maps to.
#[derive(Clone, Copy, PartialEq, Eq, Structural, Debug)]
pub enum Action {
    EnterPrefix,
    EnterCopyMode,
    ExitCopyMode,
    SplitHorizontal,
    SplitVertical,
    ClosePane,
    ToggleZoom,
    FocusPrev,
    FocusNext,
    CopyMoveUp,
    CopyMoveDown,
    CopyMoveLeft,
    CopyMoveRight,
    CopyStartSelection,
    CopyCopySelection,
    CopySearchStart,
    CopySearchApply,
    SendEnter,
    OpenFolder,
}

/// The keys the mapping reads; anything else is `Other`.
#[derive(Clone, Copy, PartialEq, Eq, Structural, Debug)]
pub enum KeyCode {
    A,
    B,
    C,
    D,
    E,
    F,
    G,
    H,
    I,
    J,
    K,
    L,
    M,
    N,
    O,
    P,
    Q,
    R,
    S,
    T,
    U,
    V,
    W,
    X,
    Y,
    Z,
    Enter,
    Escape,
    Space,
    Slash,
    OpenBracket,
    ArrowLeft,
    ArrowRight,
    ArrowUp,
    ArrowDown,
    Other,
}

/// Modifier keys held with a key press.
#[derive(Clone, Copy, PartialEq, Eq, Structural, Debug)]
pub struct Modifiers {
    pub ctrl: bool,
    pub alt: bool,
    pub shift: bool,
    pub command: bool,
}

/// What a key press maps to in each mode.
pub open spec fn map_key_spec(mode: Mode, key: KeyCode, modifiers: Modifiers) -> Option<Action> {
    if modifiers.command && key == KeyCode::O {
        Some(Action::OpenFolder)
    } else {
        match mode {
            Mode::Normal => if modifiers.ctrl && key == KeyCode::B {
                Some(Action::EnterPrefix)
            } else if modifiers.ctrl && key == KeyCode::Enter {
                Some(Action::SendEnter)
            } else {
                None
            },
            Mode::Prefix => match key {
                KeyCode::S => Some(Action::SplitHorizontal),
                KeyCode::V => Some(Action::SplitVertical),
                KeyCode::X => Some(Action::ClosePane),
                KeyCode::Z => Some(Action::ToggleZoom),
                KeyCode::ArrowLeft => Some(Action::FocusPrev),
                KeyCode::ArrowUp => Some(Action::FocusPrev),
                KeyCode::ArrowRight => Some(Action::FocusNext),
                KeyCode::ArrowDown => Some(Action::FocusNext),
                KeyCode::OpenBracket => Some(Action::EnterCopyMode),
                KeyCode::Escape => Some(Action::ExitCopyMode),
                _ => None,
            },
            Mode::Copy => match key {
                KeyCode::ArrowUp => Some(Action::CopyMoveUp),
                KeyCode::ArrowDown => Some(Action::CopyMoveDown),
                KeyCode::ArrowLeft => Some(Action::CopyMoveLeft),
                KeyCode::ArrowRight => Some(Action::CopyMoveRight),
                KeyCode::Space => Some(Action::CopyStartSelection),
                KeyCode::Enter => Some(Action::CopyCopySelection),
                KeyCode::Slash => Some(Action::CopySearchStart),
                KeyCode::Escape => Some(Action::ExitCopyMode),
                _ => None,
            },
            Mode::CopySearch => match key {
                KeyCode::Enter => Some(Action::CopySearchApply),
                KeyCode::Escape => Some(Action::ExitCopyMode),
                _ => None,
            },
        }
    }
}

/// Maps a key press to an action, per mode. The open-folder chord wins
/// in every mode.
pub fn map_key(mode: Mode, key: KeyCode, modifiers: Modifiers) -> (r: Option<Action>)
    ensures
        r == map_key_spec(mode, key, modifiers),
{
    if modifiers.command && key == KeyCode::O {
        return Some(Action::OpenFolder);
    }
    match mode {
        Mode::Normal => {
            if modifiers.ctrl && key == KeyCode::B {
                return Some(Action::EnterPrefix);
            }
            if modifiers.ctrl && key == KeyCode::Enter {
                return Some(Action::SendEnter);
            }
            None
        },
        Mode::Prefix => match key {
            KeyCode::S => Some(Action::SplitHorizontal),
            KeyCode::V => Some(Action::SplitVertical),
            KeyCode::X => Some(Action::ClosePane),
            KeyCode::Z => Some(Action::ToggleZoom),
            KeyCode::ArrowLeft => Some(Action::FocusPrev),
            KeyCode::ArrowUp => Some(Action::FocusPrev),
            KeyCode::ArrowRight => Some(Action::FocusNext),
            KeyCode::ArrowDown => Some(Action::FocusNext),
            KeyCode::OpenBracket => Some(Action::EnterCopyMode),
            KeyCode::Escape => Some(Action::ExitCopyMode),
            _ => None,
        },
        Mode::Copy => match key {
            KeyCode::ArrowUp => Some(Action::CopyMoveUp),
            KeyCode::ArrowDown => Some(Action::CopyMoveDown),
            KeyCode::ArrowLeft => Some(Action::CopyMoveLeft),
            KeyCode::ArrowRight => Some(Action::CopyMoveRight),
            KeyCode::Space => Some(Action::CopyStartSelection),
            KeyCode::Enter => Some(Action::CopyCopySelection),
            KeyCode::Slash => Some(Action::CopySearchStart),
            KeyCode::Escape => Some(Action::ExitCopyMode),
            _ => None,
        },
        Mode::CopySearch => match key {
            KeyCode::Enter => Some(Action::CopySearchApply),
            KeyCode::Escape => Some(Action::ExitCopyMode),
            _ => None,
        },
    }
}

/// The control byte a Ctrl+letter chord sends.
pub open spec fn ctrl_byte_spec(key: KeyCode) -> Option<u8> {
    match key {
        KeyCode::A => Some(1u8),
        KeyCode::B => Some(2u8),
        KeyCode::C => Some(3u8),
        KeyCode::D => Some(4u8),
        KeyCode::E => Some(5u8),
        KeyCode::F => Some(6u8),
        KeyCode::G => Some(7u8),
        KeyCode::H => Some(8u8),
        KeyCode::I => Some(9u8),
        KeyCode::J => Some(10u8),
        KeyCode::K => Some(11u8),
        KeyCode::L => Some(12u8),
        KeyCode::M => Some(13u8),
        KeyCode::N => Some(14u8),
        KeyCode::O => Some(15u8),
        KeyCode::P => Some(16u8),
        KeyCode::Q => Some(17u8),
        KeyCode::R => Some(18u8),
        KeyCode::S => Some(19u8),
        KeyCode::T => Some(20u8),
        KeyCode::U => Some(21u8),
        KeyCode::V => Some(22u8),
        KeyCode::W => Some(23u8),
        KeyCode::X => Some(24u8),
        KeyCode::Y => Some(25u8),
        KeyCode::Z => Some(26u8),
        _ => None,
    }
}

/// Maps a Ctrl+letter chord to the byte the terminal expects.
pub fn ctrl_key_to_byte(key: KeyCode) -> (r: Option<u8>)
    ensures
        r == ctrl_byte_spec(key),
{
    match key {
        KeyCode::A => Some(0x01),
        KeyCode::B => Some(0x02),
        KeyCode::C => Some(0x03),
        KeyCode::D => Some(0x04),
        KeyCode::E => Some(0x05),
        KeyCode::F => Some(0x06),
        KeyCode::G => Some(0x07),
        KeyCode::H => Some(0x08),
        KeyCode::I => Some(0x09),
        KeyCode::J => Some(0x0a),
        KeyCode::K => Some(0x0b),
        KeyCode::L => Some(0x0c),
        KeyCode::M => Some(0x0d),
        KeyCode::N => Some(0x0e),
        KeyCode::O => Some(0x0f),
        KeyCode::P => Some(0x10),
        KeyCode::Q => Some(0x11),
        KeyCode::R => Some(0x12),
        KeyCode::S => Some(0x13),
        KeyCode::T => Some(0x14),
        KeyCode::U => Some(0x15),
        KeyCode::V => Some(0x16),
        KeyCode::W => Some(0x17),
        KeyCode::X => Some(0x18),
        KeyCode::Y => Some(0x19),
        KeyCode::Z => Some(0x1a),
        _ => None,
    }
}

/// One keyboard shortcut of the front-end, for display.
pub struct Shortcut {
    pub key: &'static str,
    pub action: &'static str,
}

/// The shortcut table the front-end shows.
pub fn shortcuts() -> (r: Vec<Shortcut>)
    ensures
        r@.len() == 8,
{
    let mut r: Vec<Shortcut> = Vec::new();
    r.push(Shortcut { key: "Ctrl+B, S", action: "Split horizontally" });
    r.push(Shortcut { key: "Ctrl+B, V", action: "Split vertically" });
    r.push(Shortcut { key: "Ctrl+B, X", action: "Close focused pane" });
    r.push(Shortcut { key: "Ctrl+B, Z", action: "Toggle zoom" });
    r.push(Shortcut { key: "Ctrl+B, Left/Up", action: "Focus previous pane" });
    r.push(Shortcut { key: "Ctrl+B, Right/Down", action: "Focus next pane" });
    r.push(Shortcut { key: "Ctrl+Enter", action: "Send Enter to focused terminal" });
    r.push(Shortcut { key: "Cmd+O", action: "Select workspace folder" });
    r
}

} // verus!
