use vstd::prelude::*;

verus! {

/// A button transition that can be injected into the input stream.
#[derive(Clone, Copy, Debug, PartialEq, Eq, Structural)]
pub enum MouseEventSpec {
    LeftDown,
    LeftUp,
    RightDown,
    RightUp,
    MiddleDown,
    MiddleUp,
}

impl MouseEventSpec {
    /// The event presses a button.
    pub open spec fn is_press(self) -> bool {
        ||| self is LeftDown
        ||| self is RightDown
        ||| self is MiddleDown
    }

    /// The event that releases the button that `self` presses (`self` itself for a release).
    pub open spec fn release_of(self) -> MouseEventSpec {
        match self {
            MouseEventSpec::LeftDown => MouseEventSpec::LeftUp,
            MouseEventSpec::RightDown => MouseEventSpec::RightUp,
            MouseEventSpec::MiddleDown => MouseEventSpec::MiddleUp,
            other => other,
        }
    }
}

/// The press of the button numbered `button`: 2 is the right button, 3 the middle one,
/// and every other number the left one.
pub open spec fn press_for_button(button: i32) -> MouseEventSpec {
    if button == 2 {
        MouseEventSpec::RightDown
    } else if button == 3 {
        MouseEventSpec::MiddleDown
    } else {
        MouseEventSpec::LeftDown
    }
}

/// The press and release events of a button number.
pub fn get_button_flags(button: i32) -> (flags: (MouseEventSpec, MouseEventSpec))
    ensures
        flags.0 == press_for_button(button),
        flags.1 == flags.0.release_of(),
        flags.0.is_press(),
        !flags.1.is_press(),
{
    match button {
        2 => (MouseEventSpec::RightDown, MouseEventSpec::RightUp),
        3 => (MouseEventSpec::MiddleDown, MouseEventSpec::MiddleUp),
        _ => (MouseEventSpec::LeftDown, MouseEventSpec::LeftUp),
    }
}

} // verus!
