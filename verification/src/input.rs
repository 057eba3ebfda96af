use vstd::prelude::*;

verus! {

/// Milliseconds a direction has to be held before it repeats.
pub const REPEAT_DELAY_MS: u64 = 300;

/// Milliseconds between two repeats of a held direction.
pub const REPEAT_INTERVAL_MS: u64 = 50;

/// Trigger position beyond which a trigger counts as pressed.
pub const TRIGGER_THRESHOLD: i16 = 16000;

/// What the user asks for.
#[derive(Debug, Clone, Copy, PartialEq, Eq, Structural)]
pub enum InputAction {
    Nothing,
    Up,
    Down,
    Left,
    Right,
    Confirm,
    Back,
    Action,
    Refresh,
    Quit,
}

/// The keyboard keys the program reads.
#[derive(Debug, Clone, Copy, PartialEq, Eq, Structural)]
pub enum Key {
    Escape,
    Up,
    Down,
    O,
    P,
    Return,
    Backspace,
    X,
    Y,
    Other,
}

/// The controller buttons the program reads.
#[derive(Debug, Clone, Copy, PartialEq, Eq, Structural)]
pub enum PadButton {
    DPadUp,
    DPadDown,
    LeftShoulder,
    RightShoulder,
    A,
    B,
    X,
    Y,
    Guide,
    Other,
}

/// The analog triggers.
#[derive(Debug, Clone, Copy, PartialEq, Eq, Structural)]
pub enum Trigger {
    Left,
    Right,
    Other,
}

/// Whether holding the action repeats it.
pub open spec fn repeatable(a: InputAction) -> bool {
    a == InputAction::Up || a == InputAction::Down || a == InputAction::Left || a == InputAction::Right
}

pub fn is_repeatable(action: InputAction) -> (res: bool)
    ensures
        res == repeatable(action),
{
    action == InputAction::Up || action == InputAction::Down || action == InputAction::Left || action == InputAction::Right
}

/// The action of a key.
pub open spec fn key_action(key: Key) -> InputAction {
    match key {
        Key::Escape => InputAction::Quit,
        Key::Up => InputAction::Up,
        Key::Down => InputAction::Down,
        Key::O => InputAction::Left,
        Key::P => InputAction::Right,
        Key::Return => InputAction::Confirm,
        Key::Backspace => InputAction::Back,
        Key::X => InputAction::Action,
        Key::Y => InputAction::Refresh,
        Key::Other => InputAction::Nothing,
    }
}

/// The direction whose release a key reports.
pub open spec fn key_release(key: Key) -> InputAction {
    match key {
        Key::Up => InputAction::Up,
        Key::Down => InputAction::Down,
        Key::O => InputAction::Left,
        Key::P => InputAction::Right,
        _ => InputAction::Nothing,
    }
}

/// The action of a controller button; the guide button of the first controller quits.
pub open spec fn button_action(which: u32, button: PadButton) -> InputAction {
    if which == 0 && button == PadButton::Guide {
        InputAction::Quit
    } else {
        match button {
            PadButton::DPadUp => InputAction::Up,
            PadButton::DPadDown => InputAction::Down,
            PadButton::LeftShoulder => InputAction::Left,
            PadButton::RightShoulder => InputAction::Right,
            PadButton::A => InputAction::Back,
            PadButton::B => InputAction::Confirm,
            PadButton::X => InputAction::Refresh,
            PadButton::Y => InputAction::Action,
            _ => InputAction::Nothing,
        }
    }
}

/// The shoulder buttons of every controller page through letters: the left
/// one means Left and the right one Right, and the D-pad means Up and Down;
/// on the keyboard O and P mean Left and Right. Releasing the button or key
/// that started a held direction stops that same direction.
pub proof fn law_direction_buttons(which: u32, button: PadButton, key: Key)
    ensures
        button_action(which, PadButton::LeftShoulder) == InputAction::Left,
        button_action(which, PadButton::RightShoulder) == InputAction::Right,
        button_action(which, PadButton::DPadUp) == InputAction::Up,
        button_action(which, PadButton::DPadDown) == InputAction::Down,
        button_release(PadButton::LeftShoulder) == InputAction::Left,
        button_release(PadButton::RightShoulder) == InputAction::Right,
        key_action(Key::O) == InputAction::Left,
        key_action(Key::P) == InputAction::Right,
        key_release(Key::O) == InputAction::Left,
        key_release(Key::P) == InputAction::Right,
        repeatable(button_action(which, button)) ==> button_release(button) == button_action(which, button),
        repeatable(key_action(key)) ==> key_release(key) == key_action(key),
{
}

/// The direction whose release a button reports.
pub open spec fn button_release(button: PadButton) -> InputAction {
    match button {
        PadButton::DPadUp => InputAction::Up,
        PadButton::DPadDown => InputAction::Down,
        PadButton::LeftShoulder => InputAction::Left,
        PadButton::RightShoulder => InputAction::Right,
        _ => InputAction::Nothing,
    }
}

/// What a trigger movement asks for: a trigger pressed beyond the threshold
/// moves like a shoulder button.
pub fn trigger_action(trigger: Trigger, value: i16) -> (res: InputAction)
    ensures
        res == (if trigger == Trigger::Left && value > TRIGGER_THRESHOLD {
            InputAction::Left
        } else if trigger == Trigger::Right && value > TRIGGER_THRESHOLD {
            InputAction::Right
        } else {
            InputAction::Nothing
        }),
{
    match trigger {
        Trigger::Left if value > TRIGGER_THRESHOLD => InputAction::Left,
        Trigger::Right if value > TRIGGER_THRESHOLD => InputAction::Right,
        _ => InputAction::Nothing,
    }
}

/// Whether a repeat of the held direction is due at `now`: a direction is
/// held, for at least `REPEAT_DELAY_MS`, and the last repeat is at least
/// `REPEAT_INTERVAL_MS` old (a clock that went back counts as no time).
pub open spec fn repeat_due(s: InputState, now: u64) -> bool {
    let held_ms = if now >= s.held_since { now - s.held_since } else { 0 };
    let since_last = if now >= s.last_repeat { now - s.last_repeat } else { 0 };
    s.held_action != InputAction::Nothing && held_ms >= REPEAT_DELAY_MS && since_last >= REPEAT_INTERVAL_MS
}

/// A direction that was just pressed does not repeat before `REPEAT_DELAY_MS`,
/// and once it is released it does not repeat at all.
pub proof fn law_repeat_timing(s: InputState, now: u64)
    ensures
        s.held_since == s.last_repeat && now < s.held_since + REPEAT_DELAY_MS ==> !repeat_due(s, now),
        s.held_action == InputAction::Nothing ==> !repeat_due(s, now),
{
}

/// The held direction and when it was pressed and last repeated (milliseconds).
pub struct InputState {
    pub held_action: InputAction,
    pub held_since: u64,
    pub last_repeat: u64,
}

impl InputState {
    /// Nothing held.
    pub fn new(now: u64) -> (res: Self)
        ensures
            res.held_action == InputAction::Nothing,
            res.held_since == now,
            res.last_repeat == now,
    {
        InputState { held_action: InputAction::Nothing, held_since: now, last_repeat: now }
    }

    fn press(&mut self, action: InputAction, now: u64)
        ensures
            repeatable(action) ==> final(self).held_action == action && final(self).held_since == now
                && final(self).last_repeat == now,
            !repeatable(action) ==> *final(self) == *old(self),
    {
        if is_repeatable(action) {
            self.held_action = action;
            self.held_since = now;
            self.last_repeat = now;
        }
    }

    fn release(&mut self, released: InputAction)
        ensures
            released == old(self).held_action ==> final(self).held_action == InputAction::Nothing
                && final(self).held_since == old(self).held_since && final(self).last_repeat == old(self).last_repeat,
            released != old(self).held_action ==> *final(self) == *old(self),
    {
        if released == self.held_action {
            self.held_action = InputAction::Nothing;
        }
    }

    /// A key went down; a key's own auto-repeat is ignored. A direction starts
    /// being held.
    pub fn key_down(&mut self, key: Key, is_repeat: bool, now: u64) -> (res: InputAction)
        ensures
            is_repeat ==> res == InputAction::Nothing && *final(self) == *old(self),
            !is_repeat ==> res == key_action(key),
            !is_repeat && repeatable(res) ==> final(self).held_action == res && final(self).held_since == now
                && final(self).last_repeat == now,
            !is_repeat && !repeatable(res) ==> *final(self) == *old(self),
    {
        if is_repeat {
            return InputAction::Nothing;
        }
        let action = match key {
            Key::Escape => InputAction::Quit,
            Key::Up => InputAction::Up,
            Key::Down => InputAction::Down,
            Key::O => InputAction::Left,
            Key::P => InputAction::Right,
            Key::Return => InputAction::Confirm,
            Key::Backspace => InputAction::Back,
            Key::X => InputAction::Action,
            Key::Y => InputAction::Refresh,
            Key::Other => InputAction::Nothing,
        };
        self.press(action, now);
        action
    }

    /// A key went up; releasing the held direction stops its repeats.
    pub fn key_up(&mut self, key: Key) -> (res: InputAction)
        ensures
            res == InputAction::Nothing,
            key_release(key) == old(self).held_action ==> final(self).held_action == InputAction::Nothing,
            key_release(key) != old(self).held_action ==> *final(self) == *old(self),
    {
        let released = match key {
            Key::Up => InputAction::Up,
            Key::Down => InputAction::Down,
            Key::O => InputAction::Left,
            Key::P => InputAction::Right,
            _ => InputAction::Nothing,
        };
        self.release(released);
        InputAction::Nothing
    }

    /// A controller button went down.
    pub fn button_down(&mut self, which: u32, button: PadButton, now: u64) -> (res: InputAction)
        ensures
            res == button_action(which, button),
            button == PadButton::LeftShoulder ==> res == InputAction::Left,
            button == PadButton::RightShoulder ==> res == InputAction::Right,
            button == PadButton::DPadUp ==> res == InputAction::Up,
            button == PadButton::DPadDown ==> res == InputAction::Down,
            repeatable(res) ==> final(self).held_action == res && final(self).held_since == now
                && final(self).last_repeat == now,
            !repeatable(res) ==> *final(self) == *old(self),
    {
        let action = if which == 0 && button == PadButton::Guide {
            InputAction::Quit
        } else {
            match button {
                PadButton::DPadUp => InputAction::Up,
                PadButton::DPadDown => InputAction::Down,
                PadButton::LeftShoulder => InputAction::Left,
                PadButton::RightShoulder => InputAction::Right,
                PadButton::A => InputAction::Back,
                PadButton::B => InputAction::Confirm,
                PadButton::X => InputAction::Refresh,
                PadButton::Y => InputAction::Action,
                _ => InputAction::Nothing,
            }
        };
        self.press(action, now);
        action
    }

    /// A controller button went up.
    pub fn button_up(&mut self, button: PadButton) -> (res: InputAction)
        ensures
            res == InputAction::Nothing,
            button_release(button) == old(self).held_action ==> final(self).held_action == InputAction::Nothing,
            button == PadButton::LeftShoulder && old(self).held_action == InputAction::Left
                ==> final(self).held_action == InputAction::Nothing,
            button == PadButton::RightShoulder && old(self).held_action == InputAction::Right
                ==> final(self).held_action == InputAction::Nothing,
            button_release(button) != old(self).held_action ==> *final(self) == *old(self),
    {
        let released = match button {
            PadButton::DPadUp => InputAction::Up,
            PadButton::DPadDown => InputAction::Down,
            PadButton::LeftShoulder => InputAction::Left,
            PadButton::RightShoulder => InputAction::Right,
            _ => InputAction::Nothing,
        };
        self.release(released);
        InputAction::Nothing
    }

    /// The repeat of the held direction that is due at `now`, if any: once the
    /// direction has been held `REPEAT_DELAY_MS`, it repeats every `REPEAT_INTERVAL_MS`.
    pub fn poll_repeat(&mut self, now: u64) -> (res: InputAction)
        ensures
            repeat_due(*old(self), now) ==> res == old(self).held_action && final(self).last_repeat == now
                && final(self).held_action == old(self).held_action
                && final(self).held_since == old(self).held_since,
            !repeat_due(*old(self), now) ==> res == InputAction::Nothing && *final(self) == *old(self),
    {
        if self.held_action == InputAction::Nothing {
            return InputAction::Nothing;
        }
        let held_ms = now.saturating_sub(self.held_since);
        if held_ms < REPEAT_DELAY_MS {
            return InputAction::Nothing;
        }
        let since_last = now.saturating_sub(self.last_repeat);
        if since_last >= REPEAT_INTERVAL_MS {
            self.last_repeat = now;
            return self.held_action;
        }
        InputAction::Nothing
    }
}

} // verus!
