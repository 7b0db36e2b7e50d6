//! Pointer state machine of a clickable, optionally toggleable button.
//!
//! The button is fed pointer inputs already reduced to plain facts (is the
//! cursor inside, was the left button pressed or released) and queues the
//! events a widget reacts to.

use std::collections::VecDeque;
use vstd::prelude::*;

verus! {

/// What a button reports to its owner.
#[derive(Debug, Clone, Copy, PartialEq, Eq)]
pub enum ButtonEvent {
    /// The left button was released over a plain button.
    Click,
    /// The cursor moved onto the button.
    MouseEnter,
    /// The cursor moved off the button.
    MouseLeave,
    /// The left button went down over the button.
    Press,
    /// The left button was released elsewhere after a press on the button.
    Cancel,
    /// The left button was released over a toggle button; carries the new
    /// toggle state.
    Toggle(bool),
}

/// How a button should currently be drawn.
#[derive(Debug, Clone, Copy, PartialEq, Eq)]
pub enum ButtonState {
    Normal,
    Hovered,
    Pressed,
}

/// One pointer input, as far as a button cares.
#[derive(Debug, Clone, Copy, PartialEq, Eq)]
pub struct PointerInput {
    /// `Some(inside)` when the input carries a cursor position, `inside`
    /// telling whether that position hits the button.
    pub cursor_inside: Option<bool>,
    /// The left mouse button went down.
    pub left_pressed: bool,
    /// The left mouse button went up.
    pub left_released: bool,
}

/// Mathematical state of a [`Button`].
pub struct ButtonView {
    /// Events queued and not yet taken, oldest first.
    pub events: Seq<ButtonEvent>,
    pub cursor_inside: bool,
    /// The current press began on the button.
    pub was_inside: bool,
    pub pressed: bool,
    pub toggleable: bool,
    pub toggle_state: bool,
}

impl ButtonView {
    /// A button nobody has touched yet.
    pub open spec fn initial(toggleable: bool) -> ButtonView {
        ButtonView {
            events: Seq::empty(),
            cursor_inside: false,
            was_inside: false,
            pressed: false,
            toggleable,
            toggle_state: false,
        }
    }

    /// Effect of a cursor report: crossing the border queues an enter or a
    /// leave event, anything else changes nothing.
    pub open spec fn after_cursor(self, cursor_inside: Option<bool>) -> ButtonView {
        match cursor_inside {
            Some(inside) if inside != self.cursor_inside => ButtonView {
                cursor_inside: inside,
                events: self.events.push(
                    if inside {
                        ButtonEvent::MouseEnter
                    } else {
                        ButtonEvent::MouseLeave
                    },
                ),
                ..self
            },
            _ => self,
        }
    }

    /// Effect of the left button going down: it counts only over the button.
    pub open spec fn after_press(self, left_pressed: bool) -> ButtonView {
        if left_pressed && self.cursor_inside {
            ButtonView {
                pressed: true,
                was_inside: true,
                events: self.events.push(ButtonEvent::Press),
                ..self
            }
        } else {
            self
        }
    }

    /// Event queued by a release, if any.
    pub open spec fn release_event(self) -> Option<ButtonEvent> {
        if self.cursor_inside {
            if self.toggleable {
                Some(ButtonEvent::Toggle(!self.toggle_state))
            } else {
                Some(ButtonEvent::Click)
            }
        } else if self.was_inside {
            Some(ButtonEvent::Cancel)
        } else {
            None
        }
    }

    /// Effect of the left button going up: the press ends, a toggle button
    /// under the cursor flips, and the matching event is queued.
    pub open spec fn after_release(self, left_released: bool) -> ButtonView {
        if left_released {
            ButtonView {
                pressed: false,
                was_inside: false,
                toggle_state: if self.cursor_inside && self.toggleable {
                    !self.toggle_state
                } else {
                    self.toggle_state
                },
                events: match self.release_event() {
                    Some(e) => self.events.push(e),
                    None => self.events,
                },
                ..self
            }
        } else {
            self
        }
    }

    /// Effect of one input: the cursor report first, then the press, then the
    /// release.
    pub open spec fn step(self, input: PointerInput) -> ButtonView {
        self.after_cursor(input.cursor_inside).after_press(input.left_pressed).after_release(
            input.left_released,
        )
    }

    /// How the button presents itself: a press wins over hovering.
    pub open spec fn state(self) -> ButtonState {
        if self.pressed {
            ButtonState::Pressed
        } else if self.cursor_inside {
            ButtonState::Hovered
        } else {
            ButtonState::Normal
        }
    }
}

/// A button's pointer state and its queue of pending events.
pub struct Button {
    events: VecDeque<ButtonEvent>,
    cursor_inside: bool,
    was_inside: bool,
    pressed: bool,
    toggleable: bool,
    toggle_state: bool,
}

impl View for Button {
    type V = ButtonView;

    closed spec fn view(&self) -> ButtonView {
        ButtonView {
            events: self.events@,
            cursor_inside: self.cursor_inside,
            was_inside: self.was_inside,
            pressed: self.pressed,
            toggleable: self.toggleable,
            toggle_state: self.toggle_state,
        }
    }
}

impl Button {
    /// Creates an untouched button.
    pub fn new(toggleable: bool) -> (button: Self)
        ensures
            button@ == ButtonView::initial(toggleable),
    {
        Self {
            events: VecDeque::new(),
            cursor_inside: false,
            was_inside: false,
            pressed: false,
            toggleable,
            toggle_state: false,
        }
    }

    /// Feeds one pointer input to the button.
    pub fn event(&mut self, input: PointerInput)
        ensures
            final(self)@ == old(self)@.step(input),
    {
        if let Some(inside) = input.cursor_inside {
            if inside {
                if !self.cursor_inside {
                    self.cursor_inside = true;
                    self.events.push_back(ButtonEvent::MouseEnter);
                }
            } else if self.cursor_inside {
                self.cursor_inside = false;
                self.events.push_back(ButtonEvent::MouseLeave);
            }
        }
        if input.left_pressed {
            if self.cursor_inside {
                self.pressed = true;
                self.was_inside = true;
                self.events.push_back(ButtonEvent::Press);
            }
        }
        if input.left_released {
            self.pressed = false;
            if self.cursor_inside {
                if self.toggleable {
                    self.toggle_state = !self.toggle_state;
                    self.events.push_back(ButtonEvent::Toggle(self.toggle_state));
                } else {
                    self.events.push_back(ButtonEvent::Click);
                }
            } else if self.was_inside {
                self.events.push_back(ButtonEvent::Cancel);
            }
            self.was_inside = false;
        }
    }

    /// How the button should be drawn right now.
    pub fn state(&self) -> (state: ButtonState)
        ensures
            state == self@.state(),
    {
        match (self.pressed, self.cursor_inside) {
            (false, false) => ButtonState::Normal,
            (false, true) => ButtonState::Hovered,
            (true, _) => ButtonState::Pressed,
        }
    }

    /// Takes the oldest pending event, if there is one.
    pub fn next_event(&mut self) -> (event: Option<ButtonEvent>)
        ensures
            old(self)@.events.len() == 0 ==> event is None && final(self)@ == old(self)@,
            old(self)@.events.len() > 0 ==> event == Some(old(self)@.events[0]) && final(self)@ == (
            ButtonView { events: old(self)@.events.skip(1), ..old(self)@ }),
    {
        self.events.pop_front()
    }
}

} // verus!
