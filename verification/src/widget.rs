use vstd::prelude::*;

use crate::input::InputAction;

verus! {

/// A line of a menu and what choosing it selects.
pub struct MenuItem<S> {
    pub label: String,
    pub target: Option<S>,
}

/// What a menu does with an input.
#[derive(Debug, Clone, Copy, PartialEq, Eq)]
pub enum MenuAction<S> {
    Nothing,
    Selected(S),
    Back,
}

/// The highlighted line of a menu and the targets of its lines.
pub struct MenuSelection<S> {
    targets: Vec<Option<S>>,
    selected: usize,
}

impl<S: Copy> MenuSelection<S> {
    pub closed spec fn targets(&self) -> Seq<Option<S>> {
        self.targets@
    }

    pub closed spec fn cursor(&self) -> nat {
        self.selected as nat
    }

    /// The highlighted line is a line of the menu, when there is one.
    pub open spec fn wf(&self) -> bool {
        self.cursor() == 0 || self.cursor() < self.targets().len()
    }

    /// A menu of the given lines with the first one highlighted.
    pub fn new(items: &Vec<MenuItem<S>>) -> (res: Self)
        ensures
            res.wf(),
            res.cursor() == 0,
            res.targets().len() == items@.len(),
            forall|i: int| 0 <= i < items@.len() ==> #[trigger] res.targets()[i] == items@[i].target,
    {
        let mut targets: Vec<Option<S>> = Vec::new();
        let mut i: usize = 0;
        while i < items.len()
            invariant
                i <= items.len(),
                targets@.len() == i,
                forall|j: int| 0 <= j < i ==> #[trigger] targets@[j] == items@[j].target,
            decreases items.len() - i,
        {
            targets.push(items[i].target);
            i = i + 1;
        }
        MenuSelection { targets, selected: 0 }
    }

    /// A menu whose lines select the given targets, with the first line highlighted.
    pub fn from_targets(targets: Vec<Option<S>>) -> (res: Self)
        ensures
            res.wf(),
            res.cursor() == 0,
            res.targets() == targets@,
    {
        MenuSelection { targets, selected: 0 }
    }

    /// The highlighted line.
    pub fn selected(&self) -> (res: usize)
        ensures
            res == self.cursor(),
    {
        self.selected
    }

    /// Moves the highlight, or chooses or leaves the menu. Moving down or
    /// choosing needs a menu with lines.
    pub fn handle_input(&mut self, action: InputAction) -> (res: MenuAction<S>)
        requires
            old(self).wf(),
            action == InputAction::Down || action == InputAction::Confirm ==> old(self).targets().len() > 0,
        ensures
            final(self).wf(),
            final(self).targets() == old(self).targets(),
            action == InputAction::Up ==> res == MenuAction::<S>::Nothing
                && final(self).cursor() == (if old(self).cursor() > 0 { old(self).cursor() - 1 } else { 0 }),
            action == InputAction::Down ==> res == MenuAction::<S>::Nothing
                && final(self).cursor() == (if old(self).cursor() + 1 < old(self).targets().len() {
                    old(self).cursor() + 1
                } else {
                    old(self).cursor()
                }),
            action == InputAction::Confirm ==> final(self).cursor() == old(self).cursor() && match old(self).targets()[old(self).cursor() as int] {
                Some(t) => res == MenuAction::Selected(t),
                None => res == MenuAction::<S>::Nothing,
            },
            action == InputAction::Back ==> res == MenuAction::<S>::Back && final(self).cursor() == old(self).cursor(),
            !(action == InputAction::Up || action == InputAction::Down || action == InputAction::Confirm
                || action == InputAction::Back) ==> res == MenuAction::<S>::Nothing && final(self).cursor() == old(self).cursor(),
    {
        match action {
            InputAction::Up => {
                if self.selected > 0 {
                    self.selected = self.selected - 1;
                }
                MenuAction::Nothing
            },
            InputAction::Down => {
                if self.selected < self.targets.len() - 1 {
                    self.selected = self.selected + 1;
                }
                MenuAction::Nothing
            },
            InputAction::Confirm => {
                match self.targets[self.selected] {
                    Some(t) => MenuAction::Selected(t),
                    None => MenuAction::Nothing,
                }
            },
            InputAction::Back => MenuAction::Back,
            _ => MenuAction::Nothing,
        }
    }
}

} // verus!
