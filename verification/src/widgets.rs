//! The state of an editable label, apart from how it is drawn: a value on
//! show, a draft while the label is being edited, and whether the last
//! interaction replaced the value.

use vstd::prelude::*;
use vstd::string::*;
use crate::text::same_text;

verus! {

/// A label that turns into a text field when it is clicked.
#[derive(Clone, Default)]
pub struct EditableLabel {
    id: String,
    pub value: String,
    value_edited: String,
    is_editing: bool,
    needs_initial_focus: bool,
    changed: bool,
}

impl EditableLabel {
    /// The identifier under which the label's state is kept.
    pub closed spec fn identifier(&self) -> Seq<char> {
        self.id@
    }

    /// The text on show.
    pub closed spec fn shown(&self) -> Seq<char> {
        self.value@
    }

    /// The draft that is being edited.
    pub closed spec fn draft(&self) -> Seq<char> {
        self.value_edited@
    }

    /// Whether the label shows its text field.
    pub closed spec fn editing(&self) -> bool {
        self.is_editing
    }

    /// Whether the last interaction replaced the value.
    pub closed spec fn was_changed(&self) -> bool {
        self.changed
    }

    /// Whether the text field still has to take the focus.
    pub closed spec fn wants_focus(&self) -> bool {
        self.needs_initial_focus
    }

    /// A label under the given identifier that shows nothing yet.
    pub fn init(id: String) -> (label: EditableLabel)
        ensures
            label.identifier() == id@,
            label.shown() == Seq::<char>::empty(),
            label.draft() == Seq::<char>::empty(),
            !label.editing(),
            !label.was_changed(),
            !label.wants_focus(),
    {
        EditableLabel {
            id,
            value: String::new(),
            value_edited: String::new(),
            is_editing: false,
            needs_initial_focus: false,
            changed: false,
        }
    }

    /// Update the stored value only if it's changed.
    pub fn update_value_if_needed(&mut self, new_value: &str)
        ensures
            final(self).shown() == new_value@,
            final(self).draft() == old(self).draft(),
            final(self).editing() == old(self).editing(),
            final(self).was_changed() == old(self).was_changed(),
            final(self).wants_focus() == old(self).wants_focus(),
    {
        if !same_text(self.value.as_str(), new_value) {
            self.value = new_value.to_owned();
        }
    }

    /// Whether the last interaction replaced the value.
    pub fn changed(&self) -> (changed: bool)
        ensures
            changed == self.was_changed(),
    {
        self.changed
    }

    /// A new frame begins: what the last one changed is forgotten.
    pub fn begin_frame(&mut self)
        ensures
            !final(self).was_changed(),
            final(self).shown() == old(self).shown(),
            final(self).draft() == old(self).draft(),
            final(self).editing() == old(self).editing(),
            final(self).wants_focus() == old(self).wants_focus(),
    {
        self.changed = false;
    }

    /// The label was clicked: editing starts on a draft of the value, and the
    /// text field is to take the focus.
    pub fn begin_editing(&mut self)
        ensures
            final(self).editing(),
            final(self).wants_focus(),
            final(self).draft() == old(self).shown(),
            final(self).shown() == old(self).shown(),
            final(self).was_changed() == old(self).was_changed(),
    {
        self.is_editing = true;
        self.value_edited = self.value.clone();
        self.needs_initial_focus = true;
    }

    /// The text field lost the focus. With Enter pressed the draft becomes
    /// the value and the label counts as changed; without, the draft is let
    /// go. Either way editing ends.
    pub fn finish_editing(&mut self, enter_pressed: bool)
        ensures
            !final(self).editing(),
            final(self).draft() == old(self).draft(),
            final(self).wants_focus() == old(self).wants_focus(),
            enter_pressed ==> final(self).shown() == old(self).draft() && final(self).was_changed(),
            !enter_pressed ==> final(self).shown() == old(self).shown() && final(self).was_changed()
                == old(self).was_changed(),
    {
        if enter_pressed {
            self.changed = true;
            self.value = self.value_edited.clone();
        }
        self.is_editing = false;
    }
}

} // verus!
