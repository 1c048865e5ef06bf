//! A text field whose content is shown back to the user.

use vstd::prelude::*;
use vstd::string::StringExecFns;

verus! {

/// A text field. It holds the text that was last put into it.
#[derive(Debug, PartialEq, Eq)]
pub struct TextField {
    text: String,
}

impl View for TextField {
    type V = Seq<char>;

    closed spec fn view(&self) -> Seq<char> {
        self.text@
    }
}

impl TextField {
    /// A field that holds `initial`.
    pub fn new(initial: &str) -> (field: Self)
        ensures
            field@ == initial@,
    {
        TextField { text: String::from_str(initial) }
    }

    /// The field of a form that follows every keystroke. It starts out
    /// holding `"Controlled"`.
    pub fn controlled() -> (field: Self)
        ensures
            field@ == "Controlled"@,
    {
        TextField::new("Controlled")
    }

    /// The field of a form that is read only when it is submitted. It starts
    /// out holding `"Uncontrolled"`.
    pub fn uncontrolled() -> (field: Self)
        ensures
            field@ == "Uncontrolled"@,
    {
        TextField::new("Uncontrolled")
    }

    /// Puts `text` into the field in place of what it held.
    pub fn set(&mut self, text: String)
        ensures
            final(self)@ == text@,
    {
        self.text = text;
    }

    /// The text in the field.
    pub fn get(&self) -> (text: &str)
        ensures
            text@ == self@,
    {
        self.text.as_str()
    }
}

impl Clone for TextField {
    fn clone(&self) -> (field: Self)
        ensures
            field@ == self@,
    {
        TextField { text: self.text.clone() }
    }
}

} // verus!
