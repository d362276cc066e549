//! Validated text-input state.
//!
//! A [`Content`] owns a strongly-typed value together with the text it
//! was last derived from and an optional parse error. It mediates
//! between raw text edits and the typed value: the two never silently
//! diverge, because whenever no error is recorded, parsing the stored
//! text is guaranteed to yield the stored value.

use vstd::prelude::*;

verus! {

/// A value type with a canonical text form and a parser for it.
///
/// Implementors must prove [`ParseText::lemma_round_trip`]: the
/// canonical text of every value parses back to that value. The
/// guarantees of [`Content`] rest on it.
pub trait ParseText: Sized {
    /// The error a failed parse reports.
    type Err;

    /// The canonical text of this value.
    spec fn text_spec(&self) -> Seq<char>;

    /// The value a text denotes, if it denotes one.
    spec fn parse_spec(text: Seq<char>) -> Option<Self>;

    /// Renders this value to its canonical text.
    fn to_text(&self) -> (text: String)
        ensures
            text@ == self.text_spec(),
    ;

    /// Parses a text, succeeding exactly when the text denotes a value.
    fn parse_text(text: &str) -> (result: Result<Self, Self::Err>)
        ensures
            result is Ok <==> Self::parse_spec(text@) is Some,
            result matches Ok(value) ==> Self::parse_spec(text@) == Some(value),
    ;

    /// The canonical text of a value parses back to that value.
    proof fn lemma_round_trip(&self)
        ensures
            Self::parse_spec(self.text_spec()) == Some(*self),
    ;
}

/// The state of a validated text input: the last known-good value, the
/// text currently displayed, and the parse error of that text if it has
/// one.
#[derive(Debug, Clone, PartialEq, Eq)]
pub struct Content<T, E> {
    value: T,
    string: String,
    error: Option<E>,
}

impl<T, E> Content<T, E> {
    /// The last successfully parsed (or initial) value.
    pub closed spec fn spec_value(&self) -> T {
        self.value
    }

    /// The text currently displayed.
    pub closed spec fn spec_text(&self) -> Seq<char> {
        self.string@
    }

    /// The parse error of the displayed text, if it failed to parse.
    pub closed spec fn spec_error(&self) -> Option<E> {
        self.error
    }

    /// Indicates if the value corresponds to the string.
    pub fn is_valid(&self) -> (valid: bool)
        ensures
            valid == (self.spec_error() is None),
    {
        self.error.is_none()
    }

    /// Returns the parsing error if there is one.
    pub fn get_error(&self) -> (error: &Option<E>)
        ensures
            *error == self.spec_error(),
    {
        &self.error
    }

    /// Read access to the current value: the last known-good value,
    /// even while the displayed text is invalid.
    pub fn value(&self) -> (value: &T)
        ensures
            *value == self.spec_value(),
    {
        &self.value
    }

    /// Read access to the displayed text.
    pub fn text(&self) -> (text: &String)
        ensures
            text@ == self.spec_text(),
    {
        &self.string
    }
}

impl<T: ParseText<Err = E>, E> Content<T, E> {
    /// Whenever no error is recorded, the displayed text parses to the
    /// stored value: the two never silently diverge.
    pub open spec fn wf(&self) -> bool {
        self.spec_error() is None ==> T::parse_spec(self.spec_text()) == Some(self.spec_value())
    }

    /// Creates a new content holding the given value, displaying its
    /// canonical text, with no error.
    pub fn new(value: T) -> (content: Content<T, E>)
        ensures
            content.spec_value() == value,
            content.spec_text() == value.text_spec(),
            content.spec_error() is None,
            content.wf(),
    {
        proof {
            value.lemma_round_trip();
        }
        let string = value.to_text();
        Content { value, string, error: None }
    }

    /// Takes the content into a scoped mutation of its value.
    ///
    /// The returned [`BorrowMut`] gives exclusive access to the value;
    /// the only way back to a [`Content`] is [`BorrowMut::finish`],
    /// which re-derives the text and clears the error, so value and
    /// text can never remain desynchronized once the scope ends.
    pub fn borrow_mut(self) -> (borrow: BorrowMut<T, E>)
        ensures
            borrow.spec_value() == self.spec_value(),
    {
        BorrowMut { content: self }
    }

    /// Updates the content with the given [`Parsed`]: the text is
    /// always taken over; the value is replaced and the error cleared
    /// exactly when the parse succeeded, else only the error is set and
    /// the value keeps its last good state.
    pub fn update(&mut self, parsed: Parsed<T, E>)
        requires
            parsed.wf(),
        ensures
            final(self).spec_text() == parsed.spec_text(),
            final(self).spec_error() is None <==> parsed.spec_result() is Ok,
            parsed.spec_result() matches Ok(value) ==> final(self).spec_value() == value,
            parsed.spec_result() matches Err(error) ==> final(self).spec_error() == Some(error)
                && final(self).spec_value() == old(self).spec_value(),
            final(self).wf(),
    {
        let (string, result) = parsed.take();
        self.string = string;
        match result {
            Ok(value) => {
                self.error = None;
                self.value = value;
            },
            Err(error) => {
                self.error = Some(error);
            },
        }
    }
}

/// A text together with the outcome of parsing exactly that text.
///
/// It can only be built by [`Parsed::from_string`] or
/// [`Parsed::from_value`], so the outcome always belongs to the text.
#[derive(Debug, PartialEq, Eq)]
pub struct Parsed<T, E> {
    string: String,
    parsed: Result<T, E>,
}

impl<T, E> Parsed<T, E> {
    /// The text that was parsed.
    pub closed spec fn spec_text(&self) -> Seq<char> {
        self.string@
    }

    /// The outcome of parsing the text.
    pub closed spec fn spec_result(&self) -> Result<T, E> {
        self.parsed
    }

    /// Gets the values contained in the [`Parsed`].
    pub fn take(self) -> (out: (String, Result<T, E>))
        ensures
            out.0@ == self.spec_text(),
            out.1 == self.spec_result(),
    {
        (self.string, self.parsed)
    }

    /// Returns a reference to the contained text.
    pub fn get_string(&self) -> (string: &String)
        ensures
            string@ == self.spec_text(),
    {
        &self.string
    }

    /// Returns a reference to the contained parse outcome.
    pub fn get_result(&self) -> (result: &Result<T, E>)
        ensures
            *result == self.spec_result(),
    {
        &self.parsed
    }
}

impl<T: ParseText<Err = E>, E> Parsed<T, E> {
    /// The recorded outcome is what parsing the recorded text yields.
    pub open spec fn wf(&self) -> bool {
        match self.spec_result() {
            Ok(value) => T::parse_spec(self.spec_text()) == Some(value),
            Err(_) => T::parse_spec(self.spec_text()) is None,
        }
    }

    /// Builds a [`Parsed`] by parsing the given text.
    pub fn from_string(text: &str) -> (parsed: Self)
        ensures
            parsed.spec_text() == text@,
            parsed.spec_result() is Ok <==> T::parse_spec(text@) is Some,
            parsed.wf(),
    {
        let result = T::parse_text(text);
        Parsed { string: text.to_owned(), parsed: result }
    }

    /// Builds a [`Parsed`] from a value, rendering its canonical text.
    pub fn from_value(value: T) -> (parsed: Self)
        ensures
            parsed.spec_text() == value.text_spec(),
            parsed.spec_result() matches Ok(v) && v == value,
            parsed.wf(),
    {
        proof {
            value.lemma_round_trip();
        }
        let string = value.to_text();
        Parsed { string, parsed: Ok(value) }
    }
}

/// A scoped mutation of the value of a [`Content`].
///
/// It holds the content exclusively; the only exit,
/// [`BorrowMut::finish`], re-derives the displayed text from the value
/// and clears the error, so the text the content shows afterwards is
/// the canonical text of its value on every path out of the scope.
#[derive(Debug)]
pub struct BorrowMut<T, E> {
    content: Content<T, E>,
}

impl<T, E> BorrowMut<T, E> {
    /// The value under mutation.
    pub closed spec fn spec_value(&self) -> T {
        self.content.value
    }

    /// Read access to the value under mutation.
    pub fn value(&self) -> (value: &T)
        ensures
            *value == self.spec_value(),
    {
        &self.content.value
    }

    /// Exclusive access to the value under mutation.
    pub fn value_mut(&mut self) -> (value: &mut T)
        ensures
            *value == old(self).spec_value(),
            final(self).spec_value() == *final(value),
    {
        &mut self.content.value
    }

    /// Replaces the value under mutation.
    pub fn set(&mut self, value: T)
        ensures
            final(self).spec_value() == value,
    {
        self.content.value = value;
    }
}

impl<T: ParseText<Err = E>, E> BorrowMut<T, E> {
    /// Ends the scoped mutation: re-derives the displayed text from the
    /// value and clears the error, re-establishing the content's
    /// guarantee.
    pub fn finish(self) -> (content: Content<T, E>)
        ensures
            content.spec_value() == self.spec_value(),
            content.spec_text() == self.spec_value().text_spec(),
            content.spec_error() is None,
            content.wf(),
    {
        let mut inner = self.content;
        proof {
            inner.value.lemma_round_trip();
        }
        let string = inner.value.to_text();
        inner.string = string;
        inner.error = None;
        inner
    }
}

} // verus!
