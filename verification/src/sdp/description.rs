//! The validated session description.

use crate::sdp::codec::{fields_of, read_fields, Record};
use crate::sdp::grammar::{decode, Field, ValidationError};
use vstd::prelude::*;

verus! {

/// The bytes that carry a text.
pub open spec fn wire(text: Seq<char>) -> Seq<u8> {
    vstd::utf8::encode_utf8(text)
}

/// A text that the grammar accepts. There is no way to make one but
/// [`SessionDescription::parse`], so every value holds a text without fault.
#[derive(Debug, PartialEq, Eq)]
pub struct SessionDescription {
    text: String,
}

impl View for SessionDescription {
    type V = Seq<char>;

    closed spec fn view(&self) -> Seq<char> {
        self.text@
    }
}

impl SessionDescription {
    #[verifier::type_invariant]
    spec fn accepted(self) -> bool {
        decode(wire(self.text@)) is Ok
    }

    /// The description that holds `text`, where the grammar accepts it.
    pub closed spec fn holding(text: String) -> SessionDescription {
        SessionDescription { text }
    }

    /// What [`SessionDescription::parse`] returns for `raw`.
    pub open spec fn parsed(raw: String) -> Result<SessionDescription, ValidationError> {
        match decode(wire(raw@)) {
            Ok(_) => Ok(SessionDescription::holding(raw)),
            Err(e) => Err(e),
        }
    }

    /// A description holds the text it was made of.
    pub proof fn lemma_holding_view(text: String)
        ensures
            SessionDescription::holding(text)@ == text@,
    {
    }

    /// Validates `raw` against the grammar. The description holds the text as
    /// it came; a text with a fault is refused with its first fault.
    pub fn parse(raw: String) -> (r: Result<SessionDescription, ValidationError>)
        ensures
            r == SessionDescription::parsed(raw),
            match r {
                Ok(description) => description@ == raw@ && decode(wire(raw@)) is Ok,
                Err(e) => decode(wire(raw@)) == Err::<Seq<Field>, ValidationError>(e),
            },
    {
        let checked = read_fields(raw.as_str().as_bytes());
        match checked {
            Ok(_) => Ok(SessionDescription { text: raw }),
            Err(e) => Err(e),
        }
    }

    /// The text of the description, which is the text that was parsed.
    pub fn as_str(&self) -> (text: &str)
        ensures
            text@ == self@,
            decode(wire(self@)) is Ok,
    {
        proof {
            use_type_invariant(self);
        }
        self.text.as_str()
    }

    /// A copy of the text of the description.
    pub fn to_text(&self) -> (text: String)
        ensures
            text@ == self@,
            decode(wire(self@)) is Ok,
    {
        proof {
            use_type_invariant(self);
        }
        self.text.clone()
    }

    /// The records of the description, in the order of the text.
    pub fn fields(&self) -> (records: Vec<Record>)
        ensures
            decode(wire(self@)) == Ok::<Seq<Field>, ValidationError>(fields_of(records@)),
    {
        proof {
            use_type_invariant(self);
        }
        match read_fields(self.text.as_str().as_bytes()) {
            Ok(records) => records,
            Err(_) => Vec::new(),
        }
    }
}

impl Clone for SessionDescription {
    fn clone(&self) -> (copy: Self)
        ensures
            copy@ == self@,
    {
        proof {
            use_type_invariant(self);
        }
        SessionDescription { text: self.text.clone() }
    }
}

impl TryFrom<String> for SessionDescription {
    type Error = ValidationError;

    /// The same as [`SessionDescription::parse`].
    fn try_from(value: String) -> (r: Result<Self, Self::Error>)
        ensures
            match r {
                Ok(description) => description@ == value@ && decode(wire(value@)) is Ok,
                Err(e) => decode(wire(value@)) == Err::<Seq<Field>, ValidationError>(e),
            },
    {
        match SessionDescription::parse(value) {
            Ok(sdp) => Ok(sdp),
            Err(e) => Err(e),
        }
    }
}

impl vstd::std_specs::convert::TryFromSpecImpl<String> for SessionDescription {
    open spec fn obeys_try_from_spec() -> bool {
        true
    }

    open spec fn try_from_spec(value: String) -> Result<Self, ValidationError> {
        SessionDescription::parsed(value)
    }
}

} // verus!
