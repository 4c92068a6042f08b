//! What can go wrong in the exchange, and how each failure is told to a client.

use crate::resource::{digit_char, digit_str};
use crate::sdp::grammar::{Reason, ValidationError};
use vstd::prelude::*;
use vstd::string::StringExecFns;

verus! {

/// A failure of the exchange.
#[derive(Clone, Copy, Debug, PartialEq, Eq, Structural)]
pub enum SignalError {
    /// The text is no session description.
    Validation(ValidationError),
    /// No live session has this identifier.
    NotFound,
    /// The session has its answer already.
    Conflict,
    /// The media pipeline failed.
    Upstream,
    /// No offer came before the deadline.
    Timeout,
}

/// What is wrong with a text, in words.
pub open spec fn reason_text(reason: Reason) -> Seq<char> {
    match reason {
        Reason::Empty => "session description is empty"@,
        Reason::Unterminated => "line does not end in CRLF"@,
        Reason::Malformed => "line is not of the form <type>=<value>"@,
        Reason::UnknownType => "unknown record type"@,
        Reason::BadValue => "record value is empty or holds a forbidden byte"@,
        Reason::UnsupportedVersion => "unsupported protocol version"@,
        Reason::Misplaced => "record is out of order"@,
        Reason::Incomplete => "session description ends before its timing record"@,
    }
}

impl Reason {
    /// What is wrong with a text, in words.
    pub fn describe(&self) -> (text: String)
        ensures
            text@ == reason_text(*self),
    {
        match self {
            Reason::Empty => String::from_str("session description is empty"),
            Reason::Unterminated => String::from_str("line does not end in CRLF"),
            Reason::Malformed => String::from_str("line is not of the form <type>=<value>"),
            Reason::UnknownType => String::from_str("unknown record type"),
            Reason::BadValue => String::from_str(
                "record value is empty or holds a forbidden byte",
            ),
            Reason::UnsupportedVersion => String::from_str("unsupported protocol version"),
            Reason::Misplaced => String::from_str("record is out of order"),
            Reason::Incomplete => String::from_str(
                "session description ends before its timing record",
            ),
        }
    }
}

/// A number in decimal digits.
pub open spec fn decimal_text(n: nat) -> Seq<char>
    decreases n,
{
    if n < 10 {
        seq![digit_char(n as int)]
    } else {
        decimal_text(n / 10).push(digit_char((n % 10) as int))
    }
}

/// A number in decimal digits.
pub fn decimal(n: u128) -> (text: String)
    ensures
        text@ == decimal_text(n as nat),
{
    let mut low: Vec<u8> = Vec::new();
    let mut rest: u128 = n;
    let ghost mut tail: Seq<char> = Seq::empty();
    while rest >= 10
        invariant
            decimal_text(n as nat) == decimal_text(rest as nat) + tail,
            tail.len() == low@.len(),
            forall|i: int| 0 <= i < low@.len() ==> #[trigger] low@[i] < 10,
            forall|i: int|
                0 <= i < tail.len() ==> #[trigger] tail[i] == digit_char(
                    low@[tail.len() - 1 - i] as int,
                ),
        decreases rest,
    {
        let digit: u8 = (rest % 10) as u8;
        proof {
            let grown = seq![digit_char(digit as int)] + tail;
            assert(decimal_text(rest as nat) + tail == decimal_text((rest / 10) as nat) + grown);
            assert forall|i: int| 0 <= i < grown.len() implies #[trigger] grown[i] == digit_char(
                low@.push(digit)[grown.len() - 1 - i] as int,
            ) by {
                if i > 0 {
                    assert(grown[i] == tail[i - 1]);
                }
            }
            tail = grown;
        }
        low.push(digit);
        rest = rest / 10;
    }
    let mut text = String::from_str(digit_str(rest as u8));
    let mut k: usize = low.len();
    while k > 0
        invariant
            0 <= k <= low@.len(),
            tail.len() == low@.len(),
            forall|i: int| 0 <= i < low@.len() ==> #[trigger] low@[i] < 10,
            forall|i: int|
                0 <= i < tail.len() ==> #[trigger] tail[i] == digit_char(
                    low@[tail.len() - 1 - i] as int,
                ),
            text@ == decimal_text(rest as nat) + tail.take(low@.len() - k),
        decreases k,
    {
        k = k - 1;
        let ghost at = low@.len() - 1 - k;
        assert(tail[at] == digit_char(low@[k as int] as int));
        text.append(digit_str(low[k]));
        assert(tail.take(at + 1) == tail.take(at).push(tail[at]));
    }
    assert(tail.take(tail.len() as int) == tail);
    text
}

/// Where a text is at fault and why, in words. Lines count from one.
pub open spec fn fault_text(fault: ValidationError) -> Seq<char> {
    "line "@ + decimal_text((fault.line + 1) as nat) + ": "@ + reason_text(fault.reason)
}

impl ValidationError {
    /// Where the text is at fault and why, in words.
    pub fn describe(&self) -> (text: String)
        ensures
            text@ == fault_text(*self),
    {
        let mut text = String::from_str("line ");
        let number = decimal(self.line as u128 + 1);
        text.append(number.as_str());
        text.append(": ");
        let reason = self.reason.describe();
        text.append(reason.as_str());
        text
    }
}

impl SignalError {
    /// The HTTP status that tells a client of this failure.
    pub open spec fn status_code(self) -> u16 {
        match self {
            SignalError::Validation(_) => 400,
            SignalError::NotFound => 404,
            SignalError::Conflict => 409,
            SignalError::Upstream => 502,
            SignalError::Timeout => 504,
        }
    }

    /// The words that tell a client of this failure.
    pub open spec fn message_text(self) -> Seq<char> {
        match self {
            SignalError::Validation(e) => fault_text(e),
            SignalError::NotFound => "unknown resource"@,
            SignalError::Conflict => "resource already answered"@,
            SignalError::Upstream => "media pipeline failure"@,
            SignalError::Timeout => "no offer became available in time"@,
        }
    }

    /// The HTTP status that tells a client of this failure.
    pub fn status(&self) -> (code: u16)
        ensures
            code == self.status_code(),
    {
        match self {
            SignalError::Validation(_) => 400,
            SignalError::NotFound => 404,
            SignalError::Conflict => 409,
            SignalError::Upstream => 502,
            SignalError::Timeout => 504,
        }
    }

    /// The words that tell a client of this failure. They hold nothing of
    /// the state of the exchange.
    pub fn message(&self) -> (text: String)
        ensures
            text@ == self.message_text(),
    {
        match self {
            SignalError::Validation(e) => e.describe(),
            SignalError::NotFound => String::from_str("unknown resource"),
            SignalError::Conflict => String::from_str("resource already answered"),
            SignalError::Upstream => String::from_str("media pipeline failure"),
            SignalError::Timeout => String::from_str("no offer became available in time"),
        }
    }
}

/// Each failure has a status of its own.
pub proof fn lemma_status_tells_failure(a: SignalError, b: SignalError)
    requires
        a.status_code() == b.status_code(),
    ensures
        a is Validation <==> b is Validation,
        !(a is Validation) ==> a == b,
{
}

} // verus!
