//! The grammar of a session description, as specification.
//!
//! A description is a text of records, one per line, each line ended by a
//! carriage return and a line feed. A record is a type letter, an equals
//! sign and a value. The records of the session come first, in a fixed
//! order, then any number of media sections, each opened by a media record.

use vstd::prelude::*;

verus! {

/// Line feed, which ends every line.
pub const LF: u8 = 10;

/// Carriage return, which precedes every line feed.
pub const CR: u8 = 13;

/// The sign between a record's type letter and its value.
pub const EQUALS: u8 = 61;

/// The digit that is the only protocol version.
pub const ZERO: u8 = 48;

/// The type of a record.
#[derive(Clone, Copy, Debug, PartialEq, Eq, Structural)]
pub enum Kind {
    Version,
    Origin,
    SessionName,
    Information,
    Uri,
    Email,
    Phone,
    Connection,
    Bandwidth,
    Timing,
    Repeat,
    TimeZone,
    Key,
    Attribute,
    Media,
}

impl Kind {
    /// The letter that stands for this type in a text.
    pub open spec fn letter(self) -> u8 {
        match self {
            Kind::Version => 118,
            Kind::Origin => 111,
            Kind::SessionName => 115,
            Kind::Information => 105,
            Kind::Uri => 117,
            Kind::Email => 101,
            Kind::Phone => 112,
            Kind::Connection => 99,
            Kind::Bandwidth => 98,
            Kind::Timing => 116,
            Kind::Repeat => 114,
            Kind::TimeZone => 122,
            Kind::Key => 107,
            Kind::Attribute => 97,
            Kind::Media => 109,
        }
    }

    /// The type that a letter stands for, if any.
    pub open spec fn of_letter(letter: u8) -> Option<Kind> {
        if letter == 118 {
            Some(Kind::Version)
        } else if letter == 111 {
            Some(Kind::Origin)
        } else if letter == 115 {
            Some(Kind::SessionName)
        } else if letter == 105 {
            Some(Kind::Information)
        } else if letter == 117 {
            Some(Kind::Uri)
        } else if letter == 101 {
            Some(Kind::Email)
        } else if letter == 112 {
            Some(Kind::Phone)
        } else if letter == 99 {
            Some(Kind::Connection)
        } else if letter == 98 {
            Some(Kind::Bandwidth)
        } else if letter == 116 {
            Some(Kind::Timing)
        } else if letter == 114 {
            Some(Kind::Repeat)
        } else if letter == 122 {
            Some(Kind::TimeZone)
        } else if letter == 107 {
            Some(Kind::Key)
        } else if letter == 97 {
            Some(Kind::Attribute)
        } else if letter == 109 {
            Some(Kind::Media)
        } else {
            None
        }
    }

    /// The place of this type among the records of the session, which come
    /// in this order. A media record closes the session's own records.
    pub open spec fn session_rank(self) -> int {
        match self {
            Kind::Version => 0,
            Kind::Origin => 1,
            Kind::SessionName => 2,
            Kind::Information => 3,
            Kind::Uri => 4,
            Kind::Email => 5,
            Kind::Phone => 6,
            Kind::Connection => 7,
            Kind::Bandwidth => 8,
            Kind::Timing => 9,
            Kind::Repeat => 10,
            Kind::TimeZone => 11,
            Kind::Key => 12,
            Kind::Attribute => 13,
            Kind::Media => 14,
        }
    }

    /// The place of this type within a media section, or -1 where a media
    /// section cannot hold it.
    pub open spec fn media_rank(self) -> int {
        match self {
            Kind::Media => 0,
            Kind::Information => 1,
            Kind::Connection => 2,
            Kind::Bandwidth => 3,
            Kind::Key => 4,
            Kind::Attribute => 5,
            _ => -1,
        }
    }

    /// Whether the session may hold several records of this type in a row.
    pub open spec fn repeats_in_session(self) -> bool {
        self == Kind::Email || self == Kind::Phone || self == Kind::Bandwidth
            || self == Kind::Timing || self == Kind::Repeat || self == Kind::Attribute
    }

    /// Whether a media section may hold several records of this type in a row.
    pub open spec fn repeats_in_media(self) -> bool {
        self == Kind::Connection || self == Kind::Bandwidth || self == Kind::Attribute
    }
}

/// The highest rank that may directly follow `rank` in the session: the
/// records of version, origin, session name and timing cannot be passed over.
pub open spec fn session_ceiling(rank: int) -> int {
    if rank < 0 {
        0
    } else if rank < 1 {
        1
    } else if rank < 2 {
        2
    } else if rank < 9 {
        9
    } else {
        14
    }
}

/// Whether a record of type `next` may directly follow one of type `prev`
/// among the records of the session.
pub open spec fn follows_in_session(prev: Kind, next: Kind) -> bool {
    let p = prev.session_rank();
    let n = next.session_rank();
    ||| p < n <= session_ceiling(p)
    ||| (n == p && next.repeats_in_session())
    ||| (prev == Kind::Repeat && next == Kind::Timing)
}

/// Whether a record of type `next` may directly follow one of type `prev`
/// within a media section.
pub open spec fn follows_in_media(prev: Kind, next: Kind) -> bool {
    let p = prev.media_rank();
    let n = next.media_rank();
    ||| next == Kind::Media
    ||| 0 <= p < n
    ||| (0 < n == p && next.repeats_in_media())
}

/// Whether the first `at` types of `kinds` hold a media record.
pub open spec fn in_media(kinds: Seq<Kind>, at: int) -> bool {
    kinds.take(at).contains(Kind::Media)
}

/// Whether a record of type `next` may stand after `prev`, the type of the
/// record before it if there is one: the first record is the version, and
/// each later one follows by the rules of the session, or by those of a media
/// section once a media record has been seen.
pub open spec fn may_stand(media_seen: bool, prev: Option<Kind>, next: Kind) -> bool {
    match prev {
        None => next == Kind::Version,
        Some(p) => if media_seen {
            follows_in_media(p, next)
        } else {
            follows_in_session(p, next)
        },
    }
}

/// Whether the type at index `at` may stand where it does.
pub open spec fn admissible(kinds: Seq<Kind>, at: int) -> bool {
    may_stand(
        in_media(kinds, at),
        if at == 0 {
            None
        } else {
            Some(kinds[at - 1])
        },
        kinds[at],
    )
}

/// Whether a description may end after these types: it holds at least the
/// records up to a timing record.
pub open spec fn may_end(kinds: Seq<Kind>) -> bool {
    kinds.len() > 0 && (in_media(kinds, kinds.len() as int) || kinds.last().session_rank() >= 9)
}

/// Whether the types stand in an order that the grammar accepts.
pub open spec fn well_ordered(kinds: Seq<Kind>) -> bool {
    &&& forall|i: int| 0 <= i < kinds.len() ==> admissible(kinds, i)
    &&& may_end(kinds)
}

/// A record as the grammar sees it: its type and the bytes of its value.
pub struct Field {
    pub kind: Kind,
    pub value: Seq<u8>,
}

/// The types of a sequence of records.
pub open spec fn kinds_of(fields: Seq<Field>) -> Seq<Kind> {
    fields.map_values(|f: Field| f.kind)
}

/// Whether a byte may stand in a value: any but NUL and the two that end a line.
pub open spec fn value_byte(b: u8) -> bool {
    b != 0 && b != CR && b != LF
}

/// Whether `value` is not empty and holds no NUL, carriage return or line feed.
pub open spec fn value_clean(value: Seq<u8>) -> bool {
    &&& value.len() > 0
    &&& forall|j: int| 0 <= j < value.len() ==> value_byte(#[trigger] value[j])
}

/// Whether `value` is a value that a record of type `kind` may have: it is
/// clean, and that of a version record is the single digit zero.
pub open spec fn value_fits(kind: Kind, value: Seq<u8>) -> bool {
    &&& value_clean(value)
    &&& kind == Kind::Version ==> value == seq![ZERO]
}

/// Whether the records form a session description.
pub open spec fn well_formed(fields: Seq<Field>) -> bool {
    &&& forall|i: int| 0 <= i < fields.len() ==> value_fits(#[trigger] fields[i].kind, fields[i].value)
    &&& well_ordered(kinds_of(fields))
}

/// The line that carries a record, with its line ending.
pub open spec fn render_field(field: Field) -> Seq<u8> {
    seq![field.kind.letter(), EQUALS] + field.value + seq![CR, LF]
}

/// The text of a sequence of records: their lines, one after the other.
pub open spec fn render(fields: Seq<Field>) -> Seq<u8>
    decreases fields.len(),
{
    if fields.len() == 0 {
        Seq::empty()
    } else {
        render(fields.drop_last()) + render_field(fields.last())
    }
}

/// Why a text is no session description.
#[derive(Clone, Copy, Debug, PartialEq, Eq, Structural)]
pub enum Reason {
    /// The text holds no line at all.
    Empty,
    /// The line does not end in a carriage return and a line feed.
    Unterminated,
    /// The line is not a letter, an equals sign and a value.
    Malformed,
    /// The letter stands for no record type.
    UnknownType,
    /// The value is empty, or holds a NUL or a carriage return.
    BadValue,
    /// The version is not zero.
    UnsupportedVersion,
    /// A record of this type cannot stand at this place.
    Misplaced,
    /// The text ends before a timing record.
    Incomplete,
}

/// The first fault of a text: the line that has it, counted from zero, and
/// what it is. For a text that ends too early, `line` is the number of its lines.
#[derive(Clone, Copy, Debug, PartialEq, Eq, Structural)]
pub struct ValidationError {
    pub line: usize,
    pub reason: Reason,
}

/// The text cut at each line feed. There is one piece more than there are
/// line feeds; the last piece is what follows the last line feed.
pub open spec fn pieces(text: Seq<u8>) -> Seq<Seq<u8>>
    decreases text.len(),
{
    if text.len() == 0 {
        seq![Seq::empty()]
    } else {
        let before = pieces(text.drop_last());
        if text.last() == LF {
            before.push(Seq::empty())
        } else {
            before.update(before.len() - 1, before.last().push(text.last()))
        }
    }
}

/// The record that a line carries, the line given without its line feed, or
/// the fault that the line has by itself.
pub open spec fn decode_line(line: Seq<u8>) -> Result<Field, Reason> {
    if line.len() == 0 || line.last() != CR {
        Err(Reason::Unterminated)
    } else if line.len() < 3 || line[1] != EQUALS {
        Err(Reason::Malformed)
    } else {
        match Kind::of_letter(line[0]) {
            None => Err(Reason::UnknownType),
            Some(kind) => {
                let value = line.subrange(2, line.len() - 1);
                if !value_clean(value) {
                    Err(Reason::BadValue)
                } else if kind == Kind::Version && value != seq![ZERO] {
                    Err(Reason::UnsupportedVersion)
                } else {
                    Ok(Field { kind, value })
                }
            },
        }
    }
}

/// The records of the first `upto` lines, or the first fault among them. A
/// line is at fault by itself, or because its record cannot stand after
/// those before it.
pub open spec fn scan(lines: Seq<Seq<u8>>, upto: int) -> Result<Seq<Field>, ValidationError>
    decreases upto,
{
    if upto <= 0 {
        Ok(Seq::empty())
    } else {
        match scan(lines, upto - 1) {
            Err(e) => Err(e),
            Ok(fields) => match decode_line(lines[upto - 1]) {
                Err(reason) => Err(ValidationError { line: (upto - 1) as usize, reason }),
                Ok(field) => if admissible(kinds_of(fields.push(field)), upto - 1) {
                    Ok(fields.push(field))
                } else {
                    Err(ValidationError { line: (upto - 1) as usize, reason: Reason::Misplaced })
                },
            },
        }
    }
}

/// The records of a text, or its first fault.
pub open spec fn decode(text: Seq<u8>) -> Result<Seq<Field>, ValidationError> {
    let lines = pieces(text);
    let count = lines.len() - 1;
    match scan(lines, count) {
        Err(e) => Err(e),
        Ok(fields) => if lines.last().len() > 0 {
            Err(ValidationError { line: count as usize, reason: Reason::Unterminated })
        } else if count == 0 {
            Err(ValidationError { line: 0, reason: Reason::Empty })
        } else if !may_end(kinds_of(fields)) {
            Err(ValidationError { line: count as usize, reason: Reason::Incomplete })
        } else {
            Ok(fields)
        },
    }
}

} // verus!
