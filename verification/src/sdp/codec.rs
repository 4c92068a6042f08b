//! Reading a text against the grammar.

use crate::sdp::grammar::{
    decode, decode_line, in_media, kinds_of, may_stand, pieces, render, render_field, scan,
    value_byte, value_clean, Field, Kind, Reason, ValidationError, CR, EQUALS, LF, ZERO,
};
use vstd::prelude::*;
use vstd::slice::{slice_subrange, slice_to_vec};

verus! {

/// A record of a session description: its type and its value.
#[derive(Debug, PartialEq, Eq)]
pub struct Record {
    pub kind: Kind,
    pub value: Vec<u8>,
}

impl View for Record {
    type V = Field;

    open spec fn view(&self) -> Field {
        Field { kind: self.kind, value: self.value@ }
    }
}

impl Kind {
    /// The type that a letter stands for, if any.
    pub fn from_letter(letter: u8) -> (kind: Option<Kind>)
        ensures
            kind == Kind::of_letter(letter),
    {
        if letter == 118 {
            Some(Kind::Version)
        } else if letter == 111 {
            Some(Kind::Origin)
        } else if letter == 115 {
            Some(Kind::SessionName)
        } else if letter == 105 {
            Some(Kind::Information)
        } else if letter == 117 {
            Some(Kind::Uri)
        } else if letter == 101 {
            Some(Kind::Email)
        } else if letter == 112 {
            Some(Kind::Phone)
        } else if letter == 99 {
            Some(Kind::Connection)
        } else if letter == 98 {
            Some(Kind::Bandwidth)
        } else if letter == 116 {
            Some(Kind::Timing)
        } else if letter == 114 {
            Some(Kind::Repeat)
        } else if letter == 122 {
            Some(Kind::TimeZone)
        } else if letter == 107 {
            Some(Kind::Key)
        } else if letter == 97 {
            Some(Kind::Attribute)
        } else if letter == 109 {
            Some(Kind::Media)
        } else {
            None
        }
    }

    /// The place of this type among the records of the session.
    pub fn session_place(self) -> (rank: i8)
        ensures
            rank == self.session_rank(),
    {
        match self {
            Kind::Version => 0,
            Kind::Origin => 1,
            Kind::SessionName => 2,
            Kind::Information => 3,
            Kind::Uri => 4,
            Kind::Email => 5,
            Kind::Phone => 6,
            Kind::Connection => 7,
            Kind::Bandwidth => 8,
            Kind::Timing => 9,
            Kind::Repeat => 10,
            Kind::TimeZone => 11,
            Kind::Key => 12,
            Kind::Attribute => 13,
            Kind::Media => 14,
        }
    }

    /// The place of this type within a media section, or -1 where a media
    /// section cannot hold it.
    pub fn media_place(self) -> (rank: i8)
        ensures
            rank == self.media_rank(),
    {
        match self {
            Kind::Media => 0,
            Kind::Information => 1,
            Kind::Connection => 2,
            Kind::Bandwidth => 3,
            Kind::Key => 4,
            Kind::Attribute => 5,
            _ => -1,
        }
    }

    /// The letter that stands for this type in a text.
    pub fn as_letter(self) -> (letter: u8)
        ensures
            letter == self.letter(),
            Kind::of_letter(letter) == Some(self),
    {
        match self {
            Kind::Version => 118,
            Kind::Origin => 111,
            Kind::SessionName => 115,
            Kind::Information => 105,
            Kind::Uri => 117,
            Kind::Email => 101,
            Kind::Phone => 112,
            Kind::Connection => 99,
            Kind::Bandwidth => 98,
            Kind::Timing => 116,
            Kind::Repeat => 114,
            Kind::TimeZone => 122,
            Kind::Key => 107,
            Kind::Attribute => 97,
            Kind::Media => 109,
        }
    }
}

/// Cuts a text at each line feed.
pub fn split_lines(text: &[u8]) -> (lines: Vec<&[u8]>)
    ensures
        lines@.len() >= 1,
        lines@.len() == pieces(text@).len(),
        forall|i: int| 0 <= i < lines@.len() ==> (#[trigger] lines@[i])@ == pieces(text@)[i],
{
    let mut lines: Vec<&[u8]> = Vec::new();
    let mut start: usize = 0;
    let mut at: usize = 0;
    while at < text.len()
        invariant
            0 <= start <= at <= text@.len(),
            pieces(text@.take(at as int)).len() == lines@.len() + 1,
            forall|i: int|
                0 <= i < lines@.len() ==> (#[trigger] lines@[i])@ == pieces(
                    text@.take(at as int),
                )[i],
            pieces(text@.take(at as int)).last() == text@.subrange(start as int, at as int),
        decreases text@.len() - at,
    {
        let ghost before = pieces(text@.take(at as int));
        assert(text@.take(at + 1).drop_last() == text@.take(at as int));
        assert(text@.take(at + 1).last() == text@[at as int]);
        if text[at] == LF {
            let line = slice_subrange(text, start, at);
            lines.push(line);
            start = at + 1;
            assert(pieces(text@.take(at + 1)) == before.push(Seq::empty()));
            assert(text@.subrange(start as int, at + 1) == Seq::<u8>::empty());
        } else {
            assert(pieces(text@.take(at + 1)) == before.update(
                before.len() - 1,
                before.last().push(text@[at as int]),
            ));
            assert(text@.subrange(start as int, at + 1) == text@.subrange(
                start as int,
                at as int,
            ).push(text@[at as int]));
        }
        at = at + 1;
    }
    assert(text@.take(at as int) == text@);
    let tail = slice_subrange(text, start, at);
    lines.push(tail);
    lines
}

/// Whether a record of type `next` may stand after `prev`, by the rules of
/// the session or, once a media record has been seen, by those of a media section.
pub fn fits(media_seen: bool, prev: Option<Kind>, next: Kind) -> (ok: bool)
    ensures
        ok == may_stand(media_seen, prev, next),
{
    match prev {
        None => next == Kind::Version,
        Some(p) => {
            if media_seen {
                let pr: i8 = p.media_place();
                let nr: i8 = next.media_place();
                next == Kind::Media || (0 <= pr && pr < nr) || (0 < nr && nr == pr && (next
                    == Kind::Connection || next == Kind::Bandwidth || next == Kind::Attribute))
            } else {
                let pr: i8 = p.session_place();
                let nr: i8 = next.session_place();
                let ceiling: i8 = if pr < 1 {
                    1
                } else if pr < 2 {
                    2
                } else if pr < 9 {
                    9
                } else {
                    14
                };
                (pr < nr && nr <= ceiling) || (nr == pr && (next == Kind::Email || next
                    == Kind::Phone || next == Kind::Bandwidth || next == Kind::Timing || next
                    == Kind::Repeat || next == Kind::Attribute)) || (p == Kind::Repeat && next
                    == Kind::Timing)
            }
        },
    }
}

/// Reads the record of one line, given without its line feed.
pub fn read_line(line: &[u8]) -> (r: Result<Record, Reason>)
    ensures
        match r {
            Ok(record) => decode_line(line@) == Ok::<Field, Reason>(record@),
            Err(reason) => decode_line(line@) == Err::<Field, Reason>(reason),
        },
{
    let n: usize = line.len();
    if n == 0 || line[n - 1] != CR {
        return Err(Reason::Unterminated);
    }
    if n < 3 || line[1] != EQUALS {
        return Err(Reason::Malformed);
    }
    let kind = match Kind::from_letter(line[0]) {
        None => {
            return Err(Reason::UnknownType);
        },
        Some(kind) => kind,
    };
    let body = slice_subrange(line, 2, n - 1);
    if body.len() == 0 {
        return Err(Reason::BadValue);
    }
    let mut j: usize = 0;
    while j < body.len()
        invariant
            0 <= j <= body@.len(),
            forall|k: int| 0 <= k < j ==> value_byte(#[trigger] body@[k]),
            n == line@.len(),
            n >= 3,
            line@.last() == CR,
            line@[1] == EQUALS,
            Kind::of_letter(line@[0]) == Some(kind),
            body@ == line@.subrange(2, n - 1),
        decreases body@.len() - j,
    {
        let b: u8 = body[j];
        if b == 0 || b == CR || b == LF {
            assert(!value_byte(body@[j as int]));
            return Err(Reason::BadValue);
        }
        j = j + 1;
    }
    assert(value_clean(body@));
    if kind == Kind::Version && !(body.len() == 1 && body[0] == ZERO) {
        assert(body@ != seq![ZERO]) by {
            if body@.len() == 1 {
                assert(body@[0] != seq![ZERO][0]);
            }
        }
        return Err(Reason::UnsupportedVersion);
    }
    if kind == Kind::Version {
        assert(body@ =~= seq![ZERO]);
    }
    Ok(Record { kind, value: slice_to_vec(body) })
}

/// The records of a sequence, each as the grammar sees it.
pub open spec fn fields_of(records: Seq<Record>) -> Seq<Field> {
    records.map_values(|r: Record| r@)
}

/// What one more type changes in whether a media record has been seen.
pub proof fn lemma_in_media_push(kinds: Seq<Kind>, next: Kind)
    ensures
        in_media(kinds.push(next), kinds.len() as int) == kinds.contains(Kind::Media),
        in_media(kinds.push(next), kinds.len() as int + 1) == (kinds.contains(Kind::Media) || next
            == Kind::Media),
{
    let more = kinds.push(next);
    assert(more.take(kinds.len() as int) == kinds);
    assert(more.take(kinds.len() as int + 1) == more);
    if kinds.contains(Kind::Media) {
        let j = choose|j: int| 0 <= j < kinds.len() && kinds[j] == Kind::Media;
        assert(more[j] == Kind::Media);
    }
    if next == Kind::Media {
        assert(more[kinds.len() as int] == Kind::Media);
    }
}

/// A fault among the first lines is the fault of any longer run of lines.
pub proof fn lemma_scan_fault_stays(lines: Seq<Seq<u8>>, upto: int, later: int)
    requires
        upto <= later,
        scan(lines, upto) is Err,
    ensures
        scan(lines, later) == scan(lines, upto),
    decreases later - upto,
{
    if upto < later {
        lemma_scan_fault_stays(lines, upto, later - 1);
    }
}

/// Reads the records of a text, or finds its first fault.
pub fn read_fields(text: &[u8]) -> (r: Result<Vec<Record>, ValidationError>)
    ensures
        match r {
            Ok(records) => decode(text@) == Ok::<Seq<Field>, ValidationError>(
                fields_of(records@),
            ),
            Err(e) => decode(text@) == Err::<Seq<Field>, ValidationError>(e),
        },
{
    let lines = split_lines(text);
    let count: usize = lines.len() - 1;
    let ghost ps = pieces(text@);
    let mut records: Vec<Record> = Vec::new();
    let mut media_seen: bool = false;
    let mut prev: Option<Kind> = None;
    let mut i: usize = 0;
    assert(fields_of(records@) == Seq::<Field>::empty());
    assert(!kinds_of(fields_of(records@)).contains(Kind::Media));
    while i < count
        invariant
            ps == pieces(text@),
            lines@.len() == ps.len(),
            count == lines@.len() - 1,
            forall|k: int| 0 <= k < lines@.len() ==> (#[trigger] lines@[k])@ == ps[k],
            0 <= i <= count,
            records@.len() == i,
            scan(ps, i as int) == Ok::<Seq<Field>, ValidationError>(fields_of(records@)),
            media_seen == kinds_of(fields_of(records@)).contains(Kind::Media),
            prev == (if i == 0 {
                None
            } else {
                Some(records@[i - 1].kind)
            }),
        decreases count - i,
    {
        let ghost fields = fields_of(records@);
        let ghost kinds = kinds_of(fields);
        assert(lines@[i as int]@ == ps[i as int]);
        match read_line(lines[i]) {
            Err(reason) => {
                proof {
                    lemma_scan_fault_stays(ps, i + 1, count as int);
                }
                return Err(ValidationError { line: i, reason });
            },
            Ok(record) => {
                proof {
                    lemma_in_media_push(kinds, record.kind);
                    assert(kinds_of(fields.push(record@)) == kinds.push(record.kind));
                    assert(fields_of(records@.push(record)) == fields.push(record@));
                    assert(kinds.len() == i);
                    if i > 0 {
                        assert(kinds.push(record.kind)[i - 1] == records@[i - 1].kind);
                    }
                }
                if !fits(media_seen, prev, record.kind) {
                    proof {
                        lemma_scan_fault_stays(ps, i + 1, count as int);
                    }
                    return Err(ValidationError { line: i, reason: Reason::Misplaced });
                }
                if record.kind == Kind::Media {
                    media_seen = true;
                }
                prev = Some(record.kind);
                records.push(record);
            },
        }
        i = i + 1;
    }
    assert(lines@[count as int]@ == ps[count as int]);
    if lines[count].len() > 0 {
        return Err(ValidationError { line: count, reason: Reason::Unterminated });
    }
    let ghost kinds = kinds_of(fields_of(records@));
    assert(kinds.take(kinds.len() as int) == kinds);
    match prev {
        None => Err(ValidationError { line: 0, reason: Reason::Empty }),
        Some(last) => {
            assert(kinds.last() == last);
            if media_seen || last.session_place() >= 9 {
                Ok(records)
            } else {
                Err(ValidationError { line: count, reason: Reason::Incomplete })
            }
        },
    }
}

/// Writes the text of records: each on a line of its own, ended by a
/// carriage return and a line feed.
pub fn serialize(records: &Vec<Record>) -> (text: Vec<u8>)
    ensures
        text@ == render(fields_of(records@)),
{
    let mut text: Vec<u8> = Vec::new();
    let mut i: usize = 0;
    assert(fields_of(records@).take(0) == Seq::<Field>::empty());
    while i < records.len()
        invariant
            0 <= i <= records@.len(),
            text@ == render(fields_of(records@).take(i as int)),
        decreases records@.len() - i,
    {
        let record = &records[i];
        let ghost field = record@;
        let ghost done = text@;
        text.push(record.kind.as_letter());
        text.push(EQUALS);
        let mut j: usize = 0;
        while j < record.value.len()
            invariant
                0 <= j <= record.value@.len(),
                text@ == done + seq![field.kind.letter(), EQUALS] + record.value@.take(j as int),
                field == record@,
            decreases record.value@.len() - j,
        {
            text.push(record.value[j]);
            assert(record.value@.take(j + 1) == record.value@.take(j as int).push(
                record.value@[j as int],
            ));
            j = j + 1;
        }
        text.push(CR);
        text.push(LF);
        proof {
            let fields = fields_of(records@);
            assert(record.value@.take(j as int) == record.value@);
            assert(fields.take(i + 1).drop_last() == fields.take(i as int));
            assert(fields.take(i + 1).last() == field);
            assert(text@ =~= done + render_field(field));
        }
        i = i + 1;
    }
    assert(fields_of(records@).take(i as int) == fields_of(records@));
    text
}

} // verus!
