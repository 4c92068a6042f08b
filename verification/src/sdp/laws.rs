//! The codec loses nothing: a text that the grammar accepts is the text of
//! its records, and the records of a text are found again from it.

use crate::sdp::grammar::{
    admissible, decode, decode_line, kinds_of, pieces, render, render_field, scan, value_byte,
    value_clean, value_fits, well_formed, Field, Kind, Reason, ValidationError, CR, EQUALS, LF,
};
use vstd::prelude::*;

verus! {

/// The line that carries a record, without its line feed.
pub open spec fn line_of(field: Field) -> Seq<u8> {
    seq![field.kind.letter(), EQUALS] + field.value + seq![CR]
}

/// The lines of a sequence of records.
pub open spec fn lines_of(fields: Seq<Field>) -> Seq<Seq<u8>> {
    fields.map_values(|f: Field| line_of(f))
}

/// Whether a run of bytes holds no line feed.
pub open spec fn one_line(bytes: Seq<u8>) -> bool {
    forall|i: int| 0 <= i < bytes.len() ==> #[trigger] bytes[i] != LF
}

/// A text has one piece at least.
pub proof fn lemma_pieces_len(text: Seq<u8>)
    ensures
        pieces(text).len() >= 1,
    decreases text.len(),
{
    if text.len() > 0 {
        lemma_pieces_len(text.drop_last());
    }
}

/// Bytes without a line feed, put after a text, lengthen its last piece.
pub proof fn lemma_pieces_extend(text: Seq<u8>, more: Seq<u8>)
    requires
        one_line(more),
    ensures
        pieces(text + more) == pieces(text).drop_last().push(pieces(text).last() + more),
    decreases more.len(),
{
    lemma_pieces_len(text);
    if more.len() == 0 {
        assert(text + more == text);
        assert(pieces(text).last() + more == pieces(text).last());
        assert(pieces(text).drop_last().push(pieces(text).last()) == pieces(text));
    } else {
        let shorter = more.drop_last();
        lemma_pieces_extend(text, shorter);
        assert((text + more).drop_last() == text + shorter);
        assert((text + more).last() == more.last());
        assert(more[more.len() - 1] != LF);
        let before = pieces(text + shorter);
        assert(before.last() == pieces(text).last() + shorter);
        assert((pieces(text).last() + shorter).push(more.last()) == pieces(text).last() + more);
        assert(before.update(before.len() - 1, before.last().push(more.last())) == pieces(
            text,
        ).drop_last().push(pieces(text).last() + more));
    }
}

/// A line with its line feed, put after a text, closes the last piece of
/// the text and opens an empty one.
pub proof fn lemma_pieces_line(text: Seq<u8>, line: Seq<u8>)
    requires
        one_line(line),
    ensures
        pieces(text + line + seq![LF]) == pieces(text).drop_last().push(
            pieces(text).last() + line,
        ).push(Seq::empty()),
{
    lemma_pieces_extend(text, line);
    let whole = text + line + seq![LF];
    assert(whole.drop_last() == text + line);
    assert(whole.last() == LF);
}

/// The line of a record that the grammar accepts holds no line feed.
pub proof fn lemma_line_of_is_one_line(field: Field)
    requires
        value_clean(field.value),
    ensures
        one_line(line_of(field)),
        render_field(field) == line_of(field) + seq![LF],
{
    let line = line_of(field);
    assert forall|i: int| 0 <= i < line.len() implies #[trigger] line[i] != LF by {
        if 2 <= i < line.len() - 1 {
            assert(line[i] == field.value[i - 2]);
            assert(value_byte(field.value[i - 2]));
        }
    }
    assert(render_field(field) =~= line_of(field) + seq![LF]);
}

/// The pieces of the text of records are their lines, and an empty piece
/// after the last line feed.
pub proof fn lemma_pieces_of_render(fields: Seq<Field>)
    requires
        forall|i: int| 0 <= i < fields.len() ==> value_clean(#[trigger] fields[i].value),
    ensures
        pieces(render(fields)) == lines_of(fields).push(Seq::empty()),
    decreases fields.len(),
{
    if fields.len() == 0 {
        assert(pieces(render(fields)) =~= lines_of(fields).push(Seq::empty()));
    } else {
        let earlier = fields.drop_last();
        let last = fields.last();
        lemma_pieces_of_render(earlier);
        assert(value_clean(fields[fields.len() - 1].value));
        lemma_line_of_is_one_line(last);
        lemma_pieces_line(render(earlier), line_of(last));
        assert(render(fields) == render(earlier) + line_of(last) + seq![LF]) by {
            assert(render(earlier) + (line_of(last) + seq![LF]) =~= render(earlier) + line_of(last)
                + seq![LF]);
        }
        let before = pieces(render(earlier));
        assert(before.last() + line_of(last) =~= line_of(last));
        assert(before.drop_last() =~= lines_of(earlier));
        assert(lines_of(earlier).push(line_of(last)) =~= lines_of(fields));
    }
}

/// Each type is found again from its letter.
pub proof fn lemma_letter_round_trip(kind: Kind)
    ensures
        Kind::of_letter(kind.letter()) == Some(kind),
{
}

/// Each letter is found again from its type.
pub proof fn lemma_of_letter_round_trip(letter: u8)
    requires
        Kind::of_letter(letter) is Some,
    ensures
        Kind::of_letter(letter)->0.letter() == letter,
{
}

/// The line of a record that the grammar accepts carries that record.
pub proof fn lemma_decode_line_of(field: Field)
    requires
        value_fits(field.kind, field.value),
    ensures
        decode_line(line_of(field)) == Ok::<Field, Reason>(field),
{
    let line = line_of(field);
    lemma_letter_round_trip(field.kind);
    assert(line.last() == CR);
    assert(line[0] == field.kind.letter());
    assert(line[1] == EQUALS);
    assert(line.subrange(2, line.len() - 1) =~= field.value);
}

/// A line that carries a record is the line of that record, and the
/// grammar accepts the record's value.
pub proof fn lemma_line_of_decoded(line: Seq<u8>, field: Field)
    requires
        decode_line(line) == Ok::<Field, Reason>(field),
    ensures
        line == line_of(field),
        value_fits(field.kind, field.value),
{
    lemma_of_letter_round_trip(line[0]);
    assert(line =~= line_of(field));
}

/// Whether a type may stand at a place depends on the types up to that
/// place only.
pub proof fn lemma_admissible_prefix(kinds: Seq<Kind>, upto: int, at: int)
    requires
        0 <= at < upto <= kinds.len(),
    ensures
        admissible(kinds.take(upto), at) == admissible(kinds, at),
{
    assert(kinds.take(upto).take(at) == kinds.take(at));
}

/// The types of the first records are the first of the types.
pub proof fn lemma_kinds_of_take(fields: Seq<Field>, upto: int)
    requires
        0 <= upto <= fields.len(),
    ensures
        kinds_of(fields.take(upto)) == kinds_of(fields).take(upto),
{
    assert(kinds_of(fields.take(upto)) =~= kinds_of(fields).take(upto));
}

/// Reading the lines of records that the grammar accepts gives the records.
pub proof fn lemma_scan_lines_of(fields: Seq<Field>, upto: int)
    requires
        well_formed(fields),
        0 <= upto <= fields.len(),
    ensures
        scan(lines_of(fields).push(Seq::empty()), upto) == Ok::<Seq<Field>, ValidationError>(
            fields.take(upto),
        ),
    decreases upto,
{
    let lines = lines_of(fields).push(Seq::empty());
    if upto == 0 {
        assert(fields.take(0) == Seq::<Field>::empty());
    } else {
        lemma_scan_lines_of(fields, upto - 1);
        let field = fields[upto - 1];
        assert(lines[upto - 1] == line_of(field));
        assert(value_fits(fields[upto - 1].kind, fields[upto - 1].value));
        lemma_decode_line_of(field);
        assert(fields.take(upto - 1).push(field) == fields.take(upto));
        lemma_kinds_of_take(fields, upto);
        lemma_admissible_prefix(kinds_of(fields), upto, upto - 1);
        assert(admissible(kinds_of(fields), upto - 1));
    }
}

/// The text of records that the grammar accepts is read back as those records.
pub proof fn lemma_render_then_decode(fields: Seq<Field>)
    requires
        well_formed(fields),
    ensures
        decode(render(fields)) == Ok::<Seq<Field>, ValidationError>(fields),
{
    assert forall|i: int| 0 <= i < fields.len() implies value_clean(#[trigger] fields[i].value) by {
        assert(value_fits(fields[i].kind, fields[i].value));
    }
    lemma_pieces_of_render(fields);
    lemma_scan_lines_of(fields, fields.len() as int);
    assert(fields.take(fields.len() as int) == fields);
    assert(kinds_of(fields).len() == fields.len());
}

/// The last piece of a text is empty exactly where the text is empty or
/// ends in a line feed; else it ends in the last byte of the text.
pub proof fn lemma_last_piece(text: Seq<u8>)
    ensures
        pieces(text).len() >= 1,
        text.len() == 0 ==> pieces(text) == seq![Seq::<u8>::empty()],
        text.len() > 0 && text.last() == LF ==> pieces(text).len() >= 2 && pieces(text).last().len()
            == 0 && pieces(text).drop_last() == pieces(text.drop_last()),
        text.len() > 0 && text.last() != LF ==> pieces(text).last().len() > 0 && pieces(
            text,
        ).last().last() == text.last() && pieces(text.drop_last()) == pieces(text).update(
            pieces(text).len() - 1,
            pieces(text).last().drop_last(),
        ),
{
    lemma_pieces_len(text);
    if text.len() > 0 {
        let before = pieces(text.drop_last());
        lemma_pieces_len(text.drop_last());
        if text.last() == LF {
            assert(before.push(Seq::<u8>::empty()).drop_last() == before);
        } else {
            let grown = before.last().push(text.last());
            assert(grown.drop_last() == before.last());
            assert(before.update(before.len() - 1, grown).update(before.len() - 1, before.last())
                == before);
        }
    }
}

/// Two texts with the same pieces are the same text.
pub proof fn lemma_pieces_injective(a: Seq<u8>, b: Seq<u8>)
    requires
        pieces(a) == pieces(b),
    ensures
        a == b,
    decreases a.len(),
{
    lemma_last_piece(a);
    lemma_last_piece(b);
    if a.len() == 0 {
        if b.len() > 0 {
            assert(false);
        }
        assert(a =~= b);
    } else if b.len() == 0 {
        assert(false);
    } else {
        if a.last() == LF {
            assert(b.last() == LF);
            lemma_pieces_injective(a.drop_last(), b.drop_last());
        } else {
            assert(b.last() != LF);
            lemma_pieces_injective(a.drop_last(), b.drop_last());
        }
        assert(a == a.drop_last().push(a.last()));
        assert(b == b.drop_last().push(b.last()));
    }
}

/// Lines that are read without fault are the lines of the records read
/// from them, each of which the grammar accepts where it stands.
pub proof fn lemma_scan_ok(lines: Seq<Seq<u8>>, upto: int, fields: Seq<Field>)
    requires
        0 <= upto <= lines.len(),
        scan(lines, upto) == Ok::<Seq<Field>, ValidationError>(fields),
    ensures
        fields.len() == upto,
        lines.take(upto) == lines_of(fields),
        forall|i: int| 0 <= i < upto ==> value_fits(#[trigger] fields[i].kind, fields[i].value),
        forall|i: int| 0 <= i < upto ==> admissible(kinds_of(fields), i),
    decreases upto,
{
    if upto == 0 {
        assert(lines.take(0) =~= lines_of(fields));
    } else {
        let earlier = scan(lines, upto - 1)->Ok_0;
        let field = decode_line(lines[upto - 1])->Ok_0;
        lemma_scan_ok(lines, upto - 1, earlier);
        lemma_line_of_decoded(lines[upto - 1], field);
        assert(fields == earlier.push(field));
        assert(lines.take(upto) =~= lines_of(fields)) by {
            assert forall|i: int| 0 <= i < upto implies lines.take(upto)[i] == lines_of(
                fields,
            )[i] by {
                if i < upto - 1 {
                    assert(lines.take(upto - 1)[i] == lines_of(earlier)[i]);
                }
            }
        }
        assert forall|i: int| 0 <= i < upto implies admissible(kinds_of(fields), i) by {
            if i < upto - 1 {
                assert(fields.take(upto - 1) == earlier);
                lemma_kinds_of_take(fields, upto - 1);
                lemma_admissible_prefix(kinds_of(fields), upto - 1, i);
            }
        }
    }
}

/// A text that is read without fault is the text of the records read
/// from it, and the grammar accepts them.
pub proof fn lemma_decode_then_render(text: Seq<u8>)
    requires
        decode(text) is Ok,
    ensures
        well_formed(decode(text)->Ok_0),
        render(decode(text)->Ok_0) == text,
{
    let fields = decode(text)->Ok_0;
    let lines = pieces(text);
    lemma_pieces_len(text);
    let count = lines.len() - 1;
    lemma_scan_ok(lines, count, fields);
    assert(well_formed(fields)) by {
        assert(kinds_of(fields).len() == fields.len());
    }
    assert forall|i: int| 0 <= i < fields.len() implies value_clean(#[trigger] fields[i].value) by {
        assert(value_fits(fields[i].kind, fields[i].value));
    }
    lemma_pieces_of_render(fields);
    assert(lines =~= lines_of(fields).push(Seq::empty())) by {
        assert(lines.take(count) == lines_of(fields));
        assert(lines.last() =~= Seq::<u8>::empty());
        assert forall|i: int| 0 <= i < lines.len() implies lines[i] == lines_of(fields).push(
            Seq::empty(),
        )[i] by {
            if i < count {
                assert(lines.take(count)[i] == lines[i]);
            }
        }
    }
    lemma_pieces_injective(render(fields), text);
}

/// A text is a session description exactly where it is the text of
/// records that the grammar accepts, and then of those records only.
pub proof fn lemma_codec_is_lossless(text: Seq<u8>, fields: Seq<Field>)
    ensures
        decode(text) == Ok::<Seq<Field>, ValidationError>(fields) <==> well_formed(fields)
            && render(fields) == text,
{
    if decode(text) == Ok::<Seq<Field>, ValidationError>(fields) {
        lemma_decode_then_render(text);
    }
    if well_formed(fields) && render(fields) == text {
        lemma_render_then_decode(fields);
    }
}

} // verus!
