//! The lines of a downloaded range, and the full hashes that the combined
//! file holds.
//!
//! The service answers a range with one hash suffix per line; the range's own
//! prefix in front of each of them makes the full hash.

use vstd::prelude::*;

use crate::outside::{from_utf8_lossy, utf8_lossy};

verus! {

/// The byte that ends a line.
pub const NEWLINE: u8 = 10;

/// The byte that may stand in front of the one that ends a line.
pub const CARRIAGE_RETURN: u8 = 13;

/// The place of the first line end at `from` or after it, or the length of
/// the text where there is none.
pub open spec fn line_end(text: Seq<u8>, from: int) -> int
    decreases text.len() - from,
{
    if from >= text.len() {
        text.len() as int
    } else if text[from] == NEWLINE {
        from
    } else {
        line_end(text, from + 1)
    }
}

/// A line that a line end follows, without the carriage return that belongs
/// to the line end.
pub open spec fn without_carriage_return(line: Seq<u8>) -> Seq<u8> {
    if line.len() > 0 && line.last() == CARRIAGE_RETURN {
        line.drop_last()
    } else {
        line
    }
}

/// The lines of a text. A line ends with a newline or with a carriage return
/// and a newline, neither of which is part of it; the last line needs no line
/// end.
pub open spec fn text_lines(text: Seq<u8>) -> Seq<Seq<u8>>
    decreases text.len(),
{
    if text.len() == 0 {
        Seq::empty()
    } else {
        let end = line_end(text, 0);
        if 0 <= end < text.len() {
            seq![without_carriage_return(text.take(end))] + text_lines(text.skip(end + 1))
        } else {
            seq![text]
        }
    }
}

/// Every line that is not empty, behind the prefix and with a newline after
/// it, in order.
pub open spec fn prefixed(prefix: Seq<u8>, lines: Seq<Seq<u8>>) -> Seq<u8>
    decreases lines.len(),
{
    if lines.len() == 0 {
        Seq::empty()
    } else {
        let rest = prefixed(prefix, lines.drop_first());
        if lines[0].len() == 0 {
            rest
        } else {
            prefix + lines[0] + seq![NEWLINE] + rest
        }
    }
}

/// The lines of a text behind a prefix; the last one has a newline after it
/// only if `final_newline` says so.
pub open spec fn prefixed_text(prefix: Seq<u8>, text: Seq<u8>, final_newline: bool) -> Seq<u8> {
    let whole = prefixed(prefix, text_lines(text));
    if !final_newline && whole.len() > 0 {
        whole.drop_last()
    } else {
        whole
    }
}

/// Whether the last byte of the data is a newline.
pub open spec fn ends_with_newline(data: Seq<u8>) -> bool {
    data.len() > 0 && data.last() == NEWLINE
}

/// The data of a range with the prefix in front of each line.
pub open spec fn prepended(prefix: Seq<char>, data: Seq<u8>) -> Seq<u8> {
    prefixed_text(
        vstd::utf8::encode_utf8(prefix),
        vstd::utf8::encode_utf8(utf8_lossy(data)),
        ends_with_newline(data),
    )
}

/// The lines that are not empty, each behind the prefix, in order.
pub open spec fn prefixed_lines(prefix: Seq<u8>, lines: Seq<Seq<u8>>) -> Seq<Seq<u8>>
    decreases lines.len(),
{
    if lines.len() == 0 {
        Seq::empty()
    } else {
        let rest = prefixed_lines(prefix, lines.drop_first());
        if lines[0].len() == 0 {
            rest
        } else {
            seq![prefix + lines[0]] + rest
        }
    }
}

proof fn lemma_line_end(text: Seq<u8>, from: int)
    requires
        0 <= from <= text.len(),
    ensures
        from <= line_end(text, from) <= text.len(),
        line_end(text, from) < text.len() ==> text[line_end(text, from)] == NEWLINE,
        forall|i: int| from <= i < line_end(text, from) ==> text[i] != NEWLINE,
    decreases text.len() - from,
{
    if from < text.len() && text[from] != NEWLINE {
        lemma_line_end(text, from + 1);
    }
}

/// A place after `from` with no line end before it decides where the line
/// that starts at `from` ends.
proof fn lemma_line_end_is(text: Seq<u8>, from: int, end: int)
    requires
        0 <= from <= end <= text.len(),
        end < text.len() ==> text[end] == NEWLINE,
        forall|i: int| from <= i < end ==> text[i] != NEWLINE,
    ensures
        line_end(text, from) == end,
    decreases end - from,
{
    if from < end {
        lemma_line_end_is(text, from + 1, end);
    }
}

/// Whether the last byte of the data is a newline.
pub fn has_final_newline(data: &[u8]) -> (found: bool)
    ensures
        found == ends_with_newline(data@),
{
    data.len() > 0 && data[data.len() - 1] == NEWLINE
}

/// Puts the prefix in front of each line of a text that is not empty.
pub fn prefix_text(prefix: &str, text: &str, final_newline: bool) -> (result: Vec<u8>)
    ensures
        result@ == prefixed_text(
            vstd::utf8::encode_utf8(prefix@),
            vstd::utf8::encode_utf8(text@),
            final_newline,
        ),
{
    let prefix_bytes = prefix.as_bytes();
    let bytes = text.as_bytes();
    let mut result: Vec<u8> = Vec::new();
    let mut start: usize = 0;
    assert(bytes@.skip(0) == bytes@);
    while start < bytes.len()
        invariant
            start <= bytes@.len(),
            result@ + prefixed(prefix_bytes@, text_lines(bytes@.skip(start as int))) == prefixed(
                prefix_bytes@,
                text_lines(bytes@),
            ),
        decreases bytes@.len() - start,
    {
        let ghost rest = bytes@.skip(start as int);
        let ghost before = result@;
        let mut end: usize = start;
        while end < bytes.len() && bytes[end] != NEWLINE
            invariant
                start <= end <= bytes@.len(),
                forall|i: int| start <= i < end ==> bytes@[i] != NEWLINE,
            decreases bytes@.len() - end,
        {
            end = end + 1;
        }
        proof {
            lemma_line_end_is(rest, 0, end - start);
        }
        let mut stop: usize = end;
        if end < bytes.len() && end > start && bytes[end - 1] == CARRIAGE_RETURN {
            stop = end - 1;
        }
        let ghost line = bytes@.subrange(start as int, stop as int);
        let next: usize = if end < bytes.len() {
            end + 1
        } else {
            end
        };
        proof {
            assert(text_lines(rest)[0] == line);
            if end < bytes@.len() {
                assert(rest.skip(end - start + 1) == bytes@.skip(next as int));
            } else {
                assert(bytes@.skip(next as int).len() == 0);
            }
            assert(text_lines(rest).drop_first() == text_lines(bytes@.skip(next as int)));
        }
        if stop > start {
            result.extend_from_slice(prefix_bytes);
            result.extend_from_slice(&bytes[start..stop]);
            result.push(NEWLINE);
            assert(result@ == before + (prefix_bytes@ + line + seq![NEWLINE]));
        }
        start = next;
    }
    if !final_newline && result.len() > 0 {
        result.pop();
    }
    result
}

/// Puts the prefix of a range in front of each line of its data. Empty lines
/// are dropped, and the result ends with a newline only if the data does.
pub fn prepend_prefix_to_lines(prefix: &str, data: &[u8]) -> (result: Vec<u8>)
    ensures
        result@ == prepended(prefix@, data@),
        vstd::utf8::valid_utf8(data@) ==> result@ == prefixed_text(
            vstd::utf8::encode_utf8(prefix@),
            data@,
            ends_with_newline(data@),
        ),
{
    let text = from_utf8_lossy(data);
    proof {
        if vstd::utf8::valid_utf8(data@) {
            vstd::utf8::decode_utf8_encode_utf8(data@);
        }
    }
    prefix_text(prefix, text.as_str(), has_final_newline(data))
}

proof fn lemma_lines_hold_no_newline(text: Seq<u8>)
    ensures
        forall|i: int|
            0 <= i < text_lines(text).len() ==> !(#[trigger] text_lines(text)[i]).contains(NEWLINE),
        text.len() > 0 && !ends_with_newline(text) ==> text_lines(text).len() > 0 && text_lines(
            text,
        ).last().len() > 0,
    decreases text.len(),
{
    if text.len() > 0 {
        let end = line_end(text, 0);
        lemma_line_end(text, 0);
        if end < text.len() {
            let rest = text.skip(end + 1);
            lemma_lines_hold_no_newline(rest);
            let lines = text_lines(text);
            assert forall|i: int| 0 <= i < lines.len() implies !(#[trigger] lines[i]).contains(
                NEWLINE,
            ) by {
                if i > 0 {
                    assert(lines[i] == text_lines(rest)[i - 1]);
                }
            }
            if !ends_with_newline(text) {
                assert(rest.last() == text.last());
                assert(lines.last() == text_lines(rest).last());
            }
        }
    }
}

/// The pieces of a text between its newlines; the last piece needs no newline
/// after it. A carriage return is a byte like any other.
pub open spec fn newline_pieces(text: Seq<u8>) -> Seq<Seq<u8>>
    decreases text.len(),
{
    if text.len() == 0 {
        Seq::empty()
    } else {
        let end = line_end(text, 0);
        if 0 <= end < text.len() {
            seq![text.take(end)] + newline_pieces(text.skip(end + 1))
        } else {
            seq![text]
        }
    }
}

proof fn lemma_pieces_of_line_and_rest(line: Seq<u8>, rest: Seq<u8>)
    requires
        !line.contains(NEWLINE),
    ensures
        newline_pieces(line + seq![NEWLINE] + rest) == seq![line] + newline_pieces(rest),
{
    let text = line + seq![NEWLINE] + rest;
    assert forall|i: int| 0 <= i < line.len() implies text[i] != NEWLINE by {
        assert(line.contains(line[i]));
    }
    lemma_line_end_is(text, 0, line.len() as int);
    assert(text.take(line.len() as int) == line);
    assert(text.skip(line.len() as int + 1) == rest);
}

proof fn lemma_concat_holds_no_newline(a: Seq<u8>, b: Seq<u8>)
    requires
        !a.contains(NEWLINE),
        !b.contains(NEWLINE),
    ensures
        !(a + b).contains(NEWLINE),
{
    let whole = a + b;
    assert forall|i: int| 0 <= i < whole.len() implies whole[i] != NEWLINE by {
        if i < a.len() {
            assert(a.contains(a[i]));
        } else {
            assert(b.contains(b[i - a.len()]));
        }
    }
}

proof fn lemma_pieces_of_prefixed(prefix: Seq<u8>, lines: Seq<Seq<u8>>)
    requires
        !prefix.contains(NEWLINE),
        forall|i: int| 0 <= i < lines.len() ==> !(#[trigger] lines[i]).contains(NEWLINE),
    ensures
        newline_pieces(prefixed(prefix, lines)) == prefixed_lines(prefix, lines),
    decreases lines.len(),
{
    if lines.len() > 0 {
        let rest = lines.drop_first();
        lemma_pieces_of_prefixed(prefix, rest);
        if lines[0].len() > 0 {
            let line = prefix + lines[0];
            lemma_concat_holds_no_newline(prefix, lines[0]);
            lemma_pieces_of_line_and_rest(line, prefixed(prefix, rest));
            assert(prefixed(prefix, lines) == line + seq![NEWLINE] + prefixed(prefix, rest));
        }
    }
}

proof fn lemma_pieces_of_open_prefixed(prefix: Seq<u8>, lines: Seq<Seq<u8>>)
    requires
        !prefix.contains(NEWLINE),
        lines.len() > 0,
        lines.last().len() > 0,
        forall|i: int| 0 <= i < lines.len() ==> !(#[trigger] lines[i]).contains(NEWLINE),
    ensures
        prefixed(prefix, lines).len() > 1,
        newline_pieces(prefixed(prefix, lines).drop_last()) == prefixed_lines(prefix, lines),
        !ends_with_newline(prefixed(prefix, lines).drop_last()),
    decreases lines.len(),
{
    let line = prefix + lines[0];
    let rest = lines.drop_first();
    lemma_concat_holds_no_newline(prefix, lines[0]);
    if lines.len() == 1 {
        let whole = prefixed(prefix, lines);
        assert(prefixed(prefix, rest) == Seq::<u8>::empty());
        assert(whole.drop_last() == line);
        assert forall|i: int| 0 <= i < line.len() implies line[i] != NEWLINE by {
            assert(line.contains(line[i]));
        }
        lemma_line_end_is(line, 0, line.len() as int);
        assert(prefixed_lines(prefix, rest) == Seq::<Seq<u8>>::empty());
    } else {
        assert(rest.last() == lines.last());
        assert forall|i: int| 0 <= i < rest.len() implies !(#[trigger] rest[i]).contains(
            NEWLINE,
        ) by {
            assert(rest[i] == lines[i + 1]);
        }
        lemma_pieces_of_open_prefixed(prefix, rest);
        if lines[0].len() > 0 {
            let tail = prefixed(prefix, rest);
            lemma_pieces_of_line_and_rest(line, tail.drop_last());
            assert(prefixed(prefix, lines).drop_last() == line + seq![NEWLINE] + tail.drop_last());
        }
    }
}

/// Split at its newlines, a prefixed text is the lines of the text that are not
/// empty, each behind the prefix, in the same order: none is lost, joined or
/// split. A prefix with a newline in it would split lines.
pub proof fn law_prefixed_text_keeps_lines(prefix: Seq<u8>, text: Seq<u8>)
    requires
        !prefix.contains(NEWLINE),
    ensures
        newline_pieces(prefixed_text(prefix, text, ends_with_newline(text))) == prefixed_lines(
            prefix,
            text_lines(text),
        ),
{
    lemma_lines_hold_no_newline(text);
    if ends_with_newline(text) || text.len() == 0 {
        lemma_pieces_of_prefixed(prefix, text_lines(text));
    } else {
        lemma_pieces_of_open_prefixed(prefix, text_lines(text));
    }
}

/// Whether the lines of a text are its pieces between newlines: no line that a
/// newline follows ends with a carriage return.
spec fn ends_plainly(text: Seq<u8>, pieces: Seq<Seq<u8>>) -> bool {
    forall|i: int|
        0 <= i < pieces.len() && (#[trigger] pieces[i]).len() > 0 && pieces[i].last()
            == CARRIAGE_RETURN ==> i == pieces.len() - 1 && !ends_with_newline(text)
}

proof fn lemma_lines_are_pieces(text: Seq<u8>)
    requires
        ends_plainly(text, newline_pieces(text)),
    ensures
        text_lines(text) == newline_pieces(text),
    decreases text.len(),
{
    if text.len() > 0 {
        let end = line_end(text, 0);
        lemma_line_end(text, 0);
        if end < text.len() {
            let rest = text.skip(end + 1);
            let pieces = newline_pieces(text);
            let later = newline_pieces(rest);
            assert(pieces[0] == text.take(end));
            if later.len() == 0 {
                assert(rest.len() == 0);
                assert(ends_with_newline(text));
            }
            assert forall|i: int|
                0 <= i < later.len() && (#[trigger] later[i]).len() > 0 && later[i].last()
                    == CARRIAGE_RETURN implies i == later.len() - 1 && !ends_with_newline(rest) by {
                assert(later[i] == pieces[i + 1]);
                assert(rest.len() > 0);
                assert(rest.last() == text.last());
            }
            lemma_lines_are_pieces(rest);
        }
    }
}

/// Every prefixed line comes from a line with at least as many lines after it.
proof fn lemma_prefixed_lines_come_from(prefix: Seq<u8>, lines: Seq<Seq<u8>>, j: int) -> (k: int)
    requires
        0 <= j < prefixed_lines(prefix, lines).len(),
    ensures
        0 <= k < lines.len(),
        lines[k].len() > 0,
        prefixed_lines(prefix, lines)[j] == prefix + lines[k],
        prefixed_lines(prefix, lines).len() - j <= lines.len() - k,
    decreases lines.len(),
{
    let rest = lines.drop_first();
    if lines[0].len() == 0 {
        lemma_prefixed_lines_come_from(prefix, rest, j) + 1
    } else if j > 0 {
        lemma_prefixed_lines_come_from(prefix, rest, j - 1) + 1
    } else {
        lemma_prefixed_lines_are_no_more(prefix, rest);
        0
    }
}

proof fn lemma_prefixed_lines_are_no_more(prefix: Seq<u8>, lines: Seq<Seq<u8>>)
    ensures
        prefixed_lines(prefix, lines).len() <= lines.len(),
    decreases lines.len(),
{
    if lines.len() > 0 {
        lemma_prefixed_lines_are_no_more(prefix, lines.drop_first());
    }
}

/// Read as lines again, a prefixed text has the lines of the text that are not
/// empty, each behind the prefix, in the same order.
///
/// A line that ends with a carriage return of its own and that a line end
/// follows would lose it when it is read again.
pub proof fn law_prefixed_text_reads_back(prefix: Seq<u8>, text: Seq<u8>)
    requires
        !prefix.contains(NEWLINE),
        forall|i: int|
            0 <= i < text_lines(text).len() && (#[trigger] text_lines(text)[i]).len() > 0
                && text_lines(text)[i].last() == CARRIAGE_RETURN ==> i == text_lines(text).len() - 1
                && !ends_with_newline(text),
    ensures
        text_lines(prefixed_text(prefix, text, ends_with_newline(text))) == prefixed_lines(
            prefix,
            text_lines(text),
        ),
{
    let result = prefixed_text(prefix, text, ends_with_newline(text));
    let lines = text_lines(text);
    let pieces = prefixed_lines(prefix, lines);
    law_prefixed_text_keeps_lines(prefix, text);
    lemma_lines_hold_no_newline(text);
    if text.len() > 0 && !ends_with_newline(text) {
        lemma_pieces_of_open_prefixed(prefix, lines);
    }
    assert forall|j: int|
        0 <= j < pieces.len() && (#[trigger] pieces[j]).len() > 0 && pieces[j].last()
            == CARRIAGE_RETURN implies j == pieces.len() - 1 && !ends_with_newline(result) by {
        let k = lemma_prefixed_lines_come_from(prefix, lines, j);
        assert(pieces[j].last() == lines[k].last());
        assert(text_lines(text)[k].last() == CARRIAGE_RETURN);
    }
    lemma_lines_are_pieces(result);
}

proof fn lemma_prefixed_in_parts(prefix: Seq<u8>, first: Seq<Seq<u8>>, second: Seq<Seq<u8>>)
    ensures
        prefixed(prefix, first + second) == prefixed(prefix, first) + prefixed(prefix, second),
    decreases first.len(),
{
    let whole = first + second;
    if first.len() == 0 {
        assert(whole =~= second);
        assert(prefixed(prefix, first) + prefixed(prefix, second) =~= prefixed(prefix, second));
    } else {
        lemma_prefixed_in_parts(prefix, first.drop_first(), second);
        assert(whole.drop_first() =~= first.drop_first() + second);
        if first[0].len() > 0 {
            assert(prefixed(prefix, whole) =~= prefixed(prefix, first) + prefixed(prefix, second));
        }
    }
}

/// Texts may be prefixed one by one: behind a text that ends with a newline,
/// the prefixed bytes of the next one follow the prefixed bytes of the first.
pub proof fn law_prefixed_joined_texts(prefix: Seq<u8>, first: Seq<u8>, second: Seq<u8>)
    requires
        first.len() > 0 ==> ends_with_newline(first),
    ensures
        prefixed_text(prefix, first + second, ends_with_newline(first + second)) == prefixed_text(
            prefix,
            first,
            ends_with_newline(first),
        ) + prefixed_text(prefix, second, ends_with_newline(second)),
{
    let whole = first + second;
    let (of_first, of_second) = (
        prefixed(prefix, text_lines(first)),
        prefixed(prefix, text_lines(second)),
    );
    law_lines_of_joined_texts(first, second);
    lemma_prefixed_in_parts(prefix, text_lines(first), text_lines(second));
    if second.len() == 0 {
        assert(whole =~= first);
        assert(of_second =~= Seq::empty());
        assert(prefixed_text(prefix, second, ends_with_newline(second)) =~= Seq::empty());
    } else {
        assert(ends_with_newline(whole) == ends_with_newline(second));
        if !ends_with_newline(second) {
            lemma_lines_hold_no_newline(second);
            lemma_prefixed_is_not_empty(prefix, text_lines(second));
            assert((of_first + of_second).drop_last() =~= of_first + of_second.drop_last());
        }
    }
}

proof fn lemma_prefixed_is_not_empty(prefix: Seq<u8>, lines: Seq<Seq<u8>>)
    requires
        lines.len() > 0,
        lines.last().len() > 0,
    ensures
        prefixed(prefix, lines).len() > 0,
    decreases lines.len(),
{
    if lines.len() > 1 {
        assert(lines.drop_first().last() == lines.last());
        lemma_prefixed_is_not_empty(prefix, lines.drop_first());
    }
}

/// Behind a text that ends with a newline a new line starts, so that no line
/// runs from one text into the other.
pub proof fn law_lines_of_joined_texts(first: Seq<u8>, second: Seq<u8>)
    requires
        first.len() > 0 ==> ends_with_newline(first),
    ensures
        text_lines(first + second) == text_lines(first) + text_lines(second),
    decreases first.len(),
{
    let whole = first + second;
    if first.len() == 0 {
        assert(whole =~= second);
    } else {
        let end = line_end(first, 0);
        lemma_line_end(first, 0);
        if end == first.len() {
            assert(first[first.len() - 1] != NEWLINE);
        }
        assert forall|i: int| 0 <= i < end implies whole[i] != NEWLINE by {
            assert(first[i] != NEWLINE);
        }
        lemma_line_end_is(whole, 0, end);
        let rest = first.skip(end + 1);
        if rest.len() > 0 {
            assert(rest.last() == first.last());
        }
        law_lines_of_joined_texts(rest, second);
        assert(whole.take(end) =~= first.take(end));
        assert(whole.skip(end + 1) =~= rest + second);
    }
}

/// How the lines of a text are told apart. A line that holds no newline is
/// followed by the lines of the text behind it, whether a newline or a carriage
/// return and a newline ends it; a carriage return that a newline follows is
/// never part of a line. What stands behind the last newline is a line unless it
/// is empty.
pub proof fn law_lines_are_told_apart(line: Seq<u8>, text: Seq<u8>)
    requires
        !line.contains(10),
    ensures
        text_lines(Seq::empty()) == Seq::<Seq<u8>>::empty(),
        line.len() > 0 ==> text_lines(line) == seq![line],
        text_lines(line + seq![13u8, 10u8] + text) == seq![line] + text_lines(text),
        !(line.len() > 0 && line.last() == 13) ==> text_lines(line + seq![10u8] + text)
            == seq![line] + text_lines(text),
{
    assert forall|i: int| 0 <= i < line.len() implies line[i] != NEWLINE by {
        assert(line.contains(line[i]));
    }
    lemma_line_end_is(line, 0, line.len() as int);
    let with_both = line + seq![13u8, 10u8] + text;
    lemma_line_end_is(with_both, 0, line.len() as int + 1);
    assert(with_both.take(line.len() as int + 1) =~= line.push(13));
    assert(line.push(13).drop_last() =~= line);
    assert(with_both.skip(line.len() as int + 2) =~= text);
    if !(line.len() > 0 && line.last() == 13) {
        let with_one = line + seq![10u8] + text;
        lemma_line_end_is(with_one, 0, line.len() as int);
        assert(with_one.take(line.len() as int) =~= line);
        assert(with_one.skip(line.len() as int + 1) =~= text);
    }
}

/// What prefixing does line by line. The prefix goes in front of a line that is
/// not empty, and one newline behind it, whichever line end it had; an empty
/// line leaves nothing. The rest of the text follows, prefixed in the same way.
pub proof fn law_each_line_is_prefixed(prefix: Seq<u8>, line: Seq<u8>, text: Seq<u8>)
    requires
        !line.contains(10),
    ensures
        prefixed_text(prefix, Seq::empty(), true) == Seq::<u8>::empty(),
        line.len() > 0 ==> prefixed_text(prefix, line, true) == prefix + line + seq![10u8],
        prefixed_text(prefix, line + seq![13u8, 10u8] + text, true) == (if line.len() > 0 {
            prefix + line + seq![10u8]
        } else {
            Seq::empty()
        }) + prefixed_text(prefix, text, true),
        !(line.len() > 0 && line.last() == 13) ==> prefixed_text(
            prefix,
            line + seq![10u8] + text,
            true,
        ) == (if line.len() > 0 {
            prefix + line + seq![10u8]
        } else {
            Seq::empty()
        }) + prefixed_text(prefix, text, true),
{
    law_lines_are_told_apart(line, text);
    let one = seq![line];
    assert(one.drop_first() =~= Seq::empty());
    assert(prefixed(prefix, one) =~= if line.len() > 0 {
        prefix + line + seq![10u8]
    } else {
        Seq::empty()
    }) by {
        reveal_with_fuel(prefixed, 2);
    }
    lemma_prefixed_in_parts(prefix, one, text_lines(text));
}

/// A newline behind the last line is the only difference that the end of a text
/// makes: without it the result is one byte, a newline, shorter, unless there is
/// no line at all.
pub proof fn law_final_newline_is_kept(prefix: Seq<u8>, text: Seq<u8>)
    ensures
        ({
            let closed = prefixed_text(prefix, text, true);
            let open = prefixed_text(prefix, text, false);
            if closed.len() == 0 {
                open == Seq::<u8>::empty()
            } else {
                closed == open + seq![10u8]
            }
        }),
{
    let closed = prefixed_text(prefix, text, true);
    lemma_prefixed_ends_with_newline(prefix, text_lines(text));
    if closed.len() > 0 {
        assert(closed =~= closed.drop_last() + seq![10u8]);
    }
}

proof fn lemma_prefixed_ends_with_newline(prefix: Seq<u8>, lines: Seq<Seq<u8>>)
    ensures
        prefixed(prefix, lines).len() > 0 ==> prefixed(prefix, lines).last() == 10,
    decreases lines.len(),
{
    if lines.len() > 0 {
        lemma_prefixed_ends_with_newline(prefix, lines.drop_first());
    }
}

/// The data of a range is prefixed as the text that its bytes stand for, and the
/// result ends with a newline only if the last byte of the data is one.
pub proof fn law_data_is_prefixed_as_text(prefix: Seq<char>, data: Seq<u8>)
    ensures
        data.len() > 0 && data.last() == 10 ==> ends_with_newline(data) && prepended(prefix, data)
            == prefixed_text(
            vstd::utf8::encode_utf8(prefix),
            vstd::utf8::encode_utf8(utf8_lossy(data)),
            true,
        ),
        !(data.len() > 0 && data.last() == 10) ==> !ends_with_newline(data) && prepended(
            prefix,
            data,
        ) == prefixed_text(
            vstd::utf8::encode_utf8(prefix),
            vstd::utf8::encode_utf8(utf8_lossy(data)),
            false,
        ),
{
}

/// A text with carriage returns in front of its newlines gives the same bytes as
/// one without, line by line: a line that does not end with a carriage return of
/// its own may have either line end.
pub proof fn law_line_ends_are_alike(
    prefix: Seq<u8>,
    before: Seq<u8>,
    line: Seq<u8>,
    after: Seq<u8>,
    final_newline: bool,
)
    requires
        before.len() > 0 ==> before.last() == 10,
        !line.contains(10),
        !(line.len() > 0 && line.last() == 13),
    ensures
        prefixed_text(prefix, before + (line + seq![13u8, 10u8] + after), final_newline)
            == prefixed_text(prefix, before + (line + seq![10u8] + after), final_newline),
{
    law_lines_are_told_apart(line, after);
    law_lines_of_joined_texts(before, line + seq![13u8, 10u8] + after);
    law_lines_of_joined_texts(before, line + seq![10u8] + after);
}

proof fn lemma_prefixed_ends_with_a_line(prefix: Seq<u8>, lines: Seq<Seq<u8>>)
    requires
        forall|i: int| 0 <= i < lines.len() ==> !(#[trigger] lines[i]).contains(NEWLINE),
    ensures
        ({
            let whole = prefixed(prefix, lines);
            whole.len() > 0 ==> whole.len() > 1 && whole[whole.len() - 2] != 10
        }),
    decreases lines.len(),
{
    if lines.len() > 0 {
        let rest = lines.drop_first();
        assert forall|i: int| 0 <= i < rest.len() implies !(#[trigger] rest[i]).contains(
            NEWLINE,
        ) by {
            assert(rest[i] == lines[i + 1]);
        }
        lemma_prefixed_ends_with_a_line(prefix, rest);
        let line = lines[0];
        if line.len() > 0 {
            assert(line.contains(line.last()));
            assert(!lines[0].contains(NEWLINE));
        }
    }
}

/// A prefixed text without a final newline ends with the last byte of a line.
pub proof fn law_open_text_ends_with_a_line(prefix: Seq<u8>, text: Seq<u8>)
    ensures
        prefixed_text(prefix, text, false).len() > 0 ==> prefixed_text(prefix, text, false).last()
            != 10,
{
    lemma_lines_hold_no_newline(text);
    lemma_prefixed_ends_with_a_line(prefix, text_lines(text));
}

}
