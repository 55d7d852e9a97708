//! What holds of a body that is read line by line, however it is written to the buffer.

use vstd::prelude::*;
use vstd::utf8::{
    decode_utf8, decode_utf8_encode_utf8, decode_utf8_split, encode_scalar, encode_utf8,
    is_char_boundary, is_char_boundary_iff_not_is_continuation_byte,
    is_char_boundary_start_end_of_seq, is_continuation_byte, pop_first_scalar, valid_utf8,
    valid_utf8_split,
};

use crate::body_buffer::{
    all_lines, line_decoded, line_length, line_length_found, next_line, next_line_not_empty,
    next_line_prefix, Attempt, Decoded,
};

verus! {

/// What is done with a buffer of lines.
pub enum LinesUse<J> {
    /// These bytes are written to it.
    Write(Seq<u8>),
    /// It is asked for the next line, and answers so.
    Decode(Attempt<J>),
}

/// What is left in a buffer of lines after it was asked for the next one.
pub open spec fn after_line(pending: Seq<u8>, ended: bool) -> Seq<u8> {
    match next_line(pending, ended) {
        Some(line) => pending.skip(line.len() as int),
        None => pending,
    }
}

/// Whether a buffer of lines that holds these bytes is used so.
pub open spec fn used<J>(pending: Seq<u8>, ended: bool, uses: Seq<LinesUse<J>>) -> bool
    decreases uses.len(),
{
    uses.len() > 0 ==> match uses[0] {
        LinesUse::Write(data) => used(pending + data, ended, uses.skip(1)),
        LinesUse::Decode(r) => {
            let after = after_line(pending, ended);
            line_decoded(pending, ended, after, r) && used(after, ended, uses.skip(1))
        },
    }
}

/// What a buffer of lines holds after it was used so.
pub open spec fn left<J>(pending: Seq<u8>, ended: bool, uses: Seq<LinesUse<J>>) -> Seq<u8>
    decreases uses.len(),
{
    if uses.len() == 0 {
        pending
    } else {
        match uses[0] {
            LinesUse::Write(data) => left(pending + data, ended, uses.skip(1)),
            LinesUse::Decode(_) => left(after_line(pending, ended), ended, uses.skip(1)),
        }
    }
}

/// All that was written.
pub open spec fn written<J>(uses: Seq<LinesUse<J>>) -> Seq<u8>
    decreases uses.len(),
{
    if uses.len() == 0 {
        Seq::empty()
    } else {
        match uses[0] {
            LinesUse::Write(data) => data + written(uses.skip(1)),
            LinesUse::Decode(_) => written(uses.skip(1)),
        }
    }
}

/// The texts that were handed out, in order.
pub open spec fn handed_out<J>(uses: Seq<LinesUse<J>>) -> Seq<Seq<char>>
    decreases uses.len(),
{
    if uses.len() == 0 {
        Seq::empty()
    } else {
        match uses[0] {
            LinesUse::Decode(Ok(Some(Decoded::Text(text)))) => seq![text@] + handed_out(
                uses.skip(1),
            ),
            _ => handed_out(uses.skip(1)),
        }
    }
}

/// Whether a buffer of lines is asked until there is nothing more, and nothing is written to it.
pub open spec fn drains<J>(uses: Seq<LinesUse<J>>) -> bool {
    &&& uses.len() > 0
    &&& uses.last() matches LinesUse::Decode(Ok(None))
    &&& forall|i: int| 0 <= i < uses.len() ==> (#[trigger] uses[i]) is Decode
}

/// The lines of a complete body, as texts.
pub open spec fn text_lines(body: Seq<u8>) -> Seq<Seq<char>> {
    all_lines(body, true).map_values(|line: Seq<u8>| decode_utf8(line))
}

/// Whether a text holds a newline at its end and nowhere else. It may do without where it is the
/// last one.
pub open spec fn is_line(text: Seq<char>, is_last: bool) -> bool {
    &&& text.len() > 0
    &&& forall|i: int| 0 <= i < text.len() - 1 ==> #[trigger] text[i] != '\n'
    &&& text.last() == '\n' || is_last
}

/// A text can be cut after a newline.
proof fn cut_after_newline(bytes: Seq<u8>, n: int)
    requires
        valid_utf8(bytes),
        0 < n <= bytes.len(),
        bytes[n - 1] == 10,
    ensures
        is_char_boundary(bytes, n),
        valid_utf8(bytes.take(n)),
        valid_utf8(bytes.skip(n)),
        decode_utf8(bytes) == decode_utf8(bytes.take(n)) + decode_utf8(bytes.skip(n)),
{
    assert(!is_continuation_byte(bytes[n - 1]));
    is_char_boundary_iff_not_is_continuation_byte(bytes, n - 1);
    valid_utf8_split(bytes, n - 1);
    let tail = bytes.subrange(n - 1, bytes.len() as int);
    assert(tail[0] == 10);
    assert(pop_first_scalar(tail) =~= bytes.skip(n));
    if n == bytes.len() {
        is_char_boundary_start_end_of_seq(bytes);
    } else {
        is_char_boundary_iff_not_is_continuation_byte(bytes, n);
        assert(bytes.skip(n)[0] == bytes[n]);
        is_char_boundary_start_end_of_seq(bytes.skip(n));
        is_char_boundary_iff_not_is_continuation_byte(bytes.skip(n), 0);
    }
    valid_utf8_split(bytes, n);
    decode_utf8_split(bytes, n);
    assert(bytes.subrange(0, n) =~= bytes.take(n));
    assert(bytes.subrange(n, bytes.len() as int) =~= bytes.skip(n));
}

/// The encoded form of a text holds the newlines of the text.
proof fn newline_is_encoded(text: Seq<char>, i: int)
    requires
        0 <= i < text.len(),
        text[i] == '\n',
    ensures
        encode_utf8(text).contains(10u8),
    decreases text.len(),
{
    let rest = text.drop_first();
    let first = encode_scalar(text[0] as u32);
    assert(encode_utf8(text) == first + encode_utf8(rest));
    if i == 0 {
        assert((10u32 & 0x7F) as u8 == 10) by (bit_vector);
        assert(first =~= seq![10u8]);
        assert(encode_utf8(text)[0] == 10);
    } else {
        assert(rest[i - 1] == '\n');
        newline_is_encoded(rest, i - 1);
        let k = choose|k: int| 0 <= k < encode_utf8(rest).len() && encode_utf8(rest)[k] == 10;
        assert(encode_utf8(text)[first.len() + k] == 10);
    }
}

/// Bytes without a newline are a text without one.
proof fn no_newline(bytes: Seq<u8>)
    requires
        valid_utf8(bytes),
        forall|i: int| 0 <= i < bytes.len() ==> #[trigger] bytes[i] != 10,
    ensures
        forall|i: int| 0 <= i < decode_utf8(bytes).len() ==> #[trigger] decode_utf8(bytes)[i]
            != '\n',
{
    let text = decode_utf8(bytes);
    decode_utf8_encode_utf8(bytes);
    assert forall|i: int| 0 <= i < text.len() implies #[trigger] text[i] != '\n' by {
        if text[i] == '\n' {
            newline_is_encoded(text, i);
            let k = choose|k: int| 0 <= k < bytes.len() && bytes[k] == 10;
            assert(bytes[k] != 10);
        }
    }
}

/// A line of bytes is a line of text.
proof fn line_is_line(line: Seq<u8>, is_last: bool)
    requires
        valid_utf8(line),
        line.len() > 0,
        forall|i: int| 0 <= i < line.len() - 1 ==> #[trigger] line[i] != 10,
        line.last() == 10 || is_last,
    ensures
        is_line(decode_utf8(line), is_last),
{
    let n = line.len() - 1;
    let text = decode_utf8(line);
    if line.last() == 10 {
        assert(!is_continuation_byte(line[n]));
        is_char_boundary_iff_not_is_continuation_byte(line, n);
        valid_utf8_split(line, n);
        decode_utf8_split(line, n);
        let front = line.subrange(0, n);
        let back = line.subrange(n, line.len() as int);
        assert(back =~= seq![10u8]);
        assert(pop_first_scalar(back) =~= Seq::<u8>::empty());
        assert(decode_utf8(pop_first_scalar(back)) =~= Seq::<char>::empty());
        assert(10u8 & 0x7F == 10) by (bit_vector);
        assert(decode_utf8(back) =~= seq!['\n']);
        assert forall|i: int| 0 <= i < front.len() implies #[trigger] front[i] != 10 by {
            assert(front[i] == line[i]);
        }
        no_newline(front);
        assert forall|i: int| 0 <= i < text.len() - 1 implies #[trigger] text[i] != '\n' by {
            assert(text[i] == decode_utf8(front)[i]);
        }
    } else {
        assert forall|i: int| 0 <= i < line.len() implies #[trigger] line[i] != 10 by {}
        no_newline(line);
    }
}

/// The next line of a text, and what is left after it, are texts.
proof fn next_line_is_text(body: Seq<u8>, ended: bool)
    requires
        valid_utf8(body),
        next_line(body, ended) is Some,
    ensures
        ({
            let line = next_line(body, ended)->0;
            let rest = body.skip(line.len() as int);
            &&& valid_utf8(line)
            &&& valid_utf8(rest)
            &&& decode_utf8(body) == decode_utf8(line) + decode_utf8(rest)
            &&& is_line(decode_utf8(line), ended && rest.len() == 0)
        }),
{
    line_length_found(body);
    let line = next_line(body, ended)->0;
    match line_length(body) {
        Some(n) => {
            cut_after_newline(body, n as int);
        },
        None => {
            assert(body.skip(line.len() as int) =~= Seq::<u8>::empty());
            assert(decode_utf8(Seq::<u8>::empty()) =~= Seq::<char>::empty());
        },
    }
    line_is_line(line, ended && body.skip(line.len() as int).len() == 0);
}

/// The first line of a complete body stands before those of the rest.
proof fn text_lines_next(body: Seq<u8>)
    ensures
        text_lines(body) == match next_line(body, true) {
            Some(line) => seq![decode_utf8(line)] + text_lines(body.skip(line.len() as int)),
            None => Seq::empty(),
        },
{
    next_line_not_empty(body, true);
    match next_line(body, true) {
        Some(line) => {
            let rest = body.skip(line.len() as int);
            assert(text_lines(body) =~= seq![decode_utf8(line)] + text_lines(rest));
        },
        None => {
            assert(text_lines(body) =~= Seq::empty());
        },
    }
}

/// The lines of a text put together are the text. Each holds a newline at its end and nowhere
/// else, but for the last, which may do without.
pub proof fn text_lines_make_the_text(body: Seq<u8>)
    requires
        valid_utf8(body),
    ensures
        text_lines(body).flatten() == decode_utf8(body),
        forall|i: int|
            0 <= i < text_lines(body).len() ==> is_line(
                #[trigger] text_lines(body)[i],
                i == text_lines(body).len() - 1,
            ),
    decreases body.len(),
{
    text_lines_next(body);
    next_line_not_empty(body, true);
    match next_line(body, true) {
        Some(line) => {
            let rest = body.skip(line.len() as int);
            let others = text_lines(rest);
            let lines = text_lines(body);
            next_line_is_text(body, true);
            text_lines_make_the_text(rest);
            assert(lines.drop_first() =~= others);
            assert(lines.flatten() == decode_utf8(line) + others.flatten());
            if rest.len() == 0 {
                text_lines_next(rest);
                assert(others.len() == 0);
            }
            assert forall|i: int| 0 <= i < lines.len() implies is_line(
                #[trigger] lines[i],
                i == lines.len() - 1,
            ) by {
                if i > 0 {
                    assert(lines[i] == others[i - 1]);
                }
            }
        },
        None => {
            line_length_found(body);
            assert(body =~= Seq::<u8>::empty());
            assert(decode_utf8(body) =~= Seq::<char>::empty());
            assert(text_lines(body).flatten() =~= Seq::<char>::empty());
        },
    }
}

/// What was handed out so far, and the lines of what is left with what is still to come, are the
/// lines of the whole.
proof fn handed_out_so_far<J>(pending: Seq<u8>, uses: Seq<LinesUse<J>>)
    requires
        used(pending, false, uses),
        valid_utf8(pending + written(uses)),
    ensures
        handed_out(uses) + text_lines(left(pending, false, uses)) == text_lines(
            pending + written(uses),
        ),
        valid_utf8(left(pending, false, uses)),
        forall|i: int|
            0 <= i < handed_out(uses).len() ==> is_line(#[trigger] handed_out(uses)[i], false),
    decreases uses.len(),
{
    let later = uses.skip(1);
    if uses.len() == 0 {
        assert(pending + written(uses) =~= pending);
        assert(handed_out(uses) + text_lines(pending) =~= text_lines(pending));
    } else {
        match uses[0] {
            LinesUse::Write(data) => {
                assert((pending + data) + written(later) =~= pending + written(uses));
                handed_out_so_far(pending + data, later);
            },
            LinesUse::Decode(r) => {
                let more = written(later);
                match next_line(pending, false) {
                    Some(line) => {
                        let rest = pending.skip(line.len() as int);
                        next_line_prefix(pending, more, true);
                        next_line_prefix(pending, more, false);
                        next_line_is_text(pending + more, false);
                        text_lines_next(pending + more);
                        handed_out_so_far(rest, later);
                        let out = handed_out(later);
                        let end = text_lines(left(rest, false, later));
                        assert((seq![decode_utf8(line)] + out) + end =~= seq![decode_utf8(line)] + (
                        out + end));
                        assert forall|i: int| 0 <= i < handed_out(uses).len() implies is_line(
                            #[trigger] handed_out(uses)[i],
                            false,
                        ) by {
                            if i > 0 {
                                assert(handed_out(uses)[i] == out[i - 1]);
                            }
                        }
                    },
                    None => {
                        handed_out_so_far(pending, later);
                    },
                }
            },
        }
    }
}

/// A complete body that is asked for lines until there are no more hands all of them out.
proof fn drained<J>(pending: Seq<u8>, uses: Seq<LinesUse<J>>)
    requires
        used(pending, true, uses),
        valid_utf8(pending),
        drains(uses),
    ensures
        handed_out(uses) == text_lines(pending),
        left(pending, true, uses).len() == 0,
    decreases uses.len(),
{
    let later = uses.skip(1);
    assert(uses[0] is Decode);
    text_lines_next(pending);
    next_line_not_empty(pending, true);
    if later.len() > 0 {
        assert(later.last() == uses.last());
        assert forall|i: int| 0 <= i < later.len() implies (#[trigger] later[i]) is Decode by {
            assert(later[i] == uses[i + 1]);
        }
    }
    match next_line(pending, true) {
        Some(line) => {
            let rest = pending.skip(line.len() as int);
            next_line_is_text(pending, true);
            assert(later.len() > 0) by {
                if later.len() == 0 {
                    assert(uses.last() == uses[0]);
                }
            }
            drained(rest, later);
        },
        None => {
            assert(pending.len() == 0);
            if later.len() > 0 {
                drained(pending, later);
            } else {
                assert(left(pending, true, later) == pending);
                assert(handed_out(later) == Seq::<Seq<char>>::empty());
            }
        },
    }
}

/// The lines of a text do not depend on how it was written. It is written in pieces, between which
/// the buffer may be asked for lines; then it is closed and asked until there is nothing more.
/// What is handed out are the lines of the text, which put together are the text. None is empty,
/// each holds a newline at its end and nowhere else, but for the last, which may do without and is
/// then handed out after the end alone.
pub proof fn lines_of_a_text<J>(before: Seq<LinesUse<J>>, after: Seq<LinesUse<J>>)
    requires
        used(Seq::empty(), false, before),
        used(left(Seq::empty(), false, before), true, after),
        drains(after),
        valid_utf8(written(before)),
    ensures
        ({
            let lines = handed_out(before) + handed_out(after);
            &&& lines == text_lines(written(before))
            &&& lines.flatten() == decode_utf8(written(before))
            &&& forall|i: int|
                0 <= i < lines.len() ==> is_line(
                    #[trigger] lines[i],
                    i == lines.len() - 1 && i >= handed_out(before).len(),
                )
            &&& left(left(Seq::empty(), false, before), true, after).len() == 0
        }),
{
    let body = written(before);
    let early = handed_out(before);
    assert(Seq::<u8>::empty() + body =~= body);
    handed_out_so_far(Seq::empty(), before);
    drained(left(Seq::empty(), false, before), after);
    text_lines_make_the_text(body);
    let lines = early + handed_out(after);
    assert forall|i: int| 0 <= i < lines.len() implies is_line(
        #[trigger] lines[i],
        i == lines.len() - 1 && i >= early.len(),
    ) by {
        assert(is_line(text_lines(body)[i], i == lines.len() - 1));
        if i < early.len() {
            assert(lines[i] == early[i]);
        }
    }
}

/// Of any two ways to write the same text the same lines come out.
pub proof fn lines_do_not_depend_on_the_cuts<J, K>(
    before: Seq<LinesUse<J>>,
    after: Seq<LinesUse<J>>,
    other_before: Seq<LinesUse<K>>,
    other_after: Seq<LinesUse<K>>,
)
    requires
        used(Seq::empty(), false, before),
        used(left(Seq::empty(), false, before), true, after),
        drains(after),
        used(Seq::empty(), false, other_before),
        used(left(Seq::empty(), false, other_before), true, other_after),
        drains(other_after),
        written(before) == written(other_before),
        valid_utf8(written(before)),
    ensures
        handed_out(before) + handed_out(after) == handed_out(other_before) + handed_out(
            other_after,
        ),
{
    lines_of_a_text(before, after);
    lines_of_a_text(other_before, other_after);
}

/// Before the end, a buffer without a newline gives nothing and keeps what it holds.
pub proof fn no_line_before_a_newline<J>(pending: Seq<u8>, after: Seq<u8>, r: Attempt<J>)
    requires
        line_decoded(pending, false, after, r),
        forall|i: int| 0 <= i < pending.len() ==> #[trigger] pending[i] != 10,
    ensures
        r matches Ok(None),
        after == pending,
{
    line_length_found(pending);
    if let Some(n) = line_length(pending) {
        assert(pending[n - 1] != 10);
    }
}

} // verus!
