//! What a tap knows of the tokens that an answer reports, said of the bytes of the
//! answer and the members of its documents.
use crate::json::{parsed_json, JsonView};
use crate::outcome_laws::{says, tells};
use crate::proxy::{measured, text_usage};
use crate::store::RecordView;
use crate::usage::{bare_line, event_usage, law_chunks_do_not_matter, TapView, TokenCounts};
use vstd::prelude::*;
use vstd::utf8::encode_utf8;

verus! {

/// A tap that has seen nothing.
pub open spec fn fresh_tap(stream: bool, chat: bool) -> TapView {
    TapView {
        stream,
        chat,
        buffer: Seq::empty(),
        event_data: Seq::empty(),
        overflow: false,
        counts: None,
    }
}

/// The document has a usage with these counts, none of them negative, under the
/// names of the protocol.
pub open spec fn reports(v: JsonView, chat: bool, c: TokenCounts) -> bool {
    &&& v matches JsonView::Object(m) && m.contains_key("usage"@) && (if chat {
        tells(m["usage"@], "prompt_tokens"@, c.input_tokens) && tells(
            m["usage"@],
            "completion_tokens"@,
            c.output_tokens,
        )
    } else {
        tells(m["usage"@], "input_tokens"@, c.input_tokens) && tells(
            m["usage"@],
            "output_tokens"@,
            c.output_tokens,
        )
    })
    &&& c.input_tokens >= 0
    &&& c.output_tokens >= 0
}

/// The event of a stream has these counts: a chat event has them itself, any other
/// in the response that it completes.
pub open spec fn event_reports(v: JsonView, chat: bool, c: TokenCounts) -> bool {
    if chat {
        reports(v, true, c)
    } else {
        says(v, "type"@, "response.completed"@) && (v matches JsonView::Object(m)
            && m.contains_key("response"@) && reports(m["response"@], false, c))
    }
}

/// The data of an event is a document with these counts.
pub open spec fn data_reports(data: Seq<u8>, chat: bool, c: TokenCounts) -> bool {
    parsed_json(data) matches Ok(v) && event_reports(v, chat, c)
}

proof fn lemma_reports(v: JsonView, chat: bool, c: TokenCounts)
    ensures
        crate::usage::reported_usage(v, chat) == Some(c) <==> reports(v, chat, c),
{
}

proof fn lemma_body(tap: TapView, bytes: Seq<u8>)
    requires
        !tap.stream,
        !tap.overflow,
        tap.buffer.len() + bytes.len() <= 1_048_576,
    ensures
        tap.fed(bytes) == (TapView { buffer: tap.buffer + bytes, ..tap }),
    decreases bytes.len(),
{
    if bytes.len() == 0 {
        assert(tap.buffer + bytes =~= tap.buffer);
    } else {
        lemma_body(tap, bytes.drop_last());
        assert((tap.buffer + bytes.drop_last()).push(bytes.last()) =~= tap.buffer + bytes);
    }
}

/// A tap for one document knows counts exactly if the document is no larger than
/// what a tap retains and reports them.
pub proof fn law_document_usage_is_what_it_reports(chat: bool, bytes: Seq<u8>, c: TokenCounts)
    ensures
        fresh_tap(false, chat).fed(bytes).known() == Some(c) <==> bytes.len() <= 1_048_576 && (
        parsed_json(bytes) matches Ok(v) && reports(v, chat, c)),
{
    if bytes.len() <= 1_048_576 {
        lemma_body(fresh_tap(false, chat), bytes);
        assert(Seq::<u8>::empty() + bytes =~= bytes);
        if let Ok(v) = parsed_json(bytes) {
            lemma_reports(v, chat, c);
        }
    } else {
        crate::usage::law_oversized_document_is_unknown(chat, bytes);
    }
}

/// The text of an answer reports counts exactly if it is a document that does.
pub proof fn law_text_usage_is_what_it_reports(text: Seq<char>, chat: bool, c: TokenCounts)
    ensures
        text_usage(text, chat) == Some(c) <==> (parsed_json(encode_utf8(text)) matches Ok(v)
            && reports(v, chat, c)),
{
    if let Ok(v) = parsed_json(encode_utf8(text)) {
        lemma_reports(v, chat, c);
    }
}

/// A record takes counts over as they are, and stays without them where there are
/// none; nothing else of it changes.
pub proof fn law_record_takes_the_counts(r: RecordView, c: TokenCounts)
    ensures
        measured(r, Some(c)).input_tokens == Some(c.input_tokens),
        measured(r, Some(c)).output_tokens == Some(c.output_tokens),
        measured(r, Some(c)).request_id == r.request_id,
        measured(r, Some(c)).status == r.status,
        measured(r, Some(c)).account_id == r.account_id,
        measured(r, Some(c)).model == r.model,
        measured(r, Some(c)).ts == r.ts,
        measured(r, Some(c)).cache_key == r.cache_key,
        measured(r, None) == r,
{
}

// ---------------------------------------------------------------------------
// Streams
// ---------------------------------------------------------------------------

/// The tap reads a stream and is at the start of a line.
pub open spec fn at_line(tap: TapView) -> bool {
    tap.stream && tap.buffer.len() == 0 && !tap.overflow
}

/// The bytes have no end of a line in them.
pub open spec fn one_line(bytes: Seq<u8>) -> bool {
    forall|i: int| 0 <= i < bytes.len() ==> #[trigger] bytes[i] != 10
}

/// The end of a line: a line feed, with or without a carriage return before it.
pub open spec fn line_end(cr: bool) -> Seq<u8> {
    if cr {
        seq![13u8, 10u8]
    } else {
        seq![10u8]
    }
}

/// A line of data, with or without a space before the data.
pub open spec fn data_line(space: bool, data: Seq<u8>) -> Seq<u8> {
    encode_utf8("data:"@) + (if space {
        seq![32u8]
    } else {
        Seq::empty()
    }) + data
}

proof fn lemma_mark()
    ensures
        encode_utf8("data:"@) == seq![100u8, 97, 116, 97, 58],
{
    reveal_strlit("data:");
    vstd::utf8::is_ascii_chars_encode_utf8("data:"@);
    assert(encode_utf8("data:"@) =~= seq![100u8, 97, 116, 97, 58]);
}

proof fn lemma_line(tap: TapView, bytes: Seq<u8>)
    requires
        tap.stream,
        !tap.overflow,
        one_line(bytes),
        tap.buffer.len() + tap.event_data.len() + bytes.len() <= 1_048_576,
    ensures
        tap.fed(bytes) == (TapView { buffer: tap.buffer + bytes, ..tap }),
    decreases bytes.len(),
{
    if bytes.len() == 0 {
        assert(tap.buffer + bytes =~= tap.buffer);
    } else {
        let head = bytes.drop_last();
        assert forall|i: int| 0 <= i < head.len() implies #[trigger] head[i] != 10 by {
            assert(head[i] == bytes[i]);
        }
        lemma_line(tap, head);
        assert(bytes.last() == bytes[bytes.len() - 1]);
        assert((tap.buffer + head).push(bytes.last()) =~= tap.buffer + bytes);
    }
}

/// What ends a line: the line without its end is read.
proof fn lemma_whole_line(tap: TapView, bytes: Seq<u8>, cr: bool)
    requires
        at_line(tap),
        one_line(bytes),
        bytes.len() > 0 && !cr ==> bytes.last() != 13,
        tap.event_data.len() + bytes.len() + 1 <= 1_048_576,
    ensures
        tap.fed(bytes + line_end(cr)) == (if bytes.len() == 0 {
            tap.event_ended()
        } else {
            tap.line_read(bytes)
        }),
{
    let text = if cr {
        bytes.push(13u8)
    } else {
        bytes
    };
    assert(one_line(text)) by {
        assert forall|i: int| 0 <= i < text.len() implies #[trigger] text[i] != 10 by {
            if i < bytes.len() {
                assert(text[i] == bytes[i]);
            }
        }
    }
    lemma_line(tap, text);
    assert(tap.buffer + text =~= text);
    assert(bytes + line_end(cr) =~= text.push(10u8));
    assert(text.push(10u8).drop_last() =~= text);
    assert(bare_line(text) =~= bytes);
    assert(tap.buffer =~= Seq::<u8>::empty());
    reveal_with_fuel(TapView::fed, 2);
    assert((TapView { buffer: Seq::empty(), ..tap.fed(text) }) == tap);
}

/// The data of a line joins the data of its event: the first line begins it, and
/// each further one follows a line feed. It does not matter how the line ends and
/// whether a space stands before the data.
pub proof fn law_data_lines_make_the_event(tap: TapView, space: bool, data: Seq<u8>, cr: bool)
    requires
        at_line(tap),
        one_line(data),
        data.len() > 0 && !cr ==> data.last() != 13,
        !space && data.len() > 0 ==> data[0] != 32,
        tap.event_data.len() + data.len() + 7 <= 1_048_576,
    ensures
        tap.fed(data_line(space, data) + line_end(cr)) == (TapView {
            event_data: if tap.event_data.len() == 0 {
                data
            } else {
                tap.event_data + seq![10u8] + data
            },
            ..tap
        }),
{
    lemma_mark();
    let mark = seq![100u8, 97, 116, 97, 58];
    let line = data_line(space, data);
    let gap = if space {
        seq![32u8]
    } else {
        Seq::<u8>::empty()
    };
    assert(line == mark + gap + data);
    assert(one_line(line)) by {
        assert forall|i: int| 0 <= i < line.len() implies #[trigger] line[i] != 10 by {
            if i >= 5 + gap.len() {
                assert(line[i] == data[i - 5 - gap.len()]);
            } else if i >= 5 {
                assert(line[i] == gap[i - 5]);
            } else {
                assert(line[i] == mark[i]);
            }
        }
    }
    if data.len() > 0 {
        assert(line.last() == data.last());
    }
    lemma_whole_line(tap, line, cr);
    assert(line.take(5) =~= mark);
    if space {
        assert(line[5] == 32);
        assert(line.skip(6) =~= data);
    } else {
        if data.len() > 0 {
            assert(line[5] == data[0]);
        }
        assert(line.skip(5) =~= data);
    }
    if tap.event_data.len() == 0 {
        assert(tap.event_data =~= Seq::<u8>::empty());
    }
}

/// A line that holds no data changes nothing.
pub proof fn law_other_lines_are_passed_over(tap: TapView, line: Seq<u8>, cr: bool)
    requires
        at_line(tap),
        one_line(line),
        line.len() > 0,
        !cr ==> line.last() != 13,
        line.len() < 5 || line.take(5) != encode_utf8("data:"@),
        tap.event_data.len() + line.len() + 1 <= 1_048_576,
    ensures
        tap.fed(line + line_end(cr)) == tap,
{
    lemma_mark();
    lemma_whole_line(tap, line, cr);
}

/// A blank line ends an event: the counts that the event reports are what the tap
/// knows from then on, and an event without counts leaves what it knew. The next
/// event begins without data.
pub proof fn law_blank_line_ends_the_event(tap: TapView, cr: bool, c: TokenCounts)
    requires
        at_line(tap),
        tap.event_data.len() + 1 <= 1_048_576,
    ensures
        ({
            let next = tap.fed(line_end(cr));
            &&& at_line(next) && next.event_data.len() == 0 && next.chat == tap.chat
            &&& data_reports(tap.event_data, tap.chat, c) ==> next.known() == Some(c)
            &&& (forall|d: TokenCounts| !#[trigger] data_reports(tap.event_data, tap.chat, d))
                ==> next.known() == tap.known()
        }),
{
    lemma_whole_line(tap, Seq::empty(), cr);
    assert(Seq::<u8>::empty() + line_end(cr) =~= line_end(cr));
    if let Ok(v) = parsed_json(tap.event_data) {
        lemma_event(v, tap.chat, c);
        if let Some(d) = event_usage(v, tap.chat) {
            lemma_event(v, tap.chat, d);
            assert(data_reports(tap.event_data, tap.chat, d));
        }
    }
}

proof fn lemma_event(v: JsonView, chat: bool, c: TokenCounts)
    ensures
        event_usage(v, chat) == Some(c) <==> event_reports(v, chat, c),
{
    lemma_reports(v, true, c);
    if let Some(r) = v.get("response"@) {
        lemma_reports(r, false, c);
    }
}

/// An event of one line that reports counts makes them known, whatever the stream
/// reported before.
pub proof fn law_event_makes_its_counts_known(
    tap: TapView,
    space: bool,
    data: Seq<u8>,
    cr: bool,
    c: TokenCounts,
)
    requires
        at_line(tap),
        tap.event_data.len() == 0,
        one_line(data),
        data.len() > 0,
        !cr ==> data.last() != 13,
        !space ==> data[0] != 32,
        data.len() + 7 <= 1_048_576,
        data_reports(data, tap.chat, c),
    ensures
        tap.fed(data_line(space, data) + line_end(cr) + line_end(cr)).known() == Some(c),
{
    law_data_lines_make_the_event(tap, space, data, cr);
    let line = data_line(space, data) + line_end(cr);
    law_chunks_do_not_matter(tap, line, line_end(cr));
    law_blank_line_ends_the_event(tap.fed(line), cr, c);
}

proof fn lemma_overflowing(tap: TapView, bytes: Seq<u8>)
    requires
        tap.stream,
        tap.overflow,
        tap.buffer == seq![33u8],
        one_line(bytes),
    ensures
        tap.fed(bytes) == tap,
    decreases bytes.len(),
{
    if bytes.len() > 0 {
        let head = bytes.drop_last();
        assert forall|i: int| 0 <= i < head.len() implies #[trigger] head[i] != 10 by {
            assert(head[i] == bytes[i]);
        }
        lemma_overflowing(tap, head);
        assert(bytes.last() == bytes[bytes.len() - 1]);
    }
}

/// An event with a line larger than a tap retains is passed over as a whole: the
/// tap knows what it knew, and reads the next event.
pub proof fn law_oversized_event_is_passed_over(tap: TapView, line: Seq<u8>)
    requires
        at_line(tap),
        tap.event_data.len() == 0,
        one_line(line),
        line.len() > 1_048_576,
    ensures
        tap.fed(line + seq![10u8, 10u8]) == tap,
{
    let n: int = 1_048_576;
    let a = line.take(n);
    let b = line.skip(n + 1);
    assert forall|i: int| 0 <= i < a.len() implies #[trigger] a[i] != 10 by {
        assert(a[i] == line[i]);
    }
    assert forall|i: int| 0 <= i < b.len() implies #[trigger] b[i] != 10 by {
        assert(b[i] == line[i + n + 1]);
    }
    lemma_line(tap, a);
    let full = tap.fed(a);
    assert(full.buffer.len() == n);
    assert(line[n] != 10);
    let over = TapView { overflow: true, buffer: seq![33u8], ..tap };
    assert(a.push(line[n]).drop_last() =~= a);
    assert(tap.fed(a.push(line[n])) == over);
    lemma_overflowing(over, b);
    law_chunks_do_not_matter(tap, a.push(line[n]), b);
    assert(a.push(line[n]) + b =~= line);
    assert(tap.fed(line) == over);
    law_chunks_do_not_matter(tap, line, seq![10u8, 10u8]);
    let two = seq![10u8, 10u8];
    assert(two.drop_last() =~= seq![10u8]);
    assert(seq![10u8].drop_last() =~= Seq::<u8>::empty());
    reveal_with_fuel(TapView::fed, 4);
    assert(bare_line(seq![33u8]) == seq![33u8]);
    let mid = TapView { buffer: Seq::empty(), ..over };
    assert(over.fed(seq![10u8]) == mid);
    assert(over.fed(two) == mid.byte(10));
    assert(bare_line(Seq::<u8>::empty()).len() == 0);
    assert(tap.buffer =~= Seq::<u8>::empty());
    assert(tap.event_data =~= Seq::<u8>::empty());
    assert(mid.byte(10) == tap);
}

/// The tap passes over the rest of an event, and is at the start of a line.
pub open spec fn passes_over(tap: TapView) -> bool {
    tap.stream && tap.overflow && tap.buffer.len() == 0
}

/// A line with which an event becomes larger than what a tap retains has the rest of
/// the event passed over; what the tap knows stays.
pub proof fn law_event_grown_too_large_is_passed_over(tap: TapView, line: Seq<u8>)
    requires
        at_line(tap),
        one_line(line),
        tap.event_data.len() <= 1_048_576,
        tap.event_data.len() + line.len() > 1_048_576,
    ensures
        tap.fed(line + seq![10u8]) == (TapView { overflow: true, ..tap }),
        passes_over(tap.fed(line + seq![10u8])),
{
    let n: int = 1_048_576 - tap.event_data.len();
    let a = line.take(n);
    let b = line.skip(n + 1);
    assert forall|i: int| 0 <= i < a.len() implies #[trigger] a[i] != 10 by {
        assert(a[i] == line[i]);
    }
    assert forall|i: int| 0 <= i < b.len() implies #[trigger] b[i] != 10 by {
        assert(b[i] == line[i + n + 1]);
    }
    lemma_line(tap, a);
    assert(line[n] != 10);
    let over = TapView { overflow: true, buffer: seq![33u8], ..tap };
    assert(a.push(line[n]).drop_last() =~= a);
    assert(tap.fed(a.push(line[n])) == over);
    lemma_overflowing(over, b);
    law_chunks_do_not_matter(tap, a.push(line[n]), b);
    assert(a.push(line[n]) + b =~= line);
    assert(tap.fed(line) == over);
    let all = line + seq![10u8];
    assert(all.drop_last() =~= line);
    assert(bare_line(seq![33u8]) == seq![33u8]);
    assert(tap.buffer =~= Seq::<u8>::empty());
    assert(tap.fed(all) == over.byte(10));
}

/// While an event is passed over no line of it counts; the empty line that ends it
/// has the next event read, and what the tap knows stays.
pub proof fn law_passed_over_event_ends_with_an_empty_line(tap: TapView, line: Seq<u8>)
    requires
        passes_over(tap),
        one_line(line),
        line.len() > 0,
    ensures
        tap.fed(line + seq![10u8]) == tap,
        at_line(tap.fed(seq![10u8])),
        tap.fed(seq![10u8]).event_data.len() == 0,
        tap.fed(seq![10u8]).known() == tap.known(),
{
    let first = seq![line[0]];
    let rest = line.skip(1);
    assert(tap.buffer =~= Seq::<u8>::empty());
    let over = TapView { buffer: seq![33u8], ..tap };
    assert(first.drop_last() =~= Seq::<u8>::empty());
    reveal_with_fuel(TapView::fed, 2);
    assert(line[0] != 10);
    assert(tap.fed(first) == over);
    assert forall|i: int| 0 <= i < rest.len() implies #[trigger] rest[i] != 10 by {
        assert(rest[i] == line[i + 1]);
    }
    lemma_overflowing(over, rest);
    law_chunks_do_not_matter(tap, first, rest);
    assert(first + rest =~= line);
    let all = line + seq![10u8];
    assert(all.drop_last() =~= line);
    assert(bare_line(seq![33u8]) == seq![33u8]);
    assert(tap.fed(all) == over.byte(10));
    assert(seq![10u8].drop_last() =~= Seq::<u8>::empty());
    assert(bare_line(Seq::<u8>::empty()).len() == 0);
    assert(tap.fed(seq![10u8]) == tap.byte(10));
}

} // verus!
