//! Token accounting: reads the usage that an upstream reports in its answer,
//! while the answer passes by in chunks of any size.
use crate::json::{document, parse_json, text_in, Json, JsonView};
use crate::text::same;
use vstd::prelude::*;

verus! {

/// The most upstream bytes that a tap retains.
pub const MAX_CAPTURE_BYTES: usize = 1_048_576;

#[derive(Clone, Copy, Debug, PartialEq, Eq, Structural)]
pub struct TokenCounts {
    pub input_tokens: i64,
    pub output_tokens: i64,
}

/// The pair of counts that `v` reports under the two names, if both are
/// non-negative integers.
pub open spec fn reported_pair(v: JsonView, input: Seq<char>, output: Seq<char>) -> Option<
    TokenCounts,
> {
    match (crate::json::whole_in(v.get(input)), crate::json::whole_in(v.get(output))) {
        (Some(i), Some(o)) => if i >= 0 && o >= 0 {
            Some(TokenCounts { input_tokens: i, output_tokens: o })
        } else {
            None
        },
        _ => None,
    }
}

/// The usage that a document reports.
pub open spec fn reported_usage(v: JsonView, chat: bool) -> Option<TokenCounts> {
    match v.get("usage"@) {
        Some(u) => if chat {
            reported_pair(u, "prompt_tokens"@, "completion_tokens"@)
        } else {
            reported_pair(u, "input_tokens"@, "output_tokens"@)
        },
        None => None,
    }
}

fn pair(value: &Json, input: &str, output: &str) -> (r: Option<TokenCounts>)
    ensures
        r == reported_pair(value@, input@, output@),
{
    let i = match value.get(input) {
        Some(v) => v.as_i64(),
        None => None,
    };
    let o = match value.get(output) {
        Some(v) => v.as_i64(),
        None => None,
    };
    match (i, o) {
        (Some(input_tokens), Some(output_tokens)) => if input_tokens >= 0 && output_tokens >= 0 {
            Some(TokenCounts { input_tokens, output_tokens })
        } else {
            None
        },
        _ => None,
    }
}

/// The usage that a document reports: absent, malformed or negative counts are
/// unknown.
pub fn usage_from_json(value: &Json, chat: bool) -> (r: Option<TokenCounts>)
    ensures
        r == reported_usage(value@, chat),
{
    match value.get("usage") {
        Some(usage) => if chat {
            pair(usage, "prompt_tokens", "completion_tokens")
        } else {
            pair(usage, "input_tokens", "output_tokens")
        },
        None => None,
    }
}

/// The usage that one event of a stream reports.
pub open spec fn event_usage(v: JsonView, chat: bool) -> Option<TokenCounts> {
    if chat {
        reported_usage(v, true)
    } else if text_in(v.get("type"@)) == Some("response.completed"@) {
        match v.get("response"@) {
            Some(response) => reported_usage(response, false),
            None => None,
        }
    } else {
        None
    }
}

/// The usage that one event of a stream reports: any chat event may carry it;
/// otherwise only the event that completes the response does.
pub fn event_counts(value: &Json, chat: bool) -> (r: Option<TokenCounts>)
    ensures
        r == event_usage(value@, chat),
{
    if chat {
        return usage_from_json(value, true);
    }
    let completed = match value.get("type") {
        Some(kind) => match kind.as_str() {
            Some(kind) => same(kind, "response.completed"),
            None => false,
        },
        None => false,
    };
    if !completed {
        return None;
    }
    match value.get("response") {
        Some(response) => usage_from_json(response, false),
        None => None,
    }
}

// ---------------------------------------------------------------------------
// The tap
// ---------------------------------------------------------------------------

/// The state of a tap.
pub struct TapView {
    pub stream: bool,
    pub chat: bool,
    /// The answer so far, or the line of the stream that is being read.
    pub buffer: Seq<u8>,
    /// The data lines of the event that is being read.
    pub event_data: Seq<u8>,
    pub overflow: bool,
    pub counts: Option<TokenCounts>,
}

/// The line without a carriage return at its end.
pub open spec fn bare_line(line: Seq<u8>) -> Seq<u8> {
    if line.len() > 0 && line.last() == 13 {
        line.drop_last()
    } else {
        line
    }
}

/// The line starts with `data:`.
pub open spec fn is_data_line(line: Seq<u8>) -> bool {
    line.len() >= 5 && line.take(5) == seq![100u8, 97, 116, 97, 58]
}

/// What a data line carries: all after `data:` and one space.
pub open spec fn line_data(line: Seq<u8>) -> Seq<u8> {
    if line.len() > 5 && line[5] == 32 {
        line.skip(6)
    } else {
        line.skip(5)
    }
}

impl TapView {
    /// The blank line that ends an event: its usage, if it reports any, becomes
    /// what the tap knows.
    pub open spec fn event_ended(self) -> TapView {
        let found = if self.overflow {
            None
        } else {
            match document(self.event_data) {
                Some(v) => event_usage(v, self.chat),
                None => None,
            }
        };
        TapView {
            event_data: Seq::empty(),
            overflow: false,
            counts: if found is Some {
                found
            } else {
                self.counts
            },
            ..self
        }
    }

    /// A line of a stream that is not blank: a data line joins the event.
    pub open spec fn line_read(self, line: Seq<u8>) -> TapView {
        if self.overflow || !is_data_line(line) {
            self
        } else {
            let data = line_data(line);
            let more = if self.event_data.len() == 0 {
                data
            } else {
                self.event_data + seq![10u8] + data
            };
            if more.len() <= MAX_CAPTURE_BYTES {
                TapView { event_data: more, ..self }
            } else {
                TapView { event_data: Seq::empty(), overflow: true, ..self }
            }
        }
    }

    /// One byte of a stream.
    pub open spec fn stream_byte(self, byte: u8) -> TapView {
        if byte == 10 {
            let line = bare_line(self.buffer);
            let fresh = TapView { buffer: Seq::empty(), ..self };
            if line.len() == 0 {
                fresh.event_ended()
            } else {
                fresh.line_read(line)
            }
        } else if !self.overflow {
            if self.buffer.len() + self.event_data.len() < MAX_CAPTURE_BYTES {
                TapView { buffer: self.buffer.push(byte), ..self }
            } else {
                TapView { overflow: true, buffer: seq![33u8], ..self }
            }
        } else if self.buffer.len() == 0 {
            TapView { buffer: seq![33u8], ..self }
        } else {
            self
        }
    }

    /// One byte of an answer that is a single document.
    pub open spec fn body_byte(self, byte: u8) -> TapView {
        if self.overflow {
            self
        } else if self.buffer.len() < MAX_CAPTURE_BYTES {
            TapView { buffer: self.buffer.push(byte), ..self }
        } else {
            TapView { overflow: true, buffer: Seq::empty(), ..self }
        }
    }

    pub open spec fn byte(self, byte: u8) -> TapView {
        if self.stream {
            self.stream_byte(byte)
        } else {
            self.body_byte(byte)
        }
    }

    /// The tap after it has seen `bytes`.
    pub open spec fn fed(self, bytes: Seq<u8>) -> TapView
        decreases bytes.len(),
    {
        if bytes.len() == 0 {
            self
        } else {
            self.fed(bytes.drop_last()).byte(bytes.last())
        }
    }

    /// What the tap knows of the usage.
    pub open spec fn known(self) -> Option<TokenCounts> {
        if self.stream {
            self.counts
        } else if self.overflow {
            None
        } else {
            match document(self.buffer) {
                Some(v) => reported_usage(v, self.chat),
                None => None,
            }
        }
    }

    /// What every tap keeps to: at most [`MAX_CAPTURE_BYTES`] retained, and only
    /// non-negative counts.
    pub open spec fn bounded(self) -> bool {
        &&& self.buffer.len() + self.event_data.len() <= MAX_CAPTURE_BYTES
        &&& self.event_data.len() <= MAX_CAPTURE_BYTES - 4
        &&& self.counts matches Some(c) ==> c.input_tokens >= 0 && c.output_tokens >= 0
        &&& !self.stream ==> self.event_data.len() == 0
        &&& !self.stream && self.overflow ==> self.buffer.len() == 0
    }
}

/// The tap keeps the bytes of an upstream answer that it still needs, and the
/// usage that it has found.
pub struct UsageTap {
    stream: bool,
    chat: bool,
    buffer: Vec<u8>,
    event_data: Vec<u8>,
    overflow: bool,
    counts: Option<TokenCounts>,
}

impl View for UsageTap {
    type V = TapView;

    closed spec fn view(&self) -> TapView {
        TapView {
            stream: self.stream,
            chat: self.chat,
            buffer: self.buffer@,
            event_data: self.event_data@,
            overflow: self.overflow,
            counts: self.counts,
        }
    }
}

/// Appends `bytes[from..]` to `out`.
fn append_from(out: &mut Vec<u8>, bytes: &Vec<u8>, from: usize, to: usize)
    requires
        from <= to <= bytes@.len(),
    ensures
        final(out)@ == old(out)@ + bytes@.subrange(from as int, to as int),
{
    assert(out@ + bytes@.subrange(from as int, from as int) =~= out@);
    let ghost before = out@;
    for i in from..to
        invariant
            from <= to <= bytes@.len(),
            out@ == before + bytes@.subrange(from as int, i as int),
    {
        out.push(bytes[i]);
        assert(bytes@.subrange(from as int, i + 1) =~= bytes@.subrange(from as int, i as int).push(
            bytes@[i as int],
        ));
        assert(out@ =~= before + bytes@.subrange(from as int, i + 1));
    }
}

proof fn lemma_body_chunk(tap: TapView, bytes: Seq<u8>)
    requires
        !tap.stream,
        tap.overflow ==> tap.buffer.len() == 0,
        tap.buffer.len() <= MAX_CAPTURE_BYTES,
    ensures
        tap.fed(bytes) == (if tap.overflow {
            tap
        } else if tap.buffer.len() + bytes.len() <= MAX_CAPTURE_BYTES {
            TapView { buffer: tap.buffer + bytes, ..tap }
        } else {
            TapView { overflow: true, buffer: Seq::empty(), ..tap }
        }),
    decreases bytes.len(),
{
    if bytes.len() == 0 {
        assert(tap.buffer + bytes =~= tap.buffer);
    } else {
        lemma_body_chunk(tap, bytes.drop_last());
        assert((tap.buffer + bytes.drop_last()).push(bytes.last()) =~= tap.buffer + bytes);
    }
}

impl UsageTap {
    /// A tap that has seen nothing, for a stream of events or for one document.
    pub fn new(stream: bool, chat: bool) -> (r: Self)
        ensures
            r@ == (TapView {
                stream,
                chat,
                buffer: Seq::empty(),
                event_data: Seq::empty(),
                overflow: false,
                counts: None,
            }),
            r@.bounded(),
    {
        UsageTap {
            stream,
            chat,
            buffer: Vec::new(),
            event_data: Vec::new(),
            overflow: false,
            counts: None,
        }
    }

    /// Lets the next chunk of the answer pass by.
    pub fn feed(&mut self, chunk: &[u8])
        requires
            old(self)@.bounded(),
        ensures
            final(self)@ == old(self)@.fed(chunk@),
            final(self)@.bounded(),
    {
        proof {
            law_tap_stays_bounded(self@, chunk@);
        }
        if !self.stream {
            proof {
                lemma_body_chunk(self@, chunk@);
            }
            if self.overflow {
                return;
            }
            if self.buffer.len() <= MAX_CAPTURE_BYTES && chunk.len() <= MAX_CAPTURE_BYTES
                - self.buffer.len() {
                self.buffer.extend_from_slice(chunk);
                assert(self.buffer@ =~= old(self)@.buffer + chunk@);
            } else {
                self.overflow = true;
                self.buffer.clear();
            }
            return;
        }
        let mut i: usize = 0;
        assert(chunk@.take(0) =~= Seq::<u8>::empty());
        while i < chunk.len()
            invariant
                i <= chunk@.len(),
                old(self)@.stream,
                old(self)@.bounded(),
                self@ == old(self)@.fed(chunk@.take(i as int)),
            decreases chunk@.len() - i,
        {
            proof {
                lemma_fed_keeps_mode(old(self)@, chunk@.take(i as int));
                law_tap_stays_bounded(old(self)@, chunk@.take(i as int));
                assert(chunk@.take(i + 1).drop_last() =~= chunk@.take(i as int));
            }
            self.stream_step(chunk[i]);
            i = i + 1;
        }
        assert(chunk@.take(chunk@.len() as int) =~= chunk@);
    }

    /// One byte of a stream.
    fn stream_step(&mut self, byte: u8)
        requires
            old(self)@.bounded(),
        ensures
            final(self)@ == old(self)@.stream_byte(byte),
    {
        if byte == 10 {
            let mut line: Vec<u8> = Vec::new();
            std::mem::swap(&mut line, &mut self.buffer);
            let len: usize = if line.len() > 0 && line[line.len() - 1] == 13 {
                line.len() - 1
            } else {
                line.len()
            };
            let ghost bare = bare_line(line@);
            assert(bare =~= line@.take(len as int));
            if len == 0 {
                self.finish_event();
            } else {
                self.take_line(&line, len);
            }
        } else if !self.overflow {
            if self.buffer.len() + self.event_data.len() < MAX_CAPTURE_BYTES {
                self.buffer.push(byte);
            } else {
                self.overflow = true;
                self.buffer.clear();
                self.buffer.push(33);
                assert(self.buffer@ =~= seq![33u8]);
            }
        } else if self.buffer.len() == 0 {
            self.buffer.push(33);
            assert(self.buffer@ =~= seq![33u8]);
        }
    }

    /// A line that is not blank: the first `len` bytes of `line`.
    fn take_line(&mut self, line: &Vec<u8>, len: usize)
        requires
            0 < len <= line@.len(),
            old(self)@.event_data.len() <= MAX_CAPTURE_BYTES,
            line@.len() <= MAX_CAPTURE_BYTES,
        ensures
            final(self)@ == old(self)@.line_read(line@.take(len as int)),
    {
        let ghost bare = line@.take(len as int);
        if self.overflow {
            return;
        }
        let marked = len >= 5 && line[0] == 100 && line[1] == 97 && line[2] == 116 && line[3] == 97
            && line[4] == 58;
        proof {
            let mark = seq![100u8, 97, 116, 97, 58];
            if marked {
                assert(bare.take(5) =~= mark);
            } else if len >= 5 {
                assert(bare.take(5)[0] == line@[0] && bare.take(5)[1] == line@[1] && bare.take(5)[2]
                    == line@[2] && bare.take(5)[3] == line@[3] && bare.take(5)[4] == line@[4]);
            }
        }
        if !marked {
            return;
        }
        let start: usize = if len > 5 && line[5] == 32 {
            6
        } else {
            5
        };
        let ghost data = line_data(bare);
        assert(data =~= line@.subrange(start as int, len as int));
        let separator: usize = if self.event_data.len() == 0 {
            0
        } else {
            1
        };
        if self.event_data.len() + separator + (len - start) <= MAX_CAPTURE_BYTES {
            let ghost before = self.event_data@;
            if separator != 0 {
                self.event_data.push(10);
                assert(self.event_data@ =~= before + seq![10u8]);
            }
            append_from(&mut self.event_data, line, start, len);
            proof {
                if separator == 0 {
                    assert(self.event_data@ =~= data);
                }
            }
        } else {
            self.overflow = true;
            self.event_data.clear();
        }
    }

    fn finish_event(&mut self)
        ensures
            final(self)@ == old(self)@.event_ended(),
    {
        if !self.overflow {
            if let Ok(value) = parse_json(self.event_data.as_slice()) {
                let found = event_counts(&value, self.chat);
                if found.is_some() {
                    self.counts = found;
                }
            }
        }
        self.event_data.clear();
        self.overflow = false;
    }

    /// The usage that the answer reported, as far as it has been seen.
    pub fn counts(&self) -> (r: Option<TokenCounts>)
        ensures
            r == self@.known(),
    {
        if self.stream {
            self.counts
        } else if self.overflow {
            None
        } else {
            match parse_json(self.buffer.as_slice()) {
                Ok(value) => usage_from_json(&value, self.chat),
                Err(_) => None,
            }
        }
    }
}

// ---------------------------------------------------------------------------
// Laws
// ---------------------------------------------------------------------------

proof fn lemma_fed_keeps_mode(tap: TapView, bytes: Seq<u8>)
    ensures
        tap.fed(bytes).stream == tap.stream,
        tap.fed(bytes).chat == tap.chat,
    decreases bytes.len(),
{
    if bytes.len() > 0 {
        lemma_fed_keeps_mode(tap, bytes.drop_last());
    }
}

/// What a tap knows does not depend on how the answer was cut into chunks: two
/// chunks in a row leave it as one chunk with the bytes of both.
pub proof fn law_chunks_do_not_matter(tap: TapView, a: Seq<u8>, b: Seq<u8>)
    ensures
        tap.fed(a).fed(b) == tap.fed(a + b),
    decreases b.len(),
{
    if b.len() == 0 {
        assert(a + b =~= a);
    } else {
        law_chunks_do_not_matter(tap, a, b.drop_last());
        assert((a + b).drop_last() =~= a + b.drop_last());
    }
}

proof fn lemma_byte_stays_bounded(tap: TapView, byte: u8)
    requires
        tap.bounded(),
    ensures
        tap.byte(byte).bounded(),
{
    if tap.stream && byte == 10 {
        let line = bare_line(tap.buffer);
        assert(line.len() <= tap.buffer.len());
        let fresh = TapView { buffer: Seq::empty(), ..tap };
        if line.len() > 0 && !fresh.overflow && is_data_line(line) {
            let data = line_data(line);
            assert(data.len() <= line.len() - 5);
        }
    }
}

/// Whatever passes by, a tap retains at most [`MAX_CAPTURE_BYTES`] of it and
/// knows only non-negative counts.
pub proof fn law_tap_stays_bounded(tap: TapView, bytes: Seq<u8>)
    requires
        tap.bounded(),
    ensures
        tap.fed(bytes).bounded(),
    decreases bytes.len(),
{
    if bytes.len() > 0 {
        law_tap_stays_bounded(tap, bytes.drop_last());
        lemma_byte_stays_bounded(tap.fed(bytes.drop_last()), bytes.last());
    }
}

/// A count that is known is non-negative: absent, malformed or negative usage
/// stays unknown and never turns into a number.
pub proof fn law_known_usage_is_reported(tap: TapView)
    requires
        tap.bounded(),
    ensures
        tap.known() matches Some(c) ==> c.input_tokens >= 0 && c.output_tokens >= 0,
{
}

/// An answer that is one document and larger than the tap retains has unknown
/// usage, whatever follows.
pub proof fn law_oversized_document_is_unknown(chat: bool, bytes: Seq<u8>)
    requires
        bytes.len() > MAX_CAPTURE_BYTES,
    ensures
        (TapView {
            stream: false,
            chat,
            buffer: Seq::empty(),
            event_data: Seq::empty(),
            overflow: false,
            counts: None,
        }).fed(bytes).known() is None,
{
    lemma_body_chunk(
        TapView {
            stream: false,
            chat,
            buffer: Seq::empty(),
            event_data: Seq::empty(),
            overflow: false,
            counts: None,
        },
        bytes,
    );
}

} // verus!
