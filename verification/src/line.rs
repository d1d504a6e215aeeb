//! Reading one newline-terminated protocol line from a peer, under a hard cap.
//!
//! The socket hands bytes over in chunks of any size. [`LineReader`] decides after
//! each chunk whether a line is complete, refused or still open. Line content never
//! enters an error: a hello line holds a token.

use vstd::prelude::*;
use vstd::string::*;
use vstd::utf8::*;

use crate::text::{decimal, decimal_text};

verus! {

/// Hard cap on one protocol line, newline not counted. An unauthenticated peer must
/// not be able to grow hub memory without bound by never sending a newline.
pub const MAX_LINE_BYTES: usize = 1_048_576;

/// The byte that ends a line.
pub const NEWLINE: u8 = 10;

/// Why reading one protocol line failed.
#[derive(Debug)]
pub enum ReadLineError {
    /// The socket read itself failed; `source` is the system's message.
    Io { source: String },
    /// The peer closed mid-line, after this many bytes without a newline.
    TruncatedLine { received: usize },
    /// The line exceeds [`MAX_LINE_BYTES`].
    TooLong,
    /// The completed line is not UTF-8.
    NotUtf8,
}

/// The contents of a [`ReadLineError`].
pub enum ReadLineErrorView {
    Io { source: Seq<char> },
    TruncatedLine { received: nat },
    TooLong,
    NotUtf8,
}

impl View for ReadLineError {
    type V = ReadLineErrorView;

    open spec fn view(&self) -> ReadLineErrorView {
        match *self {
            ReadLineError::Io { source } => ReadLineErrorView::Io { source: source@ },
            ReadLineError::TruncatedLine { received } => ReadLineErrorView::TruncatedLine {
                received: received as nat,
            },
            ReadLineError::TooLong => ReadLineErrorView::TooLong,
            ReadLineError::NotUtf8 => ReadLineErrorView::NotUtf8,
        }
    }
}

impl ReadLineErrorView {
    /// The text for log lines and client error lines.
    pub open spec fn text(self) -> Seq<char> {
        match self {
            ReadLineErrorView::Io { source } => "socket read failed: "@ + source,
            ReadLineErrorView::TruncatedLine { received } => "connection closed mid-line after "@
                + decimal_text(received) + " bytes"@,
            ReadLineErrorView::TooLong => "line exceeds "@ + decimal_text(MAX_LINE_BYTES as nat)
                + " byte limit"@,
            ReadLineErrorView::NotUtf8 => "line is not valid UTF-8"@,
        }
    }
}

impl ReadLineError {
    /// Renders the error for log lines and client error lines.
    pub fn to_string(&self) -> (text: String)
        ensures
            text@ == self@.text(),
            text@ == match self {
                ReadLineError::Io { source } => "socket read failed: "@ + source@,
                ReadLineError::TruncatedLine { received } => "connection closed mid-line after "@
                    + decimal_text(*received as nat) + " bytes"@,
                ReadLineError::TooLong => "line exceeds "@ + decimal_text(1_048_576) + " byte limit"@,
                ReadLineError::NotUtf8 => "line is not valid UTF-8"@,
            },
    {
        match self {
            ReadLineError::Io { source } => {
                let mut text = "socket read failed: ".to_string();
                text.append(source.as_str());
                text
            },
            ReadLineError::TruncatedLine { received } => {
                let mut text = "connection closed mid-line after ".to_string();
                text.append(decimal(*received).as_str());
                text.append(" bytes");
                text
            },
            ReadLineError::TooLong => {
                let mut text = "line exceeds ".to_string();
                text.append(decimal(MAX_LINE_BYTES).as_str());
                text.append(" byte limit");
                text
            },
            ReadLineError::NotUtf8 => "line is not valid UTF-8".to_string(),
        }
    }
}

/// Whether the first newline of `bytes` is at `n`.
pub open spec fn is_first_newline(bytes: Seq<u8>, n: int) -> bool {
    &&& 0 <= n < bytes.len()
    &&& bytes[n] == NEWLINE
    &&& !bytes.take(n).contains(NEWLINE)
}

/// Where the first newline of `bytes` is.
pub open spec fn first_newline(bytes: Seq<u8>) -> Option<int> {
    if exists|n: int| is_first_newline(bytes, n) {
        Some(choose|n: int| is_first_newline(bytes, n))
    } else {
        None
    }
}

/// What a line read ends with: a line, `None` for a peer that closed between lines,
/// or an error.
pub type LineResult = Result<Option<String>, ReadLineError>;

/// The contents of a [`LineResult`].
pub open spec fn line_result_view(result: LineResult) -> Result<
    Option<Seq<char>>,
    ReadLineErrorView,
> {
    match result {
        Ok(Some(line)) => Ok(Some(line@)),
        Ok(None) => Ok(None),
        Err(error) => Err(error@),
    }
}

/// The result for a line whose bytes before the newline are `line`.
pub open spec fn completed(line: Seq<u8>) -> Result<Option<Seq<char>>, ReadLineErrorView> {
    if line.len() > MAX_LINE_BYTES {
        Err(ReadLineErrorView::TooLong)
    } else if valid_utf8(line) {
        Ok(Some(decode_utf8(line)))
    } else {
        Err(ReadLineErrorView::NotUtf8)
    }
}

/// The result for a peer that closed after `line` with no newline.
pub open spec fn cut_off(line: Seq<u8>) -> Result<Option<Seq<char>>, ReadLineErrorView> {
    if line.len() == 0 {
        Ok(None)
    } else if line.len() > MAX_LINE_BYTES {
        Err(ReadLineErrorView::TooLong)
    } else {
        Err(ReadLineErrorView::TruncatedLine { received: line.len() })
    }
}

/// The result of reading one line from a peer that sends `stream` and then closes.
pub open spec fn line_of(stream: Seq<u8>) -> Result<Option<Seq<char>>, ReadLineErrorView> {
    match first_newline(stream) {
        Some(n) => completed(stream.take(n)),
        None => cut_off(stream),
    }
}

/// What becomes of `pending`, the bytes of an open line, when `chunk` arrives; an
/// empty chunk says that the peer closed. Gives the bytes still open and the result
/// if there is one by now.
pub open spec fn after_chunk(pending: Seq<u8>, chunk: Seq<u8>) -> (
    Seq<u8>,
    Option<Result<Option<Seq<char>>, ReadLineErrorView>>,
) {
    if chunk.len() == 0 {
        (Seq::empty(), Some(cut_off(pending)))
    } else {
        match first_newline(chunk) {
            Some(n) => (Seq::empty(), Some(completed(pending + chunk.take(n)))),
            None => if pending.len() + chunk.len() > MAX_LINE_BYTES {
                (Seq::empty(), Some(Err(ReadLineErrorView::TooLong)))
            } else {
                (pending + chunk, None)
            },
        }
    }
}

/// How many bytes of `chunk` belong to the line being read.
pub open spec fn taken_from(chunk: Seq<u8>) -> int {
    match first_newline(chunk) {
        Some(n) => n + 1,
        None => chunk.len() as int,
    }
}

/// What one chunk did.
pub struct LineStep {
    /// Bytes of the chunk that were used up; the rest belongs to the next line.
    pub consumed: usize,
    /// The result, once there is one.
    pub result: Option<LineResult>,
}

/// Collects one line from chunks.
pub struct LineReader {
    line: Vec<u8>,
}

impl View for LineReader {
    type V = Seq<u8>;

    closed spec fn view(&self) -> Seq<u8> {
        self.line@
    }
}

/// `String::from_utf8`: succeeds exactly on valid UTF-8, and then the text is what
/// the bytes encode.
#[verifier::external_body]
fn utf8_text(bytes: Vec<u8>) -> (text: Option<String>)
    ensures
        match text {
            Some(t) => valid_utf8(bytes@) && t@ == decode_utf8(bytes@),
            None => !valid_utf8(bytes@),
        },
{
    String::from_utf8(bytes).ok()
}

proof fn lemma_first_newline_is(bytes: Seq<u8>, n: int)
    requires
        is_first_newline(bytes, n),
    ensures
        first_newline(bytes) == Some(n),
{
    let chosen = choose|k: int| is_first_newline(bytes, k);
    assert(is_first_newline(bytes, chosen));
    if chosen < n {
        assert(bytes.take(n)[chosen] == NEWLINE);
    }
    if n < chosen {
        assert(bytes.take(chosen)[n] == NEWLINE);
    }
}

proof fn lemma_first_newline_none(bytes: Seq<u8>)
    requires
        !bytes.contains(NEWLINE),
    ensures
        first_newline(bytes) is None,
{
}

proof fn lemma_first_newline_some(bytes: Seq<u8>)
    requires
        bytes.contains(NEWLINE),
    ensures
        first_newline(bytes) is Some,
    decreases bytes.len(),
{
    if bytes.drop_last().contains(NEWLINE) {
        lemma_first_newline_some(bytes.drop_last());
        let n = first_newline(bytes.drop_last())->0;
        assert(is_first_newline(bytes.drop_last(), n));
        assert(bytes.take(n) == bytes.drop_last().take(n));
        assert(is_first_newline(bytes, n));
    } else {
        let k = choose|k: int| 0 <= k < bytes.len() && bytes[k] == NEWLINE;
        if k < bytes.len() - 1 {
            assert(bytes.drop_last()[k] == NEWLINE);
        }
        assert(bytes.take(bytes.len() - 1) == bytes.drop_last());
        assert(is_first_newline(bytes, bytes.len() - 1));
    }
}

fn find_newline(bytes: &[u8]) -> (found: Option<usize>)
    ensures
        match found {
            Some(n) => n < bytes@.len() && first_newline(bytes@) == Some(n as int),
            None => first_newline(bytes@) is None && !bytes@.contains(NEWLINE),
        },
{
    let mut n: usize = 0;
    while n < bytes.len()
        invariant
            n <= bytes@.len(),
            forall|j: int| 0 <= j < n ==> #[trigger] bytes@[j] != NEWLINE,
        decreases bytes@.len() - n,
    {
        if bytes[n] == NEWLINE {
            proof {
                assert(is_first_newline(bytes@, n as int));
                lemma_first_newline_is(bytes@, n as int);
            }
            return Some(n);
        }
        n = n + 1;
    }
    None
}

impl LineReader {
    /// The open line is under the cap and holds no newline.
    pub open spec fn wf(&self) -> bool {
        &&& self@.len() <= MAX_LINE_BYTES
        &&& !self@.contains(NEWLINE)
    }

    /// A reader with no line open.
    pub fn new() -> (reader: LineReader)
        ensures
            reader.wf(),
            reader@ == Seq::<u8>::empty(),
    {
        LineReader { line: Vec::new() }
    }

    fn extend(&mut self, chunk: &[u8], count: usize)
        requires
            count <= chunk@.len(),
        ensures
            final(self)@ == old(self)@ + chunk@.take(count as int),
    {
        let ghost before = self@;
        let mut i: usize = 0;
        while i < count
            invariant
                i <= count <= chunk@.len(),
                self@ == before + chunk@.take(i as int),
            decreases count - i,
        {
            self.line.push(chunk[i]);
            assert(chunk@.take(i + 1) == chunk@.take(i as int).push(chunk@[i as int]));
            i = i + 1;
        }
    }

    fn close(&mut self) -> (result: LineResult)
        ensures
            final(self)@ == Seq::<u8>::empty(),
            line_result_view(result) == completed(old(self)@),
    {
        let mut line: Vec<u8> = Vec::new();
        line.append(&mut self.line);
        assert(line@ == old(self)@);
        if line.len() > MAX_LINE_BYTES {
            return Err(ReadLineError::TooLong);
        }
        match utf8_text(line) {
            Some(text) => Ok(Some(text)),
            None => Err(ReadLineError::NotUtf8),
        }
    }

    /// Takes in what the socket handed over next; an empty chunk says that the peer
    /// closed. Once there is a result the reader is ready for the next line.
    pub fn feed(&mut self, chunk: &[u8]) -> (step: LineStep)
        requires
            old(self).wf(),
        ensures
            final(self).wf(),
            step.consumed == taken_from(chunk@),
            final(self)@ == after_chunk(old(self)@, chunk@).0,
            match step.result {
                Some(result) => after_chunk(old(self)@, chunk@).1 == Some(
                    line_result_view(result),
                ),
                None => after_chunk(old(self)@, chunk@).1 is None,
            },
    {
        let ghost before = self@;
        if chunk.len() == 0 {
            proof {
                lemma_first_newline_none(chunk@);
            }
            let received = self.line.len();
            self.line.clear();
            let result = if received == 0 {
                Ok(None)
            } else {
                Err(ReadLineError::TruncatedLine { received })
            };
            return LineStep { consumed: 0, result: Some(result) };
        }
        match find_newline(chunk) {
            Some(n) => {
                self.extend(chunk, n);
                let result = self.close();
                LineStep { consumed: n + 1, result: Some(result) }
            },
            None => {
                self.extend(chunk, chunk.len());
                assert(chunk@.take(chunk@.len() as int) == chunk@);
                assert(self@ == before + chunk@);
                assert(!self@.contains(NEWLINE)) by {
                    if self@.contains(NEWLINE) {
                        let k = choose|k: int| 0 <= k < self@.len() && self@[k] == NEWLINE;
                        if k < before.len() {
                            assert(before[k] == NEWLINE);
                        } else {
                            assert(chunk@[k - before.len()] == NEWLINE);
                        }
                    }
                }
                if self.line.len() > MAX_LINE_BYTES {
                    self.line.clear();
                    return LineStep {
                        consumed: chunk.len(),
                        result: Some(Err(ReadLineError::TooLong)),
                    };
                }
                LineStep { consumed: chunk.len(), result: None }
            },
        }
    }
}

/// The result of feeding `chunks` to a reader in turn, with `pending` already open,
/// when the peer closes after the last of them.
pub open spec fn after_chunks(pending: Seq<u8>, chunks: Seq<Seq<u8>>) -> Result<
    Option<Seq<char>>,
    ReadLineErrorView,
>
    decreases chunks.len(),
{
    if chunks.len() == 0 {
        cut_off(pending)
    } else {
        match after_chunk(pending, chunks.first()).1 {
            Some(result) => result,
            None => after_chunks(
                after_chunk(pending, chunks.first()).0,
                chunks.drop_first(),
            ),
        }
    }
}

/// How the peer's bytes are cut into chunks makes no difference: the result is that
/// of the whole stream.
pub proof fn lemma_chunking_is_irrelevant(pending: Seq<u8>, chunks: Seq<Seq<u8>>)
    requires
        pending.len() <= MAX_LINE_BYTES,
        !pending.contains(NEWLINE),
        forall|i: int| 0 <= i < chunks.len() ==> (#[trigger] chunks[i]).len() > 0,
    ensures
        after_chunks(pending, chunks) == line_of(pending + chunks.flatten()),
    decreases chunks.len(),
{
    if chunks.len() == 0 {
        assert(pending + chunks.flatten() == pending);
        lemma_first_newline_none(pending);
    } else {
        let chunk = chunks.first();
        let rest = chunks.drop_first();
        let stream = pending + chunks.flatten();
        let open = pending + chunk;
        assert(chunk.len() > 0) by {
            assert(chunk == chunks[0]);
        }
        assert(stream == open + rest.flatten());
        assert forall|i: int| 0 <= i < rest.len() implies (#[trigger] rest[i]).len() > 0 by {
            assert(rest[i] == chunks[i + 1]);
        }
        match first_newline(chunk) {
            Some(n) => {
                assert(is_first_newline(chunk, n));
                let at = pending.len() + n;
                assert(stream.take(at) == pending + chunk.take(n));
                assert(!stream.take(at).contains(NEWLINE)) by {
                    if stream.take(at).contains(NEWLINE) {
                        let k = choose|k: int| 0 <= k < at && stream.take(at)[k] == NEWLINE;
                        if k < pending.len() {
                            assert(pending[k] == NEWLINE);
                        } else {
                            assert(chunk.take(n)[k - pending.len()] == NEWLINE);
                        }
                    }
                }
                assert(is_first_newline(stream, at));
                lemma_first_newline_is(stream, at);
            },
            None => {
                assert(!chunk.contains(NEWLINE)) by {
                    if chunk.contains(NEWLINE) {
                        lemma_first_newline_some(chunk);
                    }
                }
                assert(!open.contains(NEWLINE)) by {
                    if open.contains(NEWLINE) {
                        let k = choose|k: int| 0 <= k < open.len() && open[k] == NEWLINE;
                        if k < pending.len() {
                            assert(pending[k] == NEWLINE);
                        } else {
                            assert(chunk[k - pending.len()] == NEWLINE);
                        }
                    }
                }
                if open.len() > MAX_LINE_BYTES {
                    if first_newline(stream) is Some {
                        let n = first_newline(stream)->0;
                        assert(is_first_newline(stream, n));
                        if n < open.len() {
                            assert(open[n] == NEWLINE);
                        }
                    }
                } else {
                    lemma_chunking_is_irrelevant(open, rest);
                }
            },
        }
    }
}

proof fn lemma_scalar_bytes(scalar: u32)
    requires
        is_scalar(scalar),
        scalar != 10,
    ensures
        !encode_scalar(scalar).contains(NEWLINE),
{
    assert(scalar <= 0x7f && scalar != 10 ==> (scalar & 0x7F) as u8 != 10) by (bit_vector);
    assert(0xC0u8 | ((scalar >> 6) & 0x1F) as u8 != 10) by (bit_vector);
    assert(0xE0u8 | ((scalar >> 12) & 0x0F) as u8 != 10) by (bit_vector);
    assert(0xF0u8 | ((scalar >> 18) & 0x7) as u8 != 10) by (bit_vector);
    assert(0x80u8 | (scalar & 0x3F) as u8 != 10) by (bit_vector);
    assert(0x80u8 | ((scalar >> 6) & 0x3F) as u8 != 10) by (bit_vector);
    assert(0x80u8 | ((scalar >> 12) & 0x3F) as u8 != 10) by (bit_vector);
}

/// UTF-8 has a newline byte only where the text has a newline.
proof fn lemma_no_newline_bytes(text: Seq<char>)
    requires
        !text.contains('\n'),
    ensures
        !encode_utf8(text).contains(NEWLINE),
    decreases text.len(),
{
    if text.len() > 0 {
        let rest = text.drop_first();
        assert(!rest.contains('\n')) by {
            if rest.contains('\n') {
                let k = choose|k: int| 0 <= k < rest.len() && rest[k] == '\n';
                assert(text[k + 1] == '\n');
            }
        }
        assert(text[0] != '\n');
        char_is_scalar(text[0]);
        let first = text[0];
        assert(first as u32 != 10) by {
            if first as u32 == 10 {
                char_u32_cast(first, 10);
                char_u32_cast('\n', 10);
            }
        }
        lemma_scalar_bytes(text[0] as u32);
        lemma_no_newline_bytes(rest);
        let head = encode_scalar(text[0] as u32);
        let tail = encode_utf8(rest);
        if (head + tail).contains(NEWLINE) {
            let k = choose|k: int| 0 <= k < (head + tail).len() && (head + tail)[k] == NEWLINE;
            if k < head.len() {
                assert(head[k] == NEWLINE);
            } else {
                assert(tail[k - head.len()] == NEWLINE);
            }
        }
    }
}

proof fn lemma_encode_push_newline(text: Seq<char>)
    ensures
        encode_utf8(text.push('\n')) == encode_utf8(text).push(NEWLINE),
    decreases text.len(),
{
    let framed = text.push('\n');
    if text.len() == 0 {
        assert(framed.drop_first() == Seq::<char>::empty());
        assert(encode_utf8(framed.drop_first()) == Seq::<u8>::empty());
        assert(10u32 & 0x7F == 10) by (bit_vector);
        assert(encode_utf8(framed) == seq![NEWLINE]);
        assert(encode_utf8(text).push(NEWLINE) == seq![NEWLINE]);
    } else {
        assert(framed.drop_first() == text.drop_first().push('\n'));
        assert(framed[0] == text[0]);
        lemma_encode_push_newline(text.drop_first());
        assert(encode_utf8(framed) == encode_utf8(text).push(NEWLINE));
    }
}

/// A reader gives back what was framed: for a text without newlines that fits the
/// cap, the first line of the framed text's bytes, whatever follows them, is that
/// text.
pub proof fn lemma_framed_line_is_read_back(text: Seq<char>, rest: Seq<u8>)
    requires
        !text.contains('\n'),
        encode_utf8(text).len() <= MAX_LINE_BYTES,
    ensures
        line_of(encode_utf8(text.push('\n')) + rest) == Ok::<_, ReadLineErrorView>(Some(text)),
        taken_from(encode_utf8(text.push('\n')) + rest) == encode_utf8(text.push('\n')).len(),
{
    let payload = encode_utf8(text);
    let stream = encode_utf8(text.push('\n')) + rest;
    lemma_encode_push_newline(text);
    lemma_no_newline_bytes(text);
    let n = payload.len() as int;
    assert(stream.take(n) == payload);
    assert(is_first_newline(stream, n));
    lemma_first_newline_is(stream, n);
    encode_utf8_valid_utf8(text);
    encode_utf8_decode_utf8(text);
}

/// What reading one line gives, by where the first newline is: the text before it, if
/// that fits the cap and is UTF-8, and the reason if not. Without a newline there is no
/// line: nothing if nothing came, and otherwise how much was cut off, unless that was
/// too much already.
pub proof fn lemma_lines_end_at_the_first_newline(stream: Seq<u8>, n: int)
    requires
        0 <= n <= stream.len(),
        forall|j: int| 0 <= j < n ==> #[trigger] stream[j] != 10,
        n < stream.len() ==> stream[n] == 10,
    ensures
        n < stream.len() ==> {
            &&& taken_from(stream) == n + 1
            &&& n > 1_048_576 ==> line_of(stream) == Err::<Option<Seq<char>>, _>(
                ReadLineErrorView::TooLong,
            )
            &&& n <= 1_048_576 && valid_utf8(stream.take(n)) ==> line_of(stream) == Ok::<
                _,
                ReadLineErrorView,
            >(Some(decode_utf8(stream.take(n))))
            &&& n <= 1_048_576 && !valid_utf8(stream.take(n)) ==> line_of(stream) == Err::<
                Option<Seq<char>>,
                _,
            >(ReadLineErrorView::NotUtf8)
        },
        n == stream.len() ==> {
            &&& taken_from(stream) == n
            &&& n == 0 ==> line_of(stream) == Ok::<Option<Seq<char>>, ReadLineErrorView>(None)
            &&& 0 < n <= 1_048_576 ==> line_of(stream) == Err::<Option<Seq<char>>, _>(
                ReadLineErrorView::TruncatedLine { received: n as nat },
            )
            &&& n > 1_048_576 ==> line_of(stream) == Err::<Option<Seq<char>>, _>(
                ReadLineErrorView::TooLong,
            )
        },
{
    if n < stream.len() {
        assert(!stream.take(n).contains(NEWLINE)) by {
            if stream.take(n).contains(NEWLINE) {
                let k = choose|k: int| 0 <= k < n && stream.take(n)[k] == NEWLINE;
                assert(stream[k] == NEWLINE);
            }
        }
        lemma_first_newline_is(stream, n);
    } else {
        assert(!stream.contains(NEWLINE));
        lemma_first_newline_none(stream);
    }
}

/// A line stays open exactly as long as no newline came, the peer has not closed and
/// the cap is kept; all of it is then held, and nothing else. A line that ended leaves
/// nothing behind.
pub proof fn lemma_open_lines_are_bounded(pending: Seq<u8>, chunk: Seq<u8>)
    ensures
        after_chunk(pending, chunk).1 is None <==> {
            &&& chunk.len() > 0
            &&& !chunk.contains(10u8)
            &&& pending.len() + chunk.len() <= 1_048_576
        },
        after_chunk(pending, chunk).1 is None ==> after_chunk(pending, chunk).0 == pending + chunk,
        after_chunk(pending, chunk).1 is Some ==> after_chunk(pending, chunk).0.len() == 0,
{
    if chunk.contains(NEWLINE) {
        lemma_first_newline_some(chunk);
    } else {
        lemma_first_newline_none(chunk);
    }
}

/// A chunk that holds a newline, or says that the peer closed, ends the line with what
/// a reader of the whole stream gets; so does one that brings an open line over the
/// cap.
pub proof fn lemma_chunks_end_the_line(pending: Seq<u8>, chunk: Seq<u8>)
    requires
        pending.len() <= 1_048_576,
        !pending.contains(10u8),
    ensures
        chunk.contains(10u8) ==> after_chunk(pending, chunk).1 == Some(line_of(pending + chunk)),
        chunk.len() == 0 ==> after_chunk(pending, chunk).1 == Some(line_of(pending)),
        pending.len() + chunk.len() > 1_048_576 && !chunk.contains(10u8) ==> after_chunk(
            pending,
            chunk,
        ).1 == Some(Err::<Option<Seq<char>>, _>(ReadLineErrorView::TooLong)),
{
    lemma_first_newline_none(pending);
    if chunk.contains(NEWLINE) {
        lemma_first_newline_some(chunk);
        let chunks = seq![chunk];
        assert(chunks.drop_first() =~= Seq::empty());
        assert(chunks.flatten() =~= chunk + chunks.drop_first().flatten());
        assert(chunks.flatten() =~= chunk);
        lemma_chunking_is_irrelevant(pending, chunks);
        assert(chunks.first() == chunk);
    } else {
        lemma_first_newline_none(chunk);
    }
}

/// The contents of a line result leave nothing out.
pub proof fn lemma_contents_of_a_line_result(line: String, error: ReadLineError)
    ensures
        line_result_view(Ok(Some(line))) == Ok::<_, ReadLineErrorView>(Some(line@)),
        line_result_view(Ok(None)) == Ok::<Option<Seq<char>>, ReadLineErrorView>(None),
        match error {
            ReadLineError::Io { source } => line_result_view(Err(error)) == Err::<
                Option<Seq<char>>,
                _,
            >(ReadLineErrorView::Io { source: source@ }),
            ReadLineError::TruncatedLine { received } => line_result_view(Err(error)) == Err::<
                Option<Seq<char>>,
                _,
            >(ReadLineErrorView::TruncatedLine { received: received as nat }),
            ReadLineError::TooLong => line_result_view(Err(error)) == Err::<Option<Seq<char>>, _>(
                ReadLineErrorView::TooLong,
            ),
            ReadLineError::NotUtf8 => line_result_view(Err(error)) == Err::<Option<Seq<char>>, _>(
                ReadLineErrorView::NotUtf8,
            ),
        },
{
}

} // verus!
