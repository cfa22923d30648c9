//! Writers that turn a stream of bytes into lines for the platform log.
//!
//! A writer makes no call to the platform. To hand a line on is to put it
//! behind the lines that are due; whoever owns the writer takes those out
//! with `take_lines` and logs them, oldest first. What a writer has handed on
//! is therefore a value that contracts can speak of: each operation says which
//! calls it adds.

use vstd::prelude::*;

use crate::buffer::{
    first_line, flushed, lemma_flush_twice, lemma_write_all_then_flush, lemma_write_then_flush,
    lemma_written, line_count, lines_fit, lines_of, written, written_all, written_raw, Buffer,
    Outcome, LOGGING_MSG_MAX_LEN,
};
use crate::cbytes::{has_nul, CBytes};
use crate::error::EncodingError;
use crate::level::{platform_level, Level, LogLevel};
use crate::tag::CappedTag;

verus! {

/// One call of the platform log, as a value.
pub struct SinkCall {
    /// The severity of the line.
    pub level: LogLevel,
    /// The domain of the line.
    pub domain: u16,
    /// The tag of the line.
    pub tag: Seq<u8>,
    /// The text of the line.
    pub message: Seq<u8>,
}

/// A line that is due to the platform log.
///
/// Its message has at most 4000 bytes, none of them zero, and is kept
/// nul-terminated.
pub struct LogLine<'a> {
    level: LogLevel,
    domain: u16,
    tag: &'a CappedTag,
    message: CBytes,
}

impl<'a> View for LogLine<'a> {
    type V = SinkCall;

    closed spec fn view(&self) -> SinkCall {
        SinkCall {
            level: self.level,
            domain: self.domain,
            tag: self.tag@,
            message: self.message@,
        }
    }
}

impl<'a> LogLine<'a> {
    #[verifier::type_invariant]
    spec fn inv(&self) -> bool {
        self.message@.len() <= LOGGING_MSG_MAX_LEN
    }

    /// The severity to log the line with.
    pub fn level(&self) -> (r: LogLevel)
        ensures
            r == self@.level,
    {
        self.level
    }

    /// The domain to log the line under.
    pub fn domain(&self) -> (r: u16)
        ensures
            r == self@.domain,
    {
        self.domain
    }

    /// The tag to log the line under.
    pub fn tag(&self) -> (r: &'a CappedTag)
        ensures
            r@ == self@.tag,
    {
        self.tag
    }

    /// The line's text.
    pub fn message(&self) -> (bytes: &[u8])
        ensures
            bytes@ == self@.message,
            bytes@.len() <= LOGGING_MSG_MAX_LEN,
            !has_nul(bytes@),
    {
        proof {
            use_type_invariant(self);
        }
        self.message.as_bytes()
    }

    /// The line's text and the zero byte that ends it.
    pub fn message_with_nul(&self) -> (bytes: &[u8])
        ensures
            bytes@ == self@.message.push(0u8),
            self@.message.len() <= LOGGING_MSG_MAX_LEN,
            !has_nul(self@.message),
    {
        proof {
            use_type_invariant(self);
        }
        self.message.as_bytes_with_nul()
    }
}

/// The calls that a sequence of lines stands for.
pub open spec fn calls_of(lines: Seq<LogLine>) -> Seq<SinkCall> {
    Seq::new(lines.len(), |i: int| lines[i]@)
}

/// Where a writer logs to, and what it has handed on so far.
pub struct SinkState {
    /// The severity of every line.
    pub level: LogLevel,
    /// The domain of every line.
    pub domain: u16,
    /// The tag of every line.
    pub tag: Seq<u8>,
    /// The calls that are due, oldest first.
    pub pending: Seq<SinkCall>,
}

impl SinkState {
    /// The call that logs `message` here.
    pub open spec fn call(self, message: Seq<u8>) -> SinkCall {
        SinkCall { level: self.level, domain: self.domain, tag: self.tag, message }
    }

    /// The calls that log `messages` here, in their order.
    pub open spec fn calls(self, messages: Seq<Seq<u8>>) -> Seq<SinkCall> {
        Seq::new(messages.len(), |i: int| self.call(messages[i]))
    }

    /// This state once `messages` have been handed on.
    pub open spec fn with(self, messages: Seq<Seq<u8>>) -> SinkState {
        SinkState { pending: self.pending + self.calls(messages), ..self }
    }
}

/// Handing on some lines and then some more is handing on all of them in
/// their order.
pub proof fn lemma_calls_concat(sink: SinkState, first: Seq<Seq<u8>>, second: Seq<Seq<u8>>)
    ensures
        sink.with(first).with(second) == sink.with(first + second),
        sink.with(Seq::empty()) == sink,
{
    assert(sink.with(first).with(second).pending =~= sink.with(first + second).pending);
    assert(sink.with(Seq::empty()).pending =~= sink.pending);
}

/// What a write returns for an outcome: the number of bytes taken, or the
/// error.
pub open spec fn write_result(outcome: Outcome) -> Result<usize, EncodingError> {
    match outcome.taken {
        Some(n) => Ok(n as usize),
        None => Err(EncodingError),
    }
}

/// What a flush returns for an outcome.
pub open spec fn flush_result(outcome: Outcome) -> Result<(), EncodingError> {
    match outcome.taken {
        Some(_) => Ok(()),
        None => Err(EncodingError),
    }
}

/// The unbuffered writer: each write hands on one line.
pub struct HiLogWriter<'a> {
    level: LogLevel,
    domain: u16,
    tag: &'a CappedTag,
    lines: Vec<LogLine<'a>>,
}

impl<'a> View for HiLogWriter<'a> {
    type V = SinkState;

    closed spec fn view(&self) -> SinkState {
        SinkState {
            level: self.level,
            domain: self.domain,
            tag: self.tag@,
            pending: calls_of(self.lines@),
        }
    }
}

impl<'a> HiLogWriter<'a> {
    /// A writer for lines of the given severity, domain and tag, with
    /// nothing handed on yet.
    pub fn new(level: LogLevel, domain: u16, tag: &'a CappedTag) -> (w: Self)
        ensures
            w@ == (SinkState { level, domain, tag: tag@, pending: Seq::empty() }),
    {
        let w = HiLogWriter { level, domain, tag, lines: Vec::new() };
        assert(w@.pending =~= Seq::empty());
        w
    }

    /// The platform severity of this writer's lines.
    pub fn level(&self) -> (r: LogLevel)
        ensures
            r == self@.level,
    {
        self.level
    }

    /// The domain of this writer's lines.
    pub fn domain(&self) -> (r: u16)
        ensures
            r == self@.domain,
    {
        self.domain
    }

    /// The tag of this writer's lines.
    pub fn tag(&self) -> (r: &'a CappedTag)
        ensures
            r@ == self@.tag,
    {
        self.tag
    }

    /// Hands on `msg` as one line.
    fn log(&mut self, msg: &[u8]) -> (r: Result<(), EncodingError>)
        requires
            msg@.len() <= LOGGING_MSG_MAX_LEN,
        ensures
            r is Err <==> has_nul(msg@),
            r is Err ==> final(self)@ == old(self)@,
            r is Ok ==> final(self)@ == old(self)@.with(seq![msg@]),
    {
        match CBytes::new(vstd::slice::slice_to_vec(msg)) {
            Ok(message) => {
                let line = LogLine {
                    level: self.level,
                    domain: self.domain,
                    tag: self.tag,
                    message,
                };
                self.lines.push(line);
                assert(self@.pending =~= old(self)@.with(seq![msg@]).pending);
                Ok(())
            },
            Err(e) => Err(e),
        }
    }

    /// Hands on the first line of `buf`: all of it, or its first 4000 bytes.
    ///
    /// Returns how many bytes that line has. Fails, with nothing handed on,
    /// exactly where the line holds a zero byte.
    pub fn write(&mut self, buf: &[u8]) -> (r: Result<usize, EncodingError>)
        ensures
            r == write_result(written_raw(buf@)),
            final(self)@ == old(self)@.with(written_raw(buf@).emitted),
            r is Err <==> has_nul(first_line(buf@)),
            r is Ok ==> r->Ok_0 == first_line(buf@).len() && r->Ok_0 <= LOGGING_MSG_MAX_LEN,
    {
        let taken = if buf.len() <= LOGGING_MSG_MAX_LEN {
            buf.len()
        } else {
            LOGGING_MSG_MAX_LEN
        };
        let line = vstd::slice::slice_subrange(buf, 0, taken);
        assert(line@ =~= first_line(buf@));
        match self.log(line) {
            Ok(()) => Ok(taken),
            Err(e) => {
                assert(old(self)@.with(Seq::empty()).pending =~= old(self)@.pending);
                Err(e)
            },
        }
    }

    /// Does nothing: a line is handed on as soon as it is written.
    pub fn flush(&mut self) -> (r: Result<(), EncodingError>)
        ensures
            r == Ok::<(), EncodingError>(()),
            final(self)@ == old(self)@,
    {
        Ok(())
    }

    /// Takes the lines that are due out of the writer, oldest first.
    pub fn take_lines(&mut self) -> (lines: Vec<LogLine<'a>>)
        ensures
            calls_of(lines@) == old(self)@.pending,
            lines@.len() == old(self)@.pending.len(),
            forall|i: int| 0 <= i < lines@.len() ==> (#[trigger] lines@[i])@ == old(self)@.pending[i],
            final(self)@ == (SinkState { pending: Seq::empty(), ..old(self)@ }),
    {
        let mut lines: Vec<LogLine<'a>> = Vec::new();
        core::mem::swap(&mut lines, &mut self.lines);
        assert(self@.pending =~= Seq::empty());
        assert forall|i: int| 0 <= i < lines@.len() implies (#[trigger] lines@[i])@ == old(
            self,
        )@.pending[i] by {
            assert(calls_of(lines@)[i] == lines@[i]@);
        }
        lines
    }
}

/// What a buffered writer holds: where it logs to and what it has handed on,
/// and the bytes it keeps back.
pub struct WriterState {
    /// Where the lines go, and those that are due.
    pub sink: SinkState,
    /// The bytes that are held back, oldest first.
    pub buffered: Seq<u8>,
}

impl WriterState {
    /// This state after an operation that came to `outcome`.
    pub open spec fn after(self, outcome: Outcome) -> WriterState {
        WriterState { sink: self.sink.with(outcome.emitted), buffered: outcome.buffered }
    }
}

/// A writer that logs to the platform log.
///
/// It keeps up to 4000 bytes back, to hand on few long lines in place of
/// many short ones.
pub struct OHOSWriter<'a> {
    inner: HiLogWriter<'a>,
    buf: Buffer,
}

impl<'a> View for OHOSWriter<'a> {
    type V = WriterState;

    closed spec fn view(&self) -> WriterState {
        WriterState { sink: self.inner@, buffered: self.buf@ }
    }
}

impl<'a> OHOSWriter<'a> {
    /// A writer for events of severity `level`, with an empty buffer and
    /// nothing handed on yet.
    ///
    /// Its lines carry the platform severity that `level` maps to, and
    /// `domain` and `tag` as they are given.
    pub fn new(level: &Level, domain: u16, tag: &'a CappedTag) -> (w: Self)
        ensures
            w@.sink == (SinkState {
                level: platform_level(*level),
                domain,
                tag: tag@,
                pending: Seq::empty(),
            }),
            w@.buffered == Seq::<u8>::empty(),
    {
        let w = HiLogWriter::new(
            match level {
                Level::Warn => LogLevel::Warn,
                Level::Info => LogLevel::Info,
                Level::Debug => LogLevel::Debug,
                Level::Error => LogLevel::Error,
                Level::Trace => LogLevel::Debug,
            },
            domain,
            tag,
        );
        OHOSWriter { inner: w, buf: Buffer::new() }
    }

    /// Hands on what is held back, as one line.
    fn flush_buf(&mut self) -> (r: Result<(), EncodingError>)
        ensures
            r == flush_result(flushed(old(self)@.buffered)),
            final(self)@ == old(self)@.after(flushed(old(self)@.buffered)),
    {
        if self.buf.len() == 0 {
            assert(self@.sink.with(Seq::empty()).pending =~= self@.sink.pending);
            return Ok(());
        }
        match self.inner.write(self.buf.as_slice()) {
            Ok(_) => {
                self.buf.clear();
                Ok(())
            },
            Err(e) => Err(e),
        }
    }

    /// Accepts bytes of `buf` and returns how many: all of them, or the
    /// first 4000.
    ///
    /// Bytes that leave room in the buffer are held back. Bytes that do not
    /// fit first have the buffer handed on as a line. Where `buf` has 4000
    /// bytes or more, its first 4000 are then handed on at once as a line of
    /// their own, and the rest is left to the caller. Fails where a line that
    /// is to be handed on holds a zero byte.
    pub fn write(&mut self, buf: &[u8]) -> (r: Result<usize, EncodingError>)
        ensures
            r == write_result(written(old(self)@.buffered, buf@)),
            final(self)@ == old(self)@.after(written(old(self)@.buffered, buf@)),
            r is Ok ==> r->Ok_0 <= LOGGING_MSG_MAX_LEN && r->Ok_0 <= buf@.len(),
            r is Ok && buf@.len() > 0 ==> r->Ok_0 > 0,
    {
        let spare = LOGGING_MSG_MAX_LEN - self.buf.len();
        proof {
            lemma_written(self@.buffered, buf@);
        }
        if buf.len() < spare {
            self.buf.extend(buf);
            assert(self@.sink.with(Seq::empty()).pending =~= self@.sink.pending);
            return Ok(buf.len());
        }
        if buf.len() > spare {
            match self.flush_buf() {
                Ok(()) => {},
                Err(e) => {
                    return Err(e);
                },
            }
        } else {
            assert(self@.sink.with(Seq::empty()).pending =~= self@.sink.pending);
        }
        let ghost drained = self@;
        if buf.len() >= LOGGING_MSG_MAX_LEN {
            let r = self.inner.write(buf);
            proof {
                let o = written(old(self)@.buffered, buf@);
                assert(self@.sink.pending =~= old(self)@.sink.with(o.emitted).pending);
            }
            r
        } else {
            self.buf.extend(buf);
            Ok(buf.len())
        }
    }

    /// Hands on what is held back, as one line; an empty buffer gives none.
    ///
    /// Fails, and keeps the bytes, where they hold a zero byte.
    pub fn flush(&mut self) -> (r: Result<(), EncodingError>)
        ensures
            r == flush_result(flushed(old(self)@.buffered)),
            final(self)@ == old(self)@.after(flushed(old(self)@.buffered)),
    {
        match self.flush_buf() {
            Ok(()) => self.inner.flush(),
            Err(e) => Err(e),
        }
    }

    /// Writes all of `buf`: one write after another, each on what the one
    /// before it left over, until nothing is left or a write fails.
    ///
    /// What was handed on or held back before a failure stays so.
    pub fn write_all(&mut self, buf: &[u8]) -> (r: Result<(), EncodingError>)
        ensures
            r == flush_result(written_all(old(self)@.buffered, buf@)),
            final(self)@ == old(self)@.after(written_all(old(self)@.buffered, buf@)),
    {
        let ghost start = self@;
        let ghost mut emitted: Seq<Seq<u8>> = Seq::empty();
        let mut done: usize = 0;
        proof {
            assert(buf@.skip(0) =~= buf@);
            lemma_calls_concat(start.sink, emitted, Seq::empty());
        }
        while done < buf.len()
            invariant
                done <= buf.len(),
                start == old(self)@,
                self@.sink == start.sink.with(emitted),
                ({
                    let whole = written_all(start.buffered, buf@);
                    let rest = written_all(self@.buffered, buf@.skip(done as int));
                    &&& whole.taken is Some <==> rest.taken is Some
                    &&& whole.buffered == rest.buffered
                    &&& whole.emitted == emitted + rest.emitted
                }),
            decreases buf.len() - done,
        {
            let ghost before = self@;
            let ghost left = buf@.skip(done as int);
            let rest = vstd::slice::slice_subrange(buf, done, buf.len());
            proof {
                assert(rest@ =~= left);
            }
            match self.write(rest) {
                Ok(n) => {
                    proof {
                        let step = written(before.buffered, left);
                        assert(left.skip(n as int) =~= buf@.skip(done + n));
                        lemma_calls_concat(start.sink, emitted, step.emitted);
                        let after = written_all(step.buffered, left.skip(n as int));
                        assert(emitted + (step.emitted + after.emitted) =~= (emitted
                            + step.emitted) + after.emitted);
                        emitted = emitted + step.emitted;
                    }
                    done = done + n;
                },
                Err(e) => {
                    proof {
                        let step = written(before.buffered, left);
                        lemma_calls_concat(start.sink, emitted, step.emitted);
                        assert(written_all(before.buffered, left) == step);
                    }
                    return Err(e);
                },
            }
        }
        proof {
            assert(emitted + Seq::<Seq<u8>>::empty() =~= emitted);
        }
        Ok(())
    }

    /// The bytes that are held back, oldest first: never more than 4000.
    pub fn buffer(&self) -> (bytes: &[u8])
        ensures
            bytes@ == self@.buffered,
            bytes@.len() <= LOGGING_MSG_MAX_LEN,
    {
        self.buf.as_slice()
    }

    /// The platform severity of this writer's lines.
    pub fn level(&self) -> (r: LogLevel)
        ensures
            r == self@.sink.level,
    {
        self.inner.level()
    }

    /// The domain of this writer's lines.
    pub fn domain(&self) -> (r: u16)
        ensures
            r == self@.sink.domain,
    {
        self.inner.domain()
    }

    /// The tag of this writer's lines.
    pub fn tag(&self) -> (r: &'a CappedTag)
        ensures
            r@ == self@.sink.tag,
    {
        self.inner.tag()
    }

    /// Takes the lines that are due out of the writer, oldest first.
    pub fn take_lines(&mut self) -> (lines: Vec<LogLine<'a>>)
        ensures
            calls_of(lines@) == old(self)@.sink.pending,
            lines@.len() == old(self)@.sink.pending.len(),
            forall|i: int|
                0 <= i < lines@.len() ==> (#[trigger] lines@[i])@ == old(self)@.sink.pending[i],
            final(self)@ == (WriterState {
                sink: SinkState { pending: Seq::empty(), ..old(self)@.sink },
                buffered: old(self)@.buffered,
            }),
    {
        self.inner.take_lines()
    }
}

/// A flush of a writer that holds nothing back succeeds and changes
/// nothing: it makes no call. So a second flush behind a first that
/// succeeded makes no call either.
pub proof fn lemma_flush_again(state: WriterState)
    ensures
        state.buffered.len() == 0 ==> {
            &&& flush_result(flushed(state.buffered)) == Ok::<(), EncodingError>(())
            &&& state.after(flushed(state.buffered)) == state
        },
        flush_result(flushed(state.buffered)) is Ok ==> {
            let once = state.after(flushed(state.buffered));
            &&& flush_result(flushed(once.buffered)) == Ok::<(), EncodingError>(())
            &&& once.after(flushed(once.buffered)) == once
        },
{
    lemma_flush_twice(state.buffered);
    lemma_calls_concat(state.sink, Seq::empty(), Seq::empty());
    if state.buffered.len() == 0 {
        assert(state.buffered =~= Seq::empty());
    }
    if flush_result(flushed(state.buffered)) is Ok {
        let once = state.after(flushed(state.buffered));
        lemma_calls_concat(once.sink, Seq::empty(), Seq::empty());
        assert(once.buffered =~= Seq::empty());
    }
}

/// One write and a flush behind it, on a writer that holds nothing back:
/// bytes without a zero byte, at least 1 and at most 4000 of them, are taken
/// whole and make exactly one call, whose message is those bytes.
pub proof fn lemma_write_then_flush_calls(state: WriterState, data: Seq<u8>)
    requires
        state.buffered.len() == 0,
        0 < data.len() <= LOGGING_MSG_MAX_LEN,
        !has_nul(data),
    ensures
        ({
            let wrote = state.after(written(state.buffered, data));
            let done = wrote.after(flushed(wrote.buffered));
            &&& write_result(written(state.buffered, data)) == Ok::<usize, EncodingError>(
                data.len() as usize,
            )
            &&& flush_result(flushed(wrote.buffered)) == Ok::<(), EncodingError>(())
            &&& done.buffered == Seq::<u8>::empty()
            &&& done.sink == (SinkState {
                pending: state.sink.pending.push(state.sink.call(data)),
                ..state.sink
            })
        }),
{
    assert(state.buffered =~= Seq::empty());
    lemma_write_then_flush(data);
    let w = written(state.buffered, data);
    let f = flushed(w.buffered);
    lemma_calls_concat(state.sink, w.emitted, f.emitted);
    assert(state.sink.with(seq![data]).pending =~= state.sink.pending.push(
        state.sink.call(data),
    ));
}

/// Writing all of some bytes and a flush behind it, on a writer that holds
/// nothing back: bytes without a zero byte are all taken and make one call
/// for each 4000 of them and one for what is left. The messages, in the
/// order of the calls, are the bytes split at every 4000th; none is empty or
/// longer than 4000 bytes, and end to end they are the bytes.
pub proof fn lemma_write_all_then_flush_calls(state: WriterState, data: Seq<u8>)
    requires
        state.buffered.len() == 0,
        !has_nul(data),
    ensures
        ({
            let wrote = state.after(written_all(state.buffered, data));
            let done = wrote.after(flushed(wrote.buffered));
            &&& flush_result(written_all(state.buffered, data)) == Ok::<(), EncodingError>(())
            &&& flush_result(flushed(wrote.buffered)) == Ok::<(), EncodingError>(())
            &&& done.buffered == Seq::<u8>::empty()
            &&& done.sink == state.sink.with(lines_of(data))
            &&& done.sink.pending.len() == state.sink.pending.len() + line_count(data.len())
        }),
        lines_of(data).len() == line_count(data.len()),
        lines_fit(lines_of(data)),
        lines_of(data).flatten() == data,
{
    assert(state.buffered =~= Seq::empty());
    lemma_write_all_then_flush(data);
    let w = written_all(state.buffered, data);
    let f = flushed(w.buffered);
    lemma_calls_concat(state.sink, w.emitted, f.emitted);
}

} // verus!
