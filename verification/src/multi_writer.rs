use vstd::prelude::*;

verus! {

/// Why a sink turned bytes away.
#[derive(Clone, Copy, Debug, PartialEq, Eq, Structural)]
pub enum SinkError {
    /// The sink has a limit and no room is left under it.
    Full,
    /// The sink took nothing of bytes that were still to be written.
    Stalled,
}

/// What one call of `write` did to a sink: on success a prefix of the buffer
/// of the reported length was appended, on failure nothing was.
pub open spec fn wrote(
    before: Seq<u8>,
    buf: Seq<u8>,
    after: Seq<u8>,
    outcome: Result<usize, SinkError>,
) -> bool {
    match outcome {
        Ok(n) => n <= buf.len() && after == before + buf.take(n as int),
        Err(_) => after == before,
    }
}

/// `first.and(second)` on results: the second result when the first is a
/// success, else the first failure.
pub open spec fn both<T>(first: Result<T, SinkError>, second: Result<T, SinkError>) -> Result<
    T,
    SinkError,
> {
    match first {
        Ok(_) => second,
        Err(e) => Err(e),
    }
}

/// One call that a sink has answered, with its answer.
#[allow(inconsistent_fields)]
pub ghost enum Call {
    Wrote { buf: Seq<u8>, outcome: Result<usize, SinkError> },
    Flushed { outcome: Result<(), SinkError> },
}

/// The answer to the last call, where that was a write.
pub open spec fn last_write(calls: Seq<Call>) -> Result<usize, SinkError> {
    if calls.len() > 0 && calls.last() is Wrote {
        calls.last()->Wrote_outcome
    } else {
        Err(SinkError::Full)
    }
}

/// The answer to the last call, where that was a flush.
pub open spec fn last_flush(calls: Seq<Call>) -> Result<(), SinkError> {
    if calls.len() > 0 && calls.last() is Flushed {
        calls.last()->Flushed_outcome
    } else {
        Err(SinkError::Full)
    }
}

/// What the second of two sinks is offered in one write: what the first
/// sink took, or the whole buffer where the first failed.
pub open spec fn offered(buf: Seq<u8>, first: Result<usize, SinkError>) -> Seq<u8> {
    match first {
        Ok(n) => buf.take(n as int),
        Err(_) => buf,
    }
}

/// What a sink shows after it gave up on `data` with the failure `e`: a
/// part of `data` from its start was appended, and `e` is the error of the
/// sink's last write, or `Stalled` where the last write took nothing
/// though bytes were left.
pub open spec fn stopped(
    before: Seq<u8>,
    data: Seq<u8>,
    after: Seq<u8>,
    calls: Seq<Call>,
    e: SinkError,
) -> bool {
    exists|k: int|
        {
            &&& 0 <= k <= data.len()
            &&& after == before + #[trigger] data.take(k)
            &&& {
                ||| last_write(calls) == Err::<usize, SinkError>(e)
                ||| e == SinkError::Stalled && last_write(calls) == Ok::<usize, SinkError>(0) && k
                    < data.len()
            }
        }
}

/// A consumer of bytes.
pub trait Sink {
    /// Every byte the sink has accepted so far, in order.
    spec fn received(&self) -> Seq<u8>;

    /// Every call the sink has answered so far, in order.
    spec fn calls(&self) -> Seq<Call>;

    /// A steady sink never fails and takes every buffer whole.
    spec fn steady(&self) -> bool;

    /// The rule by which the sink answers a write: from what it has
    /// received and the buffer to the answer. A sink keeps its rule.
    spec fn rule(&self) -> spec_fn(Seq<u8>, Seq<u8>) -> Result<usize, SinkError>;

    /// Offers `buf`; the sink takes a prefix of it and reports its length.
    fn write(&mut self, buf: &[u8]) -> (outcome: Result<usize, SinkError>)
        ensures
            outcome == (old(self).rule())(old(self).received(), buf@),
            final(self).rule() == old(self).rule(),
            wrote(old(self).received(), buf@, final(self).received(), outcome),
            final(self).calls() == old(self).calls().push(Call::Wrote { buf: buf@, outcome }),
            final(self).steady() == old(self).steady(),
            old(self).steady() ==> outcome == Ok::<usize, SinkError>(buf.len()),
    ;

    /// Asks the sink to push through what it holds back.
    fn flush(&mut self) -> (outcome: Result<(), SinkError>)
        ensures
            final(self).received() == old(self).received(),
            final(self).rule() == old(self).rule(),
            final(self).calls() == old(self).calls().push(Call::Flushed { outcome }),
            final(self).steady() == old(self).steady(),
            old(self).steady() ==> outcome is Ok,
    ;
}

/// The rule of a sink that takes every buffer whole.
pub open spec fn takes_all() -> spec_fn(Seq<u8>, Seq<u8>) -> Result<usize, SinkError> {
    |received: Seq<u8>, buf: Seq<u8>| Ok::<usize, SinkError>(buf.len() as usize)
}

/// What a sink has received after one write of `buf`.
pub open spec fn after_write(
    rule: spec_fn(Seq<u8>, Seq<u8>) -> Result<usize, SinkError>,
    received: Seq<u8>,
    buf: Seq<u8>,
) -> Seq<u8> {
    match rule(received, buf) {
        Ok(n) => received + buf.take(n as int),
        Err(_) => received,
    }
}

/// What comes of writing all of `data` to a sink, with what is left offered
/// again after each short write: what the sink has received in the end,
/// and success, the error of the write that failed, or `Stalled` where a
/// write took nothing.
pub open spec fn drained(
    rule: spec_fn(Seq<u8>, Seq<u8>) -> Result<usize, SinkError>,
    received: Seq<u8>,
    data: Seq<u8>,
) -> (Seq<u8>, Result<(), SinkError>)
    decreases data.len(),
{
    if data.len() == 0 {
        (received, Ok(()))
    } else {
        match rule(received, data) {
            Err(e) => (received, Err(e)),
            Ok(n) => if 0 < n <= data.len() {
                drained(rule, received + data.take(n as int), data.skip(n as int))
            } else {
                (received, Err(SinkError::Stalled))
            },
        }
    }
}

/// What comes of one write through two sinks in turn: what each has
/// received in the end, and the answer. The first sink is offered `buf`
/// once. Where it fails, the second is offered `buf` once too, and the
/// first failure is the answer. Where it takes `n` bytes, the second is
/// written those `n` bytes until it has them all, and `n` is the answer
/// unless the second sink gives up.
pub open spec fn teed(
    first: spec_fn(Seq<u8>, Seq<u8>) -> Result<usize, SinkError>,
    one: Seq<u8>,
    second: spec_fn(Seq<u8>, Seq<u8>) -> Result<usize, SinkError>,
    two: Seq<u8>,
    buf: Seq<u8>,
) -> (Seq<u8>, Seq<u8>, Result<usize, SinkError>) {
    match first(one, buf) {
        Err(e) => (one, after_write(second, two, buf), Err(e)),
        Ok(n) => {
            let part = buf.take(n as int);
            match second(two, part) {
                Err(e) => (one + part, two, Err(e)),
                Ok(k) => {
                    let rest = drained(second, two + part.take(k as int), part.skip(k as int));
                    (
                        one + part,
                        rest.0,
                        match rest.1 {
                            Ok(_) => Ok(n),
                            Err(e) => Err(e),
                        },
                    )
                },
            }
        },
    }
}

/// How many more bytes fit under a limit when `held` bytes are kept.
pub open spec fn room_under(limit: Option<usize>, held: nat) -> nat {
    match limit {
        Some(limit) => if limit > held {
            (limit - held) as nat
        } else {
            0
        },
        None => 0,
    }
}

/// The answer of a buffer sink that keeps `held` bytes to a buffer of `len`
/// bytes. A buffer that is not empty and meets no room under the limit
/// fails with `Full`. Of every other buffer as much is kept as the limit
/// and the step allow.
pub open spec fn buffer_answer(
    limit: Option<usize>,
    step: Option<usize>,
    held: nat,
    len: nat,
) -> Result<usize, SinkError> {
    if len > 0 && limit is Some && room_under(limit, held) == 0 {
        Err(SinkError::Full)
    } else {
        let fitting = if limit is Some && room_under(limit, held) < len {
            room_under(limit, held)
        } else {
            len
        };
        match step {
            Some(step) => if step < fitting {
                Ok(step)
            } else {
                Ok(fitting as usize)
            },
            None => Ok(fitting as usize),
        }
    }
}

/// The rule of a buffer sink with this limit and this step.
pub open spec fn buffer_rule(limit: Option<usize>, step: Option<usize>) -> spec_fn(
    Seq<u8>,
    Seq<u8>,
) -> Result<usize, SinkError> {
    |received: Seq<u8>, buf: Seq<u8>| buffer_answer(limit, step, received.len(), buf.len())
}

/// A sink that keeps what it is given: without end or up to a limit, and
/// whole or at most so many bytes at a time.
pub struct BufferSink {
    data: Vec<u8>,
    limit: Option<usize>,
    step: Option<usize>,
    log: Ghost<Seq<Call>>,
}

impl BufferSink {
    /// An empty sink without a limit that takes every buffer whole.
    pub fn new() -> (sink: Self)
        ensures
            sink.received() == Seq::<u8>::empty(),
            sink.calls() == Seq::<Call>::empty(),
            sink.limit() is None,
            sink.step() is None,
    {
        BufferSink { data: Vec::new(), limit: None, step: None, log: Ghost(Seq::empty()) }
    }

    /// An empty sink that keeps at most `limit` bytes.
    pub fn with_limit(limit: usize) -> (sink: Self)
        ensures
            sink.received() == Seq::<u8>::empty(),
            sink.calls() == Seq::<Call>::empty(),
            sink.limit() == Some(limit),
            sink.step() is None,
    {
        BufferSink { data: Vec::new(), limit: Some(limit), step: None, log: Ghost(Seq::empty()) }
    }

    /// An empty sink without a limit that takes at most `step` bytes of
    /// each buffer.
    pub fn with_step(step: usize) -> (sink: Self)
        ensures
            sink.received() == Seq::<u8>::empty(),
            sink.calls() == Seq::<Call>::empty(),
            sink.limit() is None,
            sink.step() == Some(step),
    {
        BufferSink { data: Vec::new(), limit: None, step: Some(step), log: Ghost(Seq::empty()) }
    }

    /// The most bytes the sink keeps, if it has a limit.
    pub closed spec fn limit(&self) -> Option<usize> {
        self.limit
    }

    /// The most bytes the sink takes of one buffer, if it is held back.
    pub closed spec fn step(&self) -> Option<usize> {
        self.step
    }

    /// How many more bytes a sink with a limit can take.
    pub open spec fn room(&self) -> nat {
        room_under(self.limit(), self.received().len())
    }

    /// What the sink holds.
    pub fn bytes(&self) -> (data: &[u8])
        ensures
            data@ == self.received(),
    {
        self.data.as_slice()
    }

    /// Gives up what the sink holds.
    pub fn into_bytes(self) -> (data: Vec<u8>)
        ensures
            data@ == self.received(),
    {
        self.data
    }
}

impl Sink for BufferSink {
    closed spec fn received(&self) -> Seq<u8> {
        self.data@
    }

    closed spec fn calls(&self) -> Seq<Call> {
        self.log@
    }

    open spec fn steady(&self) -> bool {
        self.limit() is None && self.step() is None
    }

    open spec fn rule(&self) -> spec_fn(Seq<u8>, Seq<u8>) -> Result<usize, SinkError> {
        buffer_rule(self.limit(), self.step())
    }

    /// A buffer that is not empty and meets no room under the limit fails
    /// with `Full`. Every other buffer is kept as far as the limit and the
    /// step allow.
    fn write(&mut self, buf: &[u8]) -> (outcome: Result<usize, SinkError>)
        ensures
            final(self).limit() == old(self).limit(),
            final(self).step() == old(self).step(),
    {
        let fitting = match self.limit {
            None => buf.len(),
            Some(limit) => {
                let held = self.data.len();
                let room = if limit > held {
                    limit - held
                } else {
                    0
                };
                if buf.len() > 0 && room == 0 {
                    proof {
                        self.log = Ghost(
                            self.log@.push(
                                Call::Wrote { buf: buf@, outcome: Err(SinkError::Full) },
                            ),
                        );
                    }
                    return Err(SinkError::Full);
                } else if room < buf.len() {
                    room
                } else {
                    buf.len()
                }
            },
        };
        let count = match self.step {
            Some(step) => if step < fitting {
                step
            } else {
                fitting
            },
            None => fitting,
        };
        let taken = vstd::slice::slice_subrange(buf, 0, count);
        self.data.extend_from_slice(taken);
        proof {
            assert(self.data@ =~= old(self).data@ + buf@.take(count as int));
            self.log = Ghost(self.log@.push(Call::Wrote { buf: buf@, outcome: Ok(count) }));
        }
        Ok(count)
    }

    fn flush(&mut self) -> (outcome: Result<(), SinkError>)
        ensures
            final(self).limit() == old(self).limit(),
            final(self).step() == old(self).step(),
            outcome is Ok,
    {
        proof {
            self.log = Ghost(self.log@.push(Call::Flushed { outcome: Ok(()) }));
        }
        Ok(())
    }
}

/// Writes all of `buf` to a sink, offering what is left again after each
/// short write. Nothing is asked of the sink where `buf` is empty. Fails
/// with the sink's error where a write fails, and with `Stalled` where a
/// write takes nothing.
pub fn write_all<W: Sink>(sink: &mut W, buf: &[u8]) -> (outcome: Result<(), SinkError>)
    ensures
        match outcome {
            Ok(_) => final(sink).received() == old(sink).received() + buf@,
            Err(e) => {
                &&& stopped(
                    old(sink).received(),
                    buf@,
                    final(sink).received(),
                    final(sink).calls(),
                    e,
                )
                &&& final(sink).calls().len() > old(sink).calls().len()
            },
        },
        (final(sink).received(), outcome) == drained(
            old(sink).rule(),
            old(sink).received(),
            buf@,
        ),
        final(sink).rule() == old(sink).rule(),
        old(sink).calls().is_prefix_of(final(sink).calls()),
        buf@.len() == 0 ==> outcome is Ok && final(sink).calls() == old(sink).calls(),
        final(sink).steady() == old(sink).steady(),
        old(sink).steady() ==> outcome is Ok,
{
    let mut done: usize = 0;
    let ghost rule = sink.rule();
    proof {
        assert(buf@.take(0) =~= Seq::<u8>::empty());
        assert(sink.received() + Seq::<u8>::empty() =~= sink.received());
        assert(buf@.skip(0) =~= buf@);
    }
    while done < buf.len()
        invariant
            done <= buf@.len(),
            rule == old(sink).rule(),
            sink.rule() == rule,
            sink.received() == old(sink).received() + buf@.take(done as int),
            drained(rule, old(sink).received(), buf@) == drained(
                rule,
                sink.received(),
                buf@.skip(done as int),
            ),
            old(sink).calls().is_prefix_of(sink.calls()),
            buf@.len() == 0 ==> sink.calls() == old(sink).calls(),
            sink.steady() == old(sink).steady(),
        decreases buf@.len() - done,
    {
        let rest = vstd::slice::slice_subrange(buf, done, buf.len());
        let ghost log = sink.calls();
        let ghost held = sink.received();
        proof {
            assert(rest@ =~= buf@.skip(done as int));
        }
        match sink.write(rest) {
            Err(e) => {
                proof {
                    assert(log.is_prefix_of(sink.calls()));
                    assert(sink.received() == old(sink).received() + buf@.take(done as int));
                }
                return Err(e);
            },
            Ok(n) => {
                proof {
                    assert(log.is_prefix_of(sink.calls()));
                    assert(buf@.take(done as int) + rest@.take(n as int) =~= buf@.take(done + n));
                    assert(rest@.skip(n as int) =~= buf@.skip(done + n));
                }
                if n == 0 {
                    proof {
                        assert(sink.received() == old(sink).received() + buf@.take(done as int));
                    }
                    return Err(SinkError::Stalled);
                }
                done = done + n;
            },
        }
    }
    proof {
        assert(buf@.take(buf@.len() as int) =~= buf@);
        assert(buf@.skip(buf@.len() as int) =~= Seq::<u8>::empty());
    }
    Ok(())
}

/// A fan-out writer: what the first of two sinks takes, the second is
/// given too, so that both receive the same bytes.
pub struct MultiWriter<W1, W2> {
    pub one: W1,
    pub two: W2,
}

impl<W1, W2> MultiWriter<W1, W2> {
    /// Pairs two sinks.
    pub fn new(one: W1, two: W2) -> (writer: Self)
        ensures
            writer.one == one,
            writer.two == two,
    {
        Self { one, two }
    }

    /// Gives the two sinks back.
    pub fn into_parts(self) -> (parts: (W1, W2))
        ensures
            parts.0 == self.one,
            parts.1 == self.two,
    {
        (self.one, self.two)
    }
}

impl<W1: Sink, W2: Sink> MultiWriter<W1, W2> {
    /// Offers `buf` to the first sink and then, whatever came of that, to
    /// the second: what the first sink took, written again and again until
    /// the second has taken it whole, or all of `buf` once where the first
    /// failed. Where the call reports `n`, both sinks have received the
    /// first `n` bytes of `buf` and no others. The call fails if either
    /// sink failed, with the first sink's error if it had one, and with
    /// `Stalled` where the second sink takes nothing of what is left.
    pub fn write(&mut self, buf: &[u8]) -> (outcome: Result<usize, SinkError>)
        ensures
            final(self).one.calls() == old(self).one.calls().push(
                Call::Wrote { buf: buf@, outcome: last_write(final(self).one.calls()) },
            ),
            wrote(
                old(self).one.received(),
                buf@,
                final(self).one.received(),
                last_write(final(self).one.calls()),
            ),
            old(self).two.calls().is_prefix_of(final(self).two.calls()),
            final(self).two.calls().len() > old(self).two.calls().len(),
            final(self).two.calls()[old(self).two.calls().len() as int] matches Call::Wrote {
                buf: given,
                ..
            } && given == offered(buf@, last_write(final(self).one.calls())),
            match outcome {
                Ok(n) => {
                    &&& last_write(final(self).one.calls()) == Ok::<usize, SinkError>(n)
                    &&& n <= buf@.len()
                    &&& final(self).one.received() == old(self).one.received() + buf@.take(n as int)
                    &&& final(self).two.received() == old(self).two.received() + buf@.take(n as int)
                },
                Err(e) => match last_write(final(self).one.calls()) {
                    Err(first) => {
                        &&& e == first
                        &&& final(self).two.calls() == old(self).two.calls().push(
                            Call::Wrote { buf: buf@, outcome: last_write(final(self).two.calls()) },
                        )
                        &&& wrote(
                            old(self).two.received(),
                            buf@,
                            final(self).two.received(),
                            last_write(final(self).two.calls()),
                        )
                    },
                    Ok(n) => stopped(
                        old(self).two.received(),
                        buf@.take(n as int),
                        final(self).two.received(),
                        final(self).two.calls(),
                        e,
                    ),
                },
            },
            (final(self).one.received(), final(self).two.received(), outcome) == teed(
                old(self).one.rule(),
                old(self).one.received(),
                old(self).two.rule(),
                old(self).two.received(),
                buf@,
            ),
            final(self).one.rule() == old(self).one.rule(),
            final(self).two.rule() == old(self).two.rule(),
            final(self).one.steady() == old(self).one.steady(),
            final(self).two.steady() == old(self).two.steady(),
            old(self).one.steady() ==> final(self).one.received() == old(self).one.received()
                + buf@,
            old(self).two.steady() ==> {
                &&& outcome == last_write(final(self).one.calls())
                &&& final(self).two.received() == old(self).two.received() + offered(
                    buf@,
                    last_write(final(self).one.calls()),
                )
            },
            old(self).one.steady() && old(self).two.steady() ==> {
                &&& outcome == Ok::<usize, SinkError>(buf.len())
                &&& final(self).one.received() == old(self).one.received() + buf@
                &&& final(self).two.received() == old(self).two.received() + buf@
            },
    {
        let ghost log = self.two.calls();
        let ghost before = self.two.received();
        proof {
            assert(buf@.take(buf@.len() as int) =~= buf@);
        }
        match self.one.write(buf) {
            Err(e) => {
                let _ = self.two.write(buf);
                proof {
                    assert(log.is_prefix_of(self.two.calls()));
                }
                Err(e)
            },
            Ok(taken) => {
                let part = vstd::slice::slice_subrange(buf, 0, taken);
                proof {
                    assert(part@ =~= buf@.take(taken as int));
                }
                match self.two.write(part) {
                    Err(e) => {
                        proof {
                            assert(log.is_prefix_of(self.two.calls()));
                            assert(part@.take(0) =~= Seq::<u8>::empty());
                            assert(before + part@.take(0) =~= before);
                        }
                        Err(e)
                    },
                    Ok(kept) => {
                        let ghost middle = self.two.calls();
                        let rest = vstd::slice::slice_subrange(part, kept, taken);
                        proof {
                            assert(rest@ =~= part@.skip(kept as int));
                            assert(log.is_prefix_of(middle));
                            assert(middle[log.len() as int] == (Call::Wrote {
                                buf: part@,
                                outcome: Ok(kept),
                            }));
                            assert(part@.take(kept as int) + rest@ =~= part@);
                        }
                        match write_all(&mut self.two, rest) {
                            Ok(_) => {
                                proof {
                                    assert(self.two.received() =~= before + part@);
                                    assert(self.two.calls()[log.len() as int] == middle[log.len() as int]);
                                }
                                Ok(taken)
                            },
                            Err(e) => {
                                proof {
                                    let calls = self.two.calls();
                                    let k = choose|k: int|
                                        {
                                            &&& 0 <= k <= rest@.len()
                                            &&& self.two.received() == before + part@.take(
                                                kept as int,
                                            ) + #[trigger] rest@.take(k)
                                            &&& {
                                                ||| last_write(calls) == Err::<usize, SinkError>(e)
                                                ||| e == SinkError::Stalled && last_write(calls)
                                                    == Ok::<usize, SinkError>(0) && k < rest@.len()
                                            }
                                        };
                                    assert(part@.take(kept as int) + rest@.take(k) =~= part@.take(
                                        kept + k,
                                    ));
                                    assert(self.two.received() == before + part@.take(kept + k));
                                    assert(calls[log.len() as int] == middle[log.len() as int]);
                                }
                                Err(e)
                            },
                        }
                    },
                }
            },
        }
    }

    /// Flushes the first sink and then, whatever came of that, the second:
    /// each sink answers one more flush. The call fails if either flush
    /// failed, with the first sink's error if it had one.
    pub fn flush(&mut self) -> (outcome: Result<(), SinkError>)
        ensures
            outcome == both(last_flush(final(self).one.calls()), last_flush(final(self).two.calls())),
            final(self).one.calls() == old(self).one.calls().push(
                Call::Flushed { outcome: last_flush(final(self).one.calls()) },
            ),
            final(self).two.calls() == old(self).two.calls().push(
                Call::Flushed { outcome: last_flush(final(self).two.calls()) },
            ),
            final(self).one.received() == old(self).one.received(),
            final(self).two.received() == old(self).two.received(),
            final(self).one.steady() == old(self).one.steady(),
            final(self).two.steady() == old(self).two.steady(),
            old(self).one.steady() && old(self).two.steady() ==> outcome is Ok,
    {
        let first = self.one.flush();
        let second = self.two.flush();
        match first {
            Ok(_) => second,
            Err(e) => Err(e),
        }
    }
}

} // verus!
