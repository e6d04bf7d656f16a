use vstd::prelude::*;

verus! {

/// Something that takes bytes: a file, the standard output, or two of them
/// behind one another.
///
/// A sink may say itself what its writes and flushes give, with `wrote` and
/// `flushed`. One that does not say it promises nothing: every outcome is
/// one that it may give.
pub trait Sink: Sized {
    /// What a write or a flush fails with.
    type Error;

    /// Whether a write of `buf` to the sink `before` may leave the sink
    /// `after` and report `res`.
    open spec fn wrote(
        before: Self,
        buf: Seq<u8>,
        after: Self,
        res: Result<usize, Self::Error>,
    ) -> bool {
        true
    }

    /// Whether a flush of the sink `before` may leave the sink `after` and
    /// report `res`.
    open spec fn flushed(before: Self, after: Self, res: Result<(), Self::Error>) -> bool {
        true
    }

    /// Writes bytes and says how many were taken.
    fn write(&mut self, buf: &[u8]) -> (res: Result<usize, Self::Error>)
        ensures
            Self::wrote(*old(self), buf@, *final(self), res),
    ;

    /// Hands on what was buffered.
    fn flush(&mut self) -> (res: Result<(), Self::Error>)
        ensures
            Self::flushed(*old(self), *final(self), res),
    ;
}

/// Two sinks that get the same bytes. The first is the one that counts: what
/// it makes of a write or a flush is what is reported; what the second makes
/// of it is dropped.
pub struct DualWriter<P, S> {
    writer1: P,
    writer2: S,
}

/// Of the outcomes of the two sinks, the one that is reported: that of the
/// first.
pub fn primary_result<T, E, U, F>(primary: Result<T, E>, secondary: Result<U, F>) -> (reported:
    Result<T, E>)
    ensures
        reported == primary,
{
    primary
}

impl<P, S> DualWriter<P, S> {
    /// The first sink.
    pub closed spec fn primary(self) -> P {
        self.writer1
    }

    /// The second sink.
    pub closed spec fn secondary(self) -> S {
        self.writer2
    }

    pub fn new(writer1: P, writer2: S) -> (writer: DualWriter<P, S>)
        ensures
            writer.primary() == writer1,
            writer.secondary() == writer2,
    {
        DualWriter { writer1, writer2 }
    }

    /// Gives the two sinks back.
    pub fn into_inner(self) -> (sinks: (P, S))
        ensures
            sinks.0 == self.primary(),
            sinks.1 == self.secondary(),
    {
        (self.writer1, self.writer2)
    }
}

impl<P: Sink, S: Sink> Sink for DualWriter<P, S> {
    type Error = P::Error;

    /// A write to the pair is a write of the same bytes to each sink, and
    /// what is reported is what the first sink reported; what the second
    /// reported is dropped.
    open spec fn wrote(before: Self, buf: Seq<u8>, after: Self, res: Result<usize, P::Error>) -> bool {
        &&& P::wrote(before.primary(), buf, after.primary(), res)
        &&& exists|dropped: Result<usize, S::Error>|
            S::wrote(before.secondary(), buf, after.secondary(), dropped)
    }

    /// A flush of the pair is a flush of each sink, and what is reported is
    /// what the first sink reported; what the second reported is dropped.
    open spec fn flushed(before: Self, after: Self, res: Result<(), P::Error>) -> bool {
        &&& P::flushed(before.primary(), after.primary(), res)
        &&& exists|dropped: Result<(), S::Error>|
            S::flushed(before.secondary(), after.secondary(), dropped)
    }

    /// Writes the bytes to both sinks, the first one first.
    fn write(&mut self, buf: &[u8]) -> (res: Result<usize, P::Error>) {
        let result1 = self.writer1.write(buf);
        let result2 = self.writer2.write(buf);
        assert(S::wrote(old(self).secondary(), buf@, self.secondary(), result2));
        primary_result(result1, result2)
    }

    /// Flushes both sinks, the first one first.
    fn flush(&mut self) -> (res: Result<(), P::Error>) {
        let flush1 = self.writer1.flush();
        let flush2 = self.writer2.flush();
        assert(S::flushed(old(self).secondary(), self.secondary(), flush2));
        primary_result(flush1, flush2)
    }
}

} // verus!
