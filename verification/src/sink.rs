//! A destination for finished log lines. The record writes each emission as
//! one whole line, so a sink only needs to say which lines it has taken.

use vstd::prelude::*;

verus! {

/// The error a sink reports when a write fails, carrying the sink's own
/// description of the failure.
#[derive(Debug)]
pub struct WriteError {
    pub message: String,
}

/// A byte sink that takes whole log lines. Callers may implement it for
/// their own destinations; the library ships an in-memory sink.
pub trait LogSink {
    /// The lines written so far, oldest first. The default body exists so
    /// that sinks outside the library can implement the trait at all; such
    /// implementations are unverified, nothing holds them to this model or
    /// to `write_line`'s contract, and what the library proves about
    /// emission through them carries no force. Sinks defined in this crate
    /// override it.
    open spec fn lines(&self) -> Seq<Seq<char>> {
        Seq::empty()
    }

    /// Appends one line: on success exactly that line was added, on failure
    /// nothing was.
    fn write_line(&mut self, line: &str) -> (r: Result<(), WriteError>)
        ensures
            match r {
                Ok(()) => final(self).lines() == old(self).lines().push(line@),
                Err(_) => final(self).lines() == old(self).lines(),
            },
    ;
}

/// An in-memory sink that keeps every line it takes.
pub struct VecSink {
    taken: Vec<String>,
}

impl VecSink {
    /// An empty sink.
    pub fn new() -> (r: VecSink)
        ensures
            r.lines() == Seq::<Seq<char>>::empty(),
    {
        let r = VecSink { taken: Vec::new() };
        proof {
            assert(r.lines() =~= Seq::<Seq<char>>::empty());
        }
        r
    }

    /// How many lines were taken.
    pub fn line_count(&self) -> (n: usize)
        ensures
            n == self.lines().len(),
    {
        self.taken.len()
    }

    /// The `i`-th line taken.
    pub fn line(&self, i: usize) -> (r: &String)
        requires
            i < self.lines().len(),
        ensures
            r@ == self.lines()[i as int],
    {
        &self.taken[i]
    }
}

impl LogSink for VecSink {
    closed spec fn lines(&self) -> Seq<Seq<char>> {
        self.taken@.map_values(|s: String| s@)
    }

    fn write_line(&mut self, line: &str) -> (r: Result<(), WriteError>)
        ensures
            r is Ok,
    {
        let owned = line.to_owned();
        self.taken.push(owned);
        proof {
            assert(self.lines() =~= old(self).lines().push(line@));
        }
        Ok(())
    }
}

} // verus!
