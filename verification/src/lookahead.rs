//! Inspection of the next element of a pair source without consuming it.
//!
//! [`Lookahead`] wraps the pull operation of a [`SortedPairs`] source with a
//! single-slot buffer: `peek` fills the slot from the source if it is empty
//! and exposes its content; `next` empties the slot first and only then
//! pulls from the source. At most one element is buffered at any time.

use vstd::prelude::*;

use crate::source::SortedPairs;

verus! {

/// A pair source whose next element can be inspected before consumption.
pub struct Lookahead<K, V> {
    source: SortedPairs<K, V>,
    /// The single buffered element, if one has been peeked and not consumed.
    slot: Option<(K, V)>,
}

impl<K, V> Lookahead<K, V> {
    /// The pairs not yet consumed, buffered element first.
    pub closed spec fn remaining(self) -> Seq<(K, V)> {
        match self.slot {
            Option::Some(p) => seq![p] + self.source.remaining(),
            Option::None => self.source.remaining(),
        }
    }

    /// Wraps a source; nothing is consumed or buffered yet.
    pub fn new(source: SortedPairs<K, V>) -> (l: Self)
        ensures
            l.remaining() == source.remaining(),
    {
        Lookahead { source, slot: None }
    }

    /// Returns a read-only view of the next pair without consuming it, or
    /// `None` when the source is exhausted. Repeated calls without an
    /// intervening `next` see the same pair.
    pub fn peek(&mut self) -> (r: Option<&(K, V)>)
        ensures
            final(self).remaining() == old(self).remaining(),
            match r {
                Option::None => old(self).remaining().len() == 0,
                Option::Some(p) => old(self).remaining().len() > 0 && *p == old(
                    self,
                ).remaining()[0],
            },
    {
        if self.slot.is_none() {
            self.slot = self.source.next();
            proof {
                assert(self.remaining() =~= old(self).remaining());
            }
        }
        self.slot.as_ref()
    }

    /// Consumes and returns the next pair, or `None` when exhausted. The
    /// buffered pair, if any, is handed out before the source is pulled.
    pub fn next(&mut self) -> (r: Option<(K, V)>)
        ensures
            match r {
                Option::None => {
                    &&& old(self).remaining().len() == 0
                    &&& final(self).remaining() == old(self).remaining()
                },
                Option::Some(p) => {
                    &&& old(self).remaining().len() > 0
                    &&& p == old(self).remaining()[0]
                    &&& final(self).remaining() == old(self).remaining().drop_first()
                },
            },
    {
        let buffered = self.slot.take();
        if buffered.is_some() {
            proof {
                assert(self.remaining() =~= old(self).remaining().drop_first());
            }
            buffered
        } else {
            self.source.next()
        }
    }
}

} // verus!
