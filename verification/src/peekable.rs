//! One-item lookahead over an iterator.
use vstd::prelude::*;
use vstd::std_specs::iter::IteratorSpec;

verus! {

/// The items a [`Peekable`] has still to yield, from what it has looked at and from what its
/// iterator will yield.
pub open spec fn upcoming<T>(peeked: Option<Option<T>>, rest: Seq<T>) -> Seq<T> {
    match peeked {
        None => rest,
        Some(None) => Seq::empty(),
        Some(Some(item)) => seq![item] + rest,
    }
}

/// What has been looked at comes first, before everything that the iterator will yield, and
/// behind the end comes nothing.
pub proof fn law_looked_at_comes_first<T>(item: T, rest: Seq<T>)
    ensures
        upcoming(None, rest) == rest,
        upcoming(Some(None), rest).len() == 0,
        upcoming(Some(Some(item)), rest).len() == rest.len() + 1,
        upcoming(Some(Some(item)), rest)[0] == item,
        upcoming(Some(Some(item)), rest).drop_first() == rest,
{
    assert(upcoming(Some(Some(item)), rest).drop_first() =~= rest);
}

/// What is looked at is what is taken next, and looking takes nothing.
pub proof fn law_looking_takes_nothing<I: Iterator>(
    items: &mut Peekable<I>,
    seen: Option<&I::Item>,
    after: &mut Peekable<I>,
    taken: Option<I::Item>,
)
    requires
        call_ensures(Peekable::<I>::peek, (items,), seen),
        *after == *final(items),
        call_ensures(Peekable::<I>::next, (after,), taken),
    ensures
        upcoming(final(items).peeked(), final(items).source().remaining()) == upcoming(
            old(items).peeked(),
            old(items).source().remaining(),
        ),
        seen is Some <==> taken is Some,
        seen is Some ==> *seen->0 == taken->0,
        seen is None ==> *final(after) == *old(after),
{
}

/// An iterator whose next item can be looked at before it is taken.
///
/// The end, once seen, is remembered: the iterator is not asked again after it has returned
/// `None`.
pub struct Peekable<I: Iterator> {
    iter: I,
    peeked: Option<Option<I::Item>>,
}

impl<I: Iterator> Peekable<I> {
    /// The underlying iterator.
    pub closed spec fn source(&self) -> I {
        self.iter
    }

    /// What has been looked at and not been taken: nothing, the end, or an item.
    pub closed spec fn peeked(&self) -> Option<Option<I::Item>> {
        self.peeked
    }

    /// The underlying iterator yields a finite sequence of items and shows its progress.
    pub open spec fn lawful(&self) -> bool {
        &&& self.source().obeys_prophetic_iter_laws()
        &&& self.source().decrease() is Some
    }

    /// A bound that goes down with every item taken.
    pub open spec fn fuel(&self) -> nat
        recommends
            self.lawful(),
    {
        match self.peeked() {
            None => 2 * self.source().decrease()->0,
            Some(None) => 0,
            Some(Some(_)) => 2 * self.source().decrease()->0 + 1,
        }
    }

    /// Wraps an iterator; nothing is taken from it yet.
    pub fn new(iter: I) -> (r: Self)
        ensures
            r.source() == iter,
            r.peeked() is None,
    {
        Peekable { iter, peeked: None }
    }

    /// The next item, left in place.
    pub fn peek(&mut self) -> (r: Option<&I::Item>)
        requires
            old(self).lawful(),
        ensures
            final(self).lawful(),
            final(self).peeked() is Some,
            old(self).peeked() is Some ==> *final(self) == *old(self),
            final(self).fuel() <= old(self).fuel(),
            upcoming(final(self).peeked(), final(self).source().remaining()) == upcoming(
                old(self).peeked(),
                old(self).source().remaining(),
            ),
            match r {
                Some(item) => final(self).peeked() == Some(Some(*item)),
                None => final(self).peeked() == Some(None::<I::Item>),
            },
    {
        if self.peeked.is_none() {
            let item = self.iter.next();
            proof {
                assert(old(self).iter.remaining().len() > 0 ==> seq![old(self).iter.remaining()[0]]
                    + old(self).iter.remaining().drop_first() =~= old(self).iter.remaining());
                assert(old(self).iter.remaining().len() == 0 ==> old(self).iter.remaining()
                    =~= Seq::empty());
            }
            self.peeked = Some(item);
        }
        match &self.peeked {
            Some(Some(item)) => Some(item),
            _ => None,
        }
    }

    /// Takes the next item.
    pub fn next(&mut self) -> (r: Option<I::Item>)
        requires
            old(self).lawful(),
        ensures
            final(self).lawful(),
            r is Some ==> final(self).fuel() < old(self).fuel(),
            old(self).peeked() == Some(None::<I::Item>) ==> *final(self) == *old(self),
            ({
                let before = upcoming(old(self).peeked(), old(self).source().remaining());
                let after = upcoming(final(self).peeked(), final(self).source().remaining());
                if before.len() == 0 {
                    r is None && after == before
                } else {
                    r == Some(before[0]) && after == before.drop_first()
                }
            }),
    {
        match self.peeked.take() {
            None => self.iter.next(),
            Some(None) => {
                self.peeked = Some(None);
                None
            },
            Some(Some(item)) => {
                assert((seq![item] + self.iter.remaining()).drop_first()
                    =~= self.iter.remaining());
                Some(item)
            },
        }
    }
}

} // verus!
