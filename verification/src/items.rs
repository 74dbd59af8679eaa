use vstd::prelude::*;

verus! {

/// The values a sequence of borrowed items points at, in the same order.
pub open spec fn deref_items<'a, V>(s: Seq<&'a V>) -> Seq<V> {
    s.map(|i: int, x: &'a V| *x)
}

/// Pushes references to `items` onto `out` in reverse order, so the most
/// recently appended item comes first.
pub(crate) fn push_reversed<'a, V>(out: &mut Vec<&'a V>, items: &'a Vec<V>)
    ensures
        deref_items(final(out)@) == deref_items(old(out)@) + items@.reverse(),
{
    let ghost base = deref_items(old(out)@);
    let len = items.len();
    let mut j: usize = len;
    proof {
        assert(deref_items(out@) =~= base + items@.reverse().take(0));
    }
    while j > 0
        invariant
            j <= len,
            len == items@.len(),
            deref_items(out@) == base + items@.reverse().take(len - j),
        decreases j,
    {
        j = j - 1;
        let ghost before = out@;
        out.push(&items[j]);
        proof {
            assert(deref_items(out@) =~= deref_items(before).push(items@[j as int]));
            assert(items@.reverse().take(len - j) =~= items@.reverse().take(len - (j + 1)).push(
                items@.reverse()[len - j - 1],
            ));
            assert(items@.reverse()[len - j - 1] == items@[j as int]);
            assert(deref_items(out@) =~= base + items@.reverse().take(len - j));
        }
    }
    proof {
        assert(items@.reverse().take(len as int) =~= items@.reverse());
    }
}

/// The items an append-policy read produced, yielded most recent first.
///
/// The items are borrowed from the layers they live in, never copied.
pub struct ItemIter<'a, V> {
    items: Vec<&'a V>,
    pos: usize,
}

impl<'a, V> ItemIter<'a, V> {
    #[verifier::type_invariant]
    spec fn wf(self) -> bool {
        self.pos <= self.items@.len()
    }

    /// Every item this iterator was created over, in yield order.
    pub closed spec fn all_items(self) -> Seq<V> {
        deref_items(self.items@)
    }

    /// How many items have been yielded already.
    pub closed spec fn position(self) -> int {
        self.pos as int
    }

    /// The items not yet yielded, in yield order.
    pub open spec fn remaining(self) -> Seq<V> {
        self.all_items().skip(self.position())
    }

    pub(crate) fn from_items(items: Vec<&'a V>) -> (r: Self)
        ensures
            r.remaining() == deref_items(items@),
            r.position() == 0,
    {
        let r = ItemIter { items, pos: 0 };
        proof {
            assert(r.remaining() =~= r.all_items());
        }
        r
    }

    /// Yields the next remaining item, or `None` once everything was
    /// yielded.
    pub fn next(&mut self) -> (r: Option<&'a V>)
        ensures
            final(self).all_items() == old(self).all_items(),
            old(self).remaining().len() == 0 ==> r is None && *final(self) == *old(self),
            old(self).remaining().len() > 0 ==> (match r {
                Some(x) => *x == old(self).remaining()[0] && final(self).remaining() == old(
                    self,
                ).remaining().drop_first(),
                None => false,
            }),
    {
        proof {
            use_type_invariant(&*self);
        }
        if self.pos < self.items.len() {
            let r = self.items[self.pos];
            self.pos = self.pos + 1;
            proof {
                assert(self.remaining() =~= old(self).remaining().drop_first());
            }
            Some(r)
        } else {
            None
        }
    }

    /// How many items remain to be yielded.
    pub fn count(&self) -> (n: usize)
        ensures
            n == self.remaining().len(),
    {
        proof {
            use_type_invariant(&*self);
        }
        self.items.len() - self.pos
    }

    /// The remaining items, collected into a vector in yield order.
    pub fn into_vec(self) -> (v: Vec<&'a V>)
        ensures
            deref_items(v@) == self.remaining(),
    {
        proof {
            use_type_invariant(&self);
        }
        let mut v: Vec<&'a V> = Vec::new();
        proof {
            assert(v@ =~= self.items@.subrange(self.pos as int, self.pos as int));
        }
        let mut i: usize = self.pos;
        while i < self.items.len()
            invariant
                self.pos <= i <= self.items@.len(),
                v@ == self.items@.subrange(self.pos as int, i as int),
            decreases self.items@.len() - i,
        {
            v.push(self.items[i]);
            proof {
                assert(v@ =~= self.items@.subrange(self.pos as int, i as int + 1));
            }
            i = i + 1;
        }
        proof {
            assert(v@ =~= self.items@.skip(self.pos as int));
            assert(deref_items(v@) =~= self.remaining());
        }
        v
    }
}

} // verus!
