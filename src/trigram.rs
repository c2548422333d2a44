//! A sliding window of three consecutive items, padded at the front.
use vstd::prelude::*;

verus! {

/// The item at `i` of `s`, where every position before the first holds `pad`.
pub open spec fn padded_at<T>(s: Seq<T>, pad: T, i: int) -> T {
    if i < 0 {
        pad
    } else {
        s[i]
    }
}

/// The window that ends at index `i` of `s`: the two items before it (or
/// `pad` where there are none) and the item itself.
pub open spec fn trigram_at<T>(s: Seq<T>, pad: T, i: int) -> (T, T, T) {
    (padded_at(s, pad, i - 2), padded_at(s, pad, i - 1), s[i])
}

/// The windows that end at each index of `s`, in order.
pub open spec fn trigrams_of<T>(s: Seq<T>, pad: T) -> Seq<(T, T, T)> {
    Seq::new(s.len(), |i: int| trigram_at(s, pad, i))
}

/// Walks a sequence of items and hands out, for each item, the window of the
/// two items before it and the item itself. The two items before the first
/// are `pad`, as is the one before the second. The last two items seen are
/// held in a buffer of two.
pub struct Trigrams<T> {
    source: Vec<T>,
    pos: usize,
    prev2: T,
    prev1: T,
    pad: T,
}

impl<T: Copy> Trigrams<T> {
    /// The items walked over.
    pub closed spec fn source(&self) -> Seq<T> {
        self.source@
    }

    /// How many windows have been handed out.
    pub closed spec fn position(&self) -> nat {
        self.pos as nat
    }

    /// The value that stands before the first item.
    pub closed spec fn pad_value(&self) -> T {
        self.pad
    }

    /// The buffer holds the two items before the next one.
    pub closed spec fn wf(&self) -> bool {
        &&& self.pos <= self.source@.len()
        &&& self.prev1 == padded_at(self.source@, self.pad, self.pos - 1)
        &&& self.prev2 == padded_at(self.source@, self.pad, self.pos - 2)
    }

    /// A well-formed walk has handed out at most one window per item.
    pub proof fn lemma_position_bound(&self)
        requires
            self.wf(),
        ensures
            self.position() <= self.source().len(),
    {
    }

    pub fn new(source: Vec<T>, pad: T) -> (r: Trigrams<T>)
        ensures
            r.wf(),
            r.source() == source@,
            r.pad_value() == pad,
            r.position() == 0,
            r.position() <= r.source().len(),
    {
        Trigrams { source, pos: 0, prev2: pad, prev1: pad, pad }
    }

    /// The value that stands before the first item.
    pub fn pad(&self) -> (r: T)
        ensures
            r == self.pad_value(),
    {
        self.pad
    }

    /// The next window, or `None` once every item has ended one.
    pub fn next(&mut self) -> (r: Option<(T, T, T)>)
        requires
            old(self).wf(),
        ensures
            final(self).wf(),
            final(self).position() <= final(self).source().len(),
            final(self).source() == old(self).source(),
            final(self).pad_value() == old(self).pad_value(),
            old(self).position() < old(self).source().len() ==> {
                &&& r == Some(trigram_at(old(self).source(), old(self).pad_value(), old(self).position() as int))
                &&& final(self).position() == old(self).position() + 1
            },
            old(self).position() == old(self).source().len() ==> {
                &&& r is None
                &&& final(self).position() == old(self).position()
            },
    {
        if self.pos < self.source.len() {
            let cur = self.source[self.pos];
            let w = (self.prev2, self.prev1, cur);
            self.prev2 = self.prev1;
            self.prev1 = cur;
            self.pos = self.pos + 1;
            Some(w)
        } else {
            None
        }
    }

    /// Every window that is still to come, in order.
    pub fn collect(self) -> (r: Vec<(T, T, T)>)
        requires
            self.wf(),
        ensures
            r@ == trigrams_of(self.source(), self.pad_value()).skip(self.position() as int),
    {
        let mut it = self;
        let ghost start = self.position() as int;
        let ghost s = self.source();
        let ghost p = self.pad_value();
        let mut r: Vec<(T, T, T)> = Vec::new();
        loop
            invariant
                it.wf(),
                it.source() == s,
                it.pad_value() == p,
                0 <= start <= it.position() <= s.len(),
                r@ == trigrams_of(s, p).subrange(start, it.position() as int),
            ensures
                r@ == trigrams_of(s, p).skip(start),
            decreases s.len() - it.position(),
        {
            let ghost before = it.position() as int;
            match it.next() {
                Some(w) => {
                    r.push(w);
                    assert(r@ =~= trigrams_of(s, p).subrange(start, before + 1));
                },
                None => {
                    assert(r@ =~= trigrams_of(s, p).skip(start));
                    break;
                },
            }
        }
        r
    }
}

/// Turns a sequence of items into its padded windows of three.
pub trait Trigram<T: Copy>: Sized {
    /// The items that the windows walk over.
    spec fn items(&self) -> Seq<T>;

    fn trigrams(self, pad: T) -> (r: Trigrams<T>)
        ensures
            r.wf(),
            r.source() == self.items(),
            r.pad_value() == pad,
            r.position() == 0,
    ;
}

impl<T: Copy> Trigram<T> for Vec<T> {
    open spec fn items(&self) -> Seq<T> {
        self@
    }

    fn trigrams(self, pad: T) -> (r: Trigrams<T>) {
        Trigrams::new(self, pad)
    }
}

} // verus!
