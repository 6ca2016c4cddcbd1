use vstd::prelude::*;

verus! {

/// A view of a sequence without its last element, walked from either end.
#[derive(Clone, Debug)]
pub struct SkipLast<T: Copy> {
    items: Vec<T>,
    front: usize,
    back: usize,
}

impl<T: Copy> View for SkipLast<T> {
    type V = Seq<T>;

    /// The elements not yet walked.
    closed spec fn view(&self) -> Seq<T> {
        self.items@.subrange(self.front as int, self.back as int)
    }
}

/// `s` without its last element; empty when `s` is.
pub open spec fn all_but_last<T>(s: Seq<T>) -> Seq<T> {
    if s.len() == 0 {
        s
    } else {
        s.drop_last()
    }
}

impl<T: Copy> SkipLast<T> {
    pub closed spec fn wf(&self) -> bool {
        self.front <= self.back <= self.items@.len()
    }

    pub fn new(items: Vec<T>) -> (r: SkipLast<T>)
        ensures
            r@ == all_but_last(items@),
            r.wf(),
    {
        let n = items.len();
        let back = if n == 0 { 0 } else { n - 1 };
        let r = SkipLast { items, front: 0, back };
        assert(r@ =~= all_but_last(r.items@));
        r
    }

    /// The next element from the front.
    pub fn next(&mut self) -> (r: Option<T>)
        requires
            old(self).wf(),
        ensures
            final(self).wf(),
            old(self)@.len() == 0 ==> r is None && final(self)@ == old(self)@,
            old(self)@.len() > 0 ==> r == Some(old(self)@[0]) && final(self)@ == old(self)@.skip(1),
    {
        if self.front < self.back {
            let v = self.items[self.front];
            self.front = self.front + 1;
            assert(self@ =~= old(self)@.skip(1));
            Some(v)
        } else {
            None
        }
    }

    /// The next element from the back.
    pub fn next_back(&mut self) -> (r: Option<T>)
        requires
            old(self).wf(),
        ensures
            final(self).wf(),
            old(self)@.len() == 0 ==> r is None && final(self)@ == old(self)@,
            old(self)@.len() > 0 ==> r == Some(old(self)@.last()) && final(self)@
                == old(self)@.drop_last(),
    {
        if self.front < self.back {
            self.back = self.back - 1;
            let v = self.items[self.back];
            assert(self@ =~= old(self)@.drop_last());
            Some(v)
        } else {
            None
        }
    }

    /// How many elements are left.
    pub fn len(&self) -> (r: usize)
        requires
            self.wf(),
        ensures
            r == self@.len(),
    {
        self.back - self.front
    }
}

/// Turns a sequence into its view without the last element.
pub trait SkipLastIterator<T: Copy>: Sized {
    fn skip_last(self) -> SkipLast<T>;
}

impl<T: Copy> SkipLastIterator<T> for Vec<T> {
    fn skip_last(self) -> SkipLast<T> {
        SkipLast::new(self)
    }
}

} // verus!
