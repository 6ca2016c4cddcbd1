use vstd::prelude::*;

verus! {

/// Walks a sequence from the front and keeps copies of the first `from_front`
/// and of the last `from_back` elements handed out.
#[derive(Debug)]
pub struct Remember<T: Copy> {
    items: Vec<T>,
    pos: usize,
    from_front: usize,
    from_back: usize,
    front_elements: Vec<T>,
    back_elements: Vec<T>,
}

pub open spec fn min_n(a: int, b: int) -> int {
    if a <= b { a } else { b }
}

impl<T: Copy> Remember<T> {
    /// The elements handed out so far.
    pub closed spec fn seen(&self) -> Seq<T> {
        self.items@.take(self.pos as int)
    }

    pub closed spec fn items_spec(&self) -> Seq<T> {
        self.items@
    }

    pub closed spec fn front_limit(&self) -> int {
        self.from_front as int
    }

    pub closed spec fn back_limit(&self) -> int {
        self.from_back as int
    }

    /// The kept copies are the first and the last elements handed out.
    pub closed spec fn wf(&self) -> bool {
        &&& self.pos <= self.items@.len()
        &&& self.front_elements@ == self.seen().take(min_n(self.from_front as int, self.pos as int))
        &&& self.back_elements@ == self.seen().skip(self.pos - min_n(self.from_back as int, self.pos as int))
    }

    pub fn new(items: Vec<T>, from_front: usize, from_back: usize) -> (r: Remember<T>)
        ensures
            r.wf(),
            r.items_spec() == items@,
            r.seen().len() == 0,
            r.front_limit() == from_front,
            r.back_limit() == from_back,
    {
        let r = Remember {
            items,
            pos: 0,
            from_front,
            from_back,
            front_elements: Vec::new(),
            back_elements: Vec::new(),
        };
        assert(r.seen().take(0) =~= r.front_elements@);
        assert(r.seen().skip(0) =~= r.back_elements@);
        r
    }

    /// Hands out the next element, if any is left.
    pub fn next(&mut self) -> (r: Option<T>)
        requires
            old(self).wf(),
        ensures
            final(self).wf(),
            final(self).items_spec() == old(self).items_spec(),
            final(self).front_limit() == old(self).front_limit(),
            final(self).back_limit() == old(self).back_limit(),
            old(self).seen().len() == old(self).items_spec().len() ==> r is None && final(self).seen()
                == old(self).seen(),
            old(self).seen().len() < old(self).items_spec().len() ==> r == Some(
                old(self).items_spec()[old(self).seen().len() as int],
            ) && final(self).seen() == old(self).seen().push(r->Some_0),
    {
        if self.pos >= self.items.len() {
            return None;
        }
        let item = self.items[self.pos];
        let ghost old_seen = self.seen();
        if self.front_elements.len() < self.from_front {
            self.front_elements.push(item);
        }
        self.back_elements.push(item);
        if self.back_elements.len() > self.from_back {
            self.back_elements.remove(0);
        }
        self.pos = self.pos + 1;
        proof {
            let s = self.seen();
            assert(s =~= old_seen.push(item));
            assert(self.front_elements@ =~= s.take(min_n(self.from_front as int, self.pos as int)));
            assert(self.back_elements@ =~= s.skip(self.pos - min_n(self.from_back as int, self.pos as int)));
        }
        Some(item)
    }

    /// The first and the last elements handed out, as many as asked for.
    pub fn get_remembered(self) -> (r: (Vec<T>, Vec<T>))
        requires
            self.wf(),
        ensures
            r.0@ == self.seen().take(min_n(self.front_limit(), self.seen().len() as int)),
            r.1@ == self.seen().skip(self.seen().len() - min_n(self.back_limit(), self.seen().len() as int)),
    {
        (self.front_elements, self.back_elements)
    }
}

/// Starts remembering over a sequence.
pub trait RememberIterator<T: Copy>: Sized {
    fn remember(self, from_front: usize, from_back: usize) -> Remember<T>;
}

impl<T: Copy> RememberIterator<T> for Vec<T> {
    fn remember(self, from_front: usize, from_back: usize) -> Remember<T> {
        Remember::new(self, from_front, from_back)
    }
}

} // verus!
