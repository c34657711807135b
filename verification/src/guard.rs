//! Scoped resources: what is held, and the order in which it is given back.
//!
//! Every system resource that a capture takes is written down here when it is
//! taken, and comes off again when it is given back. Resources leave in the
//! reverse of the order in which they came, unless one is handed over to
//! another owner first.

use vstd::prelude::*;

verus! {

/// A system resource that has to be given back after use.
#[derive(Clone, Copy, Debug, PartialEq, Eq, Structural)]
pub enum Resource {
    /// The running image subsystem; shut down to release.
    Session,
    /// The reference to the whole-desktop drawing surface.
    ScreenSurface,
    /// The drawing surface made compatible with the desktop's.
    MemorySurface,
    /// The bitmap with its pixel memory.
    PixelBuffer,
    /// The pixel buffer being the drawing target of the memory surface; to
    /// release it is to put the earlier target back.
    Binding,
    /// The bitmap wrapped as an image that an encoder can write.
    Image,
    /// The memory that the list of encoders is read into.
    EncoderList,
}

/// `s` without its last occurrence of `r`; `s` itself if `r` is not in it.
pub open spec fn without_last(s: Seq<Resource>, r: Resource) -> Seq<Resource>
    decreases s.len(),
{
    if s.len() == 0 {
        s
    } else if s.last() == r {
        s.drop_last()
    } else {
        without_last(s.drop_last(), r).push(s.last())
    }
}

/// Taking the last `r` out of `s` takes one `r` out of what `s` holds, and
/// nothing else.
pub proof fn lemma_without_last(s: Seq<Resource>, r: Resource)
    ensures
        s.contains(r) ==> s.to_multiset() =~= without_last(s, r).to_multiset().insert(r),
        s.contains(r) ==> without_last(s, r).len() + 1 == s.len(),
        !s.contains(r) ==> without_last(s, r) == s,
    decreases s.len(),
{
    broadcast use vstd::seq_lib::group_to_multiset_ensures;

    if s.len() == 0 {
    } else {
        let front = s.drop_last();
        assert(s =~= front.push(s.last()));
        lemma_without_last(front, r);
        if s.last() == r {
            assert(s[s.len() - 1] == r);
        } else {
            if s.contains(r) {
                let i = choose|i: int| 0 <= i < s.len() && s[i] == r;
                assert(front[i] == r);
                assert(without_last(s, r).to_multiset() =~= without_last(
                    front,
                    r,
                ).to_multiset().insert(s.last()));
            } else {
                assert forall|i: int| 0 <= i < front.len() implies front[i] != r by {
                    assert(s[i] == front[i]);
                }
                assert(without_last(s, r) =~= s);
            }
        }
    }
}

/// The resources held at one moment, oldest first.
pub struct ScopeStack {
    held: Vec<Resource>,
}

impl View for ScopeStack {
    type V = Seq<Resource>;

    closed spec fn view(&self) -> Seq<Resource> {
        self.held@
    }
}

impl ScopeStack {
    /// Nothing is held.
    pub fn new() -> (stack: ScopeStack)
        ensures
            stack@ == Seq::<Resource>::empty(),
    {
        ScopeStack { held: Vec::new() }
    }

    /// Records that `resource` has been taken.
    pub fn acquire(&mut self, resource: Resource)
        ensures
            final(self)@ == old(self)@.push(resource),
    {
        self.held.push(resource);
    }

    /// The resource that has to be given back next: the one taken last.
    pub fn top(&self) -> (resource: Option<Resource>)
        ensures
            self@.len() == 0 ==> resource is None,
            self@.len() > 0 ==> resource == Some(self@.last()),
    {
        let n: usize = self.held.len();
        if n == 0 {
            None
        } else {
            Some(self.held[n - 1])
        }
    }

    /// Takes the resource that was taken last off the record, for the caller
    /// to give back. With nothing held, nothing changes.
    pub fn release(&mut self) -> (resource: Option<Resource>)
        ensures
            old(self)@.len() == 0 ==> resource is None && final(self)@ == old(self)@,
            old(self)@.len() > 0 ==> resource == Some(old(self)@.last()) && final(self)@ == old(
                self,
            )@.drop_last(),
    {
        self.held.pop()
    }

    /// Hands `resource` over to another owner: its latest entry leaves the
    /// record without being released here. Says whether there was one.
    pub fn disarm(&mut self, resource: Resource) -> (found: bool)
        ensures
            found == old(self)@.contains(resource),
            final(self)@ == without_last(old(self)@, resource),
    {
        let mut i: usize = self.held.len();
        assert(self.held@.take(i as int) =~= self.held@);
        assert(self.held@ + self.held@.skip(i as int) =~= self.held@);
        while i > 0
            invariant
                i <= self.held@.len(),
                self.held@ == old(self).held@,
                forall|j: int| i <= j < self.held@.len() ==> self.held@[j] != resource,
                without_last(self.held@, resource) == without_last(
                    self.held@.take(i as int),
                    resource,
                ) + self.held@.skip(i as int),
            decreases i,
        {
            let ghost head = self.held@.take(i as int);
            if self.held[i - 1] == resource {
                assert(head.last() == resource);
                assert(head.drop_last() + self.held@.skip(i as int) =~= self.held@.remove(i - 1));
                self.held.remove(i - 1);
                return true;
            }
            assert(head.drop_last() =~= self.held@.take(i - 1));
            assert(without_last(head.drop_last(), resource).push(head.last()) + self.held@.skip(
                i as int,
            ) =~= without_last(head.drop_last(), resource) + self.held@.skip(i - 1));
            i = i - 1;
        }
        assert(self.held@.skip(0) =~= self.held@);
        assert(self.held@.take(0) =~= Seq::<Resource>::empty());
        assert(Seq::<Resource>::empty() + self.held@ =~= self.held@);
        false
    }

    /// Whether `resource` is held.
    pub fn holds(&self, resource: Resource) -> (found: bool)
        ensures
            found == self@.contains(resource),
    {
        let mut i: usize = 0;
        while i < self.held.len()
            invariant
                i <= self.held@.len(),
                forall|j: int| 0 <= j < i ==> self.held@[j] != resource,
            decreases self.held@.len() - i,
        {
            if self.held[i] == resource {
                return true;
            }
            i = i + 1;
        }
        false
    }

    /// How many resources are held.
    pub fn depth(&self) -> (n: usize)
        ensures
            n == self@.len(),
    {
        self.held.len()
    }
}

} // verus!
