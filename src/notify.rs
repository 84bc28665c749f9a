//! The set of live subscribers that hear "something changed" after each
//! mutation of the store. Sending is the caller's part; this keeps the set.
use vstd::prelude::*;

verus! {

/// The subscribers of `s` whose delivery flag in `d` is set, in order.
pub open spec fn kept<T>(s: Seq<T>, d: Seq<bool>) -> Seq<T>
    decreases s.len(),
{
    if s.len() == 0 || d.len() == 0 {
        Seq::empty()
    } else {
        let rest = kept(s.drop_last(), d.drop_last());
        if d.last() {
            rest.push(s.last())
        } else {
            rest
        }
    }
}

/// The live subscribers, in the order they joined.
pub struct Notifier<T> {
    subscribers: Vec<T>,
}

impl<T> Notifier<T> {
    pub closed spec fn view(&self) -> Seq<T> {
        self.subscribers@
    }

    pub fn new() -> (r: Notifier<T>)
        ensures
            r@ == Seq::<T>::empty(),
    {
        Notifier { subscribers: Vec::new() }
    }

    /// Adds a subscriber at the end.
    pub fn subscribe(&mut self, s: T)
        ensures
            final(self)@ == old(self)@.push(s),
    {
        self.subscribers.push(s);
    }

    pub fn len(&self) -> (r: usize)
        ensures
            r == self@.len(),
    {
        self.subscribers.len()
    }

    /// The subscribers, for one round of sending.
    pub fn subscribers_mut(&mut self) -> (r: &mut Vec<T>)
        ensures
            r@ == old(self)@,
            final(self)@ == final(r)@,
    {
        &mut self.subscribers
    }

    /// After a round of sending, where `delivered[i]` tells whether the
    /// subscriber at `i` took the signal, drops those that did not.
    pub fn prune(&mut self, delivered: &Vec<bool>)
        requires
            delivered@.len() == old(self)@.len(),
        ensures
            final(self)@ == kept(old(self)@, delivered@),
    {
        let mut subs: Vec<T> = Vec::new();
        core::mem::swap(&mut subs, &mut self.subscribers);
        self.subscribers = keep_delivered(subs, delivered);
    }
}

/// The subscribers whose delivery flag is set, in their order.
pub fn keep_delivered<T>(subs: Vec<T>, delivered: &Vec<bool>) -> (r: Vec<T>)
    requires
        delivered@.len() == subs@.len(),
    ensures
        r@ == kept(subs@, delivered@),
{
    let ghost all = subs@;
    let n = subs.len();
    let mut rest = subs;
    let mut out: Vec<T> = Vec::new();
    let mut i: usize = 0;
    while i < n
        invariant
            n == all.len(),
            n == delivered@.len(),
            0 <= i <= n,
            rest@ == all.subrange(i as int, n as int),
            out@ == kept(all.subrange(0, i as int), delivered@.subrange(0, i as int)),
        decreases n - i,
    {
        let x = rest.remove(0);
        proof {
            let s1 = all.subrange(0, i as int + 1);
            let d1 = delivered@.subrange(0, i as int + 1);
            assert(s1.drop_last() =~= all.subrange(0, i as int));
            assert(d1.drop_last() =~= delivered@.subrange(0, i as int));
            assert(s1.last() == x);
            assert(d1.last() == delivered@[i as int]);
            assert(rest@ =~= all.subrange(i as int + 1, n as int));
        }
        if delivered[i] {
            out.push(x);
        }
        i = i + 1;
    }
    proof {
        assert(all.subrange(0, n as int) =~= all);
        assert(delivered@.subrange(0, n as int) =~= delivered@);
    }
    out
}

} // verus!
