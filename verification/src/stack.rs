//! A double stack of fixed capacity, tuned for the graph-traversal
//! algorithms encountered in sparse matrix solves and factorizations.
//!
//! One buffer of `n` slots carries two independently growing LIFO regions:
//! the recursion region grows from index 0 upward and holds tagged
//! enter/exit values (e.g. for depth-first search bookkeeping), while the
//! data region grows from index `n` downward and holds plain values. Every
//! push validates, before committing, that the regions stay disjoint, so
//! the two heads can never collide.

use vstd::prelude::*;

verus! {

/// A tagged payload distinguishing the "enter" and "exit" events of a
/// traversal.
#[derive(Clone, Copy, PartialEq, Eq, Debug)]
pub enum StackVal<I> {
    Enter(I),
    Exit(I),
}

/// The payload carried by a tagged stack value, whichever the tag.
pub open spec fn spec_stack_payload<I>(v: StackVal<I>) -> I {
    match v {
        StackVal::Enter(i) => i,
        StackVal::Exit(i) => i,
    }
}

/// Extract the payload of a tagged stack value, whichever the tag.
pub fn extract_stack_val<I>(stack_val: &StackVal<I>) -> (r: &I)
    ensures
        *r == spec_stack_payload(*stack_val),
{
    match stack_val {
        StackVal::Enter(i) => i,
        StackVal::Exit(i) => i,
    }
}

/// A double stack of fixed capacity, holding recursion information (e.g.
/// for depth-first search) as well as data values. The two regions share
/// one buffer and are guaranteed never to overlap.
pub struct DStack<I> {
    stacks: Vec<Option<StackVal<I>>>,
    rec_head: Option<usize>,
    out_head: usize,
}

impl<I> DStack<I> {
    /// The fixed capacity: the total number of slots the two regions share.
    pub closed spec fn cap(&self) -> nat {
        self.stacks@.len()
    }

    /// The number of slots the recursion region occupies.
    closed spec fn rec_len(&self) -> int {
        match self.rec_head {
            None => 0,
            Some(h) => h + 1,
        }
    }

    /// The recursion region, bottom first; the last element is the top.
    pub closed spec fn rec_sq(&self) -> Seq<StackVal<I>> {
        Seq::new(self.rec_len() as nat, |k: int| self.stacks@[k].unwrap())
    }

    /// The data region's payloads, most recently pushed first; the first
    /// element is the top.
    pub closed spec fn data_sq(&self) -> Seq<I> {
        Seq::new(
            (self.stacks@.len() - self.out_head) as nat,
            |k: int| spec_stack_payload(self.stacks@[self.out_head + k].unwrap()),
        )
    }

    /// The structural invariant: both heads in range, the recursion head
    /// strictly below the data head, every occupied recursion slot filled,
    /// and every occupied data slot filled through a data push — which only
    /// ever stores enter tags.
    pub closed spec fn wf(&self) -> bool {
        &&& self.stacks@.len() > 1
        &&& self.out_head <= self.stacks@.len()
        &&& (self.rec_head matches Some(h) ==> h < self.out_head)
        &&& forall|k: int| 0 <= k < self.rec_len() ==> (#[trigger] self.stacks@[k]) is Some
        &&& forall|k: int|
            self.out_head <= k < self.stacks@.len() ==> (#[trigger] self.stacks@[k]) matches Some(
                StackVal::Enter(_),
            )
    }
}

impl<I: Copy> DStack<I> {
    /// Create a double stack suited for containing at most `n` elements
    /// over both regions together.
    pub fn with_capacity(n: usize) -> (r: DStack<I>)
        requires
            n > 1,
        ensures
            r.wf(),
            r.cap() == n,
            r.rec_sq() == Seq::<StackVal<I>>::empty(),
            r.data_sq() == Seq::<I>::empty(),
    {
        let mut stacks: Vec<Option<StackVal<I>>> = Vec::new();
        let mut i: usize = 0;
        while i < n
            invariant
                i <= n,
                stacks@.len() == i,
            decreases n - i,
        {
            stacks.push(None);
            i = i + 1;
        }
        let r = DStack { stacks, rec_head: None, out_head: n };
        proof {
            assert(r.rec_sq() =~= Seq::<StackVal<I>>::empty());
            assert(r.data_sq() =~= Seq::<I>::empty());
        }
        r
    }

    /// Capacity of the double stack.
    pub fn capacity(&self) -> (r: usize)
        ensures
            r == self.cap(),
    {
        self.stacks.len()
    }

    /// Test whether the recursion stack is empty.
    pub fn is_rec_empty(&self) -> (r: bool)
        ensures
            r <==> self.rec_sq().len() == 0,
    {
        self.rec_head.is_none()
    }

    /// Test whether the data stack is empty.
    pub fn is_data_empty(&self) -> (r: bool)
        requires
            self.wf(),
        ensures
            r <==> self.data_sq().len() == 0,
    {
        self.out_head == self.stacks.len()
    }

    /// Push a value on the recursion stack. The caller must leave room:
    /// pushing when the regions together fill the capacity would make the
    /// heads collide, a caller bug excluded by precondition.
    pub fn push_rec(&mut self, value: StackVal<I>)
        requires
            old(self).wf(),
            old(self).rec_sq().len() + old(self).data_sq().len() < old(self).cap(),
        ensures
            final(self).wf(),
            final(self).cap() == old(self).cap(),
            final(self).rec_sq() == old(self).rec_sq().push(value),
            final(self).data_sq() == old(self).data_sq(),
    {
        let head: usize = match self.rec_head {
            None => 0,
            Some(x) => x + 1,
        };
        assert(head < self.out_head);
        self.stacks[head] = Some(value);
        self.rec_head = Some(head);
        proof {
            assert(self.rec_sq() =~= old(self).rec_sq().push(value));
            assert(self.data_sq() =~= old(self).data_sq());
        }
    }

    /// Push a value on the data stack. The caller must leave room, as for
    /// [`DStack::push_rec`]; only enter tags are ever stored here.
    pub fn push_data(&mut self, value: I)
        requires
            old(self).wf(),
            old(self).rec_sq().len() + old(self).data_sq().len() < old(self).cap(),
        ensures
            final(self).wf(),
            final(self).cap() == old(self).cap(),
            final(self).data_sq() == seq![value] + old(self).data_sq(),
            final(self).rec_sq() == old(self).rec_sq(),
    {
        self.out_head = self.out_head - 1;
        self.stacks[self.out_head] = Some(StackVal::Enter(value));
        proof {
            assert(self.data_sq() =~= seq![value] + old(self).data_sq());
            assert(self.rec_sq() =~= old(self).rec_sq());
        }
    }

    /// Pop a value from the recursion stack, or `None` if it is empty.
    pub fn pop_rec(&mut self) -> (r: Option<StackVal<I>>)
        requires
            old(self).wf(),
        ensures
            final(self).wf(),
            final(self).cap() == old(self).cap(),
            final(self).data_sq() == old(self).data_sq(),
            old(self).rec_sq().len() == 0 ==> r is None && final(self).rec_sq() == old(
                self,
            ).rec_sq(),
            old(self).rec_sq().len() > 0 ==> r == Some(old(self).rec_sq().last())
                && final(self).rec_sq() == old(self).rec_sq().drop_last(),
    {
        match self.rec_head {
            Some(rec_head) => {
                let res = self.stacks[rec_head].unwrap();
                self.rec_head = if rec_head > 0 {
                    Some(rec_head - 1)
                } else {
                    None
                };
                proof {
                    assert(self.rec_sq() =~= old(self).rec_sq().drop_last());
                }
                Some(res)
            },
            None => None,
        }
    }

    /// Pop a value from the data stack, or `None` if it is empty. Only
    /// plain values come back: the data region stores enter tags alone, so
    /// the tag is stripped.
    pub fn pop_data(&mut self) -> (r: Option<I>)
        requires
            old(self).wf(),
        ensures
            final(self).wf(),
            final(self).cap() == old(self).cap(),
            final(self).rec_sq() == old(self).rec_sq(),
            old(self).data_sq().len() == 0 ==> r is None && final(self).data_sq() == old(
                self,
            ).data_sq(),
            old(self).data_sq().len() > 0 ==> r == Some(old(self).data_sq()[0])
                && final(self).data_sq() == old(self).data_sq().skip(1),
    {
        if self.out_head >= self.stacks.len() {
            None
        } else {
            let slot = self.stacks[self.out_head].unwrap();
            match slot {
                StackVal::Enter(res) => {
                    self.out_head = self.out_head + 1;
                    proof {
                        assert(self.data_sq() =~= old(self).data_sq().skip(1));
                    }
                    Some(res)
                },
                StackVal::Exit(_) => {
                    proof {
                        assert(false);
                    }
                    None
                },
            }
        }
    }

    /// Number of data elements this double stack contains.
    pub fn len_data(&self) -> (r: usize)
        requires
            self.wf(),
        ensures
            r == self.data_sq().len(),
    {
        let n = self.stacks.len();
        n - self.out_head
    }

    /// Clear the data stack; the recursion region is untouched.
    pub fn clear_data(&mut self)
        requires
            old(self).wf(),
        ensures
            final(self).wf(),
            final(self).cap() == old(self).cap(),
            final(self).rec_sq() == old(self).rec_sq(),
            final(self).data_sq() == Seq::<I>::empty(),
    {
        self.out_head = self.stacks.len();
        proof {
            assert(self.data_sq() =~= Seq::<I>::empty());
            assert(self.rec_sq() =~= old(self).rec_sq());
        }
    }

    /// Walk the occupied data-region slots without removing them, from the
    /// region boundary toward the buffer end: the most recently pushed
    /// value comes first, exactly as [`DStack::pop_data`] would yield them.
    pub fn iter_data(&self) -> (r: Vec<I>)
        requires
            self.wf(),
        ensures
            r@ == self.data_sq(),
    {
        let mut out: Vec<I> = Vec::new();
        let n = self.stacks.len();
        let mut k: usize = self.out_head;
        while k < n
            invariant
                self.wf(),
                n == self.stacks@.len(),
                self.out_head <= k <= n,
                out@.len() == k - self.out_head,
                forall|p: int| 0 <= p < out@.len() ==> out@[p] == self.data_sq()[p],
            decreases n - k,
        {
            let slot = self.stacks[k].unwrap();
            out.push(*extract_stack_val(&slot));
            k = k + 1;
        }
        proof {
            assert(out@ =~= self.data_sq());
        }
        out
    }
}

/// The region-disjointness guarantee in words: in every valid double stack
/// the two regions together never occupy more than the capacity, so the
/// recursion head stays strictly below the data head.
pub proof fn lemma_regions_disjoint<I>(s: &DStack<I>)
    requires
        s.wf(),
    ensures
        s.rec_sq().len() + s.data_sq().len() <= s.cap(),
{
    match s.rec_head {
        Some(h) => {
            assert(s.rec_sq().len() == h + 1);
            assert(h < s.out_head);
        },
        None => {
            assert(s.rec_sq().len() == 0);
        },
    }
}

} // verus!
