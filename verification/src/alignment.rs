//! The alignment stack: the coordinates of the invocation being evaluated,
//! and the per-parent-path counters that tell sibling invocations apart.
//!
//! Entering a construct pushes a coordinate whose counter is one more than
//! the last counter recorded for the current path (zero the first time;
//! the counter saturates instead of wrapping).  Leaving pops the coordinate
//! but keeps the counters, so later siblings keep counting upwards.

use vstd::prelude::*;

use crate::kv::kv_get;
use crate::kv::kv_map;
use crate::kv::kv_set;
use crate::path::InvocationCoordinate;
use crate::path::Path;
use crate::path::coord_text;

verus! {

/// The coordinates a stack of invocations denotes.
pub open spec fn coords_view(s: Seq<InvocationCoordinate>) -> Seq<(Seq<char>, u32)> {
    s.map(|i: int, c: InvocationCoordinate| c@)
}

/// The path of a coordinate stack: each coordinate in rendered form.
pub open spec fn path_of(stack: Seq<(Seq<char>, u32)>) -> Seq<Seq<char>> {
    stack.map(|i: int, c: (Seq<char>, u32)| coord_text(c))
}

/// Saturating increment of a sibling counter.
pub open spec fn counter_bump(c: u32) -> u32 {
    if c == u32::MAX {
        c
    } else {
        (c + 1) as u32
    }
}

/// The abstract state of an alignment stack: the active coordinates and the
/// last counter handed out under each parent path.
pub struct StackModel {
    pub stack: Seq<(Seq<char>, u32)>,
    pub trace: Map<Seq<Seq<char>>, u32>,
}

impl StackModel {
    /// The state of a freshly reset stack.
    pub open spec fn reset() -> StackModel {
        StackModel { stack: Seq::empty(), trace: Map::empty() }
    }

    /// The counter the next invocation under the current path receives.
    pub open spec fn next_counter(self) -> u32 {
        if self.trace.contains_key(path_of(self.stack)) {
            counter_bump(self.trace[path_of(self.stack)])
        } else {
            0
        }
    }

    /// The state after entering one invocation of `token`.
    pub open spec fn after_align(self, token: Seq<char>) -> StackModel {
        StackModel {
            stack: self.stack.push((token, self.next_counter())),
            trace: self.trace.insert(path_of(self.stack), self.next_counter()),
        }
    }

    /// The state after leaving the innermost invocation.
    pub open spec fn after_unalign(self) -> StackModel {
        if self.stack.len() == 0 {
            self
        } else {
            StackModel { stack: self.stack.drop_last(), trace: self.trace }
        }
    }

    /// The state after one complete invocation of `token`: entered and left
    /// again.
    pub open spec fn after_visit(self, token: Seq<char>) -> StackModel {
        self.after_align(token).after_unalign()
    }
}

/// The path of the invocation that entering `token` opens.
pub open spec fn entered_path(m: StackModel, token: Seq<char>) -> Seq<Seq<char>> {
    path_of(m.after_align(token).stack)
}

/// A complete invocation leaves the stack as it was and bumps the counter
/// recorded for the path it was entered under.
pub proof fn lemma_after_visit(m: StackModel, token: Seq<char>)
    ensures
        m.after_visit(token).stack == m.stack,
        m.after_visit(token).trace == m.trace.insert(path_of(m.stack), m.next_counter()),
{
    assert(m.after_align(token).stack.drop_last() =~= m.stack);
}

/// The alignment stack of one virtual machine.
pub struct AlignmentStack {
    stack: Vec<InvocationCoordinate>,
    trace: Vec<(Path, u32)>,
}

impl AlignmentStack {
    /// The abstract state this stack is in.
    pub closed spec fn model(&self) -> StackModel {
        StackModel { stack: coords_view(self.stack@), trace: kv_map(self.trace@) }
    }

    pub fn new() -> (r: Self)
        ensures
            r.model() == StackModel::reset(),
    {
        let r = AlignmentStack { stack: Vec::new(), trace: Vec::new() };
        proof {
            assert(r.model().stack =~= StackModel::reset().stack);
            assert(r.model().trace =~= StackModel::reset().trace);
        }
        r
    }

    /// The active coordinates, outermost first.
    pub fn current_path(&self) -> (r: Vec<InvocationCoordinate>)
        ensures
            coords_view(r@) == self.model().stack,
    {
        let mut out: Vec<InvocationCoordinate> = Vec::new();
        let mut i: usize = 0;
        while i < self.stack.len()
            invariant
                i <= self.stack@.len(),
                out@.len() == i,
                forall|k: int| 0 <= k < i ==> out@[k]@ == self.stack@[k]@,
            decreases self.stack@.len() - i,
        {
            let c = self.stack[i].clone();
            out.push(c);
            i = i + 1;
        }
        proof {
            assert(coords_view(out@) =~= self.model().stack);
        }
        out
    }

    /// The path of the active coordinates.
    pub fn current(&self) -> (r: Path)
        ensures
            r@ == path_of(self.model().stack),
    {
        let r = Path::from_coordinates(&self.stack);
        proof {
            assert(r@ =~= path_of(self.model().stack));
        }
        r
    }

    /// Enters one invocation of `token`: pushes the coordinate
    /// `(token, c)` where `c` is the next counter for the current path,
    /// and records that counter for the path.
    pub fn align(&mut self, token: &str)
        ensures
            final(self).model() == old(self).model().after_align(token@),
    {
        let ghost m0 = self.model();
        let parent = Path::from_coordinates(&self.stack);
        proof {
            assert(parent@ =~= path_of(m0.stack));
        }
        let counter: u32 = match kv_get(&self.trace, &parent) {
            Some(c) => {
                if *c == u32::MAX {
                    u32::MAX
                } else {
                    *c + 1
                }
            },
            None => 0,
        };
        proof {
            assert(counter == m0.next_counter());
        }
        self.stack.push(InvocationCoordinate::new(counter, token));
        kv_set(&mut self.trace, parent, counter);
        proof {
            assert(self.model().stack =~= m0.after_align(token@).stack);
            assert(self.model().trace == m0.after_align(token@).trace);
        }
    }

    /// Leaves the innermost invocation: pops its coordinate.  The counters
    /// are kept, so later siblings keep counting upwards.
    pub fn unalign(&mut self)
        ensures
            final(self).model() == old(self).model().after_unalign(),
    {
        let ghost m0 = self.model();
        self.stack.pop();
        proof {
            assert(self.model().stack =~= m0.after_unalign().stack);
        }
    }
}

} // verus!
