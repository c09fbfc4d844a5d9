//! The call stack: saved buffer stores and return addresses.
use crate::vm::BufferStore;
use vstd::prelude::*;

verus! {

/// A saved buffer store and the instruction to resume at.
pub struct StackFrame {
    pub buffers: BufferStore,
    pub origin: usize,
}

/// The frames of pending calls, innermost last.
pub struct Stack {
    pub frames: Vec<StackFrame>,
}

/// A frame as a store and a return position.
pub type FrameModel = (Map<Seq<char>, Seq<u8>>, usize);

impl View for Stack {
    type V = Seq<FrameModel>;

    open spec fn view(&self) -> Seq<FrameModel> {
        self.frames@.map_values(|f: StackFrame| (f.buffers@, f.origin))
    }
}

impl Stack {
    /// Every saved store is well formed.
    pub open spec fn wf(&self) -> bool {
        forall|i: int| 0 <= i < self.frames@.len() ==> (#[trigger] self.frames@[i]).buffers.wf()
    }

    /// Saves a copy of `buffers_param` with the position to resume at.
    pub fn push(&mut self, buffers_param: &BufferStore, origin: usize)
        requires
            old(self).wf(),
            buffers_param.wf(),
        ensures
            final(self).wf(),
            final(self)@ == old(self)@.push((buffers_param@, origin)),
    {
        let frame = StackFrame { buffers: buffers_param.duplicate(), origin };
        self.frames.push(frame);
        assert(self@ =~= old(self)@.push((buffers_param@, origin)));
    }

    /// Removes and returns the innermost frame.
    pub fn pop(&mut self) -> (r: StackFrame)
        requires
            old(self).wf(),
            old(self)@.len() > 0,
        ensures
            final(self).wf(),
            r.buffers.wf(),
            final(self)@ == old(self)@.drop_last(),
            (r.buffers@, r.origin) == old(self)@.last(),
    {
        let r = self.frames.pop().unwrap();
        assert(self@ =~= old(self)@.drop_last());
        r
    }
}

} // verus!
