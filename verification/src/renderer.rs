//! The renderer's own state: the queue of UI commands that callers fill between
//! frames, and the frame bookkeeping that decides when a frame can be drawn.
use vstd::prelude::*;

verus! {

/// Something that knows the size of the window it draws into.
pub trait WindowSizeProvider {
    fn size(&self) -> Option<(u32, u32)>;
}

impl<T: WindowSizeProvider> WindowSizeProvider for &T {
    /// The size that the referenced value reports.
    fn size(&self) -> (s: Option<(u32, u32)>)
        ensures
            call_ensures(T::size, (*self,), s),
    {
        (**self).size()
    }
}

// ---- UI command queue ----

/// Commands queued for the next frame, oldest first.
pub struct UiQueue<C> {
    commands: Vec<C>,
}

impl<C> View for UiQueue<C> {
    type V = Seq<C>;

    closed spec fn view(&self) -> Seq<C> {
        self.commands@
    }
}

impl<C> UiQueue<C> {
    pub fn new() -> (q: Self)
        ensures
            q@ == Seq::<C>::empty(),
    {
        UiQueue { commands: Vec::new() }
    }

    /// Queues a command behind those already queued.
    pub fn push(&mut self, command: C)
        ensures
            final(self)@ == old(self)@.push(command),
    {
        self.commands.push(command);
    }

    /// Drops every queued command.
    pub fn clear(&mut self)
        ensures
            final(self)@ == Seq::<C>::empty(),
    {
        self.commands.clear();
    }

    /// Hands out every queued command in the order queued, leaving the queue empty.
    pub fn take_all(&mut self) -> (taken: Vec<C>)
        ensures
            taken@ == old(self)@,
            final(self)@ == Seq::<C>::empty(),
    {
        let mut taken: Vec<C> = Vec::new();
        std::mem::swap(&mut taken, &mut self.commands);
        taken
    }
}

// ---- Frame bookkeeping ----

/// What presenting a frame reported.
#[derive(Clone, Copy, Debug, PartialEq, Eq, Structural)]
pub enum PresentOutcome {
    /// Shown, and the swapchain still matches the surface.
    Presented,
    /// Shown, but the swapchain no longer matches the surface exactly.
    Suboptimal,
    /// Not shown: the swapchain is out of date.
    OutOfDate,
    /// Any other failure, with its raw `VkResult`.
    Failed(i32),
}

/// Which of the two frames in flight is next, and whether the swapchain must be
/// recreated before anything can be drawn again.
pub struct FrameState {
    current_frame: usize,
    dirty_swapchain: bool,
}

impl FrameState {
    /// Two frames are in flight: the index is 0 or 1.
    #[verifier::type_invariant]
    spec fn frame_in_range(&self) -> bool {
        self.current_frame < 2
    }

    pub closed spec fn frame(&self) -> int {
        self.current_frame as int
    }

    pub closed spec fn dirty(&self) -> bool {
        self.dirty_swapchain
    }

    pub fn new() -> (s: FrameState)
        ensures
            s.frame() == 0,
            !s.dirty(),
    {
        FrameState { current_frame: 0, dirty_swapchain: false }
    }

    /// Index of the frame in flight that is drawn next.
    pub fn current_frame(&self) -> (i: usize)
        ensures
            i == self.frame(),
            i < 2,
    {
        proof {
            use_type_invariant(self);
        }
        self.current_frame
    }

    /// Whether the swapchain is marked for recreation.
    pub fn dirty_swapchain(&self) -> (b: bool)
        ensures
            b == self.dirty(),
    {
        self.dirty_swapchain
    }

    /// A frame is drawn only while the swapchain is not marked for recreation.
    pub fn can_render(&self) -> (b: bool)
        ensures
            b == !self.dirty(),
    {
        !self.dirty_swapchain
    }

    /// An image was acquired; a suboptimal one marks the swapchain for recreation.
    pub fn image_acquired(&mut self, suboptimal: bool)
        ensures
            final(self).frame() == old(self).frame(),
            final(self).dirty() == (old(self).dirty() || suboptimal),
    {
        proof {
            use_type_invariant(&*self);
        }
        if suboptimal {
            self.dirty_swapchain = true;
        }
    }

    /// The frame was handed to presentation. Unless presenting failed, the next
    /// frame in flight comes up; a suboptimal or out-of-date swapchain is marked
    /// for recreation. A failure is passed on with the state unchanged.
    pub fn frame_presented(&mut self, outcome: PresentOutcome) -> (r: Result<(), i32>)
        ensures
            match outcome {
                PresentOutcome::Failed(code) => r == Err::<(), i32>(code) && final(self).frame() == old(
                    self,
                ).frame() && final(self).dirty() == old(self).dirty(),
                _ => r is Ok && final(self).frame() == (old(self).frame() + 1) % 2 && final(self).dirty() == (
                old(self).dirty() || outcome != PresentOutcome::Presented),
            },
    {
        proof {
            use_type_invariant(&*self);
        }
        match outcome {
            PresentOutcome::Presented => {},
            PresentOutcome::Suboptimal => self.dirty_swapchain = true,
            PresentOutcome::OutOfDate => self.dirty_swapchain = true,
            PresentOutcome::Failed(code) => return Err(code),
        }
        self.current_frame = (self.current_frame + 1) % 2;
        Ok(())
    }

    /// The swapchain was recreated for the window's new size.
    pub fn swapchain_recreated(&mut self)
        ensures
            final(self).frame() == old(self).frame(),
            !final(self).dirty(),
    {
        proof {
            use_type_invariant(&*self);
        }
        self.dirty_swapchain = false;
    }
}

/// The frames in flight alternate: each presented frame moves to the other
/// index, and two bring back the first.
pub proof fn lemma_frames_alternate(f: int)
    requires
        0 <= f < 2,
    ensures
        (f + 1) % 2 != f,
        ((f + 1) % 2 + 1) % 2 == f,
        0 <= (f + 1) % 2 < 2,
{
}

} // verus!
