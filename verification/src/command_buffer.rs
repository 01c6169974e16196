//! A command buffer bundled with the one compute encoder that all its kernels go through.

use vstd::prelude::*;

verus! {

/// A command buffer of the device and the compute command encoder made from it.
#[derive(Debug)]
pub struct TCommandBuffer<CommandBuffer, ComputeCommandEncoder> {
    inner: CommandBuffer,
    encoder: ComputeCommandEncoder,
}

/// Whether dereferencing the pointer can give the target.
pub open spec fn refers_to<Pointer: std::ops::Deref>(
    pointer: Pointer,
    target: &Pointer::Target,
) -> bool {
    call_ensures(Pointer::deref, (&pointer,), target)
}

impl<CommandBuffer, ComputeCommandEncoder> TCommandBuffer<CommandBuffer, ComputeCommandEncoder> {
    /// The command buffer that was bundled.
    pub closed spec fn spec_inner(&self) -> CommandBuffer {
        self.inner
    }

    /// The encoder made from the command buffer.
    pub closed spec fn spec_encoder(&self) -> ComputeCommandEncoder {
        self.encoder
    }

    /// Bundles a command buffer with the encoder that `new_compute_command_encoder` makes
    /// from it. The encoder is made once, here.
    pub fn new<NewEncoder>(
        command_buffer: CommandBuffer,
        new_compute_command_encoder: NewEncoder,
    ) -> (r: Self) where NewEncoder: FnOnce(&CommandBuffer) -> ComputeCommandEncoder
        requires
            call_requires(new_compute_command_encoder, (&command_buffer,)),
        ensures
            r.spec_inner() == command_buffer,
            call_ensures(new_compute_command_encoder, (&command_buffer,), r.spec_encoder()),
    {
        let encoder = new_compute_command_encoder(&command_buffer);
        TCommandBuffer { inner: command_buffer, encoder }
    }

    /// The encoder.
    pub fn encoder(&self) -> (r: &ComputeCommandEncoder)
        ensures
            *r == self.spec_encoder(),
    {
        &self.encoder
    }

    /// Calls back exactly once, with the object that the encoder refers to. The bundle stays as
    /// it is, so that the next call goes to the same encoder.
    pub fn encode<EncodeCallback>(&self, encode_cb: EncodeCallback) where
        ComputeCommandEncoder: std::ops::Deref,
        EncodeCallback: FnOnce(&ComputeCommandEncoder::Target),

        requires
            forall|encoder: &ComputeCommandEncoder::Target|
                #[trigger] refers_to(self.spec_encoder(), encoder) ==> call_requires(encode_cb, (encoder,)),
        ensures
            exists|encoder: &ComputeCommandEncoder::Target|
                #[trigger] refers_to(self.spec_encoder(), encoder) && call_ensures(
                    encode_cb,
                    (encoder,),
                    (),
                ),
    {
        let encoder = self.encoder.deref();
        assert(refers_to(self.spec_encoder(), encoder));
        encode_cb(encoder);
    }
}

impl<CommandBuffer: Clone, ComputeCommandEncoder: Clone> Clone for TCommandBuffer<
    CommandBuffer,
    ComputeCommandEncoder,
> {
    /// A bundle of clones of the command buffer and of the encoder. No encoder is made: where
    /// both are handles, the clone refers to the same two objects.
    fn clone(&self) -> (r: Self)
        ensures
            cloned(self.spec_inner(), r.spec_inner()),
            cloned(self.spec_encoder(), r.spec_encoder()),
    {
        TCommandBuffer { inner: self.inner.clone(), encoder: self.encoder.clone() }
    }
}

impl<CommandBuffer, ComputeCommandEncoder> std::ops::Deref for TCommandBuffer<
    CommandBuffer,
    ComputeCommandEncoder,
> {
    type Target = CommandBuffer;

    /// The command buffer.
    fn deref(&self) -> (r: &CommandBuffer)
        ensures
            *r == self.spec_inner(),
    {
        &self.inner
    }
}

impl<CommandBuffer, ComputeCommandEncoder> std::ops::DerefMut for TCommandBuffer<
    CommandBuffer,
    ComputeCommandEncoder,
> {
    /// The command buffer, to be changed in place; the encoder stays.
    fn deref_mut(&mut self) -> (r: &mut CommandBuffer)
        ensures
            *r == old(self).spec_inner(),
            final(self).spec_inner() == *final(r),
            final(self).spec_encoder() == old(self).spec_encoder(),
    {
        &mut self.inner
    }
}

/// Clones of handles share what they refer to: where cloning keeps a command buffer and an
/// encoder as they are, so does cloning the bundle.
pub proof fn law_clones_share<CommandBuffer: Clone, ComputeCommandEncoder: Clone>(
    a: TCommandBuffer<CommandBuffer, ComputeCommandEncoder>,
    b: TCommandBuffer<CommandBuffer, ComputeCommandEncoder>,
)
    requires
        cloned(a, b),
        forall|x: CommandBuffer, y: CommandBuffer| #[trigger] cloned(x, y) ==> x == y,
        forall|x: ComputeCommandEncoder, y: ComputeCommandEncoder|
            #[trigger] cloned(x, y) ==> x == y,
    ensures
        a.spec_inner() == b.spec_inner(),
        a.spec_encoder() == b.spec_encoder(),
{
    assert(cloned(a.spec_inner(), b.spec_inner()));
    assert(cloned(a.spec_encoder(), b.spec_encoder()));
}

} // verus!
