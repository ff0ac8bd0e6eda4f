use vstd::prelude::*;

verus! {

/// What happens to an attachment's contents at the end of a render pass.
#[derive(Clone, Copy, Debug, PartialEq, Eq, Structural)]
pub enum StoreOp {
    Store,
    Discard,
}

/// What happens to an attachment's contents at the start of a render pass.
#[derive(Clone, Copy, Debug, PartialEq, Eq)]
pub enum LoadOp<V> {
    Clear(V),
    Load,
}

#[verifier::external_type_specification]
#[verifier::external_body]
pub struct ExTextureFormat(wgpu::TextureFormat);

#[verifier::external_type_specification]
#[verifier::external_body]
pub struct ExTextureDimension(wgpu::TextureDimension);

#[verifier::external_type_specification]
#[verifier::external_body]
pub struct ExColor(wgpu::Color);

/// Relies on the `PartialEq` that `wgpu::TextureFormat` derives: two formats
/// compare equal exactly when they are the same value.
#[verifier::external_body]
pub(crate) fn same_format(a: &wgpu::TextureFormat, b: &wgpu::TextureFormat) -> (r: bool)
    ensures
        r == (*a == *b),
{
    a == b
}

} // verus!
