//! Renderer-side image values that the cache carries through without looking inside.

use vstd::prelude::*;

verus! {

/// Encoded image bytes, as handed to the renderer.
#[verifier::external_type_specification]
#[verifier::external_body]
pub struct ExHandle(iced_core::image::Handle);

/// A renderer allocation holding a decoded image.
#[verifier::external_type_specification]
#[verifier::external_body]
pub struct ExAllocation(iced_core::image::Allocation);

/// Why the renderer could not allocate an image.
#[verifier::external_type_specification]
#[verifier::external_body]
pub struct ExImageError(iced_core::image::Error);

/// A drawable image (used for attribution logos).
#[verifier::external_type_specification]
#[verifier::external_body]
#[verifier::reject_recursive_types(H)]
pub struct ExImage<H>(iced_core::image::Image<H>);

/// Relies on iced_core's derived `Clone` for `Handle`; nothing is claimed of the copy.
pub assume_specification[ <iced_core::image::Handle as Clone>::clone ](h: &iced_core::image::Handle) -> iced_core::image::Handle;

/// Relies on iced_core's derived `Clone` for `Allocation`; nothing is claimed of the copy.
pub assume_specification[ <iced_core::image::Allocation as Clone>::clone ](a: &iced_core::image::Allocation) -> iced_core::image::Allocation;

/// Relies on iced_core's derived `Clone` for `image::Error`; nothing is claimed of the copy.
pub assume_specification[ <iced_core::image::Error as Clone>::clone ](e: &iced_core::image::Error) -> iced_core::image::Error;

} // verus!
