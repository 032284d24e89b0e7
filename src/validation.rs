use crate::error::{Png2LvglError, ValidationError};
use vstd::prelude::*;

verus! {

pub const MAX_WIDTH: u32 = 8192;

pub const MAX_HEIGHT: u32 = 8192;

pub const MIN_WIDTH: u32 = 1;

pub const MIN_HEIGHT: u32 = 1;

/// The largest input file accepted, 100 MiB.
pub const MAX_FILE_SIZE: u64 = 100 * 1024 * 1024;

/// The eight bytes every PNG file starts with.
pub open spec fn png_signature() -> Seq<u8> {
    seq![0x89u8, 0x50u8, 0x4eu8, 0x47u8, 0x0du8, 0x0au8, 0x1au8, 0x0au8]
}

/// Image sizes accepted for conversion: each side within `[1, 8192]`.
pub open spec fn dimensions_ok(width: u32, height: u32) -> bool {
    MIN_WIDTH <= width <= MAX_WIDTH && MIN_HEIGHT <= height <= MAX_HEIGHT
}

/// Checks the size of a decoded image. A side below the minimum is reported
/// before a side above the maximum.
pub fn validate_dimensions(width: u32, height: u32) -> (r: Result<(), Png2LvglError>)
    ensures
        r is Ok <==> dimensions_ok(width, height),
        (width < MIN_WIDTH || height < MIN_HEIGHT) ==> r == Err::<(), Png2LvglError>(
            Png2LvglError::Validation(
                ValidationError::DimensionsTooSmall {
                    width,
                    height,
                    min_width: MIN_WIDTH,
                    min_height: MIN_HEIGHT,
                },
            ),
        ),
        (MIN_WIDTH <= width && MIN_HEIGHT <= height && (width > MAX_WIDTH || height > MAX_HEIGHT))
            ==> r == Err::<(), Png2LvglError>(
            Png2LvglError::Validation(
                ValidationError::DimensionsTooLarge {
                    width,
                    height,
                    max_width: MAX_WIDTH,
                    max_height: MAX_HEIGHT,
                },
            ),
        ),
{
    if width < MIN_WIDTH || height < MIN_HEIGHT {
        return Err(
            Png2LvglError::Validation(
                ValidationError::DimensionsTooSmall {
                    width,
                    height,
                    min_width: MIN_WIDTH,
                    min_height: MIN_HEIGHT,
                },
            ),
        );
    }
    if width > MAX_WIDTH || height > MAX_HEIGHT {
        return Err(
            Png2LvglError::Validation(
                ValidationError::DimensionsTooLarge {
                    width,
                    height,
                    max_width: MAX_WIDTH,
                    max_height: MAX_HEIGHT,
                },
            ),
        );
    }
    Ok(())
}

/// Checks the size of an input file against [`MAX_FILE_SIZE`].
pub fn validate_file_size(size: u64) -> (r: Result<(), Png2LvglError>)
    ensures
        r is Ok <==> size <= MAX_FILE_SIZE,
        r is Err ==> r == Err::<(), Png2LvglError>(
            Png2LvglError::Validation(
                ValidationError::FileSizeTooLarge { size, max_size: MAX_FILE_SIZE },
            ),
        ),
{
    if size > MAX_FILE_SIZE {
        return Err(
            Png2LvglError::Validation(
                ValidationError::FileSizeTooLarge { size, max_size: MAX_FILE_SIZE },
            ),
        );
    }
    Ok(())
}

/// Checks the first bytes read from an input file: they must be exactly
/// the PNG signature.
pub fn validate_png_header(header: &[u8]) -> (r: Result<(), Png2LvglError>)
    ensures
        r is Ok <==> header@ == png_signature(),
        r is Err ==> r == Err::<(), Png2LvglError>(
            Png2LvglError::Validation(ValidationError::InvalidPngHeader),
        ),
{
    let signature: [u8; 8] = [0x89, 0x50, 0x4e, 0x47, 0x0d, 0x0a, 0x1a, 0x0a];
    assert(signature@ =~= png_signature());
    if header.len() != 8 {
        return Err(Png2LvglError::Validation(ValidationError::InvalidPngHeader));
    }
    let mut i: usize = 0;
    while i < 8
        invariant
            header@.len() == 8,
            signature@ == png_signature(),
            i <= 8,
            forall|j: int| 0 <= j < i ==> header@[j] == png_signature()[j],
        decreases 8 - i,
    {
        if header[i] != signature[i] {
            return Err(Png2LvglError::Validation(ValidationError::InvalidPngHeader));
        }
        i = i + 1;
    }
    assert(header@ =~= png_signature());
    Ok(())
}

} // verus!
