use std::path::PathBuf;
use vstd::prelude::*;

verus! {

/// `std::path::PathBuf`, carried through the input and output checks.
#[verifier::external_type_specification]
#[verifier::external_body]
pub struct ExPathBuf(PathBuf);

/// `std::io::Error`, carried by the top-level error.
#[verifier::external_type_specification]
#[verifier::external_body]
pub struct ExIoError(std::io::Error);

/// `image::ImageError`, carried by the top-level error.
#[verifier::external_type_specification]
#[verifier::external_body]
pub struct ExImageError(image::ImageError);

/// Every failure of a conversion.
#[derive(Debug)]
pub enum Png2LvglError {
    Io(std::io::Error),
    Image(image::ImageError),
    Validation(ValidationError),
    Format(FormatError),
    Config(String),
}

/// A rejected input file, output path or image size.
#[derive(Debug)]
pub enum ValidationError {
    FileNotFound { path: PathBuf },
    FileNotReadable { path: PathBuf },
    InvalidPngHeader,
    DimensionsTooLarge { width: u32, height: u32, max_width: u32, max_height: u32 },
    DimensionsTooSmall { width: u32, height: u32, min_width: u32, min_height: u32 },
    FileSizeTooLarge { size: u64, max_size: u64 },
    OutputNotWritable { path: PathBuf },
    InvalidOutputFilename { name: String },
    OutputExists { path: PathBuf },
}

/// A color format that cannot be produced from the given image.
#[derive(Debug)]
pub enum FormatError {
    NotImplemented { format: String },
    TooManyColors { colors: usize, max_colors: usize, format: String },
    InvalidBitDepth { depth: u8, format: String },
}

} // verus!
