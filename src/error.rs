use vstd::prelude::*;

verus! {

/// Why reading a height field (or an STL byte stream) failed.
#[derive(Debug, Clone, Copy, PartialEq, Eq, Structural)]
pub enum ReadError {
    /// The bytes could not be read, or ended early.
    IO,
    /// A token that should hold a decimal number did not.
    ParseFloat,
    /// A token that should hold an integer did not, the grid size is negative,
    /// or a header line, or its second field, is missing.
    ParseInt,
    /// The image data could not be decoded.
    Image,
}

impl ReadError {
    /// A short description of the failure, for diagnostics.
    pub fn message(&self) -> (r: &'static str)
        ensures
            *self == ReadError::IO ==> r@ == "Read/Write Error"@,
            *self == ReadError::ParseFloat ==> r@ == "Parse float Error"@,
            *self == ReadError::ParseInt ==> r@ == "Parse int Error"@,
            *self == ReadError::Image ==> r@ == "Image Error"@,
    {
        match self {
            ReadError::IO => "Read/Write Error",
            ReadError::ParseFloat => "Parse float Error",
            ReadError::ParseInt => "Parse int Error",
            ReadError::Image => "Image Error",
        }
    }
}

/// std's failure to read an integer; opaque here.
#[verifier::external_type_specification]
#[verifier::external_body]
pub struct ExParseIntError(std::num::ParseIntError);

/// std's failure to read a floating-point number; opaque here.
#[verifier::external_type_specification]
#[verifier::external_body]
pub struct ExParseFloatError(std::num::ParseFloatError);

/// std's I/O failure; opaque here.
#[verifier::external_type_specification]
#[verifier::external_body]
pub struct ExIoError(std::io::Error);

/// The image crate's decoding failure; opaque here.
#[verifier::external_type_specification]
#[verifier::external_body]
pub struct ExImageError(image::ImageError);

impl From<std::num::ParseIntError> for ReadError {
    fn from(_e: std::num::ParseIntError) -> ReadError {
        ReadError::ParseInt
    }
}

impl vstd::std_specs::convert::FromSpecImpl<std::num::ParseIntError> for ReadError {
    open spec fn obeys_from_spec() -> bool {
        true
    }

    open spec fn from_spec(v: std::num::ParseIntError) -> ReadError {
        ReadError::ParseInt
    }
}

impl From<std::num::ParseFloatError> for ReadError {
    fn from(_e: std::num::ParseFloatError) -> ReadError {
        ReadError::ParseFloat
    }
}

impl vstd::std_specs::convert::FromSpecImpl<std::num::ParseFloatError> for ReadError {
    open spec fn obeys_from_spec() -> bool {
        true
    }

    open spec fn from_spec(v: std::num::ParseFloatError) -> ReadError {
        ReadError::ParseFloat
    }
}

impl From<std::io::Error> for ReadError {
    fn from(_e: std::io::Error) -> ReadError {
        ReadError::IO
    }
}

impl vstd::std_specs::convert::FromSpecImpl<std::io::Error> for ReadError {
    open spec fn obeys_from_spec() -> bool {
        true
    }

    open spec fn from_spec(v: std::io::Error) -> ReadError {
        ReadError::IO
    }
}

impl From<image::ImageError> for ReadError {
    fn from(_e: image::ImageError) -> ReadError {
        ReadError::Image
    }
}

impl vstd::std_specs::convert::FromSpecImpl<image::ImageError> for ReadError {
    open spec fn obeys_from_spec() -> bool {
        true
    }

    open spec fn from_spec(v: image::ImageError) -> ReadError {
        ReadError::Image
    }
}

} // verus!
