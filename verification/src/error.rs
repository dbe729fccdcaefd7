use vstd::prelude::*;

verus! {

/// Why a codec gave up. Every error is final: nothing is recovered from a
/// buffer whose offsets cannot be trusted.
#[derive(Debug, Clone, PartialEq, Eq)]
#[allow(inconsistent_fields)]
pub enum Error {
    /// A read of `need` bytes at offset `at` would pass the end of the buffer.
    UnexpectedEof { at: usize, need: usize },
    /// A relative move would leave the buffer.
    BadPosition { requested: i128 },
    /// A string field does not hold UTF-8.
    BadEncoding,
    /// The first four bytes are not a known magic.
    BadMagic { got: Vec<u8>, expected: Vec<u8> },
    /// A version number or version sentinel is not a known one.
    BadVersion { got: u32 },
    /// A storage tag outside 0..=5, or flags that no tag stands for.
    BadStorageMode { got: u32 },
    /// An aligned size that is no multiple of 32.
    BadAlignment { got: u32 },
    /// A property class name outside the table of value types.
    UnknownPropertyType { name: String },
    /// A 128-bit identifier that does not fit the 32 bits asked for.
    IdOverflow,
    /// No virtual file has the path.
    NotFound { path: String },
    /// The byte stream handed to the decompressor could not be read.
    Io,
}

/// The mathematical value of an [`Error`].
#[allow(inconsistent_fields)]
pub enum Fault {
    UnexpectedEof { at: int, need: int },
    BadPosition { requested: int },
    BadEncoding,
    BadMagic { got: Seq<u8>, expected: Seq<u8> },
    BadVersion { got: u32 },
    BadStorageMode { got: u32 },
    BadAlignment { got: u32 },
    UnknownPropertyType { name: Seq<char> },
    IdOverflow,
    NotFound { path: Seq<char> },
    Io,
}

impl View for Error {
    type V = Fault;

    open spec fn view(&self) -> Fault {
        match self {
            Error::UnexpectedEof { at, need } => Fault::UnexpectedEof { at: *at as int, need: *need as int },
            Error::BadPosition { requested } => Fault::BadPosition { requested: *requested as int },
            Error::BadEncoding => Fault::BadEncoding,
            Error::BadMagic { got, expected } => Fault::BadMagic { got: got@, expected: expected@ },
            Error::BadVersion { got } => Fault::BadVersion { got: *got },
            Error::BadStorageMode { got } => Fault::BadStorageMode { got: *got },
            Error::BadAlignment { got } => Fault::BadAlignment { got: *got },
            Error::UnknownPropertyType { name } => Fault::UnknownPropertyType { name: name@ },
            Error::IdOverflow => Fault::IdOverflow,
            Error::NotFound { path } => Fault::NotFound { path: path@ },
            Error::Io => Fault::Io,
        }
    }
}

} // verus!
