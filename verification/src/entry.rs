//! The values a caller hands to the encoder: file names that are safe inside
//! an HTML attribute, per-entry metadata, embedded and external entries, and
//! the errors the codec surfaces.

use vstd::prelude::*;
use vstd::string::StringSliceAdditionalSpecFns;

verus! {

/// Why a size field failed to parse.
#[derive(Clone, Copy, Debug, PartialEq, Eq, Structural)]
pub enum ParseSizeCause {
    /// The field held no digits before its terminator.
    Empty,
    /// A byte in the field is no octal digit.
    BadDigit,
    /// The digits encode a value too large for this codec.
    TooLarge,
}

/// The errors the codec surfaces across its boundary.
#[derive(Clone, Copy, Debug, PartialEq, Eq, Structural)]
pub enum TarError {
    /// File names must be ASCII.
    NameNotAscii,
    /// File names must not contain characters that would need escaping in an
    /// HTML attribute value.
    NameHasHtmlEscapes,
    /// The data does not look like the start of a tar-in-HTML document.
    NotAStart,
    /// A numeric header field could not be parsed.
    ParseSize(ParseSizeCause),
    /// The data ends before the structure does.
    NotEnoughData,
    /// An escape block ends in an unexpected way.
    NotAnExpectedEscape,
}

/// May these bytes stand inside a double-quoted HTML attribute value as they
/// are? They may when they are ASCII and hold no double quote.
pub open spec fn safe_name(s: Seq<u8>) -> bool {
    forall|i: int| 0 <= i < s.len() ==> #[trigger] s[i] < 128 && s[i] != 34
}

/// A byte string checked to be usable inside an HTML attribute value.
#[derive(Clone, Debug, PartialEq, Eq)]
pub struct HtmlAttributeSafeName(pub Vec<u8>);

impl View for HtmlAttributeSafeName {
    type V = Seq<u8>;

    open spec fn view(&self) -> Seq<u8> {
        self.0@
    }
}

impl HtmlAttributeSafeName {
    /// Does this name satisfy what the type stands for?
    pub open spec fn wf(&self) -> bool {
        safe_name(self@)
    }

    /// Validates a name: it must be ASCII and free of double quotes.
    pub fn new(name: &str) -> (r: Result<HtmlAttributeSafeName, TarError>)
        ensures
            match r {
                Ok(n) => n@ == name.spec_bytes() && n.wf(),
                Err(e) => {
                    &&& !safe_name(name.spec_bytes())
                    &&& e == TarError::NameNotAscii || e == TarError::NameHasHtmlEscapes
                    &&& (e == TarError::NameNotAscii <==> exists|i: int|
                        0 <= i < name.spec_bytes().len() && name.spec_bytes()[i] >= 128)
                },
            },
    {
        let bytes = name.as_bytes();
        let n = bytes.len();
        let mut i: usize = 0;
        while i < n
            invariant
                n == name.spec_bytes().len(),
                bytes@ == name.spec_bytes(),
                i <= n,
                forall|j: int| 0 <= j < i ==> #[trigger] bytes@[j] < 128,
            decreases n - i,
        {
            if *vstd::slice::slice_index_get(bytes, i) >= 128 {
                return Err(TarError::NameNotAscii);
            }
            i += 1;
        }
        let mut k: usize = 0;
        while k < n
            invariant
                n == name.spec_bytes().len(),
                bytes@ == name.spec_bytes(),
                k <= n,
                forall|j: int| 0 <= j < n ==> #[trigger] bytes@[j] < 128,
                forall|j: int| 0 <= j < k ==> #[trigger] bytes@[j] != 34,
            decreases n - k,
        {
            if *vstd::slice::slice_index_get(bytes, k) == 34 {
                return Err(TarError::NameHasHtmlEscapes);
            }
            k += 1;
        }
        Ok(HtmlAttributeSafeName(vstd::slice::slice_to_vec(bytes)))
    }

    /// Wraps bytes that are already known to need no validation, as when they
    /// were read back out of a header this codec wrote.
    pub fn from_bytes(bytes: Vec<u8>) -> (r: HtmlAttributeSafeName)
        ensures
            r@ == bytes@,
    {
        HtmlAttributeSafeName(bytes)
    }
}

/// The ghost value of an `EntryAttributes`: the same data with the names
/// reduced to their byte sequences.
pub struct AttrsV {
    pub mtime: Option<u64>,
    pub uname: Option<Seq<u8>>,
    pub gname: Option<Seq<u8>>,
    pub devmajor: u16,
    pub devminor: u16,
}

/// Per-entry metadata: an optional modification time in seconds since the
/// epoch, optional owner and group names, and device numbers.
#[derive(Clone, Debug)]
pub struct EntryAttributes {
    pub mtime: Option<u64>,
    pub uname: Option<HtmlAttributeSafeName>,
    pub gname: Option<HtmlAttributeSafeName>,
    pub devmajor: u16,
    pub devminor: u16,
}

impl View for EntryAttributes {
    type V = AttrsV;

    open spec fn view(&self) -> AttrsV {
        AttrsV {
            mtime: self.mtime,
            uname: match self.uname {
                Some(n) => Some(n@),
                None => None,
            },
            gname: match self.gname {
                Some(n) => Some(n@),
                None => None,
            },
            devmajor: self.devmajor,
            devminor: self.devminor,
        }
    }
}

impl Default for EntryAttributes {
    /// No times, no names, zero device numbers.
    fn default() -> (r: Self)
        ensures
            r.mtime is None,
            r.uname is None,
            r.gname is None,
            r.devmajor == 0,
            r.devminor == 0,
    {
        EntryAttributes { mtime: None, uname: None, gname: None, devmajor: 0, devminor: 0 }
    }
}

/// One file to embed: its name, its raw data, and its metadata.
pub struct Entry {
    /// An ASCII name for this file.
    pub name: HtmlAttributeSafeName,
    /// The data in its raw form; it is re-encoded to be HTML safe.
    pub data: Vec<u8>,
    /// The metadata for this file.
    pub attributes: EntryAttributes,
}

/// A file whose payload is not embedded but named by reference.
pub struct External {
    /// An ASCII name for this file.
    pub name: HtmlAttributeSafeName,
    /// The real byte length of the referenced data.
    pub realsize: u64,
    /// Where the data actually lives.
    pub reference: HtmlAttributeSafeName,
    /// The metadata for this file.
    pub attributes: EntryAttributes,
}

} // verus!
