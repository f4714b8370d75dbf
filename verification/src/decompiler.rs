//! The decoder over a byte stream written by the engine: it advances
//! 512-aligned, classifies each double header as an entry, the end of a run
//! of escapes, or the end of the archive, and yields the byte ranges of
//! payloads.

use vstd::prelude::*;

use crate::b64::{base64_decode, base64_decode_of, base64_of};
use crate::entry::TarError;
use crate::escape::{eof_terminator, spec_eof_terminator};
use crate::header::{spec_empty_header, spec_parse_size, TarHeader};

verus! {

/// `n` rounded up to the next multiple of 512.
pub open spec fn align512(n: nat) -> nat {
    if n % 512 == 0 {
        n
    } else {
        (n + (512 - n % 512)) as nat
    }
}

/// What one double header classifies as: an entry with its file header
/// bytes and payload range, the end of a run of escapes with the range of
/// raw document text that follows, or the archive end.
pub enum EscapeClass {
    Entry { file: Seq<u8>, start: nat, end: nat },
    EndOfEscapes { start: nat, end: nat },
    Eof { end: nat },
}

/// The exact classification of the bytes at the aligned cursor, together
/// with where the cursor stands afterwards. The cursor knows no way back:
/// it advances even on the errors found after both headers were read.
pub open spec fn spec_next_double_header(data: Seq<u8>, len0: nat) -> (Result<
    EscapeClass,
    TarError,
>, nat) {
    let base = align512(len0);
    if base + 512 > data.len() {
        (Err(TarError::NotEnoughData), base)
    } else {
        let ext = data.subrange(base as int, base as int + 512);
        if ext.subrange(489, 500) == spec_eof_terminator() {
            match spec_parse_size(ext) {
                Ok(size) => if base + 512 + (size as nat) <= usize::MAX {
                    (
                        Ok(
                            EscapeClass::EndOfEscapes {
                                start: base + 512,
                                end: base + 512 + (size as nat),
                            },
                        ),
                        base + 512 + (size as nat),
                    )
                } else {
                    (Err(TarError::NotEnoughData), base + 512 + (size as nat))
                },
                Err(e) => (Err(e), base),
            }
        } else if base + 1024 > data.len() {
            (Err(TarError::NotEnoughData), base)
        } else {
            let file = data.subrange(base as int + 512, base as int + 1024);
            match spec_parse_size(file) {
                Err(e) => (Err(e), base),
                Ok(size) => if ext == spec_empty_header() && file == spec_empty_header() {
                    (Ok(EscapeClass::Eof { end: base + 1024 }), base + 1024)
                } else if ext[156] != 120u8 {
                    (Err(TarError::NotAnExpectedEscape), base + 1024 + (size as nat))
                } else {
                    match spec_parse_size(ext) {
                        Err(e) => (Err(e), base + 1024 + (size as nat)),
                        Ok(es) => if es != 0 {
                            (Err(TarError::NotAnExpectedEscape), base + 1024 + (size as nat))
                        } else if base + 1024 + (size as nat) <= usize::MAX {
                            (
                                Ok(
                                    EscapeClass::Entry {
                                        file,
                                        start: base + 1024,
                                        end: base + 1024 + (size as nat),
                                    },
                                ),
                                base + 1024 + (size as nat),
                            )
                        } else {
                            (Err(TarError::NotEnoughData), base + 1024 + (size as nat))
                        },
                    }
                },
            }
        }
    }
}

/// The classification `continue_escape` yields: on the archive end it also
/// demands and skips the literal element closer that follows the zero
/// records.
pub open spec fn spec_continue_escape(data: Seq<u8>, len0: nat) -> (Result<
    EscapeClass,
    TarError,
>, nat) {
    let (r, cur) = spec_next_double_header(data, len0);
    match r {
        Ok(EscapeClass::Eof { end }) => if end + 11 <= data.len() && data.subrange(
            end as int,
            end as int + 11,
        ) == spec_eof_terminator() {
            (Ok(EscapeClass::Eof { end: end + 11 }), cur)
        } else {
            (Err(TarError::NotAnExpectedEscape), cur)
        },
        _ => (r, cur),
    }
}

/// The ranges `start_of_file` yields: where the original document head
/// lies within the first record, and where the head text copied as the
/// record's payload continues.
pub enum InitialClass {
    Ranges { head_start: nat, head_end: nat, cont_start: nat, cont_end: nat },
    Refused { error: TarError },
}

/// The exact reading of the artifact's first record, and the cursor after
/// it: the header is consumed together with its announced payload.
pub open spec fn spec_initial(data: Seq<u8>, len0: nat) -> (InitialClass, nat) {
    let h = data.subrange(0, 512);
    match spec_parse_size(h) {
        Err(e) => (InitialClass::Refused { error: e }, len0),
        Ok(size) => {
            let cur = len0 + 512 + (size as nat);
            let namefield = h.subrange(1, 100);
            match crate::bytes::spec_find_nul(namefield) {
                None => (InitialClass::Refused { error: TarError::NotAStart }, cur),
                Some(nul) => if nul <= 8 {
                    (InitialClass::Refused { error: TarError::NotAStart }, cur)
                } else {
                    match first_gt(data, 512) {
                        None => (InitialClass::Refused { error: TarError::NotAStart }, cur),
                        Some(gt) => if cur <= usize::MAX {
                            (
                                InitialClass::Ranges {
                                    head_start: 1,
                                    head_end: (nul - 8) as nat,
                                    cont_start: gt as nat,
                                    cont_end: cur,
                                },
                                cur,
                            )
                        } else {
                            (InitialClass::Refused { error: TarError::NotEnoughData }, cur)
                        },
                    }
                },
            }
        },
    }
}

/// The position of the first `>` at or after `from`, if any.
pub open spec fn first_gt(data: Seq<u8>, from: int) -> Option<int> {
    if exists|i: int| from <= i < data.len() && data[i] == 62u8 {
        Some(
            choose|i: int|
                from <= i < data.len() && data[i] == 62u8 && forall|j: int|
                    from <= j < i ==> data[j] != 62u8,
        )
    } else {
        None
    }
}

/// Byte ranges of the artifact's first record: where the original document
/// head lies, and where its copied continuation runs.
pub struct ParsedInitial {
    pub header: core::ops::Range<usize>,
    pub continues: core::ops::Range<usize>,
}

/// One classified double header.
pub enum ParsedEscape {
    /// A file entry: its header and the byte range of its payload.
    Entry(TarHeader, core::ops::Range<usize>),
    /// The end of a run of escapes; raw document text follows.
    EndOfEscapes { html_data: core::ops::Range<usize> },
    /// The end of the archive.
    Eof { end: usize },
}

/// The payload of one entry, decoded.
pub enum ParsedFileData {
    Data(Vec<u8>),
    Nothing,
}

/// Engine for taking a tar archive written by this codec back apart.
pub struct TarDecompiler {
    len: u64,
}

impl TarDecompiler {
    /// The cursor: how far into the data the decoder has read.
    pub closed spec fn cursor(&self) -> u64 {
        self.len
    }

    /// A fresh decoder at the start of the data.
    pub fn new() -> (r: TarDecompiler)
        ensures
            r.cursor() == 0,
    {
        TarDecompiler { len: 0 }
    }

    /// Aligns the cursor up to the next multiple of 512.
    fn pad_to_fit(&mut self)
        requires
            old(self).cursor() <= 0x1000_0000_0000_0000u64,
        ensures
            final(self).cursor() == align512(old(self).cursor() as nat),
            final(self).cursor() % 512 == 0,
            old(self).cursor() <= final(self).cursor() < old(self).cursor() + 512,
    {
        let rem: u64 = self.len % 512;
        let pad: u64 = if rem == 0 {
            0
        } else {
            512 - rem
        };
        proof {
            let l = self.len as int;
            let q = l / 512;
            vstd::arithmetic::div_mod::lemma_fundamental_div_mod(l, 512);
            if rem == 0 {
                assert(l + pad == q * 512);
                vstd::arithmetic::div_mod::lemma_mod_multiples_basic(q, 512);
            } else {
                assert(l + pad == (q + 1) * 512) by {
                    assert((q + 1) * 512 == q * 512 + 512) by (nonlinear_arith);
                }
                vstd::arithmetic::div_mod::lemma_mod_multiples_basic(q + 1, 512);
            }
        }
        self.len = self.len + pad;
    }

    /// Reads the artifact's first record and locates the document head in
    /// it. The record must be present and carry the extension typeflag.
    pub fn start_of_file(&mut self, data: &[u8]) -> (r: Result<ParsedInitial, TarError>)
        requires
            data@.len() >= 512,
            data@.len() < 0x1000_0000_0000_0000,
            data@[156] == 120u8,
            old(self).cursor() < 0x1000_0000_0000_0000u64,
        ensures
            final(self).cursor() == spec_initial(data@, old(self).cursor() as nat).1,
            match r {
                Ok(ranges) => spec_initial(data@, old(self).cursor() as nat).0
                    == (InitialClass::Ranges {
                    head_start: ranges.header.start as nat,
                    head_end: ranges.header.end as nat,
                    cont_start: ranges.continues.start as nat,
                    cont_end: ranges.continues.end as nat,
                }),
                Err(e) => spec_initial(data@, old(self).cursor() as nat).0
                    == (InitialClass::Refused { error: e }),
            },
    {
        let block = crate::bytes::copy_range_slice(data, 0, 512);
        let mut this = TarHeader::empty();
        this.assign_from_bytes(block.as_slice());
        proof {
            assert(this@ == data@.subrange(0, 512));
        }

        let size = match this.parse_size() {
            Ok(s) => s,
            Err(e) => {
                return Err(e);
            },
        };
        self.len = self.len + 512 + size;

        let namefield = this.bytes_range(1, 100);
        let nul = match crate::bytes::find_nul(&namefield) {
            Some(i) => i,
            None => {
                return Err(TarError::NotAStart);
            },
        };
        if nul <= 8 {
            return Err(TarError::NotAStart);
        }
        let gt = match find_byte_from(data, 512, 62u8) {
            Some(i) => i,
            None => {
                return Err(TarError::NotAStart);
            },
        };
        if self.len > usize::MAX as u64 {
            return Err(TarError::NotEnoughData);
        }
        let end = self.len as usize;
        Ok(
            ParsedInitial {
                header: 1usize..(nul - 8),
                continues: gt..end,
            },
        )
    }

    /// Classifies the next double header.
    pub fn next_escape(&mut self, data: &[u8]) -> (r: Result<ParsedEscape, TarError>)
        requires
            old(self).cursor() < 0x1000_0000_0000_0000u64,
            data@.len() < 0x1000_0000_0000_0000,
        ensures
            final(self).cursor() == spec_next_double_header(data@, old(self).cursor() as nat).1,
            parsed_matches(r, spec_next_double_header(data@, old(self).cursor() as nat).0),
    {
        self.next_double_header(data)
    }

    /// Classifies the next double header while inside a run of escapes; at
    /// the archive end it also consumes the literal element closer.
    pub fn continue_escape(&mut self, data: &[u8]) -> (r: Result<ParsedEscape, TarError>)
        requires
            old(self).cursor() < 0x1000_0000_0000_0000u64,
            data@.len() < 0x1000_0000_0000_0000,
        ensures
            final(self).cursor() == spec_continue_escape(data@, old(self).cursor() as nat).1,
            parsed_matches(r, spec_continue_escape(data@, old(self).cursor() as nat).0),
    {
        let esc = self.next_double_header(data)?;
        match esc {
            ParsedEscape::Eof { end } => {
                if data.len() < 11 || end > data.len() - 11 {
                    return Err(TarError::NotAnExpectedEscape);
                }
                let terminator = eof_terminator();
                let there = crate::bytes::copy_range_slice(data, end, end + 11);
                if !vec_equal(&there, &terminator) {
                    return Err(TarError::NotAnExpectedEscape);
                }
                Ok(ParsedEscape::Eof { end: end + 11 })
            },
            other => Ok(other),
        }
    }

    fn next_double_header(&mut self, data: &[u8]) -> (r: Result<ParsedEscape, TarError>)
        requires
            old(self).cursor() < 0x1000_0000_0000_0000u64,
            data@.len() < 0x1000_0000_0000_0000,
        ensures
            final(self).cursor() == spec_next_double_header(data@, old(self).cursor() as nat).1,
            parsed_matches(r, spec_next_double_header(data@, old(self).cursor() as nat).0),
    {
        self.pad_to_fit();
        let n = data.len();
        if self.len + 512 > n as u64 {
            return Err(TarError::NotEnoughData);
        }
        let base = self.len as usize;

        let ext_bytes = crate::bytes::copy_range_slice(data, base, base + 512);
        let mut extension = TarHeader::empty();
        extension.assign_from_bytes(ext_bytes.as_slice());

        let terminator = eof_terminator();
        if extension.prefix_ends_with(&terminator) {
            let size = match extension.parse_size() {
                Ok(s) => s,
                Err(e) => {
                    return Err(e);
                },
            };
            self.len = self.len + 512;
            if self.len + size > usize::MAX as u64 {
                self.len = self.len + size;
                return Err(TarError::NotEnoughData);
            }
            let start_of_data = self.len as usize;
            self.len = self.len + size;
            let end_of_data = self.len as usize;
            return Ok(ParsedEscape::EndOfEscapes { html_data: start_of_data..end_of_data });
        }

        if self.len + 1024 > n as u64 {
            return Err(TarError::NotEnoughData);
        }
        let file_bytes = crate::bytes::copy_range_slice(data, base + 512, base + 1024);
        let mut file = TarHeader::empty();
        file.assign_from_bytes(file_bytes.as_slice());
        let size = match file.parse_size() {
            Ok(s) => s,
            Err(e) => {
                return Err(e);
            },
        };

        if extension.is_zero() && file.is_zero() {
            self.len = self.len + 1024;
            return Ok(ParsedEscape::Eof { end: (base + 1024) as usize });
        }

        self.len = self.len + 1024;
        let in_reach = self.len + size <= usize::MAX as u64;
        let file_start = if in_reach {
            self.len as usize
        } else {
            0
        };
        self.len = self.len + size;

        if extension.typeflag() != 120u8 {
            return Err(TarError::NotAnExpectedEscape);
        }
        match extension.parse_size() {
            Err(e) => {
                return Err(e);
            },
            Ok(es) => {
                if es != 0 {
                    return Err(TarError::NotAnExpectedEscape);
                }
            },
        }
        if !in_reach {
            return Err(TarError::NotEnoughData);
        }
        let file_end = self.len as usize;
        Ok(ParsedEscape::Entry(file, file_start..file_end))
    }
}

impl TarDecompiler {
    /// What an entry's payload holds: the base64-decoded bytes for a plain
    /// file, nothing for extension and sparse records. A plain file's
    /// payload must be a valid encoding; `try_file_data` checks that first.
    pub fn file_data(header: &TarHeader, data: &[u8]) -> (r: ParsedFileData)
        requires
            header.wf(),
            header@[156] != 120u8 && header@[156] != 83u8 ==> base64_decode_of(data@) is Some,
        ensures
            match r {
                ParsedFileData::Data(v) => header@[156] != 120u8 && header@[156] != 83u8
                    && base64_decode_of(data@) == Some(v@),
                ParsedFileData::Nothing => header@[156] == 120u8 || header@[156] == 83u8,
            },
    {
        let flag = header.typeflag();
        if flag == 120u8 {
            return ParsedFileData::Nothing;
        }
        if flag == 83u8 {
            return ParsedFileData::Nothing;
        }
        let text = vstd::slice::slice_to_vec(data);
        match base64_decode(&text) {
            Some(v) => ParsedFileData::Data(v),
            None => {
                proof {
                    assert(false);
                }
                ParsedFileData::Nothing
            },
        }
    }

    /// Like `file_data`, but checks the payload first: `None` when a plain
    /// file's payload is no valid encoding.
    pub fn try_file_data(header: &TarHeader, data: &[u8]) -> (r: Option<ParsedFileData>)
        requires
            header.wf(),
        ensures
            match r {
                Some(f) => match f {
                    ParsedFileData::Data(v) => header@[156] != 120u8 && header@[156] != 83u8
                        && base64_decode_of(data@) == Some(v@),
                    ParsedFileData::Nothing => header@[156] == 120u8 || header@[156] == 83u8,
                },
                None => header@[156] != 120u8 && header@[156] != 83u8 && base64_decode_of(data@)
                    is None,
            },
    {
        let flag = header.typeflag();
        if flag == 120u8 || flag == 83u8 {
            return Some(ParsedFileData::Nothing);
        }
        let text = vstd::slice::slice_to_vec(data);
        match base64_decode(&text) {
            Some(_) => Some(TarDecompiler::file_data(header, data)),
            None => None,
        }
    }

    /// Decodes the payload of a classified escape: the entry's bytes for an
    /// entry, nothing otherwise, and `NotEnoughData` when the payload range
    /// runs past the data.
    pub fn escaped_data(&self, data: &[u8], escape: &ParsedEscape) -> (r: Result<
        ParsedFileData,
        TarError,
    >)
        requires
            match escape {
                ParsedEscape::Entry(h, rng) => h.wf() && ((rng.start <= rng.end
                    && rng.end <= data@.len() && h@[156] != 120u8 && h@[156] != 83u8)
                    ==> base64_decode_of(data@.subrange(rng.start as int, rng.end as int))
                    is Some),
                _ => true,
            },
        ensures
            match escape {
                ParsedEscape::Entry(h, rng) => {
                    if rng.start > rng.end || rng.end > data@.len() {
                        r == Err::<ParsedFileData, TarError>(TarError::NotEnoughData)
                    } else {
                        match r {
                            Ok(ParsedFileData::Data(v)) => h@[156] != 120u8 && h@[156] != 83u8
                                && base64_decode_of(
                                data@.subrange(rng.start as int, rng.end as int),
                            ) == Some(v@),
                            Ok(ParsedFileData::Nothing) => h@[156] == 120u8 || h@[156] == 83u8,
                            Err(_) => false,
                        }
                    }
                },
                _ => r matches Ok(f) && f is Nothing,
            },
    {
        match escape {
            ParsedEscape::Entry(header, range) => {
                if range.start > range.end || range.end > data.len() {
                    return Err(TarError::NotEnoughData);
                }
                let payload = vstd::slice::slice_subrange(data, range.start, range.end);
                Ok(TarDecompiler::file_data(header, payload))
            },
            _ => Ok(ParsedFileData::Nothing),
        }
    }

    /// Like `escaped_data`, but checks an entry's payload first: `None`
    /// when it is no valid encoding.
    pub fn try_escaped_data(&self, data: &[u8], escape: &ParsedEscape) -> (r: Option<
        Result<ParsedFileData, TarError>,
    >)
        requires
            match escape {
                ParsedEscape::Entry(h, rng) => h.wf(),
                _ => true,
            },
        ensures
            match escape {
                ParsedEscape::Entry(h, rng) => {
                    if rng.start > rng.end || rng.end > data@.len() {
                        r == Some(Err::<ParsedFileData, TarError>(TarError::NotEnoughData))
                    } else if h@[156] == 120u8 || h@[156] == 83u8 {
                        r matches Some(res) && res matches Ok(f) && f is Nothing
                    } else {
                        match base64_decode_of(data@.subrange(rng.start as int, rng.end as int)) {
                            Some(v) => r matches Some(res) && res matches Ok(f) && f matches
                                ParsedFileData::Data(d) && d@ == v,
                            None => r is None,
                        }
                    }
                },
                _ => r matches Some(res) && res matches Ok(f) && f is Nothing,
            },
    {
        match escape {
            ParsedEscape::Entry(header, range) => {
                if range.start > range.end || range.end > data.len() {
                    return Some(Err(TarError::NotEnoughData));
                }
                let flag = header.typeflag();
                if flag == 120u8 || flag == 83u8 {
                    return Some(self.escaped_data(data, escape));
                }
                let payload = vstd::slice::slice_subrange(data, range.start, range.end);
                let text = vstd::slice::slice_to_vec(payload);
                match base64_decode(&text) {
                    Some(_) => Some(self.escaped_data(data, escape)),
                    None => None,
                }
            },
            _ => Some(self.escaped_data(data, escape)),
        }
    }
}

impl Default for TarDecompiler {
    /// The same fresh decoder `new` yields.
    fn default() -> (r: Self)
        ensures
            r.cursor() == 0,
    {
        TarDecompiler::new()
    }
}

/// Does the exec classification say exactly what the spec one does?
pub open spec fn parsed_matches(
    r: Result<ParsedEscape, TarError>,
    s: Result<EscapeClass, TarError>,
) -> bool {
    match (r, s) {
        (Ok(ParsedEscape::Entry(h, range)), Ok(EscapeClass::Entry { file, start, end })) => h@
            == file && range.start as nat == start && range.end as nat == end && h.wf(),
        (
            Ok(ParsedEscape::EndOfEscapes { html_data }),
            Ok(EscapeClass::EndOfEscapes { start, end }),
        ) => html_data.start as nat == start && html_data.end as nat == end,
        (Ok(ParsedEscape::Eof { end: e1 }), Ok(EscapeClass::Eof { end: e2 })) => e1 as nat == e2,
        (Err(e1), Err(e2)) => e1 == e2,
        _ => false,
    }
}

/// The first position of `b` in `data` at or after `from`, matching
/// `first_gt` for `>`.
fn find_byte_from(data: &[u8], from: usize, b: u8) -> (r: Option<usize>)
    requires
        from <= data@.len(),
        b == 62u8,
    ensures
        match r {
            Some(i) => first_gt(data@, from as int) == Some(i as int),
            None => first_gt(data@, from as int) is None,
        },
{
    let n = data.len();
    let mut i: usize = from;
    while i < n
        invariant
            from <= i <= n,
            n == data@.len(),
            b == 62u8,
            forall|j: int| from <= j < i ==> data@[j] != 62u8,
        decreases n - i,
    {
        if *vstd::slice::slice_index_get(data, i) == b {
            proof {
                lemma_first_gt_at(data@, from as int, i as int);
            }
            return Some(i);
        }
        i += 1;
    }
    None
}

/// The first `>` at or after `from` is exactly at `i` when `data[i]` is one
/// and no earlier position from `from` on holds one.
pub proof fn lemma_first_gt_at(data: Seq<u8>, from: int, i: int)
    requires
        from <= i < data.len(),
        data[i] == 62u8,
        forall|j: int| from <= j < i ==> data[j] != 62u8,
    ensures
        first_gt(data, from) == Some(i),
{
    assert(from <= i < data.len() && data[i] == 62u8 && forall|j: int|
        from <= j < i ==> data[j] != 62u8);
    let c = choose|k: int|
        from <= k < data.len() && data[k] == 62u8 && forall|j: int|
            from <= j < k ==> data[j] != 62u8;
    if c < i {
        assert(data[c] != 62u8);
    }
    if c > i {
        assert(data[i] != 62u8);
    }
}

/// Are two byte vectors equal?
pub fn vec_equal(a: &Vec<u8>, b: &Vec<u8>) -> (r: bool)
    ensures
        r <==> a@ == b@,
{
    if a.len() != b.len() {
        proof {
            assert(a@ != b@);
        }
        return false;
    }
    let n = a.len();
    let mut i: usize = 0;
    while i < n
        invariant
            n == a@.len() == b@.len(),
            i <= n,
            forall|j: int| 0 <= j < i ==> a@[j] == b@[j],
        decreases n - i,
    {
        if a[i] != b[i] {
            proof {
                assert(a@[i as int] != b@[i as int]);
            }
            return false;
        }
        i += 1;
    }
    proof {
        assert(a@ =~= b@);
    }
    true
}

} // verus!
