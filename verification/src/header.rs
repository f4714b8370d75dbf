//! The 512-byte ustar header record: field layout by absolute byte offsets,
//! field assignment, checksum computation, size parsing, and the round trip
//! between a header and the per-entry metadata written into it.

use vstd::prelude::*;

use crate::bytes::{copy_range, cstr_prefix, find_nul, splice, spec_find_nul, write_bytes, zero_vec,
    zeroes};
use crate::entry::{AttrsV, EntryAttributes, HtmlAttributeSafeName, ParseSizeCause, TarError};
use crate::escape::{magic_field, mode_field, mtime_field, nobody_field, owner_id_field,
    spec_magic_field, spec_mode_field, spec_mtime_field, spec_nobody_field, spec_owner_id_field,
    spec_version_field, version_field};
use crate::octal::{all_digits_of, format_radix, lemma_pow_increases, lemma_radix_rep_digits,
    lemma_radix_rep_len, lemma_radix_round_trip_exact, parse_limit, parse_radix, pow_of, radix_rep,
    radix_val};

verus! {

/// Total size of a header record.
pub const HEADER_LEN: usize = 512;

pub const OFF_NAME: usize = 0;

pub const LEN_NAME: usize = 100;

pub const OFF_MODE: usize = 100;

pub const OFF_UID: usize = 108;

pub const OFF_GID: usize = 116;

pub const OFF_SIZE: usize = 124;

pub const LEN_SIZE: usize = 12;

pub const OFF_MTIME: usize = 136;

pub const LEN_MTIME: usize = 12;

pub const OFF_CHKSUM: usize = 148;

pub const LEN_CHKSUM: usize = 8;

pub const OFF_TYPEFLAG: usize = 156;

pub const OFF_LINKNAME: usize = 157;

pub const LEN_LINKNAME: usize = 100;

pub const OFF_MAGIC: usize = 257;

pub const OFF_VERSION: usize = 263;

pub const OFF_UNAME: usize = 265;

pub const LEN_UNAME: usize = 32;

pub const OFF_GNAME: usize = 297;

pub const LEN_GNAME: usize = 32;

pub const OFF_DEVMAJOR: usize = 329;

pub const OFF_DEVMINOR: usize = 337;

pub const LEN_DEV: usize = 8;

pub const OFF_PREFIX: usize = 345;

pub const LEN_PREFIX: usize = 155;

/// The bytes of the field of width `len` at offset `off`.
pub open spec fn field(h: Seq<u8>, off: int, len: int) -> Seq<u8> {
    h.subrange(off, off + len)
}

/// The all-zero header every record starts from.
pub open spec fn spec_empty_header() -> Seq<u8> {
    zeroes(512)
}

/// An octal numeral of `width` digits followed by a NUL terminator, as every
/// numeric header field is written.
pub open spec fn octal_field(n: nat, width: nat) -> Seq<u8> {
    radix_rep(n, width, 8).push(0u8)
}

/// The fixed field values stamped on every emitted header: permissions,
/// owner ids, a constant mtime, the ustar magic and version, and the nobody
/// owner names. They make the output deterministic across runs.
pub open spec fn spec_with_meta(h: Seq<u8>) -> Seq<u8> {
    let h1 = splice(h, OFF_MODE as int, spec_mode_field());
    let h2 = splice(h1, OFF_UID as int, spec_owner_id_field());
    let h3 = splice(h2, OFF_GID as int, spec_owner_id_field());
    let h4 = splice(h3, OFF_MTIME as int, spec_mtime_field());
    let h5 = splice(h4, OFF_MAGIC as int, spec_magic_field());
    let h6 = splice(h5, OFF_VERSION as int, spec_version_field());
    let h7 = splice(h6, OFF_UNAME as int, spec_nobody_field());
    splice(h7, OFF_GNAME as int, spec_nobody_field())
}

/// The header with its size field set to `n`, eleven octal digits and a NUL.
pub open spec fn spec_with_size(h: Seq<u8>, n: nat) -> Seq<u8> {
    splice(h, OFF_SIZE as int, octal_field(n, 11))
}

/// The sum of all 512 bytes with the checksum field read as ASCII spaces.
pub open spec fn checksum_of(h: Seq<u8>) -> int {
    byte_sum(splice(h, OFF_CHKSUM as int, Seq::new(8, |i: int| 32u8)))
}

/// The header with its checksum field filled in: six octal digits, a NUL and
/// a space.
pub open spec fn spec_with_checksum(h: Seq<u8>) -> Seq<u8> {
    splice(
        h,
        OFF_CHKSUM as int,
        radix_rep(checksum_of(h) as nat, 6, 8) + seq![0u8, 32u8],
    )
}

/// What parsing the size field of `h` yields.
pub open spec fn spec_parse_size(h: Seq<u8>) -> Result<u64, TarError> {
    let f = field(h, OFF_SIZE as int, LEN_SIZE as int);
    if f[0] == 0u8 {
        Ok(0u64)
    } else {
        let p = cstr_prefix(f);
        if p.len() == 0 {
            Err(TarError::ParseSize(ParseSizeCause::Empty))
        } else if !all_digits_of(p, 8) {
            Err(TarError::ParseSize(ParseSizeCause::BadDigit))
        } else if radix_val(p, 8) >= parse_limit() {
            Err(TarError::ParseSize(ParseSizeCause::TooLarge))
        } else {
            Ok(radix_val(p, 8) as u64)
        }
    }
}

/// What an octal field with a NUL terminator holds, when it parses.
pub open spec fn spec_parse_octal_field(f: Seq<u8>) -> Option<nat> {
    let p = cstr_prefix(f);
    if p.len() > 0 && all_digits_of(p, 8) && radix_val(p, 8) < parse_limit() {
        Some(radix_val(p, 8))
    } else {
        None
    }
}

/// The bytes before the first NUL of a field, when the field has a NUL.
pub open spec fn spec_field_until_nul(f: Seq<u8>) -> Option<Seq<u8>> {
    match spec_find_nul(f) {
        Some(i) => Some(f.take(i)),
        None => None,
    }
}

/// The metadata read back out of a header, parse failures turning into
/// `None` or zero.
pub open spec fn spec_attrs_of(h: Seq<u8>) -> AttrsV {
    AttrsV {
        mtime: match spec_parse_octal_field(field(h, OFF_MTIME as int, LEN_MTIME as int)) {
            Some(v) => Some(v as u64),
            None => None,
        },
        uname: spec_field_until_nul(field(h, OFF_UNAME as int, LEN_UNAME as int)),
        gname: spec_field_until_nul(field(h, OFF_GNAME as int, LEN_GNAME as int)),
        devmajor: match spec_parse_octal_field(field(h, OFF_DEVMAJOR as int, LEN_DEV as int)) {
            Some(v) => if v <= 65535 {
                v as u16
            } else {
                0u16
            },
            None => 0u16,
        },
        devminor: match spec_parse_octal_field(field(h, OFF_DEVMINOR as int, LEN_DEV as int)) {
            Some(v) => if v <= 65535 {
                v as u16
            } else {
                0u16
            },
            None => 0u16,
        },
    }
}

/// The header with the given metadata written into its fields: mtime as
/// eleven octal digits, names NUL-terminated, device numbers as unpadded
/// octal numerals.
pub open spec fn spec_assign_attributes(h: Seq<u8>, a: AttrsV) -> Seq<u8> {
    let h1 = match a.mtime {
        Some(m) => splice(h, OFF_MTIME as int, octal_field(m as nat, 11)),
        None => h,
    };
    let h2 = match a.uname {
        Some(u) => splice(h1, OFF_UNAME as int, u.push(0u8)),
        None => h1,
    };
    let h3 = match a.gname {
        Some(g) => splice(h2, OFF_GNAME as int, g.push(0u8)),
        None => h2,
    };
    let h4 = splice(h3, OFF_DEVMAJOR as int, min_octal(a.devmajor as nat).push(0u8));
    splice(h4, OFF_DEVMINOR as int, min_octal(a.devminor as nat).push(0u8))
}

/// How many octal digits `n` takes without padding; one for zero.
pub open spec fn octal_width(n: nat) -> nat
    decreases n,
{
    if n < 8 {
        1
    } else {
        1 + octal_width(n / 8)
    }
}

/// `n` as an unpadded octal numeral.
pub open spec fn min_octal(n: nat) -> Seq<u8> {
    radix_rep(n, octal_width(n), 8)
}

/// The sum of a byte sequence as an unbounded integer.
pub open spec fn byte_sum(s: Seq<u8>) -> int
    decreases s.len(),
{
    if s.len() == 0 {
        0
    } else {
        byte_sum(s.drop_last()) + s.last()
    }
}

pub proof fn lemma_byte_sum_bound(s: Seq<u8>)
    ensures
        0 <= byte_sum(s) <= 255 * s.len(),
    decreases s.len(),
{
    if s.len() > 0 {
        lemma_byte_sum_bound(s.drop_last());
    }
}

/// The value of each power of eight the codec relies on.
pub proof fn lemma_pow8_values()
    ensures
        pow_of(8, 6) == 262144,
        pow_of(8, 11) == 0x2_0000_0000,
        pow_of(10, 10) == 10_000_000_000,
{
    assert(pow_of(8, 0) == 1);
    assert(pow_of(8, 1) == 8);
    assert(pow_of(8, 2) == 64);
    assert(pow_of(8, 3) == 512);
    assert(pow_of(8, 4) == 4096);
    assert(pow_of(8, 5) == 32768);
    assert(pow_of(8, 6) == 262144);
    assert(pow_of(8, 7) == 2097152);
    assert(pow_of(8, 8) == 16777216);
    assert(pow_of(8, 9) == 134217728);
    assert(pow_of(8, 10) == 1073741824);
    assert(pow_of(8, 11) == 8589934592);
    assert(pow_of(10, 0) == 1);
    assert(pow_of(10, 1) == 10);
    assert(pow_of(10, 2) == 100);
    assert(pow_of(10, 3) == 1000);
    assert(pow_of(10, 4) == 10000);
    assert(pow_of(10, 5) == 100000);
    assert(pow_of(10, 6) == 1000000);
    assert(pow_of(10, 7) == 10000000);
    assert(pow_of(10, 8) == 100000000);
    assert(pow_of(10, 9) == 1000000000);
    assert(pow_of(10, 10) == 10000000000);
}

/// A fixed-layout 512-byte tar header record.
pub struct TarHeader {
    bytes: Vec<u8>,
}

impl View for TarHeader {
    type V = Seq<u8>;

    closed spec fn view(&self) -> Seq<u8> {
        self.bytes@
    }
}

impl TarHeader {
    /// A header is a record of exactly 512 bytes.
    pub open spec fn wf(&self) -> bool {
        self@.len() == 512
    }

    /// The all-zero header; callers start from it and overwrite fields.
    pub fn empty() -> (r: TarHeader)
        ensures
            r.wf(),
            r@ == spec_empty_header(),
    {
        TarHeader { bytes: zero_vec(512) }
    }

    /// The raw 512 bytes of the record.
    pub fn as_bytes(&self) -> (r: &[u8])
        ensures
            r@ == self@,
    {
        self.bytes.as_slice()
    }

    /// Overwrites the whole record with the given 512 bytes.
    pub fn assign_from_bytes(&mut self, data: &[u8])
        requires
            old(self).wf(),
            data@.len() == 512,
        ensures
            final(self).wf(),
            final(self)@ == data@,
    {
        self.bytes = vstd::slice::slice_to_vec(data);
    }

    /// Writes `src` over the record bytes starting at `off`.
    fn put(&mut self, off: usize, src: &Vec<u8>)
        requires
            old(self).wf(),
            off + src@.len() <= 512,
        ensures
            final(self).wf(),
            final(self)@ == splice(old(self)@, off as int, src@),
    {
        write_bytes(&mut self.bytes, off, src);
    }

    /// The byte at offset `i`.
    pub fn byte_at(&self, i: usize) -> (r: u8)
        requires
            self.wf(),
            i < 512,
        ensures
            r == self@[i as int],
    {
        self.bytes[i]
    }

    /// The record's typeflag byte.
    pub fn typeflag(&self) -> (r: u8)
        requires
            self.wf(),
        ensures
            r == self@[OFF_TYPEFLAG as int],
    {
        self.bytes[OFF_TYPEFLAG]
    }

    /// Sets the record's typeflag byte.
    pub fn set_typeflag(&mut self, flag: u8)
        requires
            old(self).wf(),
        ensures
            final(self).wf(),
            final(self)@ == old(self)@.update(OFF_TYPEFLAG as int, flag),
    {
        self.bytes[OFF_TYPEFLAG] = flag;
    }

    /// A copy of the byte range `start .. end` of the record.
    pub fn bytes_range(&self, start: usize, end: usize) -> (r: Vec<u8>)
        requires
            self.wf(),
            start <= end <= 512,
        ensures
            r@ == self@.subrange(start as int, end as int),
    {
        copy_range(&self.bytes, start, end)
    }

    /// Writes `src` at offset `off`; public face of the range write for the
    /// encoder and decoder modules.
    pub fn write_at(&mut self, off: usize, src: &Vec<u8>)
        requires
            old(self).wf(),
            off + src@.len() <= 512,
        ensures
            final(self).wf(),
            final(self)@ == splice(old(self)@, off as int, src@),
    {
        self.put(off, src);
    }

    /// Is the whole record zero, as in the tar end-of-file sentinel?
    pub fn is_zero(&self) -> (r: bool)
        requires
            self.wf(),
        ensures
            r <==> self@ == spec_empty_header(),
    {
        let mut i: usize = 0;
        while i < 512
            invariant
                self.wf(),
                i <= 512,
                forall|j: int| 0 <= j < i ==> self@[j] == 0u8,
            decreases 512 - i,
        {
            if self.bytes[i] != 0u8 {
                proof {
                    assert(self@[i as int] != spec_empty_header()[i as int]);
                }
                return false;
            }
            i += 1;
        }
        proof {
            assert(self@ =~= spec_empty_header());
        }
        true
    }

    /// Do the last bytes of the prefix field equal `pat`?
    pub fn prefix_ends_with(&self, pat: &Vec<u8>) -> (r: bool)
        requires
            self.wf(),
            pat@.len() <= 155,
        ensures
            r <==> self@.subrange(500 - pat@.len(), 500) == pat@,
    {
        let n = pat.len();
        let start = 500 - n;
        let mut i: usize = 0;
        while i < n
            invariant
                self.wf(),
                n == pat@.len(),
                n <= 155,
                start == 500 - n,
                i <= n,
                forall|j: int| 0 <= j < i ==> self@[start + j] == pat@[j],
            decreases n - i,
        {
            if self.bytes[start + i] != pat[i] {
                proof {
                    assert(self@.subrange(500 - pat@.len(), 500)[i as int] != pat@[i as int]);
                }
                return false;
            }
            i += 1;
        }
        proof {
            assert(self@.subrange(500 - pat@.len(), 500) =~= pat@);
        }
        true
    }

    /// Stamps the fixed permission, owner, time and magic fields.
    pub fn assign_permission_encoding_meta(&mut self)
        requires
            old(self).wf(),
        ensures
            final(self).wf(),
            final(self)@ == spec_with_meta(old(self)@),
    {
        let mode = mode_field();
        self.put(OFF_MODE, &mode);
        let owner = owner_id_field();
        self.put(OFF_UID, &owner);
        self.put(OFF_GID, &owner);
        let mtime = mtime_field();
        self.put(OFF_MTIME, &mtime);
        let magic = magic_field();
        self.put(OFF_MAGIC, &magic);
        let version = version_field();
        self.put(OFF_VERSION, &version);
        let nobody = nobody_field();
        self.put(OFF_UNAME, &nobody);
        self.put(OFF_GNAME, &nobody);
    }

    /// Writes `size` into the size field: eleven octal digits and a NUL.
    pub fn assign_size(&mut self, size: usize)
        requires
            old(self).wf(),
            size < 0x2_0000_0000,
        ensures
            final(self).wf(),
            final(self)@ == spec_with_size(old(self)@, size as nat),
    {
        proof {
            lemma_pow8_values();
        }
        let mut digits = format_radix(size as u64, 11, 8);
        digits.push(0u8);
        self.put(OFF_SIZE, &digits);
    }

    /// Fills the checksum field: spaces are summed in, then the sum lands in
    /// the field as six octal digits, a NUL and a space. Must be the last
    /// assignment before the record is emitted.
    pub fn assign_checksum(&mut self)
        requires
            old(self).wf(),
        ensures
            final(self).wf(),
            final(self)@ == spec_with_checksum(old(self)@),
    {
        let mut spaces: Vec<u8> = Vec::new();
        let mut k: usize = 0;
        while k < 8
            invariant
                k <= 8,
                spaces@ =~= Seq::new(k as nat, |i: int| 32u8),
            decreases 8 - k,
        {
            spaces.push(32u8);
            proof {
                assert(spaces@ =~= Seq::new((k + 1) as nat, |i: int| 32u8));
            }
            k += 1;
        }
        self.put(OFF_CHKSUM, &spaces);
        proof {
            assert(self@ =~= splice(old(self)@, OFF_CHKSUM as int, Seq::new(8, |i: int| 32u8)));
        }
        let ghost spaced = self@;
        let mut acc: u32 = 0;
        let mut i: usize = 0;
        while i < 512
            invariant
                self.wf(),
                self@ == spaced,
                i <= 512,
                acc == byte_sum(self@.take(i as int)),
                acc <= 255 * i,
            decreases 512 - i,
        {
            proof {
                assert(self@.take(i + 1).drop_last() =~= self@.take(i as int));
                lemma_byte_sum_bound(self@.take(i as int));
            }
            acc = acc + self.bytes[i] as u32;
            i += 1;
        }
        proof {
            assert(self@.take(512) =~= self@);
            assert(byte_sum(spaced) == checksum_of(old(self)@));
            lemma_pow8_values();
        }
        let mut digits = format_radix(acc as u64, 6, 8);
        digits.push(0u8);
        digits.push(32u8);
        proof {
            assert(digits@ =~= radix_rep(checksum_of(old(self)@) as nat, 6, 8) + seq![0u8, 32u8]);
        }
        self.put(OFF_CHKSUM, &digits);
        proof {
            assert(self@ =~= spec_with_checksum(old(self)@));
        }
    }

    /// Reads the size field: zero when the field starts with a NUL, else the
    /// NUL-terminated octal numeral it holds.
    pub fn parse_size(&self) -> (r: Result<u64, TarError>)
        requires
            self.wf(),
        ensures
            r == spec_parse_size(self@),
    {
        let f = self.bytes_range(OFF_SIZE, OFF_SIZE + LEN_SIZE);
        if f[0] == 0u8 {
            return Ok(0u64);
        }
        let p = match find_nul(&f) {
            Some(i) => copy_range(&f, 0, i),
            None => Vec::new(),
        };
        proof {
            assert(p@ == cstr_prefix(f@));
        }
        if p.len() == 0 {
            return Err(TarError::ParseSize(ParseSizeCause::Empty));
        }
        match parse_radix(&p, 8) {
            Some(v) => Ok(v),
            None => {
                if !all_octal_digits(&p) {
                    Err(TarError::ParseSize(ParseSizeCause::BadDigit))
                } else {
                    Err(TarError::ParseSize(ParseSizeCause::TooLarge))
                }
            },
        }
    }

    /// Writes the given metadata into the record.
    ///
    /// Names must leave room for their NUL terminator in their 32-byte
    /// fields, and a modification time must fit eleven octal digits.
    pub fn assign_attributes(&mut self, extras: &EntryAttributes)
        requires
            old(self).wf(),
            match extras.mtime {
                Some(m) => m < 0x2_0000_0000,
                None => true,
            },
            match extras.uname {
                Some(ref u) => u@.len() < 31,
                None => true,
            },
            match extras.gname {
                Some(ref g) => g@.len() < 31,
                None => true,
            },
        ensures
            final(self).wf(),
            final(self)@ == spec_assign_attributes(old(self)@, extras@),
    {
        proof {
            lemma_pow8_values();
        }
        match &extras.mtime {
            Some(m) => {
                let mut digits = format_radix(*m, 11, 8);
                digits.push(0u8);
                self.put(OFF_MTIME, &digits);
            },
            None => {},
        }
        match &extras.uname {
            Some(u) => {
                let mut name = copy_range(&u.0, 0, u.0.len());
                name.push(0u8);
                proof {
                    assert(name@ =~= u@.push(0u8));
                }
                self.put(OFF_UNAME, &name);
            },
            None => {},
        }
        match &extras.gname {
            Some(g) => {
                let mut name = copy_range(&g.0, 0, g.0.len());
                name.push(0u8);
                proof {
                    assert(name@ =~= g@.push(0u8));
                }
                self.put(OFF_GNAME, &name);
            },
            None => {},
        }
        let mut major = format_octal_min(extras.devmajor);
        major.push(0u8);
        self.put(OFF_DEVMAJOR, &major);
        let mut minor = format_octal_min(extras.devminor);
        minor.push(0u8);
        self.put(OFF_DEVMINOR, &minor);
    }
}

/// Are all bytes octal digits?
fn all_octal_digits(v: &Vec<u8>) -> (r: bool)
    ensures
        r == all_digits_of(v@, 8),
{
    let n = v.len();
    let mut i: usize = 0;
    while i < n
        invariant
            n == v@.len(),
            i <= n,
            forall|j: int| 0 <= j < i ==> crate::octal::is_digit_of(#[trigger] v@[j], 8),
        decreases n - i,
    {
        let b = v[i];
        if b < 48 || b >= 56 {
            proof {
                assert(!crate::octal::is_digit_of(v@[i as int], 8));
            }
            return false;
        }
        i += 1;
    }
    true
}

/// The number of octal digits of a device number, at least one.
fn octal_width_exec(n: u16) -> (r: usize)
    ensures
        r == octal_width(n as nat),
        1 <= r <= 6,
        (n as nat) < pow_of(8, r as nat),
{
    proof {
        lemma_pow8_values();
    }
    let mut m: u16 = n;
    let mut w: usize = 1;
    proof {
        assert((n as nat) / pow_of(8, 0) == n as nat) by (nonlinear_arith);
    }
    while m >= 8
        invariant
            1 <= w <= 6,
            m as nat == (n as nat) / pow_of(8, (w - 1) as nat),
            octal_width(n as nat) == (w - 1) + octal_width(m as nat),
            n <= 65535,
        decreases m,
    {
        proof {
            let p = pow_of(8, (w - 1) as nat);
            crate::octal::lemma_pow_positive(8, (w - 1) as nat);
            assert((n as nat) >= 8 * p) by (nonlinear_arith)
                requires
                    (n as nat) / p >= 8,
                    p >= 1,
            ;
            assert(pow_of(8, w as nat) == 8 * p);
            if w >= 6 {
                lemma_pow8_values();
                lemma_pow_increases(8, 6, w as nat);
                assert(false);
            }
            assert((m as nat) / 8 == (n as nat) / pow_of(8, w as nat)) by {
                assert(((n as nat) / p) / 8 == (n as nat) / (8 * p)) by (nonlinear_arith)
                    requires
                        p >= 1,
                        (n as nat) >= 0,
                ;
            }
        }
        m = m / 8;
        w = w + 1;
    }
    proof {
        let p = pow_of(8, (w - 1) as nat);
        crate::octal::lemma_pow_positive(8, (w - 1) as nat);
        vstd::arithmetic::div_mod::lemma_fundamental_div_mod(n as int, p as int);
        assert((n as nat) < 8 * p) by (nonlinear_arith)
            requires
                p >= 1,
                (n as int) == (p as int) * ((n as int) / (p as int)) + (n as int) % (p as int),
                (n as int) / (p as int) < 8,
                0 <= (n as int) % (p as int) < p,
                (n as int) >= 0,
        ;
        assert(pow_of(8, w as nat) == 8 * p);
    }
    w
}

/// A device number as an unpadded octal numeral, matching `min_octal`.
fn format_octal_min(n: u16) -> (r: Vec<u8>)
    ensures
        r@ == min_octal(n as nat),
        r@.len() == octal_width(n as nat),
        1 <= r@.len() <= 6,
{
    let w = octal_width_exec(n);
    format_radix(n as u64, w, 8)
}

impl EntryAttributes {
    /// Extracts the metadata from an existing tar header; fields that do not
    /// parse become `None` or zero.
    pub fn from_header(header: &TarHeader) -> (r: EntryAttributes)
        requires
            header.wf(),
        ensures
            r@ == spec_attrs_of(header@),
    {
        let mtime_field = header.bytes_range(OFF_MTIME, OFF_MTIME + LEN_MTIME);
        let mtime = parse_octal_field(&mtime_field);

        let uname_field = header.bytes_range(OFF_UNAME, OFF_UNAME + LEN_UNAME);
        let uname = match find_nul(&uname_field) {
            Some(i) => Some(
                HtmlAttributeSafeName::from_bytes(copy_range(&uname_field, 0, i)),
            ),
            None => None,
        };

        let gname_field = header.bytes_range(OFF_GNAME, OFF_GNAME + LEN_GNAME);
        let gname = match find_nul(&gname_field) {
            Some(i) => Some(
                HtmlAttributeSafeName::from_bytes(copy_range(&gname_field, 0, i)),
            ),
            None => None,
        };

        let major_field = header.bytes_range(OFF_DEVMAJOR, OFF_DEVMAJOR + LEN_DEV);
        let devmajor = match parse_octal_field(&major_field) {
            Some(v) => if v <= 65535 {
                v as u16
            } else {
                0u16
            },
            None => 0u16,
        };

        let minor_field = header.bytes_range(OFF_DEVMINOR, OFF_DEVMINOR + LEN_DEV);
        let devminor = match parse_octal_field(&minor_field) {
            Some(v) => if v <= 65535 {
                v as u16
            } else {
                0u16
            },
            None => 0u16,
        };

        EntryAttributes { mtime, uname, gname, devmajor, devminor }
    }
}

/// Reads a NUL-terminated octal numeral out of a field, matching
/// `spec_parse_octal_field`.
fn parse_octal_field(f: &Vec<u8>) -> (r: Option<u64>)
    ensures
        match r {
            Some(v) => spec_parse_octal_field(f@) == Some(v as nat),
            None => spec_parse_octal_field(f@) is None,
        },
{
    let p = match find_nul(f) {
        Some(i) => copy_range(f, 0, i),
        None => Vec::new(),
    };
    proof {
        assert(p@ == cstr_prefix(f@));
    }
    if p.len() == 0 {
        return None;
    }
    parse_radix(&p, 8)
}


/// How big `n` is, given how many octal digits it takes.
pub proof fn lemma_octal_width_bound(n: nat)
    ensures
        octal_width(n) >= 1,
        n < pow_of(8, octal_width(n)),
    decreases n,
{
    if n < 8 {
        assert(pow_of(8, 1) == 8 * pow_of(8, 0));
    } else {
        lemma_octal_width_bound(n / 8);
        let w = octal_width(n / 8);
        assert(pow_of(8, w + 1) == 8 * pow_of(8, w));
        vstd::arithmetic::div_mod::lemma_fundamental_div_mod(n as int, 8);
        assert(n < 8 * pow_of(8, w)) by (nonlinear_arith)
            requires
                n / 8 < pow_of(8, w),
                (n as int) == 8 * ((n as int) / 8) + (n as int) % 8,
                0 <= (n as int) % 8 < 8,
        ;
    }
}

/// A value that needs more than `w` octal digits reaches `8^w`, for any
/// positive `w`.
pub proof fn lemma_octal_width_low(n: nat, w: nat)
    requires
        w >= 1,
        octal_width(n) >= w + 1,
    ensures
        n >= pow_of(8, w),
    decreases w,
{
    assert(octal_width(n) != 1);
    assert(n >= 8);
    if w == 1 {
        assert(pow_of(8, 1) == 8 * pow_of(8, 0));
    } else {
        lemma_octal_width_low(n / 8, (w - 1) as nat);
        let p = pow_of(8, (w - 1) as nat);
        assert(n >= 8 * (n / 8)) by (nonlinear_arith)
            requires
                n >= 8,
        ;
        assert(8 * (n / 8) >= 8 * p) by (nonlinear_arith)
            requires
                n / 8 >= p,
        ;
        assert(pow_of(8, w) == 8 * p);
    }
}

/// An unpadded octal numeral reads back as its value.
pub proof fn lemma_min_octal_value(n: nat)
    ensures
        min_octal(n).len() == octal_width(n) >= 1,
        all_digits_of(min_octal(n), 8),
        radix_val(min_octal(n), 8) == n,
{
    lemma_octal_width_bound(n);
    lemma_radix_rep_len(n, octal_width(n), 8);
    lemma_radix_rep_digits(n, octal_width(n), 8);
    lemma_radix_round_trip_exact(n, octal_width(n), 8);
}

/// The checksum law: recomputing the sum over a record whose checksum field
/// was just written yields the very value that stands in the field, because
/// the sum always reads that field as spaces.
pub proof fn lemma_checksum_round_trip(h: Seq<u8>)
    requires
        h.len() == 512,
    ensures
        checksum_of(spec_with_checksum(h)) == checksum_of(h),
        spec_parse_octal_field(field(spec_with_checksum(h), OFF_CHKSUM as int, LEN_CHKSUM as int))
            == Some(checksum_of(h) as nat),
{
    let spaces = Seq::new(8, |i: int| 32u8);
    let sum = checksum_of(h);
    lemma_byte_sum_bound(splice(h, OFF_CHKSUM as int, spaces));
    lemma_pow8_values();
    let rep = radix_rep(sum as nat, 6, 8);
    lemma_radix_rep_len(sum as nat, 6, 8);
    lemma_radix_rep_digits(sum as nat, 6, 8);
    lemma_radix_round_trip_exact(sum as nat, 6, 8);
    let digits = rep + seq![0u8, 32u8];
    let h2 = spec_with_checksum(h);
    assert(splice(h2, OFF_CHKSUM as int, spaces) =~= splice(h, OFF_CHKSUM as int, spaces));
    assert(field(h2, OFF_CHKSUM as int, LEN_CHKSUM as int) =~= digits);
    assert(digits[6] == 0u8);
    assert(forall|j: int| 0 <= j < 6 ==> digits[j] != 0u8) by {
        assert(forall|j: int|
            0 <= j < 6 ==> crate::octal::is_digit_of(#[trigger] rep[j], 8) && digits[j] == rep[j]);
    }
    crate::bytes::lemma_find_nul_at(digits, 6);
    assert(cstr_prefix(digits) =~= rep);
}

/// The size law: any size below eight to the eleventh, written and then
/// parsed back, is recovered exactly.
pub proof fn lemma_size_round_trip(h: Seq<u8>, n: nat)
    requires
        h.len() == 512,
        n < 0x2_0000_0000,
    ensures
        spec_parse_size(spec_with_size(h, n)) == Ok::<u64, TarError>(n as u64),
{
    lemma_pow8_values();
    let rep = radix_rep(n, 11, 8);
    lemma_radix_rep_len(n, 11, 8);
    lemma_radix_rep_digits(n, 11, 8);
    lemma_radix_round_trip_exact(n, 11, 8);
    let h2 = spec_with_size(h, n);
    let f = field(h2, OFF_SIZE as int, LEN_SIZE as int);
    assert(f =~= rep.push(0u8));
    assert(f[0] == rep[0]);
    assert(crate::octal::is_digit_of(rep[0], 8));
    assert(forall|j: int| 0 <= j < 11 ==> #[trigger] f[j] == rep[j] && f[j] != 0u8);
    crate::bytes::lemma_find_nul_at(f, 11);
    assert(cstr_prefix(f) =~= rep);
}

/// The attribute law: metadata written into a header is read back
/// unchanged, as long as every option is present, names are free of NUL
/// bytes and leave room for their terminator, and the time fits its field.
pub proof fn lemma_attributes_round_trip(h: Seq<u8>, a: AttrsV)
    requires
        h.len() == 512,
        match a.mtime {
            Some(m) => m < 0x2_0000_0000,
            None => false,
        },
        match a.uname {
            Some(u) => u.len() < 31 && crate::bytes::nul_free(u),
            None => false,
        },
        match a.gname {
            Some(g) => g.len() < 31 && crate::bytes::nul_free(g),
            None => false,
        },
    ensures
        spec_attrs_of(spec_assign_attributes(h, a)) == a,
{
    lemma_pow8_values();
    let m = a.mtime->0;
    let u = a.uname->0;
    let g = a.gname->0;
    let mj = min_octal(a.devmajor as nat).push(0u8);
    let mn = min_octal(a.devminor as nat).push(0u8);
    lemma_min_octal_value(a.devmajor as nat);
    lemma_min_octal_value(a.devminor as nat);
    let wj = octal_width(a.devmajor as nat);
    let wn = octal_width(a.devminor as nat);
    assert(wj <= 6 && wn <= 6) by {
        if wj > 6 {
            lemma_octal_width_low(a.devmajor as nat, 6);
        }
        if wn > 6 {
            lemma_octal_width_low(a.devminor as nat, 6);
        }
    }

    let h1 = splice(h, OFF_MTIME as int, octal_field(m as nat, 11));
    let h2 = splice(h1, OFF_UNAME as int, u.push(0u8));
    let h3 = splice(h2, OFF_GNAME as int, g.push(0u8));
    let h4 = splice(h3, OFF_DEVMAJOR as int, mj);
    let h5 = splice(h4, OFF_DEVMINOR as int, mn);
    assert(spec_assign_attributes(h, a) == h5);
    lemma_radix_rep_len(m as nat, 11, 8);
    lemma_radix_rep_digits(m as nat, 11, 8);
    lemma_radix_round_trip_exact(m as nat, 11, 8);

    // Each field of the final record still holds exactly what was written
    // into it: the later splices land in other fields.
    let mrep = radix_rep(m as nat, 11, 8);
    let mfield = field(h5, OFF_MTIME as int, LEN_MTIME as int);
    assert(mfield =~= mrep.push(0u8));
    assert(forall|j: int| 0 <= j < 11 ==> #[trigger] mfield[j] == mrep[j] && mfield[j] != 0u8);
    crate::bytes::lemma_find_nul_at(mfield, 11);
    assert(cstr_prefix(mfield) =~= mrep);
    assert(spec_attrs_of(h5).mtime == Some(m));

    let ufield = field(h5, OFF_UNAME as int, LEN_UNAME as int);
    assert(forall|j: int| 0 <= j < u.len() ==> #[trigger] ufield[j] == u[j] && ufield[j] != 0u8);
    assert(ufield[u.len() as int] == 0u8);
    crate::bytes::lemma_find_nul_at(ufield, u.len() as int);
    assert(ufield.take(u.len() as int) =~= u);
    assert(spec_attrs_of(h5).uname == Some(u));

    let gfield = field(h5, OFF_GNAME as int, LEN_GNAME as int);
    assert(forall|j: int| 0 <= j < g.len() ==> #[trigger] gfield[j] == g[j] && gfield[j] != 0u8);
    assert(gfield[g.len() as int] == 0u8);
    crate::bytes::lemma_find_nul_at(gfield, g.len() as int);
    assert(gfield.take(g.len() as int) =~= g);
    assert(spec_attrs_of(h5).gname == Some(g));

    let jrep = min_octal(a.devmajor as nat);
    let jfield = field(h5, OFF_DEVMAJOR as int, LEN_DEV as int);
    assert(forall|j: int| 0 <= j < wj ==> #[trigger] jfield[j] == jrep[j] && jfield[j] != 0u8);
    assert(jfield[wj as int] == 0u8);
    crate::bytes::lemma_find_nul_at(jfield, wj as int);
    assert(jfield.take(wj as int) =~= jrep);
    assert(spec_attrs_of(h5).devmajor == a.devmajor);

    let nrep = min_octal(a.devminor as nat);
    let nfield = field(h5, OFF_DEVMINOR as int, LEN_DEV as int);
    assert(forall|j: int| 0 <= j < wn ==> #[trigger] nfield[j] == nrep[j] && nfield[j] != 0u8);
    assert(nfield[wn as int] == 0u8);
    crate::bytes::lemma_find_nul_at(nfield, wn as int);
    assert(nfield.take(wn as int) =~= nrep);
    assert(spec_attrs_of(h5).devminor == a.devminor);

    assert(spec_attrs_of(spec_assign_attributes(h, a)) == a);
}

} // verus!
