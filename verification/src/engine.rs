//! The stateful encoder. It emits per-entry records whose 512-byte headers
//! double as HTML markup, keeps a running byte offset so every header lands
//! on a 512-byte boundary, and tracks whether an escape element is still
//! open, which decides how the next header's name field begins.

use vstd::prelude::*;

use crate::bytes::{extend_bytes, splice, zero_vec, zeroes};
use crate::entry::{AttrsV, Entry, EntryAttributes, External, HtmlAttributeSafeName};
use crate::escape::{comment_introducer, cont_name, data_escape, data_start, doctype,
    doctype_needle, end_start, end_tail, eof_terminator, id_end_cont, id_tail, spec_comment_introducer,
    spec_cont_name, spec_data_escape, spec_data_start, spec_doctype, spec_doctype_needle,
    spec_end_start, spec_end_tail, spec_eof_terminator, spec_id_end_cont, spec_id_tail,
    spec_start_name, start_name};
use crate::header::{spec_assign_attributes, spec_empty_header, spec_with_checksum, spec_with_meta,
    spec_with_size, TarHeader};
use crate::octal::radix_rep;

verus! {

/// ASCII lowercase of one byte.
pub open spec fn spec_lower(b: u8) -> u8 {
    if 65 <= b <= 90 {
        (b + 32) as u8
    } else {
        b
    }
}

/// ASCII lowercase of a byte string.
pub open spec fn spec_lower_seq(s: Seq<u8>) -> Seq<u8> {
    s.map_values(|b: u8| spec_lower(b))
}

/// Does `pat` occur in `s` at position `i`?
pub open spec fn contains_at(s: Seq<u8>, pat: Seq<u8>, i: int) -> bool {
    0 <= i && i + pat.len() <= s.len() && s.subrange(i, i + pat.len()) == pat
}

/// Does `pat` occur anywhere in `s`?
pub open spec fn contains_seq(s: Seq<u8>, pat: Seq<u8>) -> bool {
    exists|i: int| contains_at(s, pat, i)
}

/// Does the head already carry a doctype, in any capitalization?
pub open spec fn spec_has_doctype(s: Seq<u8>) -> bool {
    contains_seq(spec_lower_seq(s), spec_doctype_needle())
}

/// The head with a doctype guaranteed in front.
pub open spec fn spec_doctype_head(s: Seq<u8>) -> Seq<u8> {
    if spec_has_doctype(s) {
        s
    } else {
        spec_doctype() + s
    }
}

/// The first ("extension") header of a double header: its name field opens
/// or continues an escape element, its size is zero, its type is `x`, and
/// the tail of its prefix closes the open attribute and starts the one that
/// will carry the file name.
#[verifier::opaque]
pub open spec fn spec_first_header(is_escaped: bool) -> Seq<u8> {
    let start = if is_escaped {
        spec_cont_name()
    } else {
        spec_start_name()
    };
    let h1 = splice(spec_empty_header(), 0, start);
    let h2 = h1.update(156, 120u8);
    let h3 = spec_with_size(h2, 0);
    let h4 = spec_with_meta(h3);
    let h5 = splice(h4, 500 - spec_id_tail().len(), spec_id_tail());
    spec_with_checksum(h5)
}

/// The second (file) header before metadata and checksum: the file name at
/// the start of the name field, the attribute seam right-aligned at its end,
/// the tag closer at the tail of the prefix, the payload size, and the fixed
/// meta fields.
pub open spec fn spec_file_header_base(name: Seq<u8>, size: nat) -> Seq<u8> {
    let h1 = splice(spec_empty_header(), 0, name);
    let h2 = splice(h1, 100 - spec_id_end_cont().len(), spec_id_end_cont());
    let h3 = splice(h2, 500 - spec_data_start().len(), spec_data_start());
    let h4 = spec_with_size(h3, size);
    spec_with_meta(h4)
}

/// The finished file header of an embedded entry.
#[verifier::opaque]
pub open spec fn spec_entry_file_header(name: Seq<u8>, attrs: AttrsV, size: nat) -> Seq<u8> {
    spec_with_checksum(spec_assign_attributes(spec_file_header_base(name, size), attrs))
}

/// The finished file header of an external entry: a sparse record whose
/// linkname carries the reference and whose prefix carries the real size.
#[verifier::opaque]
pub open spec fn spec_external_file_header(
    name: Seq<u8>,
    attrs: AttrsV,
    reference: Seq<u8>,
    realsize: u64,
) -> Seq<u8> {
    let h1 = spec_assign_attributes(spec_file_header_base(name, 0), attrs);
    let h2 = splice(h1, 158, reference);
    let h3 = h2.update(156, 83u8);
    let h4 = splice(h3, 452, radix_rep(realsize as nat, 11, 8));
    spec_with_checksum(h4)
}

/// The header that ends a run of escaped entries: it closes the open escape
/// element, reopens a transparent one over `skip` bytes of raw document
/// text, and closes that one at the tail of its prefix.
#[verifier::opaque]
pub open spec fn spec_end_header(skip: nat) -> Seq<u8> {
    let h1 = splice(spec_empty_header(), 0, spec_end_start());
    let h2 = spec_with_size(h1, skip);
    let h3 = splice(h2, 500 - spec_end_tail().len(), spec_end_tail());
    spec_with_checksum(spec_with_meta(h3))
}

/// The first header of the whole artifact: the document head, minus its
/// closing angle bracket, lives in the name field behind one NUL, followed
/// by an opened attribute that swallows the rest of the record.
#[verifier::opaque]
pub open spec fn spec_initial_header(head: Seq<u8>, tail_len: nat) -> Seq<u8> {
    let dhead = spec_doctype_head(head);
    let h1 = splice(spec_empty_header(), 1, dhead.take(dhead.len() - 1));
    let h2 = splice(h1, dhead.len() as int, spec_data_escape());
    let h3 = h2.update(156, 120u8);
    let h4 = spec_with_size(h3, 21 + tail_len);
    let h5 = spec_with_meta(h4);
    spec_with_checksum(h5)
}

/// The payload announced by the initial header: a ten-digit decimal size
/// prefix, then an attribute that hides the copied document text in a pax
/// comment and closes the open tag.
pub open spec fn spec_initial_extra(tail_len: nat) -> Seq<u8> {
    radix_rep(11 + tail_len, 10, 10) + spec_comment_introducer()
}

/// What `start_of_file` gives back: the first header, how much of the input
/// head it consumed, and the extra payload bytes to emit after the header.
pub struct InitialEscape {
    /// The tar header that doubles as the start of the HTML document.
    pub header: TarHeader,
    /// How much of the input head was consumed.
    pub consumed: usize,
    /// The size prefix and comment introducer emitted right after the header.
    pub extra: Vec<u8>,
}

/// One embedded entry as emitted: padding to the next 512-byte boundary,
/// the extension header, the file header, and the payload bytes.
pub struct EscapedData {
    pub padding: Vec<u8>,
    /// The header entry, which transitions into tar semantics.
    pub header: TarHeader,
    /// The file entry, which closes the HTML tag and carries the name.
    pub file: TarHeader,
    pub data: Vec<u8>,
}

/// A lone header ending a run of escaped entries, with its padding.
pub struct EscapedSentinel {
    pub padding: Vec<u8>,
    /// The header that closes the escape element.
    pub header: TarHeader,
}

/// The encoder state: total bytes emitted so far and whether an escape
/// element is still open.
pub struct TarEngine {
    len: u64,
    is_escaped: bool,
}

impl TarEngine {
    /// Total length of everything emitted so far.
    pub closed spec fn encoded_len(&self) -> u64 {
        self.len
    }

    /// Is an escape element still open?
    pub closed spec fn in_escape(&self) -> bool {
        self.is_escaped
    }

    /// A fresh engine: nothing emitted, no escape open.
    pub fn new() -> (r: TarEngine)
        ensures
            r.encoded_len() == 0,
            !r.in_escape(),
    {
        TarEngine { len: 0, is_escaped: false }
    }

    /// The total emitted length, for callers that must check limits.
    pub fn len_value(&self) -> (r: u64)
        ensures
            r == self.encoded_len(),
    {
        self.len
    }

    /// Does this head fit the first header's name field once the doctype
    /// guard and the attribute opener are accounted for?
    pub fn head_fits(head: &Vec<u8>) -> (r: bool)
        ensures
            r == (spec_doctype_head(head@).len() < 91 && spec_doctype_head(head@).len() > 0
                && spec_doctype_head(head@).last() == 62u8),
    {
        let d = doctype_safe_head(head);
        if d.len() == 0 || d.len() >= 91 {
            return false;
        }
        d[d.len() - 1] == 62u8
    }

    /// Zero bytes up to the next multiple of 512.
    fn pad_to_fit(&mut self) -> (r: Vec<u8>)
        requires
            old(self).encoded_len() <= 0x1000_0000_0000_0000u64,
        ensures
            r@ == zeroes(r@.len() as int),
            r@.len() < 512,
            final(self).encoded_len() == old(self).encoded_len() + r@.len(),
            final(self).encoded_len() % 512 == 0,
            final(self).in_escape() == old(self).in_escape(),
    {
        let rem: u64 = self.len % 512;
        let pad: u64 = if rem == 0 {
            0
        } else {
            512 - rem
        };
        proof {
            let l = self.len as int;
            let q = l / 512;
            vstd::arithmetic::div_mod::lemma_fundamental_div_mod(l, 512);
            if rem == 0 {
                assert(l + pad == q * 512);
                vstd::arithmetic::div_mod::lemma_mod_multiples_basic(q, 512);
            } else {
                assert(l + pad == (q + 1) * 512) by {
                    assert((q + 1) * 512 == q * 512 + 512) by (nonlinear_arith);
                }
                vstd::arithmetic::div_mod::lemma_mod_multiples_basic(q + 1, 512);
            }
        }
        self.len = self.len + pad;
        zero_vec(pad as usize)
    }

    /// Rewrites the document head into the artifact's first tar header.
    ///
    /// The head, after the doctype guard, must end in `>` and fit the name
    /// field beside the injected attribute opener; the entry offset points
    /// behind the head into the document, and what lies between becomes the
    /// header's payload.
    pub fn start_of_file(&mut self, html_head: &[u8], entry_offset: usize) -> (r: InitialEscape)
        requires
            spec_doctype_head(html_head@).len() < 91,
            spec_doctype_head(html_head@).len() > 0,
            spec_doctype_head(html_head@).last() == 62u8,
            entry_offset >= html_head@.len(),
            entry_offset - html_head@.len() + 21 < 0x2_0000_0000,
            entry_offset + 21 <= usize::MAX,
            old(self).encoded_len() < 0x1000_0000_0000_0000u64,
        ensures
            r.header.wf(),
            r.header@ == spec_initial_header(
                html_head@,
                (entry_offset - html_head@.len()) as nat,
            ),
            r.consumed == html_head@.len(),
            r.extra@ == spec_initial_extra((entry_offset - html_head@.len()) as nat),
            r.extra@.len() == 21,
            final(self).encoded_len() == old(self).encoded_len() + 512 + 21 + (entry_offset
                - html_head@.len()),
            final(self).in_escape() == old(self).in_escape(),
    {
        let consumed = html_head.len();
        let head_vec = vstd::slice::slice_to_vec(html_head);
        let dhead = doctype_safe_head(&head_vec);
        let dlen = dhead.len();

        let mut this = TarHeader::empty();
        let body = crate::bytes::copy_range(&dhead, 0, dlen - 1);
        this.write_at(1, &body);
        let escape = data_escape();
        this.write_at(dlen, &escape);
        this.set_typeflag(120);

        let tail_len = entry_offset - consumed;
        proof {
            crate::header::lemma_pow8_values();
        }
        let mut extra = crate::octal::format_radix(11 + tail_len as u64, 10, 10);
        let intro = comment_introducer();
        extend_bytes(&mut extra, &intro);

        this.assign_size(21 + tail_len);
        this.assign_permission_encoding_meta();
        this.assign_checksum();

        self.len = self.len + 512 + 21 + tail_len as u64;
        proof {
            reveal(spec_initial_header);
            assert(extra@ == spec_initial_extra(tail_len as nat));
            assert(this@ == spec_initial_header(html_head@, tail_len as nat));
        }
        InitialEscape { header: this, consumed, extra }
    }

    /// Emits the double header and payload of one entry.
    ///
    /// The first header opens or continues the escape element; the second
    /// carries the file name, the metadata, and for an external entry the
    /// reference and real size of the outlined payload.
    #[verifier::rlimit(100)]
    #[verifier::spinoff_prover]
    pub fn continue_qualified(
        &mut self,
        name: &HtmlAttributeSafeName,
        data: Vec<u8>,
        extras: &EntryAttributes,
        external: Option<(&HtmlAttributeSafeName, u64)>,
    ) -> (r: EscapedData)
        requires
            name@.len() < 90,
            data@.len() < 0x2_0000_0000,
            match external {
                Some((reference, realsize)) => reference@.len() <= 99 && realsize
                    < 0x2_0000_0000 && data@.len() == 0,
                None => true,
            },
            match extras.mtime {
                Some(m) => m < 0x2_0000_0000,
                None => true,
            },
            match extras.uname {
                Some(ref u) => u@.len() < 31,
                None => true,
            },
            match extras.gname {
                Some(ref g) => g@.len() < 31,
                None => true,
            },
            old(self).encoded_len() < 0x1000_0000_0000_0000u64,
        ensures
            r.padding@ == zeroes(r.padding@.len() as int),
            r.padding@.len() < 512,
            (old(self).encoded_len() + r.padding@.len()) % 512 == 0,
            r.header.wf(),
            r.header@ == spec_first_header(old(self).in_escape()),
            r.file.wf(),
            r.file@ == match external {
                Some((reference, realsize)) => spec_external_file_header(
                    name@,
                    extras@,
                    reference@,
                    realsize,
                ),
                None => spec_entry_file_header(name@, extras@, data@.len() as nat),
            },
            r.data@ == data@,
            final(self).encoded_len() == old(self).encoded_len() + r.padding@.len() + 1024
                + data@.len(),
            final(self).in_escape(),
    {
        let padding = self.pad_to_fit();

        let start = if self.is_escaped {
            cont_name()
        } else {
            self.is_escaped = true;
            start_name()
        };

        let mut this = TarHeader::empty();
        this.write_at(0, &start);
        this.set_typeflag(120);
        this.assign_size(0);
        this.assign_permission_encoding_meta();
        let id = id_tail();
        this.write_at(500 - id.len(), &id);
        this.assign_checksum();
        self.len = self.len + 512;

        let mut file = TarHeader::empty();
        file.write_at(0, &name.0);
        let cont = id_end_cont();
        file.write_at(100 - cont.len(), &cont);
        let opener = data_start();
        file.write_at(500 - opener.len(), &opener);
        file.assign_size(data.len());
        file.assign_permission_encoding_meta();
        file.assign_attributes(extras);
        match external {
            Some((reference, realsize)) => {
                file.write_at(158, &reference.0);
                file.set_typeflag(83);
                proof {
                    crate::header::lemma_pow8_values();
                }
                let realdigits = crate::octal::format_radix(realsize, 11, 8);
                file.write_at(452, &realdigits);
            },
            None => {},
        }
        file.assign_checksum();
        self.len = self.len + 512;

        self.len = self.len + data.len() as u64;

        proof {
            reveal(spec_first_header);
            reveal(spec_entry_file_header);
            reveal(spec_external_file_header);
            assert(this@ == spec_first_header(old(self).in_escape()));
            match external {
                Some((reference, realsize)) => {
                    assert(file@ == spec_external_file_header(
                        name@,
                        extras@,
                        reference@,
                        realsize,
                    ));
                },
                None => {
                    assert(file@ == spec_entry_file_header(name@, extras@, data@.len() as nat));
                },
            }
        }
        EscapedData { padding, header: this, file, data }
    }

    /// Base64-encodes the entry's data and emits its double header.
    #[verifier::rlimit(100)]
    #[verifier::spinoff_prover]
    pub fn escaped_base64(&mut self, entry: Entry) -> (r: EscapedData)
        requires
            entry.name@.len() < 90,
            4 * ((entry.data@.len() + 2) / 3) < 0x2_0000_0000,
            4 * ((entry.data@.len() + 2) / 3) <= usize::MAX,
            match entry.attributes.mtime {
                Some(m) => m < 0x2_0000_0000,
                None => true,
            },
            match entry.attributes.uname {
                Some(ref u) => u@.len() < 31,
                None => true,
            },
            match entry.attributes.gname {
                Some(ref g) => g@.len() < 31,
                None => true,
            },
            old(self).encoded_len() < 0x1000_0000_0000_0000u64,
        ensures
            r.padding@ == zeroes(r.padding@.len() as int),
            r.padding@.len() < 512,
            (old(self).encoded_len() + r.padding@.len()) % 512 == 0,
            r.header.wf(),
            r.header@ == spec_first_header(old(self).in_escape()),
            r.file.wf(),
            r.file@ == spec_entry_file_header(
                entry.name@,
                entry.attributes@,
                crate::b64::base64_of(entry.data@).len(),
            ),
            r.data@ == crate::b64::base64_of(entry.data@),
            crate::b64::base64_of(entry.data@).len() == 4 * ((entry.data@.len() + 2) / 3),
            final(self).encoded_len() == old(self).encoded_len() + r.padding@.len() + 1024
                + crate::b64::base64_of(entry.data@).len(),
            final(self).in_escape(),
    {
        let data = crate::b64::base64_encode(&entry.data);
        self.continue_qualified(&entry.name, data, &entry.attributes, None)
    }

    /// Emits a sparse entry with an empty body whose payload lives elsewhere.
    #[verifier::rlimit(100)]
    #[verifier::spinoff_prover]
    pub fn escaped_external(&mut self, external: External) -> (r: EscapedData)
        requires
            external.name@.len() < 90,
            external.reference@.len() <= 99,
            external.realsize < 0x2_0000_0000,
            match external.attributes.mtime {
                Some(m) => m < 0x2_0000_0000,
                None => true,
            },
            match external.attributes.uname {
                Some(ref u) => u@.len() < 31,
                None => true,
            },
            match external.attributes.gname {
                Some(ref g) => g@.len() < 31,
                None => true,
            },
            old(self).encoded_len() < 0x1000_0000_0000_0000u64,
        ensures
            r.padding@ == zeroes(r.padding@.len() as int),
            r.padding@.len() < 512,
            (old(self).encoded_len() + r.padding@.len()) % 512 == 0,
            r.header.wf(),
            r.header@ == spec_first_header(old(self).in_escape()),
            r.file.wf(),
            r.file@ == spec_external_file_header(
                external.name@,
                external.attributes@,
                external.reference@,
                external.realsize,
            ),
            r.data@.len() == 0,
            final(self).encoded_len() == old(self).encoded_len() + r.padding@.len() + 1024,
            final(self).in_escape(),
    {
        self.continue_qualified(
            &external.name,
            Vec::new(),
            &external.attributes,
            Some((&external.reference, external.realsize)),
        )
    }

    /// Ends a run of escaped entries, with `skip` raw document bytes to
    /// follow before the next run.
    pub fn escaped_end(&mut self, skip: usize) -> (r: EscapedSentinel)
        requires
            old(self).in_escape(),
            skip < 0x2_0000_0000,
            old(self).encoded_len() <= 0x1000_0000_0000_0000u64,
        ensures
            r.padding@ == zeroes(r.padding@.len() as int),
            r.padding@.len() < 512,
            (old(self).encoded_len() + r.padding@.len()) % 512 == 0,
            r.header.wf(),
            r.header@ == spec_end_header(skip as nat),
            final(self).encoded_len() == old(self).encoded_len() + r.padding@.len(),
            !final(self).in_escape(),
    {
        let padding = self.pad_to_fit();

        let mut this = TarHeader::empty();
        let start = end_start();
        this.write_at(0, &start);
        this.assign_size(skip);
        let tail = end_tail();
        this.write_at(500 - tail.len(), &tail);
        this.assign_permission_encoding_meta();
        this.assign_checksum();

        self.is_escaped = false;
        proof {
            reveal(spec_end_header);
            assert(this@ == spec_end_header(skip as nat));
        }
        EscapedSentinel { padding, header: this }
    }

    /// Ends the archive with the tar end-of-file sentinel: two zero records,
    /// and the bytes that close the final escape element when one is open.
    pub fn escaped_eof(&mut self) -> (r: EscapedData)
        requires
            old(self).encoded_len() <= 0x1000_0000_0000_0000u64,
        ensures
            r.padding@ == zeroes(r.padding@.len() as int),
            r.padding@.len() < 512,
            (old(self).encoded_len() + r.padding@.len()) % 512 == 0,
            r.header.wf(),
            r.header@ == spec_empty_header(),
            r.file.wf(),
            r.file@ == spec_empty_header(),
            r.data@ == if old(self).in_escape() {
                spec_eof_terminator()
            } else {
                Seq::<u8>::empty()
            },
            final(self).encoded_len() == old(self).encoded_len() + r.padding@.len(),
            final(self).in_escape() == old(self).in_escape(),
    {
        if self.is_escaped {
            self.inner_escaped_eof()
        } else {
            self.inner_insert_eof()
        }
    }

    fn inner_escaped_eof(&mut self) -> (r: EscapedData)
        requires
            old(self).in_escape(),
            old(self).encoded_len() <= 0x1000_0000_0000_0000u64,
        ensures
            r.padding@ == zeroes(r.padding@.len() as int),
            r.padding@.len() < 512,
            (old(self).encoded_len() + r.padding@.len()) % 512 == 0,
            r.header.wf(),
            r.header@ == spec_empty_header(),
            r.file.wf(),
            r.file@ == spec_empty_header(),
            r.data@ == spec_eof_terminator(),
            final(self).encoded_len() == old(self).encoded_len() + r.padding@.len(),
            final(self).in_escape() == old(self).in_escape(),
    {
        let padding = self.pad_to_fit();
        EscapedData {
            padding,
            header: TarHeader::empty(),
            file: TarHeader::empty(),
            data: eof_terminator(),
        }
    }

    /// Outside an escape, the eof sentinel alone.
    pub fn insert_eof(&mut self) -> (r: EscapedData)
        requires
            old(self).encoded_len() <= 0x1000_0000_0000_0000u64,
        ensures
            r.padding@ == zeroes(r.padding@.len() as int),
            r.padding@.len() < 512,
            (old(self).encoded_len() + r.padding@.len()) % 512 == 0,
            r.header.wf(),
            r.header@ == spec_empty_header(),
            r.file.wf(),
            r.file@ == spec_empty_header(),
            r.data@ == if old(self).in_escape() {
                spec_eof_terminator()
            } else {
                Seq::<u8>::empty()
            },
            final(self).encoded_len() == old(self).encoded_len() + r.padding@.len(),
            final(self).in_escape() == old(self).in_escape(),
    {
        self.escaped_eof()
    }

    fn inner_insert_eof(&mut self) -> (r: EscapedData)
        requires
            !old(self).in_escape(),
            old(self).encoded_len() <= 0x1000_0000_0000_0000u64,
        ensures
            r.padding@ == zeroes(r.padding@.len() as int),
            r.padding@.len() < 512,
            (old(self).encoded_len() + r.padding@.len()) % 512 == 0,
            r.header.wf(),
            r.header@ == spec_empty_header(),
            r.file.wf(),
            r.file@ == spec_empty_header(),
            r.data@.len() == 0,
            final(self).encoded_len() == old(self).encoded_len() + r.padding@.len(),
            final(self).in_escape() == old(self).in_escape(),
    {
        let padding = self.pad_to_fit();
        EscapedData {
            padding,
            header: TarHeader::empty(),
            file: TarHeader::empty(),
            data: Vec::new(),
        }
    }
}

impl Default for TarEngine {
    /// The same fresh engine `new` yields.
    fn default() -> (r: Self)
        ensures
            r.encoded_len() == 0,
            !r.in_escape(),
    {
        TarEngine::new()
    }
}

/// Prepends a doctype when the head, lowercased, does not contain one.
fn doctype_safe_head(head: &Vec<u8>) -> (r: Vec<u8>)
    ensures
        r@ == spec_doctype_head(head@),
{
    if has_doctype(head) {
        crate::bytes::copy_range(head, 0, head.len())
    } else {
        let mut r = doctype();
        extend_bytes(&mut r, head);
        r
    }
}

/// Does the head contain `<!doctype` in any capitalization?
fn has_doctype(head: &Vec<u8>) -> (r: bool)
    ensures
        r == spec_has_doctype(head@),
{
    let needle = doctype_needle();
    let lowered = lower_bytes(head);
    find_subsequence(&lowered, &needle).is_some()
}

/// ASCII-lowercases every byte.
pub fn lower_bytes(v: &Vec<u8>) -> (r: Vec<u8>)
    ensures
        r@ == spec_lower_seq(v@),
{
    let n = v.len();
    let mut r: Vec<u8> = Vec::new();
    let mut i: usize = 0;
    while i < n
        invariant
            n == v@.len(),
            i <= n,
            r@ =~= spec_lower_seq(v@.take(i as int)),
        decreases n - i,
    {
        let b = v[i];
        if b >= 65 && b <= 90 {
            r.push(b + 32);
        } else {
            r.push(b);
        }
        proof {
            assert(r@ =~= spec_lower_seq(v@.take(i + 1)));
        }
        i += 1;
    }
    proof {
        assert(v@.take(n as int) =~= v@);
    }
    r
}

/// Finds the first occurrence of `pat` in `s`, if any.
fn find_subsequence(s: &Vec<u8>, pat: &Vec<u8>) -> (r: Option<usize>)
    ensures
        match r {
            Some(i) => contains_at(s@, pat@, i as int),
            None => !contains_seq(s@, pat@),
        },
{
    let n = s.len();
    let m = pat.len();
    if m > n {
        proof {
            assert forall|i: int| !contains_at(s@, pat@, i) by {}
        }
        return None;
    }
    let mut i: usize = 0;
    while i <= n - m
        invariant
            n == s@.len(),
            m == pat@.len(),
            m <= n,
            i <= n - m + 1,
            forall|k: int| 0 <= k < i ==> !contains_at(s@, pat@, k),
        decreases n - i,
    {
        let mut j: usize = 0;
        let mut matched = true;
        while j < m
            invariant
                n == s@.len(),
                m == pat@.len(),
                i + m <= n,
                j <= m,
                matched <==> (forall|t: int| 0 <= t < j ==> s@[i + t] == pat@[t]),
                !matched ==> j == m,
            decreases m - j,
        {
            if s[i + j] != pat[j] {
                matched = false;
                proof {
                    assert(s@[i + j] != pat@[j as int]);
                }
                j = m;
            } else {
                proof {
                    assert(forall|t: int|
                        0 <= t < j + 1 ==> s@[i + t] == pat@[t] || t == j);
                }
                j += 1;
            }
        }
        if matched {
            proof {
                assert(s@.subrange(i as int, i + m) =~= pat@);
            }
            return Some(i);
        }
        proof {
            if contains_at(s@, pat@, i as int) {
                assert(forall|t: int|
                    0 <= t < m ==> #[trigger] s@.subrange(i as int, i + m)[t] == s@[i + t]);
                assert(false);
            }
        }
        i += 1;
    }
    proof {
        assert forall|k: int| !contains_at(s@, pat@, k) by {
            if 0 <= k <= n - m {
                assert(!contains_at(s@, pat@, k));
            }
        }
    }
    None
}

} // verus!
