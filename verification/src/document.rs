//! The document-level view of an input page: its text with a line-start
//! index, the anchor search that locates where tar content is spliced in,
//! the fallback injection of missing anchors, and the recovery of embedded
//! files from a saved, possibly mangled copy.

use vstd::prelude::*;
use vstd::string::StringSliceAdditionalSpecFns;

use crate::b64::base64_decode_of;
use crate::dom::{spec_collect_dom, spec_find_dom, DataRecord, Dom, DomElement, Selector,
    SourceCharacter, TagSpan};
use crate::entry::EntryAttributes;
use crate::header::{spec_attrs_of, TarHeader};
use crate::html::{html_parse_of, parse_html, print_html};
use crate::sanitize::{entity_bytes, fffd_bytes, remove_bytes, replace_with_nul, spec_entity,
    spec_fffd, spec_remove_bytes, spec_replace_with_nul, spec_trim_byte, spec_trim_ws, trim_byte,
    trim_ws};

verus! {

/// Errors of the document layer: text the parser refuses, and anchors that
/// stay missing even after the fallback injection.
#[derive(Debug)]
pub enum DomError {
    /// The text could not be parsed as a document.
    Unparsable,
    /// A needed element was nowhere to be found. The fields say what was to
    /// be placed and what was searched for.
    MissingNode { content: String, searched_for: String },
}

/// The anchors of a document: the root element's span and where its start
/// tag ends, the insertion anchor, and the bootstrap script anchor.
pub struct Structure {
    pub html_tag: TagSpan,
    pub html_insertion_point: usize,
    pub insertion_tag: TagSpan,
    pub stage0: TagSpan,
}

/// One file recovered from a saved copy: its rebuilt header record and its
/// decoded contents.
pub struct TarFile {
    pub header: TarHeader,
    pub content: Vec<u8>,
}

impl TarFile {
    /// The user-defined attributes of this file entry.
    pub fn attributes(&self) -> (r: EntryAttributes)
        requires
            self.header.wf(),
        ensures
            r@ == spec_attrs_of(self.header@),
    {
        EntryAttributes::from_header(&self.header)
    }
}

/// The id of the element marking where tar content is inserted.
pub open spec fn spec_content_id() -> Seq<u8> {
    spec_ascii_content_id()
}

pub open spec fn spec_ascii_content_id() -> Seq<u8> {
    seq![87u8, 65u8, 72u8, 95u8, 80u8, 79u8, 76u8, 89u8, 71u8, 76u8, 79u8, 84u8, 95u8, 72u8,
        84u8, 77u8, 76u8, 95u8, 80u8, 76u8, 85u8, 83u8, 95u8, 84u8, 65u8, 82u8, 95u8, 67u8,
        79u8, 78u8, 84u8, 69u8, 78u8, 84u8]
}

/// The id of the bootstrap script element.
pub open spec fn spec_stage0_id() -> Seq<u8> {
    seq![87u8, 65u8, 72u8, 95u8, 80u8, 79u8, 76u8, 89u8, 71u8, 76u8, 79u8, 84u8, 95u8, 72u8,
        84u8, 77u8, 76u8, 95u8, 80u8, 76u8, 85u8, 83u8, 95u8, 84u8, 65u8, 82u8, 95u8, 83u8,
        84u8, 65u8, 71u8, 69u8, 48u8]
}

/// `WAH_POLYGLOT_HTML_PLUS_TAR_CONTENT` as bytes.
pub fn content_id_bytes() -> (r: Vec<u8>)
    ensures
        r@ == spec_content_id(),
{
    let part = id_prefix_bytes();
    let mut v = part;
    v.push(67u8);
    v.push(79u8);
    v.push(78u8);
    v.push(84u8);
    v.push(69u8);
    v.push(78u8);
    v.push(84u8);
    proof {
        assert(v@ =~= spec_content_id());
    }
    v
}

/// `WAH_POLYGLOT_HTML_PLUS_TAR_STAGE0` as bytes.
pub fn stage0_id_bytes() -> (r: Vec<u8>)
    ensures
        r@ == spec_stage0_id(),
{
    let part = id_prefix_bytes();
    let mut v = part;
    v.push(83u8);
    v.push(84u8);
    v.push(65u8);
    v.push(71u8);
    v.push(69u8);
    v.push(48u8);
    proof {
        assert(v@ =~= spec_stage0_id());
    }
    v
}

/// `WAH_POLYGLOT_HTML_PLUS_TAR_` as bytes: the shared id prefix.
fn id_prefix_bytes() -> (r: Vec<u8>)
    ensures
        r@ == seq![87u8, 65u8, 72u8, 95u8, 80u8, 79u8, 76u8, 89u8, 71u8, 76u8, 79u8, 84u8,
            95u8, 72u8, 84u8, 77u8, 76u8, 95u8, 80u8, 76u8, 85u8, 83u8, 95u8, 84u8, 65u8, 82u8,
            95u8],
{
    let mut v: Vec<u8> = Vec::new();
    v.push(87u8);
    v.push(65u8);
    v.push(72u8);
    v.push(95u8);
    v.push(80u8);
    v.push(79u8);
    v.push(76u8);
    v.push(89u8);
    v.push(71u8);
    v.push(76u8);
    v.push(79u8);
    v.push(84u8);
    v.push(95u8);
    v.push(72u8);
    v.push(84u8);
    v.push(77u8);
    v.push(76u8);
    v.push(95u8);
    v.push(80u8);
    v.push(76u8);
    v.push(85u8);
    v.push(83u8);
    v.push(95u8);
    v.push(84u8);
    v.push(65u8);
    v.push(82u8);
    v.push(95u8);
    proof {
        assert(v@ =~= seq![87u8, 65u8, 72u8, 95u8, 80u8, 79u8, 76u8, 89u8, 71u8, 76u8, 79u8,
            84u8, 95u8, 72u8, 84u8, 77u8, 76u8, 95u8, 80u8, 76u8, 85u8, 83u8, 95u8, 84u8, 65u8,
            82u8, 95u8]);
    }
    v
}

/// The positions where lines start: position zero if there is any text, and
/// every position right after a line feed that is not the text's end.
pub open spec fn spec_line_starts(s: Seq<u8>) -> Seq<int> {
    spec_line_starts_from(s, 0)
}

pub open spec fn spec_line_starts_from(s: Seq<u8>, i: int) -> Seq<int>
    decreases s.len() - i,
{
    if i < 0 || i >= s.len() {
        Seq::empty()
    } else if i == 0 || s[i - 1] == 10u8 {
        seq![i] + spec_line_starts_from(s, i + 1)
    } else {
        spec_line_starts_from(s, i + 1)
    }
}

/// HTML text plus an index of its line starts, so the parser's line and
/// column positions can be turned back into byte offsets.
pub struct SourceDocument {
    text: Vec<u8>,
    by_line: Vec<usize>,
}

impl SourceDocument {
    /// The document text.
    pub closed spec fn text_bytes(&self) -> Seq<u8> {
        self.text@
    }

    /// The line-start index.
    pub closed spec fn line_starts(&self) -> Seq<usize> {
        self.by_line@
    }

    /// The index lists exactly the line starts of the text.
    pub open spec fn wf(&self) -> bool {
        self.line_starts().map_values(|x: usize| x as int) == spec_line_starts(self.text_bytes())
    }

    /// Indexes the line starts of the given text.
    pub fn new(text: &str) -> (r: SourceDocument)
        ensures
            r.text_bytes() == text.spec_bytes(),
            r.wf(),
    {
        let bytes = vstd::slice::slice_to_vec(text.as_bytes());
        SourceDocument::from_bytes(bytes)
    }

    /// Indexes the line starts of the given bytes.
    pub fn from_bytes(text: Vec<u8>) -> (r: SourceDocument)
        ensures
            r.text_bytes() == text@,
            r.wf(),
    {
        let n = text.len();
        let mut by_line: Vec<usize> = Vec::new();
        let mut i: usize = 0;
        while i < n
            invariant
                n == text@.len(),
                i <= n,
                by_line@.map_values(|x: usize| x as int) + spec_line_starts_from(
                    text@,
                    i as int,
                ) == spec_line_starts(text@),
            decreases n - i,
        {
            if i == 0 || text[i - 1] == 10u8 {
                by_line.push(i);
                proof {
                    assert(by_line@.map_values(|x: usize| x as int) + spec_line_starts_from(
                        text@,
                        i as int + 1,
                    ) =~= spec_line_starts(text@));
                }
            } else {
                proof {
                    assert(by_line@.map_values(|x: usize| x as int) + spec_line_starts_from(
                        text@,
                        i as int + 1,
                    ) =~= spec_line_starts(text@));
                }
            }
            i += 1;
        }
        proof {
            assert(spec_line_starts_from(text@, n as int).len() == 0);
            assert(by_line@.map_values(|x: usize| x as int) =~= spec_line_starts(text@));
        }
        SourceDocument { text, by_line }
    }

    /// How many NUL bytes the text begins with; a position on the first
    /// line is biased by them, because the parser sees the text with its
    /// outer NULs stripped.
    pub open spec fn spec_bias(&self, line: usize) -> int {
        if line == 1 {
            crate::sanitize::count_leading(self.text_bytes(), 0u8) as int
        } else {
            0
        }
    }

    /// The byte offset of a one-based line and column position.
    pub open spec fn spec_position(&self, c: SourceCharacter) -> int {
        self.line_starts()[c.line - 1] + self.spec_bias(c.line) + c.column - 1
    }

    /// Is the span one this document can place?
    pub open spec fn spec_span_valid(&self, s: TagSpan) -> bool {
        &&& 1 <= s.start.line <= self.line_starts().len()
        &&& 1 <= s.end.line <= self.line_starts().len()
        &&& 1 <= s.start.column
        &&& 1 <= s.end.column
        &&& 0 <= self.spec_position(s.start) <= usize::MAX
        &&& 0 <= self.spec_position(s.end) <= usize::MAX
    }

    /// Turns an element span into a byte range of the text.
    pub fn span(&self, span: TagSpan) -> (r: core::ops::Range<usize>)
        requires
            self.spec_span_valid(span),
        ensures
            r.start == self.spec_position(span.start),
            r.end == self.spec_position(span.end),
    {
        let start = self.position(span.start);
        let end = self.position(span.end);
        start..end
    }

    /// The byte offset of one position.
    fn position(&self, c: SourceCharacter) -> (r: usize)
        requires
            1 <= c.line <= self.line_starts().len(),
            1 <= c.column,
            0 <= self.spec_position(c) <= usize::MAX,
        ensures
            r == self.spec_position(c),
    {
        let base = self.by_line[c.line - 1];
        let bias = if c.line == 1 {
            count_leading_nuls(&self.text)
        } else {
            0
        };
        base + bias + (c.column - 1)
    }

    /// Checks a span at run time, for callers that cannot know it valid.
    pub fn span_checked(&self, span: TagSpan) -> (r: Option<core::ops::Range<usize>>)
        ensures
            match r {
                Some(rg) => self.spec_span_valid(span) && rg.start == self.spec_position(
                    span.start,
                ) && rg.end == self.spec_position(span.end),
                None => !self.spec_span_valid(span),
            },
    {
        if span.start.line < 1 || span.start.line > self.by_line.len() {
            return None;
        }
        if span.end.line < 1 || span.end.line > self.by_line.len() {
            return None;
        }
        if span.start.column < 1 || span.end.column < 1 {
            return None;
        }
        let bias_s = if span.start.line == 1 {
            count_leading_nuls(&self.text)
        } else {
            0
        };
        let bias_e = if span.end.line == 1 {
            count_leading_nuls(&self.text)
        } else {
            0
        };
        let base_s = self.by_line[span.start.line - 1];
        let base_e = self.by_line[span.end.line - 1];
        if usize::MAX - base_s < bias_s {
            return None;
        }
        if usize::MAX - (base_s + bias_s) < span.start.column - 1 {
            return None;
        }
        if usize::MAX - base_e < bias_e {
            return None;
        }
        if usize::MAX - (base_e + bias_e) < span.end.column - 1 {
            return None;
        }
        Some(self.span(span))
    }

    /// A copy of the text.
    pub fn text_vec(&self) -> (r: Vec<u8>)
        ensures
            r@ == self.text_bytes(),
    {
        crate::bytes::copy_range(&self.text, 0, self.text.len())
    }

    /// A copy of the byte range `start .. end` of the text.
    pub fn text_range(&self, start: usize, end: usize) -> (r: Vec<u8>)
        requires
            start <= end <= self.text_bytes().len(),
        ensures
            r@ == self.text_bytes().subrange(start as int, end as int),
    {
        crate::bytes::copy_range(&self.text, start, end)
    }

    /// The text's length.
    pub fn text_len(&self) -> (r: usize)
        ensures
            r == self.text_bytes().len(),
    {
        self.text.len()
    }
}

/// Counts the NUL bytes the text begins with.
fn count_leading_nuls(text: &Vec<u8>) -> (r: usize)
    ensures
        r == crate::sanitize::count_leading(text@, 0u8),
{
    let n = text.len();
    let mut i: usize = 0;
    proof {
        assert(text@.skip(0) =~= text@);
    }
    while i < n && text[i] == 0u8
        invariant
            n == text@.len(),
            i <= n,
            crate::sanitize::count_leading(text@, 0u8) == i + crate::sanitize::count_leading(
                text@.skip(i as int),
                0u8,
            ),
        decreases n - i,
    {
        proof {
            assert(text@.skip(i as int)[0] == text@[i as int]);
            assert(text@.skip(i as int).skip(1) =~= text@.skip(i + 1));
        }
        i += 1;
    }
    proof {
        if i < n {
            assert(text@.skip(i as int)[0] == text@[i as int]);
        }
    }
    i
}


/// How many `>` bytes a byte string holds.
pub open spec fn count_gts(s: Seq<u8>) -> nat
    decreases s.len(),
{
    if s.len() == 0 {
        0
    } else {
        (if s[0] == 62u8 {
            1nat
        } else {
            0nat
        }) + count_gts(s.skip(1))
    }
}

/// How many `>` bytes all attribute names and values hold together.
pub open spec fn spec_gt_count_attrs(attrs: Seq<crate::dom::Attribute>) -> nat
    decreases attrs.len(),
{
    if attrs.len() == 0 {
        0
    } else {
        spec_gt_count_attrs(attrs.drop_last()) + count_gts(attrs.last().name@) + (match attrs.last().value {
            Some(v) => count_gts(v@),
            None => 0nat,
        })
    }
}

/// The position of the `k`-th `>` (zero based) at or after `i`.
pub open spec fn spec_nth_gt_from(s: Seq<u8>, i: int, k: nat) -> Option<int>
    decreases s.len() - i,
{
    if i < 0 || i >= s.len() {
        None
    } else if s[i] == 62u8 {
        if k == 0 {
            Some(i)
        } else {
            spec_nth_gt_from(s, i + 1, (k - 1) as nat)
        }
    } else {
        spec_nth_gt_from(s, i + 1, k)
    }
}

/// A string holds no more `>` bytes than bytes.
proof fn lemma_count_gts_bound(s: Seq<u8>)
    ensures
        count_gts(s) <= s.len(),
    decreases s.len(),
{
    if s.len() > 0 {
        lemma_count_gts_bound(s.skip(1));
    }
}

/// Asking for a later `>` than the string holds finds none.
proof fn lemma_nth_gt_exhausted(s: Seq<u8>, i: int, k: nat)
    requires
        0 <= i <= s.len(),
        k >= count_gts(s.skip(i)),
    ensures
        spec_nth_gt_from(s, i, k) is None,
    decreases s.len() - i,
{
    if i < s.len() {
        assert(s.skip(i)[0] == s[i]);
        assert(s.skip(i).skip(1) =~= s.skip(i + 1));
        if s[i] == 62u8 {
            assert(count_gts(s.skip(i)) == 1 + count_gts(s.skip(i + 1)));
            lemma_nth_gt_exhausted(s, i + 1, (k - 1) as nat);
        } else {
            lemma_nth_gt_exhausted(s, i + 1, k);
        }
    }
}

/// A prefix of the attribute list holds no more `>` bytes than the whole.
proof fn lemma_gt_count_prefix(attrs: Seq<crate::dom::Attribute>, i: int)
    requires
        0 <= i <= attrs.len(),
    ensures
        spec_gt_count_attrs(attrs.take(i)) <= spec_gt_count_attrs(attrs),
    decreases attrs.len() - i,
{
    if i == attrs.len() {
        assert(attrs.take(i) =~= attrs);
    } else {
        assert(attrs.take(i + 1).drop_last() =~= attrs.take(i));
        assert(attrs.take(i + 1).last() == attrs[i]);
        lemma_gt_count_prefix(attrs, i + 1);
    }
}

/// Counts the `>` bytes of one byte string.
fn count_gts_vec(v: &Vec<u8>) -> (r: usize)
    ensures
        r as nat == count_gts(v@),
        r <= v@.len(),
{
    proof {
        lemma_count_gts_bound(v@);
        assert(v@.skip(0) =~= v@);
    }
    let n = v.len();
    let mut count: usize = 0;
    let mut i: usize = 0;
    while i < n
        invariant
            n == v@.len(),
            i <= n,
            count <= i,
            count + count_gts(v@.skip(i as int)) == count_gts(v@),
        decreases n - i,
    {
        proof {
            assert(v@.skip(i as int)[0] == v@[i as int]);
            assert(v@.skip(i as int).skip(1) =~= v@.skip(i + 1));
        }
        if v[i] == 62u8 {
            count += 1;
        }
        i += 1;
    }
    count
}

impl SourceDocument {
    /// Where an element's start tag ends, as an offset into its own span:
    /// the first `>` past every `>` that hides inside an attribute value.
    pub open spec fn spec_end_of_start_tag(&self, el: DomElement) -> Option<int> {
        if !self.spec_span_valid(el.span) {
            None
        } else {
            let a = self.spec_position(el.span.start);
            let b = self.spec_position(el.span.end);
            if !(a <= b <= self.text_bytes().len()) {
                None
            } else {
                let slice = self.text_bytes().subrange(a, b);
                match spec_nth_gt_from(slice, 0, spec_gt_count_attrs(el.attributes@)) {
                    Some(p) => Some(p + 1),
                    None => None,
                }
            }
        }
    }

    /// Computes `spec_end_of_start_tag`. The span must be placeable and the
    /// tag closed, else nothing comes back.
    #[verifier::loop_isolation(false)]
    pub fn element_end_of_start_tag(&self, el: &DomElement) -> (r: Option<usize>)
        ensures
            match r {
                Some(p) => self.spec_end_of_start_tag(*el) == Some(p as int),
                None => self.spec_end_of_start_tag(*el) is None,
            },
    {
        let rg = match self.span_checked(el.span) {
            Some(rg) => rg,
            None => {
                return None;
            },
        };
        if rg.start > rg.end || rg.end > self.text_len() {
            return None;
        }
        let slice = self.text_range(rg.start, rg.end);
        let cap = slice.len();

        let n = el.attributes.len();
        let mut total: usize = 0;
        let mut i: usize = 0;
        proof {
            assert(el.attributes@.take(0).len() == 0);
        }
        while i < n
            invariant
                n == el.attributes@.len(),
                i <= n,
                total <= cap,
                cap == slice@.len(),
                slice@ == self.text_bytes().subrange(
                    self.spec_position(el.span.start),
                    self.spec_position(el.span.end),
                ),
                total as nat == spec_gt_count_attrs(el.attributes@.take(i as int)),
            decreases n - i,
        {
            proof {
                assert(el.attributes@.take(i + 1).drop_last() =~= el.attributes@.take(i as int));
                assert(el.attributes@.take(i + 1).last() == el.attributes@[i as int]);
            }
            let a = &el.attributes[i];
            let c1 = count_gts_vec(&a.name);
            let c2 = match &a.value {
                Some(v) => count_gts_vec(v),
                None => 0,
            };
            if c1 > cap - total || c2 > cap - total - c1 {
                proof {
                    assert(slice@.skip(0) =~= slice@);
                    lemma_gt_count_prefix(el.attributes@, i + 1);
                    lemma_count_gts_bound(slice@);
                    assert(spec_gt_count_attrs(el.attributes@) >= count_gts(slice@));
                    lemma_nth_gt_exhausted(slice@, 0, spec_gt_count_attrs(el.attributes@));
                }
                return None;
            }
            total = total + c1 + c2;
            i += 1;
        }
        proof {
            assert(el.attributes@.take(n as int) =~= el.attributes@);
        }

        let mut k: usize = total;
        let mut j: usize = 0;
        while j < cap
            invariant
                cap == slice@.len(),
                slice@ == self.text_bytes().subrange(
                    self.spec_position(el.span.start),
                    self.spec_position(el.span.end),
                ),
                j <= cap,
                spec_nth_gt_from(slice@, 0, total as nat) == spec_nth_gt_from(
                    slice@,
                    j as int,
                    k as nat,
                ),
                k <= total,
            decreases cap - j,
        {
            if slice[j] == 62u8 {
                if k == 0 {
                    proof {
                        assert(spec_nth_gt_from(slice@, j as int, 0) == Some(j as int));
                        assert(self.spec_end_of_start_tag(*el) == Some(j + 1));
                    }
                    return Some(j + 1);
                }
                k -= 1;
            }
            j += 1;
        }
        proof {
            assert(spec_nth_gt_from(slice@, cap as int, k as nat) is None);
        }
        None
    }
}


/// `html` as bytes.
pub open spec fn spec_html_name() -> Seq<u8> {
    seq![104u8, 116u8, 109u8, 108u8]
}

/// `script` as bytes.
pub open spec fn spec_script_name() -> Seq<u8> {
    seq![115u8, 99u8, 114u8, 105u8, 112u8, 116u8]
}

/// `head` as bytes.
pub open spec fn spec_head_name() -> Seq<u8> {
    seq![104u8, 101u8, 97u8, 100u8]
}

/// `body` as bytes.
pub open spec fn spec_body_name() -> Seq<u8> {
    seq![98u8, 111u8, 100u8, 121u8]
}

/// `template` as bytes.
pub open spec fn spec_template_name() -> Seq<u8> {
    seq![116u8, 101u8, 109u8, 112u8, 108u8, 97u8, 116u8, 101u8]
}

fn html_name_bytes() -> (r: Vec<u8>)
    ensures
        r@ == spec_html_name(),
{
    let mut v: Vec<u8> = Vec::new();
    v.push(104u8);
    v.push(116u8);
    v.push(109u8);
    v.push(108u8);
    proof {
        assert(v@ =~= spec_html_name());
    }
    v
}

fn script_name_bytes() -> (r: Vec<u8>)
    ensures
        r@ == spec_script_name(),
{
    let mut v: Vec<u8> = Vec::new();
    v.push(115u8);
    v.push(99u8);
    v.push(114u8);
    v.push(105u8);
    v.push(112u8);
    v.push(116u8);
    proof {
        assert(v@ =~= spec_script_name());
    }
    v
}

fn head_name_bytes() -> (r: Vec<u8>)
    ensures
        r@ == spec_head_name(),
{
    let mut v: Vec<u8> = Vec::new();
    v.push(104u8);
    v.push(101u8);
    v.push(97u8);
    v.push(100u8);
    proof {
        assert(v@ =~= spec_head_name());
    }
    v
}

fn body_name_bytes() -> (r: Vec<u8>)
    ensures
        r@ == spec_body_name(),
{
    let mut v: Vec<u8> = Vec::new();
    v.push(98u8);
    v.push(111u8);
    v.push(100u8);
    v.push(121u8);
    proof {
        assert(v@ =~= spec_body_name());
    }
    v
}

fn template_name_bytes() -> (r: Vec<u8>)
    ensures
        r@ == spec_template_name(),
{
    let mut v: Vec<u8> = Vec::new();
    v.push(116u8);
    v.push(101u8);
    v.push(109u8);
    v.push(112u8);
    v.push(108u8);
    v.push(97u8);
    v.push(116u8);
    v.push(101u8);
    proof {
        assert(v@ =~= spec_template_name());
    }
    v
}

/// The document's root elements after parsing its NUL-trimmed text and
/// dropping stray root text and comments, when the text parses at all.
pub open spec fn spec_cleaned_nodes(text: Seq<u8>) -> Option<Seq<crate::dom::DomNode>> {
    match html_parse_of(spec_trim_byte(text, 0u8)) {
        None => None,
        Some(d) => Some(crate::dom::spec_keep_elements(d.children@)),
    }
}

/// The three anchors as the searches find them: the root element and
/// where its start tag ends, the insertion anchor, and the bootstrap
/// script element.
pub struct FoundStructure {
    pub html: DomElement,
    pub insertion_point: int,
    pub insertion: DomElement,
    pub stage0: DomElement,
}

/// What one search pass over a document finds: the three anchor elements
/// and the end of the root element's start tag, or nothing when any of
/// them is missing or the text does not parse.
pub open spec fn spec_found_structure(doc: SourceDocument) -> Option<FoundStructure> {
    match spec_cleaned_nodes(doc.text_bytes()) {
        None => None,
        Some(nodes) => match crate::dom::spec_find_rev(
            nodes,
            crate::dom::SelView::ByName(spec_html_name()),
        ) {
            None => None,
            Some(html) => match crate::dom::spec_find_rev(
                nodes,
                crate::dom::SelView::ById(spec_content_id()),
            ) {
                None => None,
                Some(insertion) => match crate::dom::spec_find_rev(
                    nodes,
                    crate::dom::SelView::NamedWithId(spec_script_name(), spec_stage0_id()),
                ) {
                    None => None,
                    Some(stage0) => match doc.spec_end_of_start_tag(html) {
                        None => None,
                        Some(insertion_point) => Some(
                            FoundStructure { html, insertion_point, insertion, stage0 },
                        ),
                    },
                },
            },
        },
    }
}

/// Do the returned spans come from exactly what the searches find?
pub open spec fn structure_matches(doc: SourceDocument, st: Structure) -> bool {
    match spec_found_structure(doc) {
        Some(fs) => {
            &&& st.html_tag == fs.html.span
            &&& st.html_insertion_point as int == fs.insertion_point
            &&& st.insertion_tag == fs.insertion.span
            &&& st.stage0 == fs.stage0.span
        },
        None => false,
    }
}

impl SourceDocument {
    /// Locates the three anchors of the document: the root element, the
    /// insertion anchor and the bootstrap script. When an anchor is absent
    /// on the first pass, fallback anchors are injected into `head` and
    /// `body`, the text is rewritten, and a second pass must find them.
    ///
    /// On success the returned spans are exactly what the searches find
    /// over the final text.
    pub fn prepare_tar_structure(&mut self) -> (r: Result<Structure, DomError>)
        requires
            old(self).wf(),
        ensures
            final(self).wf(),
            match r {
                Ok(st) => structure_matches(*final(self), st),
                Err(_) => spec_found_structure(*final(self)) is None,
            },
            final(self).text_bytes() == old(self).text_bytes() || (exists|tr: RewriteTrace|
                #[trigger] rewrite_traced(tr, old(self).text_bytes(), final(self).text_bytes())),
    {
        match self.structure_pass() {
            Ok(st) => {
                return Ok(st);
            },
            Err(FirstPass::Unparsable) => {
                return Err(DomError::Unparsable);
            },
            Err(FirstPass::MissingAnchors { need_insertion, need_stage0 }) => {
                let tv = self.text_vec();
                let trimmed = trim_byte(&tv, 0u8);
                let dom = match parse_html(&trimmed) {
                    Some(d) => d,
                    None => {
                        return Err(DomError::Unparsable);
                    },
                };
                let dom = crate::dom::clean_start_of_file(dom);
                let mut nodes = dom.children;
                if need_insertion {
                    let head = head_name_bytes();
                    let template = template_name_bytes();
                    let id = content_id_bytes();
                    let (injected, ok) = crate::dom::inject_in(nodes, &head, &template, &id, false);
                    nodes = injected;
                    if !ok {
                        return Err(
                            DomError::MissingNode {
                                content: missing_content_text(),
                                searched_for: missing_head_text(),
                            },
                        );
                    }
                }
                let ghost after_template = nodes@;
                if need_stage0 {
                    let body = body_name_bytes();
                    let script = script_name_bytes();
                    let id = stage0_id_bytes();
                    let (injected, ok) = crate::dom::inject_in(nodes, &body, &script, &id, true);
                    nodes = injected;
                    if !ok {
                        return Err(
                            DomError::MissingNode {
                                content: missing_stage0_text(),
                                searched_for: missing_body_text(),
                            },
                        );
                    }
                }
                let ghost after_script = nodes@;
                let fixed = crate::dom::fix_empty_list(nodes);
                let ghost fixed_v = fixed@;
                let printed = print_html(&Dom { children: fixed });
                let rebuilt = SourceDocument::from_bytes(printed);
                self.text = rebuilt.text;
                self.by_line = rebuilt.by_line;
                proof {
                    let tr = RewriteTrace {
                        injected_template: need_insertion,
                        after_template,
                        injected_script: need_stage0,
                        after_script,
                        fixed: fixed_v,
                    };
                    assert(rewrite_traced(tr, old(self).text_bytes(), self.text_bytes()));
                }
                match self.structure_pass() {
                    Ok(st) => Ok(st),
                    Err(FirstPass::Unparsable) => Err(DomError::Unparsable),
                    Err(FirstPass::MissingAnchors { need_insertion, need_stage0 }) => {
                        if need_insertion {
                            Err(
                                DomError::MissingNode {
                                    content: missing_content_text(),
                                    searched_for: missing_insertion_text(),
                                },
                            )
                        } else {
                            Err(
                                DomError::MissingNode {
                                    content: missing_stage0_text(),
                                    searched_for: missing_script_text(),
                                },
                            )
                        }
                    },
                }
            },
        }
    }

    /// One search pass; says which anchors are missing instead of
    /// injecting them.
    fn structure_pass(&self) -> (r: Result<Structure, FirstPass>)
        ensures
            match r {
                Ok(st) => structure_matches(*self, st),
                Err(_) => spec_found_structure(*self) is None,
            },
    {
        let tv = self.text_vec();
        let trimmed = trim_byte(&tv, 0u8);
        let dom = match parse_html(&trimmed) {
            Some(d) => d,
            None => {
                return Err(FirstPass::Unparsable);
            },
        };
        let dom = crate::dom::clean_start_of_file(dom);
        let html_sel = Selector::ByName(html_name_bytes());
        let ins_sel = Selector::ById(content_id_bytes());
        let st0_sel = Selector::NamedWithId(script_name_bytes(), stage0_id_bytes());
        let need_insertion = match crate::dom::find_dom(&dom, &ins_sel) {
            Some(_) => false,
            None => true,
        };
        let need_stage0 = match crate::dom::find_dom(&dom, &st0_sel) {
            Some(_) => false,
            None => true,
        };
        if need_insertion || need_stage0 {
            return Err(FirstPass::MissingAnchors { need_insertion, need_stage0 });
        }
        let html = match crate::dom::find_dom(&dom, &html_sel) {
            Some(h) => h,
            None => {
                return Err(
                    FirstPass::MissingAnchors { need_insertion: true, need_stage0: true },
                );
            },
        };
        let insertion_point = match self.element_end_of_start_tag(html) {
            Some(p) => p,
            None => {
                return Err(
                    FirstPass::MissingAnchors { need_insertion: true, need_stage0: true },
                );
            },
        };
        let html_span = html.span;
        let insertion = match crate::dom::find_dom(&dom, &ins_sel) {
            Some(el) => el.span,
            None => {
                return Err(FirstPass::MissingAnchors { need_insertion: true, need_stage0 });
            },
        };
        let stage0 = match crate::dom::find_dom(&dom, &st0_sel) {
            Some(el) => el.span,
            None => {
                return Err(FirstPass::MissingAnchors { need_insertion, need_stage0: true });
            },
        };
        Ok(
            Structure {
                html_tag: html_span,
                html_insertion_point: insertion_point,
                insertion_tag: insertion,
                stage0,
            },
        )
    }
}

/// What the first pass found wanting.
enum FirstPass {
    Unparsable,
    MissingAnchors { need_insertion: bool, need_stage0: bool },
}

fn missing_content_text() -> String {
    "tar contents".to_owned()
}

fn missing_stage0_text() -> String {
    "the bootstrap script".to_owned()
}

fn missing_head_text() -> String {
    "the end of the head element".to_owned()
}

fn missing_body_text() -> String {
    "the start of the body element".to_owned()
}

fn missing_insertion_text() -> String {
    "an element with the insertion id".to_owned()
}

fn missing_script_text() -> String {
    "a script element with the bootstrap id".to_owned()
}


/// The intermediate trees of an anchor-injection rewrite: the cleaned
/// roots after each optional injection, and after the childless normal
/// elements were kept printable, in the order the rewrite applies them.
pub struct RewriteTrace {
    pub injected_template: bool,
    pub after_template: Seq<crate::dom::DomNode>,
    pub injected_script: bool,
    pub after_script: Seq<crate::dom::DomNode>,
    pub fixed: Seq<crate::dom::DomNode>,
}

/// Did this rewrite turn the parse of `old_text` into `new_text`?
pub open spec fn rewrite_traced(tr: RewriteTrace, old_text: Seq<u8>, new_text: Seq<u8>) -> bool {
    match html_parse_of(spec_trim_byte(old_text, 0u8)) {
        Some(d0) => {
            let cleaned = crate::dom::spec_keep_elements(d0.children@);
            &&& if tr.injected_template {
                crate::dom::inject_seq_rel(
                    tr.after_template,
                    cleaned,
                    spec_head_name(),
                    spec_template_name(),
                    spec_content_id(),
                    false,
                )
            } else {
                tr.after_template == cleaned
            }
            &&& if tr.injected_script {
                crate::dom::inject_seq_rel(
                    tr.after_script,
                    tr.after_template,
                    spec_body_name(),
                    spec_script_name(),
                    spec_stage0_id(),
                    true,
                )
            } else {
                tr.after_script == tr.after_template
            }
            &&& crate::dom::fixed_seq_rel(tr.fixed, tr.after_script)
            &&& new_text == crate::html::html_text_of(tr.fixed)
        },
        None => false,
    }
}

/// The intermediate trees of the cleanup a recovery leaves behind: the
/// roots with the injected attribute removed, then with the data elements
/// stripped, then with childless normal elements kept printable.
pub struct CleanupTrace {
    pub mid: Seq<crate::dom::DomNode>,
    pub stripped: Seq<crate::dom::DomNode>,
    pub fixed: Seq<crate::dom::DomNode>,
}

/// Both replacement spellings of a mangled NUL restored to NUL bytes.
pub open spec fn spec_unmangle(s: Seq<u8>) -> Seq<u8> {
    spec_replace_with_nul(spec_replace_with_nul(s, spec_fffd()), spec_entity())
}

/// The file a recovered record yields, if any: the rebuilt 512-byte header
/// and the decoded contents. A record is dropped when its name or header
/// tail is too long for its field, when it has no text, when its header
/// names no plain file, or when its text is no valid encoding.
pub open spec fn spec_file_of_record(rec: DataRecord) -> Option<(Seq<u8>, Seq<u8>)> {
    let name = spec_trim_byte(spec_unmangle(rec.id), 0u8);
    if name.len() > 100 {
        None
    } else {
        let hdr = spec_unmangle(rec.header_tail);
        if hdr.len() > 412 {
            None
        } else {
            let block = crate::bytes::splice(
                crate::bytes::splice(crate::bytes::zeroes(512), 100, hdr),
                0,
                name,
            );
            match rec.text {
                None => None,
                Some(t) => {
                    let cleaned = spec_trim_ws(
                        spec_trim_byte(spec_remove_bytes(spec_unmangle(t), 13u8, 10u8), 0u8),
                    );
                    if block[156] == 120u8 || block[156] == 83u8 {
                        None
                    } else {
                        match base64_decode_of(cleaned) {
                            Some(d) => Some((block, d)),
                            None => None,
                        }
                    }
                },
            }
        }
    }
}

/// Every file the records yield, in order.
pub open spec fn spec_split_files(records: Seq<DataRecord>) -> Seq<(Seq<u8>, Seq<u8>)>
    decreases records.len(),
{
    if records.len() == 0 {
        Seq::empty()
    } else {
        spec_split_files(records.drop_last()) + (match spec_file_of_record(records.last()) {
            Some(f) => seq![f],
            None => Seq::<(Seq<u8>, Seq<u8>)>::empty(),
        })
    }
}

/// Do the recovered files carry exactly these header and content bytes?
pub open spec fn files_ok(fs: Seq<TarFile>, specs: Seq<(Seq<u8>, Seq<u8>)>) -> bool {
    fs.len() == specs.len() && forall|i: int|
        0 <= i < fs.len() ==> (#[trigger] fs[i]).header@ == specs[i].0 && fs[i].header.wf()
            && fs[i].content@ == specs[i].1
}

impl SourceDocument {
    /// Recovers the embedded files from a saved, possibly mangled copy:
    /// the browser's NUL rewrites are undone over the whole text, every
    /// data-carrying element yields its name and header tail from
    /// attributes and its payload from its text. Afterwards the data
    /// elements are stripped from the document, which is reprinted in a
    /// clean form.
    #[verifier::loop_isolation(false)]
    pub fn split_tar_contents(&mut self) -> (r: Result<Vec<TarFile>, DomError>)
        requires
            old(self).wf(),
        ensures
            final(self).wf(),
            match r {
                Ok(files) => match html_parse_of(
                    spec_trim_byte(spec_unmangle(old(self).text_bytes()), 0u8),
                ) {
                    Some(d) => files_ok(
                        files@,
                        spec_split_files(crate::dom::spec_collect_rev(d.children@)),
                    ) && (exists|cleaned: CleanupTrace|
                        crate::dom::root_attr_rel(cleaned.mid, d.children@, false)
                            && crate::dom::strip_seq_rel(cleaned.stripped, cleaned.mid)
                            && crate::dom::fixed_seq_rel(cleaned.fixed, cleaned.stripped)
                            && final(self).text_bytes() == crate::html::html_text_of(
                            cleaned.fixed,
                        )),
                    None => false,
                },
                Err(_) => html_parse_of(
                    spec_trim_byte(spec_unmangle(old(self).text_bytes()), 0u8),
                ) is None,
            },
    {
        let tv = self.text_vec();
        let restored = replace_with_nul(&replace_with_nul(&tv, &fffd_bytes()), &entity_bytes());
        let trimmed = trim_byte(&restored, 0u8);
        let dom = match parse_html(&trimmed) {
            Some(d) => d,
            None => {
                return Err(DomError::Unparsable);
            },
        };
        let records = crate::dom::collect_data_elements(&dom);
        let ghost specs = crate::dom::spec_collect_dom(dom);

        let fffd = fffd_bytes();
        let ent = entity_bytes();
        let mut files: Vec<TarFile> = Vec::new();
        let n = records.len();
        let mut i: usize = 0;
        proof {
            assert(specs.take(0).len() == 0);
        }
        while i < n
            invariant
                i <= n,
                files_ok(files@, spec_split_files(specs.take(i as int))),
            decreases n - i,
        {
            proof {
                assert(specs.take(i + 1).drop_last() =~= specs.take(i as int));
                assert(specs.take(i + 1).last() == specs[i as int]);
            }
            let rec = &records[i];
            let ghost spec_rec = specs[i as int];
            let name = trim_byte(&replace_with_nul(&replace_with_nul(&rec.id, &fffd), &ent), 0u8);
            let mut kept: Option<TarFile> = None;
            if name.len() <= 100 {
                let hdr = replace_with_nul(&replace_with_nul(&rec.header_tail, &fffd), &ent);
                if hdr.len() <= 412 {
                    let mut header = TarHeader::empty();
                    header.write_at(100, &hdr);
                    header.write_at(0, &name);
                    match &rec.text {
                        Some(t) => {
                            let cleaned = trim_ws(
                                &trim_byte(
                                    &remove_bytes(
                                        &replace_with_nul(&replace_with_nul(t, &fffd), &ent),
                                        13u8,
                                        10u8,
                                    ),
                                    0u8,
                                ),
                            );
                            let flag = header.typeflag();
                            if flag != 120u8 && flag != 83u8 {
                                match crate::b64::base64_decode(&cleaned) {
                                    Some(content) => {
                                        kept = Some(TarFile { header, content });
                                    },
                                    None => {},
                                }
                            }
                        },
                        None => {},
                    }
                }
            }
            proof {
                match &kept {
                    Some(f) => {
                        assert(match spec_file_of_record(spec_rec) {
                            Some(c) => f.header@ == c.0 && f.header.wf() && f.content@ == c.1,
                            None => false,
                        });
                    },
                    None => {
                        assert(spec_file_of_record(spec_rec) is None);
                    },
                }
            }
            let ghost before_files = files@;
            match kept {
                Some(f) => {
                    files.push(f);
                },
                None => {},
            }
            proof {
                assert(files_ok(files@, spec_split_files(specs.take(i + 1))));
            }
            i += 1;
        }
        proof {
            assert(specs.take(n as int) =~= specs);
        }

        let cleared = crate::dom::remove_data_a_root(dom);
        let stripped = crate::dom::strip_data_list(cleared.children);
        let fixed = crate::dom::fix_empty_list(stripped);
        let ghost mid_v = cleared.children@;
        let ghost stripped_v = stripped@;
        let ghost fixed_v = fixed@;
        let printed = print_html(&Dom { children: fixed });
        let rebuilt = SourceDocument::from_bytes(printed);
        self.text = rebuilt.text;
        self.by_line = rebuilt.by_line;
        proof {
            assert(self.text_bytes() == crate::html::html_text_of(fixed_v));
            let trace = CleanupTrace { mid: mid_v, stripped: stripped_v, fixed: fixed_v };
            assert(crate::dom::root_attr_rel(trace.mid, dom.children@, false)
                && crate::dom::strip_seq_rel(trace.stripped, trace.mid)
                && crate::dom::fixed_seq_rel(trace.fixed, trace.stripped) && self.text_bytes()
                == crate::html::html_text_of(trace.fixed));
        }
        Ok(files)
    }
}

} // verus!
