//! The glue that assembles the final artifact: anchors located in the
//! input page, the head rewritten into the first tar header, every entry
//! emitted between head and insertion anchor, the end-of-file records, and
//! the untouched remainder of the page behind them. The contract fixes the
//! returned bytes completely: success yields exactly the layout
//! `spec_build_layout` describes, and failure comes exactly when that
//! layout does not exist.

use vstd::prelude::*;

use crate::b64::base64_of;
use crate::bytes::{zeroes, SeqOfBytes};
use crate::document::{spec_found_structure, DomError, SourceDocument};
use crate::engine::{spec_doctype_head, spec_entry_file_header, spec_first_header,
    spec_initial_extra, spec_initial_header, TarEngine};
use crate::entry::{AttrsV, Entry};
use crate::document::spec_stage0_id;
use crate::escape::spec_eof_terminator;
use crate::header::spec_empty_header;

verus! {

/// One item handed to the builder.
pub enum TarItem {
    Entry(Entry),
}

/// Why a build was refused.
#[derive(Debug)]
pub enum BuildError {
    /// The anchors could not be located.
    Dom(DomError),
    /// The located anchors do not fit the document, or lie in the wrong
    /// order.
    Layout,
    /// An entry is too large for a header field, or the archive grew past
    /// what the offsets can carry.
    Oversized,
}

/// Zero bytes needed to reach the next multiple of 512.
pub open spec fn pad512(n: nat) -> nat {
    if n % 512 == 0 {
        0
    } else {
        (512 - n % 512) as nat
    }
}

/// The name bytes of one item.
pub open spec fn item_name(item: TarItem) -> Seq<u8> {
    match item {
        TarItem::Entry(e) => e.name@,
    }
}

/// The raw data bytes of one item.
pub open spec fn item_data(item: TarItem) -> Seq<u8> {
    match item {
        TarItem::Entry(e) => e.data@,
    }
}

/// The metadata of one item.
pub open spec fn item_attrs(item: TarItem) -> AttrsV {
    match item {
        TarItem::Entry(e) => e.attributes@,
    }
}

/// How long the padded base64 encoding of `d` is.
pub open spec fn enc_len(d: Seq<u8>) -> nat {
    4 * ((d.len() + 2) / 3)
}

/// Does every entry fit its header fields, and does the running offset
/// stay within what the engine carries?
pub open spec fn spec_entries_ok(items: Seq<TarItem>, len0: nat) -> bool
    decreases items.len(),
{
    if items.len() == 0 {
        true
    } else {
        &&& len0 < 0x1000_0000_0000_0000
        &&& item_name(items[0]).len() < 90
        &&& item_data(items[0]).len() < 0x1_8000_0000
        &&& enc_len(item_data(items[0])) < 0x2_0000_0000
        &&& enc_len(item_data(items[0])) <= usize::MAX
        &&& match item_attrs(items[0]).mtime {
            Some(m) => m < 0x2_0000_0000,
            None => true,
        }
        &&& match item_attrs(items[0]).uname {
            Some(u) => u.len() < 31,
            None => true,
        }
        &&& match item_attrs(items[0]).gname {
            Some(g) => g.len() < 31,
            None => true,
        }
        &&& spec_entries_ok(
            items.skip(1),
            len0 + pad512(len0) + 1024 + enc_len(item_data(items[0])),
        )
    }
}

/// The bytes the engine emits for a run of entries starting at offset
/// `len0`, with `esc` saying whether an escape element is already open:
/// for each entry its padding to the 512 boundary, the two headers, and
/// the base64 payload.
pub open spec fn spec_entries_bytes(items: Seq<TarItem>, len0: nat, esc: bool) -> Seq<u8>
    decreases items.len(),
{
    if items.len() == 0 {
        Seq::empty()
    } else {
        let payload_len = enc_len(item_data(items[0]));
        zeroes(pad512(len0) as int) + spec_first_header(esc) + spec_entry_file_header(
            item_name(items[0]),
            item_attrs(items[0]),
            payload_len,
        ) + base64_of(item_data(items[0])) + spec_entries_bytes(
            items.skip(1),
            len0 + pad512(len0) + 1024 + payload_len,
            true,
        )
    }
}

/// The archive end emitted after at least one entry: padding to the 512
/// boundary, two zero records, and the element closer.
pub open spec fn spec_eof_segment(len_end: nat, any: bool) -> Seq<u8> {
    if any {
        zeroes(pad512(len_end) as int) + spec_empty_header() + spec_empty_header()
            + spec_eof_terminator()
    } else {
        Seq::empty()
    }
}

/// `<script id=WAH_POLYGLOT_HTML_PLUS_TAR_STAGE0>` as a byte sequence.
pub open spec fn spec_script_open() -> Seq<u8> {
    seq![60u8, 115u8, 99u8, 114u8, 105u8, 112u8, 116u8, 32u8, 105u8, 100u8, 61u8]
        + spec_stage0_id() + seq![62u8]
}

/// `</script>` as a byte sequence.
pub open spec fn spec_script_close() -> Seq<u8> {
    seq![60u8, 47u8, 115u8, 99u8, 114u8, 105u8, 112u8, 116u8, 62u8]
}

/// The artifact a build yields over this document, or nothing when the
/// anchors are missing, lie wrong, or an entry does not fit. The layout:
/// the initial header over the head, its decimal size prefix and comment
/// introducer, the document text up to the insertion anchor, every entry's
/// block, the archive end when any entry was emitted, the text between the
/// anchors, the bootstrap script either replaced or kept, and the tail.
#[verifier::opaque]
pub open spec fn spec_build_layout(
    doc: SourceDocument,
    items: Seq<TarItem>,
    script: Option<Seq<u8>>,
) -> Option<Seq<u8>> {
    match spec_found_structure(doc) {
        None => None,
        Some(fs) => {
            let text = doc.text_bytes();
            if !(doc.spec_span_valid(fs.html.span) && doc.spec_span_valid(fs.insertion.span)
                && doc.spec_span_valid(fs.stage0.span)) {
                None
            } else {
                let hs = doc.spec_position(fs.html.span.start);
                let ip = fs.insertion_point;
                let ins_s = doc.spec_position(fs.insertion.span.start);
                let ins_e = doc.spec_position(fs.insertion.span.end);
                let ent_s = doc.spec_position(fs.stage0.span.start);
                let ent_e = doc.spec_position(fs.stage0.span.end);
                if ip > text.len() || hs > text.len() - ip {
                    None
                } else {
                    let head_end = hs + ip;
                    if !(ins_e < ent_s) {
                        None
                    } else if ins_s > ins_e || ent_s > ent_e || ent_e > text.len() {
                        None
                    } else if head_end > ins_s {
                        None
                    } else {
                        let head = text.subrange(0, head_end);
                        if !(spec_doctype_head(head).len() < 91 && spec_doctype_head(head).len()
                            > 0 && spec_doctype_head(head).last() == 62u8) {
                            None
                        } else if ins_s > usize::MAX - 21 {
                            None
                        } else {
                            let tail_len = (ins_s - head_end) as nat;
                            if tail_len + 21 >= 0x2_0000_0000 {
                                None
                            } else {
                                let len0 = (533 + tail_len) as nat;
                                if !spec_entries_ok(items, len0) {
                                    None
                                } else {
                                    let body = spec_entries_bytes(items, len0, false);
                                    if items.len() > 0 && len0 + body.len()
                                        > 0x1000_0000_0000_0000 {
                                        None
                                    } else {
                                        Some(
                                            spec_initial_header(head, tail_len)
                                                + spec_initial_extra(tail_len) + text.subrange(
                                                head_end,
                                                ins_s,
                                            ) + body + spec_eof_segment(
                                                len0 + body.len(),
                                                items.len() > 0,
                                            ) + text.subrange(ins_e, ent_s) + (match script {
                                                Some(s) => spec_script_open() + s
                                                    + spec_script_close(),
                                                None => text.subrange(ent_s, ent_e),
                                            }) + text.subrange(ent_e, text.len() as int),
                                        )
                                    }
                                }
                            }
                        }
                    }
                }
            }
        },
    }
}

/// A padding that reaches the next 512 boundary and stays below 512 is the
/// one `pad512` names.
proof fn lemma_pad_unique(l: nat, p: nat)
    requires
        (l + p) % 512 == 0,
        p < 512,
    ensures
        p == pad512(l),
{
    let r = l % 512;
    vstd::arithmetic::div_mod::lemma_fundamental_div_mod(l as int, 512);
    vstd::arithmetic::div_mod::lemma_add_mod_noop(l as int, p as int, 512);
    vstd::arithmetic::div_mod::lemma_mod_division_less_than_divisor(l as int, 512);
    assert((r + p) % 512 == 0);
    if r + p < 512 {
        vstd::arithmetic::div_mod::lemma_small_mod((r + p) as nat, 512);
    } else {
        vstd::arithmetic::div_mod::lemma_fundamental_div_mod_converse(
            (r + p) as int,
            512,
            1,
            (r + p) as int - 512,
        );
    }
}

/// Checks the fit of every entry up front, matching `spec_entries_ok`.
fn entries_ok_exec(items: &Vec<TarItem>, len0: u64) -> (r: bool)
    ensures
        r == spec_entries_ok(items@, len0 as nat),
{
    let n = items.len();
    let mut cur: u64 = len0;
    let mut i: usize = 0;
    proof {
        assert(items@.skip(0) =~= items@);
    }
    while i < n
        invariant
            n == items@.len(),
            i <= n,
            spec_entries_ok(items@, len0 as nat) == spec_entries_ok(
                items@.skip(i as int),
                cur as nat,
            ),
        decreases n - i,
    {
        proof {
            assert(items@.skip(i as int)[0] == items@[i as int]);
            assert(items@.skip(i as int).skip(1) =~= items@.skip(i as int + 1));
        }
        if cur >= 0x1000_0000_0000_0000u64 {
            return false;
        }
        let item = &items[i];
        match item {
            TarItem::Entry(entry) => {
                if entry.name.0.len() >= 90 {
                    return false;
                }
                let dlen: u64 = entry.data.len() as u64;
                if dlen >= 0x1_8000_0000u64 {
                    return false;
                }
                let enc: u64 = 4 * ((dlen + 2) / 3);
                if enc >= 0x2_0000_0000u64 {
                    return false;
                }
                if enc > usize::MAX as u64 {
                    return false;
                }
                let ok_attrs = (match &entry.attributes.mtime {
                    Some(m) => *m < 0x2_0000_0000u64,
                    None => true,
                }) && (match &entry.attributes.uname {
                    Some(u) => u.0.len() < 31,
                    None => true,
                }) && (match &entry.attributes.gname {
                    Some(g) => g.0.len() < 31,
                    None => true,
                });
                if !ok_attrs {
                    return false;
                }
                let rem: u64 = cur % 512;
                let pad: u64 = if rem == 0 {
                    0
                } else {
                    512 - rem
                };
                proof {
                    assert(pad as nat == pad512(cur as nat));
                }
                cur = cur + pad + 1024 + enc;
            },
        }
        i += 1;
    }
    proof {
        assert(items@.skip(n as int).len() == 0);
    }
    true
}

/// `<script id=WAH_POLYGLOT_HTML_PLUS_TAR_STAGE0>` as bytes.
fn script_open_bytes() -> (r: Vec<u8>)
    ensures
        r@ == spec_script_open(),
{
    let mut v: Vec<u8> = Vec::new();
    v.push(60u8);
    v.push(115u8);
    v.push(99u8);
    v.push(114u8);
    v.push(105u8);
    v.push(112u8);
    v.push(116u8);
    v.push(32u8);
    v.push(105u8);
    v.push(100u8);
    v.push(61u8);
    let id = crate::document::stage0_id_bytes();
    crate::bytes::extend_bytes(&mut v, &id);
    v.push(62u8);
    proof {
        assert(v@ =~= spec_script_open());
    }
    v
}

/// `</script>` as bytes.
fn script_close_bytes() -> (r: Vec<u8>)
    ensures
        r@ == spec_script_close(),
{
    let mut v: Vec<u8> = Vec::new();
    v.push(60u8);
    v.push(47u8);
    v.push(115u8);
    v.push(99u8);
    v.push(114u8);
    v.push(105u8);
    v.push(112u8);
    v.push(116u8);
    v.push(62u8);
    proof {
        assert(v@ =~= spec_script_close());
    }
    v
}

/// Emits every entry through the engine, appending each block to `out`.
#[verifier::loop_isolation(false)]
#[verifier::rlimit(100)]
#[verifier::spinoff_prover]
fn emit_entries(engine: &mut TarEngine, out: &mut SeqOfBytes, items: Vec<TarItem>)
    requires
        spec_entries_ok(items@, old(engine).encoded_len() as nat),
        !old(engine).in_escape(),
    ensures
        final(out).joined() == old(out).joined() + spec_entries_bytes(
            items@,
            old(engine).encoded_len() as nat,
            false,
        ),
        final(engine).encoded_len() as nat == old(engine).encoded_len() as nat
            + spec_entries_bytes(items@, old(engine).encoded_len() as nat, false).len(),
        final(engine).in_escape() == (items@.len() > 0 || old(engine).in_escape()),
        forall|k: int|
            0 <= k < items@.len() ==> #[trigger] base64_of(item_data(items@[k])).len() == enc_len(
                item_data(items@[k]),
            ),
{
    let ghost len0 = old(engine).encoded_len() as nat;
    let ghost pre = out.joined();
    proof {
        assert(items@.skip(0) =~= items@);
    }
    let total = items.len();
    let mut rest = items;
    let mut i: usize = 0;
    while rest.len() > 0
        invariant
            i + rest@.len() == total,
            total == items@.len(),
            forall|j: int| 0 <= j < rest@.len() ==> rest@[j] == items@[i + j],
            engine.in_escape() == (i > 0),
            spec_entries_ok(items@.skip(i as int), engine.encoded_len() as nat),
            pre + spec_entries_bytes(items@, len0, false) == out.joined() + spec_entries_bytes(
                items@.skip(i as int),
                engine.encoded_len() as nat,
                i > 0,
            ),
            engine.encoded_len() as nat == len0 + out.joined().len() - pre.len(),
            out.joined().len() >= pre.len(),
            forall|k: int|
                0 <= k < i ==> #[trigger] base64_of(item_data(items@[k])).len() == enc_len(
                    item_data(items@[k]),
                ),
        decreases rest@.len(),
    {
        let ghost cur = engine.encoded_len() as nat;
        let ghost suffix = items@.skip(i as int);
        proof {
            assert(suffix[0] == items@[i as int]);
            assert(suffix.skip(1) =~= items@.skip(i as int + 1));
        }
        let item = rest.remove(0);
        proof {
            assert(item == items@[i as int]);
        }
        match item {
            TarItem::Entry(entry) => {
                let ghost before = out.joined();
                let data = engine.escaped_base64(entry);
                proof {
                    lemma_pad_unique(cur, data.padding@.len() as nat);
                }
                let ghost block = zeroes(pad512(cur) as int) + spec_first_header(i > 0)
                    + spec_entry_file_header(
                    item_name(items@[i as int]),
                    item_attrs(items@[i as int]),
                    enc_len(item_data(items@[i as int])),
                ) + base64_of(item_data(items@[i as int]));
                out.own(data.padding);
                out.push(data.header.as_bytes());
                out.push(data.file.as_bytes());
                out.own(data.data);
                proof {
                    assert(out.joined() =~= before + block);
                    assert(spec_entries_bytes(suffix, cur, i > 0) == block + spec_entries_bytes(
                        suffix.skip(1),
                        cur + pad512(cur) + 1024 + enc_len(item_data(items@[i as int])),
                        true,
                    ));
                    assert((before + block) + spec_entries_bytes(
                        items@.skip(i as int + 1),
                        engine.encoded_len() as nat,
                        true,
                    ) =~= before + (block + spec_entries_bytes(
                        items@.skip(i as int + 1),
                        engine.encoded_len() as nat,
                        true,
                    )));
                }
            },
        }
        i += 1;
    }
    proof {
        assert(items@.skip(total as int).len() == 0);
        assert(out.joined() + spec_entries_bytes(
            items@.skip(total as int),
            engine.encoded_len() as nat,
            total > 0,
        ) =~= out.joined());
    }
}

/// Builds the artifact: the document with every entry embedded between its
/// head and its insertion anchor, and the bootstrap script either replaced
/// or kept. The document text may be rewritten when fallback anchors had
/// to be injected. Success returns exactly the bytes `spec_build_layout`
/// lays out over the final document; failure comes exactly when no such
/// layout exists.
#[verifier::rlimit(100)]
#[verifier::spinoff_prover]
pub fn build(
    source: &mut SourceDocument,
    entries: Vec<TarItem>,
    script: Option<&Vec<u8>>,
) -> (r: Result<Vec<u8>, BuildError>)
    requires
        old(source).wf(),
    ensures
        final(source).wf(),
        ({
            let script_bytes = match script {
                Some(s) => Some(s@),
                None => None,
            };
            match r {
                Ok(out) => spec_build_layout(*final(source), entries@, script_bytes) == Some(
                    out@,
                ) && (forall|k: int|
                    0 <= k < entries@.len() ==> #[trigger] base64_of(
                        item_data(entries@[k]),
                    ).len() == enc_len(item_data(entries@[k]))),
                Err(_) => spec_build_layout(*final(source), entries@, script_bytes) is None,
            }
        }),
{
    let structure = match source.prepare_tar_structure() {
        Ok(s) => s,
        Err(e) => {
            proof {
                reveal(spec_build_layout);
            }
            return Err(BuildError::Dom(e));
        },
    };

    let text_len = source.text_len();
    let html_rg = match source.span_checked(structure.html_tag) {
        Some(rg) => rg,
        None => {
            proof {
                reveal(spec_build_layout);
            }
            return Err(BuildError::Layout);
        },
    };
    let where_to_insert = match source.span_checked(structure.insertion_tag) {
        Some(rg) => rg,
        None => {
            proof {
                reveal(spec_build_layout);
            }
            return Err(BuildError::Layout);
        },
    };
    let where_to_enter = match source.span_checked(structure.stage0) {
        Some(rg) => rg,
        None => {
            proof {
                reveal(spec_build_layout);
            }
            return Err(BuildError::Layout);
        },
    };
    if structure.html_insertion_point > text_len
        || html_rg.start > text_len - structure.html_insertion_point {
        proof {
            reveal(spec_build_layout);
        }
        return Err(BuildError::Layout);
    }
    let head_end = html_rg.start + structure.html_insertion_point;
    if !(where_to_insert.end < where_to_enter.start) {
        proof {
            reveal(spec_build_layout);
        }
        return Err(BuildError::Layout);
    }
    if where_to_insert.start > where_to_insert.end || where_to_enter.start > where_to_enter.end
        || where_to_enter.end > text_len {
        proof {
            reveal(spec_build_layout);
        }
        return Err(BuildError::Layout);
    }
    if head_end > where_to_insert.start {
        proof {
            reveal(spec_build_layout);
        }
        return Err(BuildError::Layout);
    }

    let head = source.text_range(0, head_end);
    if !TarEngine::head_fits(&head) {
        proof {
            reveal(spec_build_layout);
        }
        return Err(BuildError::Layout);
    }
    if where_to_insert.start > usize::MAX - 21 {
        proof {
            reveal(spec_build_layout);
        }
        return Err(BuildError::Layout);
    }
    let tail_len64: u64 = (where_to_insert.start - head_end) as u64;
    if tail_len64 + 21 >= 0x2_0000_0000u64 {
        proof {
            reveal(spec_build_layout);
        }
        return Err(BuildError::Oversized);
    }
    if !entries_ok_exec(&entries, 533 + tail_len64) {
        proof {
            reveal(spec_build_layout);
        }
        return Err(BuildError::Oversized);
    }

    let mut engine = TarEngine::new();
    let mut out = SeqOfBytes::new();

    let init = engine.start_of_file(head.as_slice(), where_to_insert.start);
    out.push(init.header.as_bytes());
    out.own(init.extra);
    out.own(source.text_range(head_end, where_to_insert.start));

    let ghost tail_len = tail_len64 as nat;
    let ghost len0 = (533 + tail_len) as nat;
    let ghost pre = out.joined();
    proof {
        assert(engine.encoded_len() as nat == len0);
    }

    let total = entries.len();
    let ghost items = entries@;
    emit_entries(&mut engine, &mut out, entries);

    let ghost body = spec_entries_bytes(items, len0, false);
    let ghost len_end = len0 + body.len();
    proof {
        assert(out.joined() == pre + body);
        assert(engine.encoded_len() as nat == len_end);
    }

    if total > 0 {
        if engine.len_value() > 0x1000_0000_0000_0000u64 {
            proof {
                reveal(spec_build_layout);
            }
            return Err(BuildError::Oversized);
        }
        let ghost before = out.joined();
        let eof = engine.escaped_eof();
        proof {
            lemma_pad_unique(len_end, eof.padding@.len() as nat);
        }
        out.own(eof.padding);
        out.push(eof.header.as_bytes());
        out.push(eof.file.as_bytes());
        out.own(eof.data);
        proof {
            assert(out.joined() =~= (pre + body) + spec_eof_segment(len_end, items.len() > 0));
        }
    } else {
        proof {
            assert(out.joined() =~= (pre + body) + spec_eof_segment(len_end, items.len() > 0));
        }
    }

    out.own(source.text_range(where_to_insert.end, where_to_enter.start));
    match script {
        Some(source_script) => {
            out.own(script_open_bytes());
            out.push(source_script.as_slice());
            out.own(script_close_bytes());
        },
        None => {
            out.own(source.text_range(where_to_enter.start, where_to_enter.end));
        },
    }
    out.own(source.text_range(where_to_enter.end, text_len));

    let result = out.join();
    proof {
        reveal(spec_build_layout);
        let script_bytes = match script {
            Some(s) => Some(s@),
            None => None::<Seq<u8>>,
        };
        assert(spec_build_layout(*source, items, script_bytes) matches Some(expected) && result@
            =~= expected);
    }
    Ok(result)
}

} // verus!
