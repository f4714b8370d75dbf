//! The encode/decode round trip at the record level: the double header and
//! payload the engine emits for one embedded entry, placed at any
//! 512-aligned offset of a stream, is classified by the decoder as exactly
//! that entry, with the payload range pointing at the payload.

use vstd::prelude::*;

use crate::bytes::{lemma_find_nul_at, lemma_splice_len, splice};
use crate::b64::base64_of;
use crate::builder::{enc_len, item_attrs, item_data, item_name, spec_entries_bytes,
    spec_entries_ok, TarItem};
use crate::bytes::zeroes;
use crate::decompiler::{spec_next_double_header, EscapeClass};
use crate::engine::{spec_entry_file_header, spec_first_header};
use crate::entry::{AttrsV, TarError};
use crate::escape::{spec_cont_name, spec_data_start, spec_eof_terminator, spec_id_end_cont,
    spec_id_tail, spec_mode_field, spec_mtime_field, spec_magic_field, spec_nobody_field,
    spec_owner_id_field, spec_start_name, spec_version_field};
use crate::header::{checksum_of, field, lemma_byte_sum_bound, lemma_pow8_values, min_octal,
    octal_field, octal_width, spec_empty_header, spec_parse_size, spec_with_checksum,
    spec_with_meta, spec_with_size, lemma_min_octal_value, lemma_octal_width_low};
use crate::octal::{lemma_radix_rep_digits, lemma_radix_rep_len,
    lemma_radix_round_trip_exact, radix_rep};

verus! {

/// Metadata whose fields fit their header fields.
pub open spec fn attrs_fit(a: AttrsV) -> bool {
    &&& match a.mtime {
        Some(m) => m < 0x2_0000_0000,
        None => true,
    }
    &&& match a.uname {
        Some(u) => u.len() < 31,
        None => true,
    }
    &&& match a.gname {
        Some(g) => g.len() < 31,
        None => true,
    }
}

/// A record whose size field was just written parses back to that size,
/// whatever was spliced into other fields afterwards.
proof fn lemma_parse_size_of(h: Seq<u8>, n: nat)
    requires
        h.len() == 512,
        field(h, 124, 12) == octal_field(n, 11),
        n < 0x2_0000_0000,
    ensures
        spec_parse_size(h) == Ok::<u64, TarError>(n as u64),
{
    lemma_pow8_values();
    let rep = radix_rep(n, 11, 8);
    lemma_radix_rep_len(n, 11, 8);
    lemma_radix_rep_digits(n, 11, 8);
    lemma_radix_round_trip_exact(n, 11, 8);
    let f = field(h, 124, 12);
    assert(f[0] == rep[0]);
    assert(crate::octal::is_digit_of(rep[0], 8));
    assert(forall|j: int| 0 <= j < 11 ==> #[trigger] f[j] == rep[j] && f[j] != 0u8);
    assert(f[11] == 0u8);
    lemma_find_nul_at(f, 11);
    assert(crate::bytes::cstr_prefix(f) =~= rep);
}

/// The shape of the extension header of a double header: 512 bytes, the
/// extension typeflag, size zero, and a prefix tail that is no element
/// closer, so it never classifies as anything but an entry opener.
#[verifier::rlimit(100)]
#[verifier::spinoff_prover]
proof fn lemma_first_header_shape(e: bool)
    ensures
        spec_first_header(e).len() == 512,
        spec_first_header(e)[156] == 120u8,
        spec_first_header(e).subrange(489, 500) != spec_eof_terminator(),
        spec_parse_size(spec_first_header(e)) == Ok::<u64, TarError>(0u64),
        spec_first_header(e) != spec_empty_header(),
{
    reveal(crate::engine::spec_first_header);
    let start = if e {
        spec_cont_name()
    } else {
        spec_start_name()
    };
    assert(start.len() == if e {
        66int
    } else {
        55int
    });
    let h0 = spec_empty_header();
    let h1 = splice(h0, 0, start);
    lemma_splice_len(h0, 0, start);
    let h2 = h1.update(156, 120u8);
    let h3 = spec_with_size(h2, 0);
    lemma_radix_rep_len(0, 11, 8);
    lemma_splice_len(h2, 124, octal_field(0, 11));
    let m1 = splice(h3, 100, spec_mode_field());
    lemma_splice_len(h3, 100, spec_mode_field());
    let m2 = splice(m1, 108, spec_owner_id_field());
    lemma_splice_len(m1, 108, spec_owner_id_field());
    let m3 = splice(m2, 116, spec_owner_id_field());
    lemma_splice_len(m2, 116, spec_owner_id_field());
    let m4 = splice(m3, 136, spec_mtime_field());
    lemma_splice_len(m3, 136, spec_mtime_field());
    let m5 = splice(m4, 257, spec_magic_field());
    lemma_splice_len(m4, 257, spec_magic_field());
    let m6 = splice(m5, 263, spec_version_field());
    lemma_splice_len(m5, 263, spec_version_field());
    let m7 = splice(m6, 265, spec_nobody_field());
    lemma_splice_len(m6, 265, spec_nobody_field());
    let h4 = splice(m7, 297, spec_nobody_field());
    lemma_splice_len(m7, 297, spec_nobody_field());
    assert(h4 == spec_with_meta(h3));
    let h5 = splice(h4, 500 - spec_id_tail().len(), spec_id_tail());
    lemma_splice_len(h4, 482, spec_id_tail());
    let sum = checksum_of(h5);
    lemma_byte_sum_bound(splice(h5, 148, Seq::new(8, |i: int| 32u8)));
    lemma_radix_rep_len(sum as nat, 6, 8);
    let hc = spec_with_checksum(h5);
    lemma_splice_len(h5, 148, radix_rep(sum as nat, 6, 8) + seq![0u8, 32u8]);
    assert(hc == spec_first_header(e));
    assert(hc.len() == 512);
    assert(hc[156] == 120u8);
    assert(hc.subrange(489, 500)[0] == spec_id_tail()[7]);
    assert(spec_id_tail()[7] != spec_eof_terminator()[0]);
    assert(hc.subrange(489, 500) != spec_eof_terminator());
    assert(field(hc, 124, 12) =~= octal_field(0, 11));
    lemma_pow8_values();
    lemma_parse_size_of(hc, 0);
    assert(hc != spec_empty_header()) by {
        assert(spec_empty_header()[156] == 0u8);
    }
}

/// The shape of a file header: 512 bytes whose size field parses back to
/// the payload length.
#[verifier::rlimit(100)]
#[verifier::spinoff_prover]
proof fn lemma_file_header_shape(name: Seq<u8>, attrs: AttrsV, size: nat)
    requires
        name.len() < 90,
        attrs_fit(attrs),
        size < 0x2_0000_0000,
    ensures
        spec_entry_file_header(name, attrs, size).len() == 512,
        spec_parse_size(spec_entry_file_header(name, attrs, size)) == Ok::<u64, TarError>(
            size as u64,
        ),
{
    reveal(crate::engine::spec_entry_file_header);
    let h0 = spec_empty_header();
    let h1 = splice(h0, 0, name);
    lemma_splice_len(h0, 0, name);
    let h2 = splice(h1, 100 - spec_id_end_cont().len(), spec_id_end_cont());
    lemma_splice_len(h1, 90, spec_id_end_cont());
    let h3 = splice(h2, 500 - spec_data_start().len(), spec_data_start());
    lemma_splice_len(h2, 498, spec_data_start());
    let h4 = spec_with_size(h3, size);
    lemma_radix_rep_len(size, 11, 8);
    lemma_splice_len(h3, 124, octal_field(size, 11));
    let m1 = splice(h4, 100, spec_mode_field());
    lemma_splice_len(h4, 100, spec_mode_field());
    let m2 = splice(m1, 108, spec_owner_id_field());
    lemma_splice_len(m1, 108, spec_owner_id_field());
    let m3 = splice(m2, 116, spec_owner_id_field());
    lemma_splice_len(m2, 116, spec_owner_id_field());
    let m4 = splice(m3, 136, spec_mtime_field());
    lemma_splice_len(m3, 136, spec_mtime_field());
    let m5 = splice(m4, 257, spec_magic_field());
    lemma_splice_len(m4, 257, spec_magic_field());
    let m6 = splice(m5, 263, spec_version_field());
    lemma_splice_len(m5, 263, spec_version_field());
    let m7 = splice(m6, 265, spec_nobody_field());
    lemma_splice_len(m6, 265, spec_nobody_field());
    let h5 = splice(m7, 297, spec_nobody_field());
    lemma_splice_len(m7, 297, spec_nobody_field());
    assert(h5 == spec_with_meta(h4));

    let a1 = match attrs.mtime {
        Some(m) => splice(h5, 136, octal_field(m as nat, 11)),
        None => h5,
    };
    proof_attr_mtime_len(h5, attrs);
    let a2 = match attrs.uname {
        Some(u) => splice(a1, 265, u.push(0u8)),
        None => a1,
    };
    assert(a1.len() == 512) by {
        match attrs.mtime {
            Some(m) => {
                lemma_radix_rep_len(m as nat, 11, 8);
                lemma_splice_len(h5, 136, octal_field(m as nat, 11));
            },
            None => {},
        }
    }
    assert(a2.len() == 512) by {
        match attrs.uname {
            Some(u) => {
                lemma_splice_len(a1, 265, u.push(0u8));
            },
            None => {},
        }
    }
    let a3 = match attrs.gname {
        Some(g) => splice(a2, 297, g.push(0u8)),
        None => a2,
    };
    assert(a3.len() == 512) by {
        match attrs.gname {
            Some(g) => {
                lemma_splice_len(a2, 297, g.push(0u8));
            },
            None => {},
        }
    }
    let wj = octal_width(attrs.devmajor as nat);
    let wn = octal_width(attrs.devminor as nat);
    lemma_min_octal_value(attrs.devmajor as nat);
    lemma_min_octal_value(attrs.devminor as nat);
    assert(wj <= 6 && wn <= 6) by {
        if wj > 6 {
            lemma_octal_width_low(attrs.devmajor as nat, 6);
            lemma_pow8_values();
        }
        if wn > 6 {
            lemma_octal_width_low(attrs.devminor as nat, 6);
            lemma_pow8_values();
        }
    }
    let a4 = splice(a3, 329, min_octal(attrs.devmajor as nat).push(0u8));
    lemma_splice_len(a3, 329, min_octal(attrs.devmajor as nat).push(0u8));
    let a5 = splice(a4, 337, min_octal(attrs.devminor as nat).push(0u8));
    lemma_splice_len(a4, 337, min_octal(attrs.devminor as nat).push(0u8));
    assert(a5 == crate::header::spec_assign_attributes(h5, attrs));

    let sum = checksum_of(a5);
    lemma_byte_sum_bound(splice(a5, 148, Seq::new(8, |i: int| 32u8)));
    lemma_radix_rep_len(sum as nat, 6, 8);
    let hc = spec_with_checksum(a5);
    lemma_splice_len(a5, 148, radix_rep(sum as nat, 6, 8) + seq![0u8, 32u8]);
    assert(hc == spec_entry_file_header(name, attrs, size));
    assert(hc.len() == 512);
    assert(field(hc, 124, 12) =~= octal_field(size, 11));
    lemma_parse_size_of(hc, size);
}

proof fn proof_attr_mtime_len(h: Seq<u8>, attrs: AttrsV)
    requires
        h.len() == 512,
        attrs_fit(attrs),
    ensures
        match attrs.mtime {
            Some(m) => octal_field(m as nat, 11).len() == 12,
            None => true,
        },
{
    match attrs.mtime {
        Some(m) => {
            lemma_radix_rep_len(m as nat, 11, 8);
        },
        None => {},
    }
}

/// Slicing the three pieces of an entry block back out of the stream it
/// was emitted into.
#[verifier::rlimit(100)]
#[verifier::spinoff_prover]
proof fn lemma_block_extract(pre: Seq<u8>, a: Seq<u8>, b: Seq<u8>, c: Seq<u8>, trail: Seq<u8>)
    requires
        a.len() == 512,
        b.len() == 512,
    ensures
        ({
            let data = pre + a + b + c + trail;
            &&& data.subrange(pre.len() as int, pre.len() as int + 512) == a
            &&& data.subrange(pre.len() as int + 512, pre.len() as int + 1024) == b
            &&& data.subrange(
                pre.len() as int + 1024,
                pre.len() as int + 1024 + c.len() as int,
            ) == c
        }),
{
    let data = pre + a + b + c + trail;
    assert(data.subrange(pre.len() as int, pre.len() as int + 512) =~= a);
    assert(data.subrange(pre.len() as int + 512, pre.len() as int + 1024) =~= b);
    assert(data.subrange(
        pre.len() as int + 1024,
        pre.len() as int + 1024 + c.len() as int,
    ) =~= c);
}

/// The round-trip law for one embedded entry: wherever the emitted double
/// header lands on a 512-byte boundary of a stream, the decoder classifies
/// it as an entry carrying exactly the emitted file header, and its payload
/// range points at the emitted payload bytes.
#[verifier::rlimit(100)]
#[verifier::spinoff_prover]
pub proof fn lemma_entry_round_trip(
    pre: Seq<u8>,
    is_escaped: bool,
    name: Seq<u8>,
    attrs: AttrsV,
    payload: Seq<u8>,
    trail: Seq<u8>,
)
    requires
        pre.len() % 512 == 0,
        name.len() < 90,
        attrs_fit(attrs),
        payload.len() < 0x2_0000_0000,
        pre.len() + 1024 + payload.len() <= usize::MAX,
    ensures
        ({
            let file = spec_entry_file_header(name, attrs, payload.len());
            let data = pre + spec_first_header(is_escaped) + file + payload + trail;
            &&& spec_next_double_header(data, pre.len()).0 == Ok::<EscapeClass, TarError>(
                EscapeClass::Entry {
                    file,
                    start: pre.len() + 1024,
                    end: pre.len() + 1024 + payload.len(),
                },
            )
            &&& spec_next_double_header(data, pre.len()).1 == pre.len() + 1024 + payload.len()
            &&& data.subrange(
                pre.len() + 1024 as int,
                (pre.len() + 1024 + payload.len()) as int,
            ) == payload
        }),
{
    lemma_first_header_shape(is_escaped);
    lemma_file_header_shape(name, attrs, payload.len());
    let ext = spec_first_header(is_escaped);
    let file = spec_entry_file_header(name, attrs, payload.len());
    let data = pre + ext + file + payload + trail;
    let base = pre.len();

    assert(crate::decompiler::align512(base as nat) == base);
    assert(data.len() == base + 1024 + payload.len() + trail.len());

    lemma_block_extract(pre, ext, file, payload, trail);
    let ext_sub = data.subrange(base as int, base as int + 512);
    let file_sub = data.subrange(base as int + 512, base as int + 1024);

    assert(ext_sub.subrange(489, 500) == ext.subrange(489, 500));
    assert(ext_sub.subrange(489, 500) != spec_eof_terminator());
    assert(ext_sub != spec_empty_header());
    assert(ext_sub[156] == 120u8);
    assert(spec_parse_size(ext_sub) == Ok::<u64, TarError>(0u64));
    assert(spec_parse_size(file_sub) == Ok::<u64, TarError>(payload.len() as u64));
}


/// Aligning a cursor lands on a multiple of 512, moves it forward by less
/// than a record, and adds exactly the padding the layout inserts.
pub proof fn lemma_align512(n: nat)
    ensures
        crate::decompiler::align512(n) % 512 == 0,
        n <= crate::decompiler::align512(n) < n + 512,
        crate::decompiler::align512(n) == n + crate::builder::pad512(n),
{
    let l = n as int;
    let q = l / 512;
    vstd::arithmetic::div_mod::lemma_fundamental_div_mod(l, 512);
    vstd::arithmetic::div_mod::lemma_mod_division_less_than_divisor(l, 512);
    if l % 512 == 0 {
        vstd::arithmetic::div_mod::lemma_mod_multiples_basic(q, 512);
    } else {
        assert(l + (512 - l % 512) == (q + 1) * 512) by {
            assert((q + 1) * 512 == q * 512 + 512) by (nonlinear_arith);
        }
        vstd::arithmetic::div_mod::lemma_mod_multiples_basic(q + 1, 512);
    }
}

/// One step of decoding a run of entries: at any cursor whose stream holds
/// the emitted entry blocks followed by anything, the decoder classifies
/// the first block as exactly its entry, and what is left at the new
/// cursor is again a run of entry blocks. Iterating this law decodes a
/// whole built run in order, entry for entry.
#[verifier::rlimit(100)]
#[verifier::spinoff_prover]
pub proof fn lemma_entries_decode_step(
    data: Seq<u8>,
    cur: nat,
    items: Seq<TarItem>,
    esc: bool,
    rest: Seq<u8>,
)
    requires
        items.len() > 0,
        cur <= data.len(),
        data.len() <= usize::MAX,
        data.skip(cur as int) == spec_entries_bytes(items, cur, esc) + rest,
        spec_entries_ok(items, cur),
        forall|k: int|
            0 <= k < items.len() ==> #[trigger] base64_of(item_data(items[k])).len() == enc_len(
                item_data(items[k]),
            ),
    ensures
        ({
            let base = crate::decompiler::align512(cur);
            let e0 = enc_len(item_data(items[0]));
            let file = spec_entry_file_header(item_name(items[0]), item_attrs(items[0]), e0);
            let start = base + 1024;
            let end = start + e0;
            &&& spec_next_double_header(data, cur) == (
                Ok::<EscapeClass, TarError>(EscapeClass::Entry { file, start, end }),
                end,
            )
            &&& data.subrange(start as int, end as int) == base64_of(item_data(items[0]))
            &&& end <= data.len()
            &&& data.skip(end as int) == spec_entries_bytes(items.skip(1), end, true) + rest
            &&& spec_entries_ok(items.skip(1), end)
            &&& forall|k: int|
                0 <= k < items.skip(1).len() ==> #[trigger] base64_of(
                    item_data(items.skip(1)[k]),
                ).len() == enc_len(item_data(items.skip(1)[k]))
        }),
{
    lemma_align512(cur);
    let base = crate::decompiler::align512(cur);
    let d0 = item_data(items[0]);
    let e0 = enc_len(d0);
    let payload = base64_of(d0);
    assert(payload.len() == e0);
    let nm = item_name(items[0]);
    let at = item_attrs(items[0]);
    let first = spec_first_header(esc);
    let file = spec_entry_file_header(nm, at, e0);
    let end = base + 1024 + e0;
    let tail_entries = spec_entries_bytes(items.skip(1), end, true);
    let trail = tail_entries + rest;
    lemma_first_header_shape(esc);
    lemma_file_header_shape(nm, at, e0);
    assert(spec_entries_bytes(items, cur, esc) == zeroes(
        crate::builder::pad512(cur) as int,
    ) + first + file + payload + tail_entries);

    assert(data.skip(cur as int).len() == data.len() - cur);
    assert(first.len() == 512);
    assert(file.len() == 512);
    assert(spec_entries_bytes(items, cur, esc).len() == crate::builder::pad512(cur) + 1024 + e0
        + tail_entries.len());
    assert(end <= data.len());
    assert(base <= data.len());
    let pre = data.take(base as int);
    assert(pre.len() == base);
    assert(pre.len() % 512 == 0);
    assert(data =~= pre + first + file + payload + trail) by {
        assert forall|i: int| cur <= i < data.len() implies data[i] == (spec_entries_bytes(
            items,
            cur,
            esc,
        ) + rest)[i - cur] by {
            assert(data[i] == data.skip(cur as int)[i - cur]);
        }
    }
    lemma_entry_round_trip(pre, esc, nm, at, payload, trail);
    assert(spec_next_double_header(data, cur) == spec_next_double_header(data, pre.len() as nat));
    assert(spec_next_double_header(data, cur) == (
        Ok::<EscapeClass, TarError>(EscapeClass::Entry { file, start: base + 1024, end }),
        end,
    ));

    assert(data.skip(end as int) =~= trail);
    assert(spec_entries_ok(items.skip(1), end));
    assert(forall|k: int|
        0 <= k < items.skip(1).len() ==> #[trigger] base64_of(
            item_data(items.skip(1)[k]),
        ).len() == enc_len(item_data(items.skip(1)[k]))) by {
        assert(forall|k: int|
            0 <= k < items.skip(1).len() ==> items.skip(1)[k] == items[k + 1]);
    }
}

/// The end of a run: at a cursor whose stream holds the emitted archive
/// end, the decoder inside an escape classifies it as the end of the
/// archive, consuming the element closer behind the zero records.
#[verifier::rlimit(100)]
#[verifier::spinoff_prover]
pub proof fn lemma_eof_decode(data: Seq<u8>, cur: nat, rest: Seq<u8>)
    requires
        cur <= data.len(),
        data.len() <= usize::MAX,
        data.skip(cur as int) == crate::builder::spec_eof_segment(cur, true) + rest,
    ensures
        crate::decompiler::spec_continue_escape(data, cur) == (
            Ok::<EscapeClass, TarError>(
                EscapeClass::Eof { end: crate::decompiler::align512(cur) + 1024 + 11 },
            ),
            crate::decompiler::align512(cur) + 1024,
        ),
{
    lemma_align512(cur);
    let base = crate::decompiler::align512(cur);
    assert(crate::builder::spec_eof_segment(cur, true) == zeroes(
        crate::builder::pad512(cur) as int,
    ) + spec_empty_header() + spec_empty_header() + spec_eof_terminator());
    assert(data.skip(cur as int).len() == data.len() - cur);
    assert(spec_empty_header().len() == 512);
    assert(spec_eof_terminator().len() == 11);
    assert(crate::builder::spec_eof_segment(cur, true).len() == crate::builder::pad512(cur)
        + 1024 + 11);
    assert(base + 1024 + 11 <= data.len());
    assert(forall|i: int|
        cur <= i < data.len() ==> #[trigger] data[i] == (crate::builder::spec_eof_segment(
            cur,
            true,
        ) + rest)[i - cur]) by {
        assert(forall|i: int|
            cur <= i < data.len() ==> #[trigger] data[i] == data.skip(cur as int)[i - cur]);
    }
    let ext = data.subrange(base as int, base as int + 512);
    let fl = data.subrange(base as int + 512, base as int + 1024);
    assert(ext =~= spec_empty_header());
    assert(fl =~= spec_empty_header());
    assert(ext.subrange(489, 500)[0] == 0u8);
    assert(spec_eof_terminator()[0] == 60u8);
    assert(ext.subrange(489, 500) != spec_eof_terminator());
    assert(crate::header::field(ext, 124, 12)[0] == 0u8);
    assert(data.subrange(base as int + 1024, base as int + 1024 + 11) =~= spec_eof_terminator());
    assert(base + 1024 + 11 <= data.len());
}


/// Decoding the artifact's first record: a stream that begins with the
/// initial header and its payload prefix hands back exactly the stored
/// head text and the position where the copied document text continues.
/// The head must be free of NUL bytes, as document text is.
#[verifier::rlimit(100)]
#[verifier::spinoff_prover]
pub proof fn lemma_initial_decode(data: Seq<u8>, head: Seq<u8>, tail_len: nat, rest: Seq<u8>)
    requires
        data == crate::engine::spec_initial_header(head, tail_len)
            + crate::engine::spec_initial_extra(tail_len) + rest,
        rest.len() >= tail_len,
        data.len() <= usize::MAX,
        tail_len + 21 < 0x2_0000_0000,
        crate::engine::spec_doctype_head(head).len() < 91,
        crate::engine::spec_doctype_head(head).len() > 0,
        crate::engine::spec_doctype_head(head).last() == 62u8,
        crate::bytes::nul_free(crate::engine::spec_doctype_head(head)),
    ensures
        ({
            let dhead = crate::engine::spec_doctype_head(head);
            &&& crate::decompiler::spec_initial(data, 0).0
                == (crate::decompiler::InitialClass::Ranges {
                head_start: 1,
                head_end: dhead.len(),
                cont_start: 532,
                cont_end: 533 + tail_len,
            })
            &&& crate::decompiler::spec_initial(data, 0).1 == 533 + tail_len
            &&& data.subrange(1, dhead.len() as int - 1 + 1) == dhead.take(dhead.len() - 1)
        }),
{
    reveal(crate::engine::spec_initial_header);
    let dhead = crate::engine::spec_doctype_head(head);
    let dlen = dhead.len() as int;
    let size = (21 + tail_len) as nat;

    let h0 = spec_empty_header();
    let body = dhead.take(dlen - 1);
    let h1 = splice(h0, 1, body);
    lemma_splice_len(h0, 1, body);
    let h2 = splice(h1, dlen, crate::escape::spec_data_escape());
    lemma_splice_len(h1, dlen, crate::escape::spec_data_escape());
    let h3 = h2.update(156, 120u8);
    let h4 = spec_with_size(h3, size);
    lemma_radix_rep_len(size, 11, 8);
    lemma_splice_len(h3, 124, octal_field(size, 11));
    let m1 = splice(h4, 100, spec_mode_field());
    lemma_splice_len(h4, 100, spec_mode_field());
    let m2 = splice(m1, 108, spec_owner_id_field());
    lemma_splice_len(m1, 108, spec_owner_id_field());
    let m3 = splice(m2, 116, spec_owner_id_field());
    lemma_splice_len(m2, 116, spec_owner_id_field());
    let m4 = splice(m3, 136, spec_mtime_field());
    lemma_splice_len(m3, 136, spec_mtime_field());
    let m5 = splice(m4, 257, spec_magic_field());
    lemma_splice_len(m4, 257, spec_magic_field());
    let m6 = splice(m5, 263, spec_version_field());
    lemma_splice_len(m5, 263, spec_version_field());
    let m7 = splice(m6, 265, spec_nobody_field());
    lemma_splice_len(m6, 265, spec_nobody_field());
    let h5 = splice(m7, 297, spec_nobody_field());
    lemma_splice_len(m7, 297, spec_nobody_field());
    assert(h5 == spec_with_meta(h4));
    let sum = checksum_of(h5);
    lemma_byte_sum_bound(splice(h5, 148, Seq::new(8, |i: int| 32u8)));
    lemma_radix_rep_len(sum as nat, 6, 8);
    let hc = spec_with_checksum(h5);
    lemma_splice_len(h5, 148, radix_rep(sum as nat, 6, 8) + seq![0u8, 32u8]);
    assert(hc == crate::engine::spec_initial_header(head, tail_len));
    assert(hc.len() == 512);

    let extra = crate::engine::spec_initial_extra(tail_len);
    let digits = radix_rep(11 + tail_len, 10, 10);
    lemma_radix_rep_len(11 + tail_len, 10, 10);
    lemma_radix_rep_digits(11 + tail_len, 10, 10);
    assert(extra.len() == 21);
    assert(data.len() == 533 + rest.len());

    let h = data.subrange(0, 512);
    assert(h =~= hc);
    assert(field(h, 124, 12) =~= octal_field(size, 11));
    lemma_pow8_values();
    lemma_parse_size_of(h, size);

    let namefield = h.subrange(1, 100);
    assert(namefield[dlen + 8] == 0u8);
    assert(forall|j: int| 0 <= j < dlen - 1 ==> #[trigger] namefield[j] == dhead[j]);
    assert(forall|j: int|
        dlen - 1 <= j < dlen + 8 ==> #[trigger] namefield[j] == crate::escape::spec_data_escape()[
            j - (dlen - 1)
        ]);
    assert(forall|j: int| 0 <= j < dlen + 8 ==> #[trigger] namefield[j] != 0u8) by {
        assert(forall|j: int| 0 <= j < dhead.len() ==> #[trigger] dhead[j] != 0u8);
    }
    lemma_find_nul_at(namefield, dlen + 8);

    assert(data[532] == 62u8);
    assert(forall|j: int| 512 <= j < 522 ==> #[trigger] data[j] == digits[j - 512]);
    assert(forall|j: int|
        522 <= j < 532 ==> #[trigger] data[j] == crate::escape::spec_comment_introducer()[
            j - 522
        ]);
    assert(forall|j: int| 512 <= j < 532 ==> #[trigger] data[j] != 62u8) by {
        assert(forall|j: int|
            0 <= j < 10 ==> crate::octal::is_digit_of(#[trigger] digits[j], 10));
    }
    crate::decompiler::lemma_first_gt_at(data, 512, 532);

    assert(data.subrange(1, dlen) =~= dhead.take(dlen - 1));
}

} // verus!
