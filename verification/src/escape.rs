//! The constant byte templates that disguise tar structure as HTML markup,
//! and the fixed field values the headers are stamped with. Each template
//! exists twice: a spec sequence that the contracts quote, and a verified
//! builder for the running code.

use vstd::prelude::*;

verus! {

/// Opens a new escape block at the start of an extension header's name field.
pub open spec fn spec_start_name() -> Seq<u8> {
    seq![0u8, 60u8, 110u8, 111u8, 115u8, 99u8, 114u8, 105u8, 112u8, 116u8, 32u8, 116u8, 121u8, 112u8, 101u8, 61u8, 110u8, 111u8, 110u8, 101u8, 32u8, 99u8, 108u8, 97u8, 115u8, 115u8, 61u8, 34u8, 119u8, 97u8, 104u8, 95u8, 112u8, 111u8, 108u8, 121u8, 103u8, 108u8, 111u8, 116u8, 95u8, 100u8, 97u8, 116u8, 97u8, 34u8, 32u8, 100u8, 97u8, 116u8, 97u8, 45u8, 97u8, 61u8, 34u8]
}

#[verifier::rlimit(50)]
pub fn start_name() -> (r: Vec<u8>)
    ensures
        r@ == spec_start_name(),
        r@.len() == 55,
{
    let mut v: Vec<u8> = Vec::new();
    v.push(0u8);
    v.push(60u8);
    v.push(110u8);
    v.push(111u8);
    v.push(115u8);
    v.push(99u8);
    v.push(114u8);
    v.push(105u8);
    v.push(112u8);
    v.push(116u8);
    v.push(32u8);
    v.push(116u8);
    v.push(121u8);
    v.push(112u8);
    v.push(101u8);
    v.push(61u8);
    v.push(110u8);
    v.push(111u8);
    v.push(110u8);
    v.push(101u8);
    v.push(32u8);
    v.push(99u8);
    v.push(108u8);
    v.push(97u8);
    v.push(115u8);
    v.push(115u8);
    v.push(61u8);
    v.push(34u8);
    v.push(119u8);
    v.push(97u8);
    v.push(104u8);
    v.push(95u8);
    v.push(112u8);
    v.push(111u8);
    v.push(108u8);
    v.push(121u8);
    v.push(103u8);
    v.push(108u8);
    v.push(111u8);
    v.push(116u8);
    v.push(95u8);
    v.push(100u8);
    v.push(97u8);
    v.push(116u8);
    v.push(97u8);
    v.push(34u8);
    v.push(32u8);
    v.push(100u8);
    v.push(97u8);
    v.push(116u8);
    v.push(97u8);
    v.push(45u8);
    v.push(97u8);
    v.push(61u8);
    v.push(34u8);
    proof {
        assert(v@ =~= spec_start_name());
    }
    v
}

/// Closes the previous escape element and opens the next one, for headers that continue a run of entries.
pub open spec fn spec_cont_name() -> Seq<u8> {
    seq![0u8, 60u8, 47u8, 110u8, 111u8, 115u8, 99u8, 114u8, 105u8, 112u8, 116u8, 62u8, 60u8, 110u8, 111u8, 115u8, 99u8, 114u8, 105u8, 112u8, 116u8, 32u8, 116u8, 121u8, 112u8, 101u8, 61u8, 110u8, 111u8, 110u8, 101u8, 32u8, 99u8, 108u8, 97u8, 115u8, 115u8, 61u8, 34u8, 119u8, 97u8, 104u8, 95u8, 112u8, 111u8, 108u8, 121u8, 103u8, 108u8, 111u8, 116u8, 95u8, 100u8, 97u8, 116u8, 97u8, 34u8, 32u8, 100u8, 97u8, 116u8, 97u8, 45u8, 97u8, 61u8, 34u8]
}

#[verifier::rlimit(50)]
pub fn cont_name() -> (r: Vec<u8>)
    ensures
        r@ == spec_cont_name(),
        r@.len() == 66,
{
    let mut v: Vec<u8> = Vec::new();
    v.push(0u8);
    v.push(60u8);
    v.push(47u8);
    v.push(110u8);
    v.push(111u8);
    v.push(115u8);
    v.push(99u8);
    v.push(114u8);
    v.push(105u8);
    v.push(112u8);
    v.push(116u8);
    v.push(62u8);
    v.push(60u8);
    v.push(110u8);
    v.push(111u8);
    v.push(115u8);
    v.push(99u8);
    v.push(114u8);
    v.push(105u8);
    v.push(112u8);
    v.push(116u8);
    v.push(32u8);
    v.push(116u8);
    v.push(121u8);
    v.push(112u8);
    v.push(101u8);
    v.push(61u8);
    v.push(110u8);
    v.push(111u8);
    v.push(110u8);
    v.push(101u8);
    v.push(32u8);
    v.push(99u8);
    v.push(108u8);
    v.push(97u8);
    v.push(115u8);
    v.push(115u8);
    v.push(61u8);
    v.push(34u8);
    v.push(119u8);
    v.push(97u8);
    v.push(104u8);
    v.push(95u8);
    v.push(112u8);
    v.push(111u8);
    v.push(108u8);
    v.push(121u8);
    v.push(103u8);
    v.push(108u8);
    v.push(111u8);
    v.push(116u8);
    v.push(95u8);
    v.push(100u8);
    v.push(97u8);
    v.push(116u8);
    v.push(97u8);
    v.push(34u8);
    v.push(32u8);
    v.push(100u8);
    v.push(97u8);
    v.push(116u8);
    v.push(97u8);
    v.push(45u8);
    v.push(97u8);
    v.push(61u8);
    v.push(34u8);
    proof {
        assert(v@ =~= spec_cont_name());
    }
    v
}

/// Placed at the tail of the extension header's prefix field: closes the open attribute and starts the one naming the file.
pub open spec fn spec_id_tail() -> Seq<u8> {
    seq![34u8, 32u8, 100u8, 97u8, 116u8, 97u8, 45u8, 119u8, 97u8, 104u8, 116u8, 109u8, 108u8, 95u8, 105u8, 100u8, 61u8, 34u8]
}

#[verifier::rlimit(50)]
pub fn id_tail() -> (r: Vec<u8>)
    ensures
        r@ == spec_id_tail(),
        r@.len() == 18,
{
    let mut v: Vec<u8> = Vec::new();
    v.push(34u8);
    v.push(32u8);
    v.push(100u8);
    v.push(97u8);
    v.push(116u8);
    v.push(97u8);
    v.push(45u8);
    v.push(119u8);
    v.push(97u8);
    v.push(104u8);
    v.push(116u8);
    v.push(109u8);
    v.push(108u8);
    v.push(95u8);
    v.push(105u8);
    v.push(100u8);
    v.push(61u8);
    v.push(34u8);
    proof {
        assert(v@ =~= spec_id_tail());
    }
    v
}

/// Placed at the tail of the file header's name field: closes the name attribute and starts the one carrying the header tail.
pub open spec fn spec_id_end_cont() -> Seq<u8> {
    seq![34u8, 32u8, 100u8, 97u8, 116u8, 97u8, 45u8, 98u8, 61u8, 34u8]
}

#[verifier::rlimit(50)]
pub fn id_end_cont() -> (r: Vec<u8>)
    ensures
        r@ == spec_id_end_cont(),
        r@.len() == 10,
{
    let mut v: Vec<u8> = Vec::new();
    v.push(34u8);
    v.push(32u8);
    v.push(100u8);
    v.push(97u8);
    v.push(116u8);
    v.push(97u8);
    v.push(45u8);
    v.push(98u8);
    v.push(61u8);
    v.push(34u8);
    proof {
        assert(v@ =~= spec_id_end_cont());
    }
    v
}

/// Placed at the tail of the file header's prefix field: closes the last attribute and the element's start tag, so the payload follows as element text.
pub open spec fn spec_data_start() -> Seq<u8> {
    seq![34u8, 62u8]
}

#[verifier::rlimit(50)]
pub fn data_start() -> (r: Vec<u8>)
    ensures
        r@ == spec_data_start(),
        r@.len() == 2,
{
    let mut v: Vec<u8> = Vec::new();
    v.push(34u8);
    v.push(62u8);
    proof {
        assert(v@ =~= spec_data_start());
    }
    v
}

/// Closes the final escape element after the tar end-of-file records.
pub open spec fn spec_eof_terminator() -> Seq<u8> {
    seq![60u8, 47u8, 110u8, 111u8, 115u8, 99u8, 114u8, 105u8, 112u8, 116u8, 62u8]
}

#[verifier::rlimit(50)]
pub fn eof_terminator() -> (r: Vec<u8>)
    ensures
        r@ == spec_eof_terminator(),
        r@.len() == 11,
{
    let mut v: Vec<u8> = Vec::new();
    v.push(60u8);
    v.push(47u8);
    v.push(110u8);
    v.push(111u8);
    v.push(115u8);
    v.push(99u8);
    v.push(114u8);
    v.push(105u8);
    v.push(112u8);
    v.push(116u8);
    v.push(62u8);
    proof {
        assert(v@ =~= spec_eof_terminator());
    }
    v
}

/// Starts the header that ends a run of escaped entries and reopens a transparent block over raw document text.
pub open spec fn spec_end_start() -> Seq<u8> {
    seq![0u8, 60u8, 47u8, 110u8, 111u8, 115u8, 99u8, 114u8, 105u8, 112u8, 116u8, 62u8, 60u8, 110u8, 111u8, 115u8, 99u8, 114u8, 105u8, 112u8, 116u8, 32u8, 116u8, 121u8, 112u8, 101u8, 61u8, 110u8, 111u8, 110u8, 101u8, 62u8]
}

#[verifier::rlimit(50)]
pub fn end_start() -> (r: Vec<u8>)
    ensures
        r@ == spec_end_start(),
        r@.len() == 32,
{
    let mut v: Vec<u8> = Vec::new();
    v.push(0u8);
    v.push(60u8);
    v.push(47u8);
    v.push(110u8);
    v.push(111u8);
    v.push(115u8);
    v.push(99u8);
    v.push(114u8);
    v.push(105u8);
    v.push(112u8);
    v.push(116u8);
    v.push(62u8);
    v.push(60u8);
    v.push(110u8);
    v.push(111u8);
    v.push(115u8);
    v.push(99u8);
    v.push(114u8);
    v.push(105u8);
    v.push(112u8);
    v.push(116u8);
    v.push(32u8);
    v.push(116u8);
    v.push(121u8);
    v.push(112u8);
    v.push(101u8);
    v.push(61u8);
    v.push(110u8);
    v.push(111u8);
    v.push(110u8);
    v.push(101u8);
    v.push(62u8);
    proof {
        assert(v@ =~= spec_end_start());
    }
    v
}

/// Placed at the tail of the run-ending header's prefix field.
pub open spec fn spec_end_tail() -> Seq<u8> {
    seq![0u8, 60u8, 47u8, 110u8, 111u8, 115u8, 99u8, 114u8, 105u8, 112u8, 116u8, 62u8]
}

#[verifier::rlimit(50)]
pub fn end_tail() -> (r: Vec<u8>)
    ensures
        r@ == spec_end_tail(),
        r@.len() == 12,
{
    let mut v: Vec<u8> = Vec::new();
    v.push(0u8);
    v.push(60u8);
    v.push(47u8);
    v.push(110u8);
    v.push(111u8);
    v.push(115u8);
    v.push(99u8);
    v.push(114u8);
    v.push(105u8);
    v.push(112u8);
    v.push(116u8);
    v.push(62u8);
    proof {
        assert(v@ =~= spec_end_tail());
    }
    v
}

/// Appended to the document head inside the first header's name field, leaving an attribute open over the rest of the record.
pub open spec fn spec_data_escape() -> Seq<u8> {
    seq![32u8, 100u8, 97u8, 116u8, 97u8, 45u8, 97u8, 61u8, 34u8]
}

#[verifier::rlimit(50)]
pub fn data_escape() -> (r: Vec<u8>)
    ensures
        r@ == spec_data_escape(),
        r@.len() == 9,
{
    let mut v: Vec<u8> = Vec::new();
    v.push(32u8);
    v.push(100u8);
    v.push(97u8);
    v.push(116u8);
    v.push(97u8);
    v.push(45u8);
    v.push(97u8);
    v.push(61u8);
    v.push(34u8);
    proof {
        assert(v@ =~= spec_data_escape());
    }
    v
}

/// Prepended to a document head that carries no doctype of its own.
pub open spec fn spec_doctype() -> Seq<u8> {
    seq![60u8, 33u8, 68u8, 79u8, 67u8, 84u8, 89u8, 80u8, 69u8, 32u8, 104u8, 116u8, 109u8, 108u8, 62u8]
}

#[verifier::rlimit(50)]
pub fn doctype() -> (r: Vec<u8>)
    ensures
        r@ == spec_doctype(),
        r@.len() == 15,
{
    let mut v: Vec<u8> = Vec::new();
    v.push(60u8);
    v.push(33u8);
    v.push(68u8);
    v.push(79u8);
    v.push(67u8);
    v.push(84u8);
    v.push(89u8);
    v.push(80u8);
    v.push(69u8);
    v.push(32u8);
    v.push(104u8);
    v.push(116u8);
    v.push(109u8);
    v.push(108u8);
    v.push(62u8);
    proof {
        assert(v@ =~= spec_doctype());
    }
    v
}

/// What a head must contain, after ASCII lowercasing, to count as carrying a doctype.
pub open spec fn spec_doctype_needle() -> Seq<u8> {
    seq![60u8, 33u8, 100u8, 111u8, 99u8, 116u8, 121u8, 112u8, 101u8]
}

#[verifier::rlimit(50)]
pub fn doctype_needle() -> (r: Vec<u8>)
    ensures
        r@ == spec_doctype_needle(),
        r@.len() == 9,
{
    let mut v: Vec<u8> = Vec::new();
    v.push(60u8);
    v.push(33u8);
    v.push(100u8);
    v.push(111u8);
    v.push(99u8);
    v.push(116u8);
    v.push(121u8);
    v.push(112u8);
    v.push(101u8);
    proof {
        assert(v@ =~= spec_doctype_needle());
    }
    v
}

/// Follows the decimal size prefix in the first header's payload: hides the copied document text in a pax comment and closes the open tag.
pub open spec fn spec_comment_introducer() -> Seq<u8> {
    seq![32u8, 99u8, 111u8, 109u8, 109u8, 101u8, 110u8, 116u8, 61u8, 34u8, 62u8]
}

#[verifier::rlimit(50)]
pub fn comment_introducer() -> (r: Vec<u8>)
    ensures
        r@ == spec_comment_introducer(),
        r@.len() == 11,
{
    let mut v: Vec<u8> = Vec::new();
    v.push(32u8);
    v.push(99u8);
    v.push(111u8);
    v.push(109u8);
    v.push(109u8);
    v.push(101u8);
    v.push(110u8);
    v.push(116u8);
    v.push(61u8);
    v.push(34u8);
    v.push(62u8);
    proof {
        assert(v@ =~= spec_comment_introducer());
    }
    v
}

/// The fixed permission bits every entry is written with.
pub open spec fn spec_mode_field() -> Seq<u8> {
    seq![48u8, 48u8, 48u8, 48u8, 54u8, 52u8, 52u8, 0u8]
}

#[verifier::rlimit(50)]
pub fn mode_field() -> (r: Vec<u8>)
    ensures
        r@ == spec_mode_field(),
        r@.len() == 8,
{
    let mut v: Vec<u8> = Vec::new();
    v.push(48u8);
    v.push(48u8);
    v.push(48u8);
    v.push(48u8);
    v.push(54u8);
    v.push(52u8);
    v.push(52u8);
    v.push(0u8);
    proof {
        assert(v@ =~= spec_mode_field());
    }
    v
}

/// The fixed owner and group id, 65534 in octal: nobody.
pub open spec fn spec_owner_id_field() -> Seq<u8> {
    seq![48u8, 49u8, 55u8, 55u8, 55u8, 55u8, 54u8, 0u8]
}

#[verifier::rlimit(50)]
pub fn owner_id_field() -> (r: Vec<u8>)
    ensures
        r@ == spec_owner_id_field(),
        r@.len() == 8,
{
    let mut v: Vec<u8> = Vec::new();
    v.push(48u8);
    v.push(49u8);
    v.push(55u8);
    v.push(55u8);
    v.push(55u8);
    v.push(55u8);
    v.push(54u8);
    v.push(0u8);
    proof {
        assert(v@ =~= spec_owner_id_field());
    }
    v
}

/// The fixed default modification time, for deterministic output.
pub open spec fn spec_mtime_field() -> Seq<u8> {
    seq![49u8, 52u8, 55u8, 48u8, 55u8, 48u8, 52u8, 49u8, 55u8, 55u8, 52u8, 0u8]
}

#[verifier::rlimit(50)]
pub fn mtime_field() -> (r: Vec<u8>)
    ensures
        r@ == spec_mtime_field(),
        r@.len() == 12,
{
    let mut v: Vec<u8> = Vec::new();
    v.push(49u8);
    v.push(52u8);
    v.push(55u8);
    v.push(48u8);
    v.push(55u8);
    v.push(48u8);
    v.push(52u8);
    v.push(49u8);
    v.push(55u8);
    v.push(55u8);
    v.push(52u8);
    v.push(0u8);
    proof {
        assert(v@ =~= spec_mtime_field());
    }
    v
}

/// The ustar magic.
pub open spec fn spec_magic_field() -> Seq<u8> {
    seq![117u8, 115u8, 116u8, 97u8, 114u8, 0u8]
}

#[verifier::rlimit(50)]
pub fn magic_field() -> (r: Vec<u8>)
    ensures
        r@ == spec_magic_field(),
        r@.len() == 6,
{
    let mut v: Vec<u8> = Vec::new();
    v.push(117u8);
    v.push(115u8);
    v.push(116u8);
    v.push(97u8);
    v.push(114u8);
    v.push(0u8);
    proof {
        assert(v@ =~= spec_magic_field());
    }
    v
}

/// The ustar version field: two spaces.
pub open spec fn spec_version_field() -> Seq<u8> {
    seq![32u8, 32u8]
}

#[verifier::rlimit(50)]
pub fn version_field() -> (r: Vec<u8>)
    ensures
        r@ == spec_version_field(),
        r@.len() == 2,
{
    let mut v: Vec<u8> = Vec::new();
    v.push(32u8);
    v.push(32u8);
    proof {
        assert(v@ =~= spec_version_field());
    }
    v
}

/// The fixed owner and group name.
pub open spec fn spec_nobody_field() -> Seq<u8> {
    seq![110u8, 111u8, 98u8, 111u8, 100u8, 121u8, 0u8]
}

#[verifier::rlimit(50)]
pub fn nobody_field() -> (r: Vec<u8>)
    ensures
        r@ == spec_nobody_field(),
        r@.len() == 7,
{
    let mut v: Vec<u8> = Vec::new();
    v.push(110u8);
    v.push(111u8);
    v.push(98u8);
    v.push(111u8);
    v.push(100u8);
    v.push(121u8);
    v.push(0u8);
    proof {
        assert(v@ =~= spec_nobody_field());
    }
    v
}

} // verus!
