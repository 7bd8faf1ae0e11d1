//! Drives the string matcher across the instance constructor to discover, in
//! program order, the resource names written out.
//!
//! Every occurrence of the literal marker "writeBytes" announces that the
//! next obfuscated string is a resource name; the names are appended in
//! first-occurrence program order, duplicates preserved. A name that is not
//! valid UTF-8 aborts the walk: the names appended before it stay, the
//! invalid one is never appended.
use crate::error::MissingError;
use crate::error::UnpackerError;
use crate::ins::chain_head;
use crate::ins::find_super_from;
use crate::ins::idiom_at;
use crate::ins::lemma_next_idiom_from;
use crate::ins::next_idiom_from;
use crate::ins::Cursor;
use crate::ins::Ins;
use crate::string_finder::build_from;
use crate::string_finder::lemma_build_spec_bounds;
use crate::string_finder::lemma_match_result_bounds;
use crate::string_finder::match_result;
use crate::string_finder::StringFinder;
use crate::table::CharTable;
use vstd::prelude::*;
use vstd::utf8::valid_utf8;

verus! {

/// The marker string "writeBytes", as bytes.
pub open spec fn write_bytes_seq() -> Seq<u8> {
    seq![119u8, 114u8, 105u8, 116u8, 101u8, 66u8, 121u8, 116u8, 101u8, 115u8]
}

/// The marker string "writeBytes", as a byte vector for the matcher.
pub fn write_bytes_vec() -> (r: Vec<u8>)
    ensures
        r@ == write_bytes_seq(),
{
    let mut r: Vec<u8> = Vec::new();
    r.push(119);
    r.push(114);
    r.push(105);
    r.push(116);
    r.push(101);
    r.push(66);
    r.push(121);
    r.push(116);
    r.push(101);
    r.push(115);
    proof {
        assert(r@ =~= write_bytes_seq());
    }
    r
}

/// Relies on core::str::from_utf8: it returns Ok exactly when the input is
/// valid UTF-8, which vstd's `valid_utf8` states over the bytes alone.
#[verifier::external_body]
fn utf8_valid(bytes: &Vec<u8>) -> (r: bool)
    ensures
        r == valid_utf8(bytes@),
{
    core::str::from_utf8(bytes.as_slice()).is_ok()
}

/// Every all-ASCII byte string is valid UTF-8: each byte below 0x80 is one
/// width-1 scalar. With this, the walk's UTF-8 gate is dischargeable on the
/// concrete resource names the scenarios use.
pub proof fn lemma_ascii_valid_utf8(bytes: Seq<u8>)
    requires
        forall|k: int| 0 <= k < bytes.len() ==> bytes[k] < 0x80,
    ensures
        valid_utf8(bytes),
    decreases bytes.len(),
{
    if bytes.len() != 0 {
        let b = bytes[0];
        assert(b & 0x7F == b) by (bit_vector)
            requires
                b < 0x80,
        ;
        assert(vstd::utf8::valid_first_scalar(bytes));
        assert(vstd::utf8::length_of_first_scalar(bytes) == 1);
        assert(vstd::utf8::pop_first_scalar(bytes) =~= bytes.drop_first());
        lemma_ascii_valid_utf8(bytes.drop_first());
    }
}

/// What the constructor walk does from position `i` on: the resource names
/// it appends, in program order, and whether it aborted on a name that was
/// not valid UTF-8 (the invalid name itself is never appended).
pub open spec fn order_walk(code: Seq<Ins>, i: int, table: Map<u32, u8>) -> (Seq<Seq<u8>>, bool)
    decreases code.len() - i when 0 <= i <= code.len()
{
    match next_idiom_from(code, i) {
        None => (Seq::<Seq<u8>>::empty(), false),
        Some(q) => {
            let m = match_result(code, q, write_bytes_seq(), table);
            if !m.0 {
                // not the marker: the matcher has already skipped the string
                if i < m.1 <= code.len() {
                    order_walk(code, m.1, table)
                } else {
                    // a failed match always moves forward, so never taken
                    (Seq::<Seq<u8>>::empty(), false)
                }
            } else {
                let b = build_from(code, m.1, table);
                if !valid_utf8(b.0) {
                    (Seq::<Seq<u8>>::empty(), true)
                } else if i < b.1 <= code.len() {
                    let rest = order_walk(code, b.1, table);
                    (seq![b.0] + rest.0, rest.1)
                } else {
                    // decoding a name always moves forward, so never taken
                    (Seq::<Seq<u8>>::empty(), false)
                }
            }
        },
    }
}

/// The names one constructor scan appends, whether or not it ends cleanly.
pub open spec fn walk_names(code: Seq<Ins>, table: Map<u32, u8>) -> Seq<Seq<u8>> {
    match find_super_from(code, 0) {
        None => Seq::<Seq<u8>>::empty(),
        Some(sq) => order_walk(code, sq, table).0,
    }
}

/// Whether one constructor scan succeeds, and with which error it aborts.
pub open spec fn scan_order_spec(code: Seq<Ins>, table: Map<u32, u8>) -> Result<
    Seq<Seq<u8>>,
    UnpackerError,
> {
    match find_super_from(code, 0) {
        None => Err(UnpackerError::Missing(MissingError::MissingSuper)),
        Some(sq) => {
            let w = order_walk(code, sq, table);
            if w.1 {
                Err(UnpackerError::Utf8Error)
            } else {
                Ok(w.0)
            }
        },
    }
}

/// Walk the instance constructor: find the superclass construction, then
/// append to `out`, as it is discovered, every resource name announced by a
/// "writeBytes" marker. On an abort the names appended so far stay in `out`.
pub fn scan_order(iinit: &Vec<Ins>, table: &CharTable, out: &mut Vec<Vec<u8>>) -> (r: Result<
    (),
    UnpackerError,
>)
    ensures
        final(out).deep_view() == old(out).deep_view() + walk_names(iinit@, table@),
        match scan_order_spec(iinit@, table@) {
            Ok(_) => r is Ok,
            Err(e) => r matches Err(e2) && e2 == e,
        },
{
    let mut cur = Cursor::new(crate::ins::copy_code(iinit));
    if !cur.skip_to_super() {
        proof {
            assert(out.deep_view() + Seq::<Seq<u8>>::empty() =~= out.deep_view());
        }
        return Err(UnpackerError::Missing(MissingError::MissingSuper));
    }
    let ghost p0 = cur.pos as int;
    let mut finder = StringFinder::new(cur, table);
    let target = write_bytes_vec();
    let ghost done = Seq::<Seq<u8>>::empty();
    proof {
        assert(out.deep_view() =~= old(out).deep_view() + done);
        assert(done + order_walk(iinit@, p0, table@).0 =~= order_walk(iinit@, p0, table@).0);
    }
    loop
        invariant
            finder.cur.wf(),
            finder.cur.code@ == iinit@,
            finder.table@ == table@,
            0 <= p0 <= finder.cur.pos,
            find_super_from(iinit@, 0) == Some(p0),
            target@ == write_bytes_seq(),
            out.deep_view() == old(out).deep_view() + done,
            order_walk(iinit@, p0, table@).0 == done + order_walk(
                iinit@,
                finder.cur.pos as int,
                table@,
            ).0,
            order_walk(iinit@, p0, table@).1 == order_walk(
                iinit@,
                finder.cur.pos as int,
                table@,
            ).1,
        decreases iinit@.len() - finder.cur.pos,
    {
        let ghost p = finder.cur.pos as int;
        if !finder.next_string() {
            proof {
                assert(done + Seq::<Seq<u8>>::empty() =~= done);
            }
            return Ok(());
        }
        let ghost q = finder.cur.pos as int;
        proof {
            lemma_next_idiom_from(iinit@, p);
            assert(write_bytes_seq().len() == 10);
            lemma_match_result_bounds(iinit@, q, write_bytes_seq(), table@);
        }
        if finder.match_target(&target) {
            let ghost m1 = finder.cur.pos as int;
            finder.next_string();
            proof {
                if idiom_at(iinit@, m1) {
                    assert(next_idiom_from(iinit@, m1) == Some(m1));
                }
            }
            let name = finder.build();
            let ghost b = build_from(iinit@, m1, table@);
            proof {
                match next_idiom_from(iinit@, m1) {
                    Some(q2) => {
                        lemma_next_idiom_from(iinit@, m1);
                        lemma_build_spec_bounds(iinit@, q2, table@);
                    },
                    None => {
                        assert(!chain_head(iinit@, iinit@.len() as int));
                        assert(b.1 == iinit@.len());
                    },
                }
                assert(name@ == b.0 && finder.cur.pos == b.1);
            }
            if !utf8_valid(&name) {
                proof {
                    assert(done + Seq::<Seq<u8>>::empty() =~= done);
                }
                return Err(UnpackerError::Utf8Error);
            }
            let ghost old_out = out.deep_view();
            out.push(name);
            proof {
                assert(name.deep_view() =~= name@);
                assert(out.deep_view() =~~= old_out.push(name@));
                let done0 = done;
                done = done.push(b.0);
                assert(out.deep_view() =~= old(out).deep_view() + done);
                let rest = order_walk(iinit@, b.1, table@);
                assert(done0 + (seq![b.0] + rest.0) =~= done + rest.0);
            }
        } else {
            // the matcher already skipped the mismatched string
        }
    }
}

} // verus!
