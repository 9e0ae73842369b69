//! What the HTTP interface of the broker makes of the body of a request.

use crate::command::{parse_counted_bodies, read_bodies};
use crate::errors::NsqError;
use crate::text::{byte_rows, find_byte, index_of};
use crate::wire::copy_range;
use vstd::prelude::*;
use vstd::string::*;

verus! {

/// The lines of `body` that are not empty, in order. Lines end at a line
/// feed; the last line may go without.
pub open spec fn lines_of(body: Seq<u8>) -> Seq<Seq<u8>>
    decreases body.len(),
    via lines_of_decreases
{
    if body.len() == 0 {
        Seq::empty()
    } else {
        let end = index_of(body, 0x0a);
        let rest = if end < body.len() {
            lines_of(body.skip(end + 1))
        } else {
            Seq::empty()
        };
        if end == 0 {
            rest
        } else {
            seq![body.take(end)] + rest
        }
    }
}

#[via_fn]
proof fn lines_of_decreases(body: Seq<u8>) {
    crate::text::lemma_index_of_bounds(body, 0x0a);
}

/// Splits the body of a multi-publish in text mode into its messages: one
/// for each line that is not empty.
pub fn split_lines(body: &[u8]) -> (out: Vec<Vec<u8>>)
    ensures
        byte_rows(out) == lines_of(body@),
{
    let n = body.len();
    let mut out: Vec<Vec<u8>> = Vec::new();
    let mut pos: usize = 0;
    proof {
        assert(body@.skip(0) =~= body@);
        assert(byte_rows(out) + lines_of(body@) =~= lines_of(body@));
    }
    while pos < n
        invariant
            pos <= n,
            n == body@.len(),
            byte_rows(out) + lines_of(body@.skip(pos as int)) == lines_of(body@),
        decreases n - pos,
    {
        let ghost here = body@.skip(pos as int);
        let rest = vstd::slice::slice_subrange(body, pos, n);
        let end = match find_byte(rest, 0x0a) {
            Some(end) => end,
            None => n - pos,
        };
        proof {
            assert(rest@ =~= here);
            crate::text::lemma_index_of_bounds(here, 0x0a);
        }
        let ghost before = byte_rows(out);
        if end > 0 {
            let line = copy_range(body, pos, pos + end);
            out.push(line);
            proof {
                assert(line@ =~= here.take(end as int));
                assert(byte_rows(out) =~= before.push(line@));
            }
        }
        proof {
            if end < n - pos {
                assert(here.skip(end + 1) =~= body@.skip(pos + end + 1));
                assert(before.push(here.take(end as int)) + lines_of(here.skip(end + 1)) =~= before
                    + (seq![here.take(end as int)] + lines_of(here.skip(end + 1))));
            } else {
                assert(body@.skip(n as int) =~= Seq::<u8>::empty());
                assert(before.push(here.take(end as int)) + Seq::<Seq<u8>>::empty() =~= before + (
                seq![here.take(end as int)] + Seq::<Seq<u8>>::empty()));
            }
        }
        pos = if end < n - pos {
            pos + end + 1
        } else {
            n
        };
    }
    proof {
        assert(body@.skip(n as int) =~= Seq::<u8>::empty());
        assert(byte_rows(out) + Seq::<Seq<u8>>::empty() =~= byte_rows(out));
    }
    out
}

/// The messages in the body of a multi-publish: in binary mode a count in
/// four bytes and that many length-prefixed bodies, else one for each line
/// that is not empty. A binary body that is cut short is a validation
/// error.
pub fn split_mpub_body(body: &[u8], binary: bool) -> (res: Result<Vec<Vec<u8>>, NsqError>)
    ensures
        !binary ==> res is Ok && byte_rows(res->Ok_0) == lines_of(body@),
        binary ==> match parse_counted_bodies(body@) {
            Some(bodies) => res is Ok && byte_rows(res->Ok_0) == bodies,
            None => res is Err && res->Err_0 is Validation,
        },
{
    if binary {
        match read_bodies(body) {
            Some(bodies) => Ok(bodies),
            None => Err(NsqError::Validation(String::from_str("Malformed binary body"))),
        }
    } else {
        Ok(split_lines(body))
    }
}

} // verus!
