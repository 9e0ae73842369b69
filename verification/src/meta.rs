//! The `meta` file of a topic directory: one line for each channel, with its
//! name, its depth and its number of messages in flight, separated by tabs.

use crate::http::{lines_of, split_lines};
use crate::text::{
    byte_rows, decimal_digits, find_byte, index_of, lemma_index_of_bounds, parse_decimal,
    parse_decimal_spec, put_decimal, string_bytes, string_from_utf8,
};
use crate::validation::{name_bytes_ok, valid_name};
use crate::wire::append_bytes;
use vstd::prelude::*;
use vstd::utf8::{decode_utf8, encode_utf8, valid_utf8};

verus! {

/// What the `meta` file records of one channel.
#[derive(Debug, Clone, PartialEq, Eq)]
pub struct MetaEntry {
    pub channel_name: String,
    pub depth: u64,
    pub in_flight: u64,
}

/// A line of the `meta` file as a mathematical value.
pub struct MetaEntryView {
    pub channel_name: Seq<char>,
    pub depth: u64,
    pub in_flight: u64,
}

impl View for MetaEntry {
    type V = MetaEntryView;

    open spec fn view(&self) -> MetaEntryView {
        MetaEntryView {
            channel_name: self.channel_name@,
            depth: self.depth,
            in_flight: self.in_flight,
        }
    }
}

/// The views of entries.
pub open spec fn meta_views(v: Seq<MetaEntry>) -> Seq<MetaEntryView> {
    v.map_values(|e: MetaEntry| e@)
}

/// The line of one entry: name, tab, depth, tab, in-flight count, line feed.
pub open spec fn meta_line(e: MetaEntryView) -> Seq<u8> {
    encode_utf8(e.channel_name) + seq![0x09u8] + decimal_digits(e.depth as nat) + seq![0x09u8]
        + decimal_digits(e.in_flight as nat) + seq![0x0au8]
}

/// The content of the `meta` file for `entries`: their lines in order.
pub open spec fn meta_bytes(entries: Seq<MetaEntryView>) -> Seq<u8>
    decreases entries.len(),
{
    if entries.len() == 0 {
        Seq::empty()
    } else {
        meta_bytes(entries.drop_last()) + meta_line(entries.last())
    }
}

/// What a line of the `meta` file, without its line feed, records: a
/// well-formed channel name and two decimal numbers, separated by single
/// tabs; `None` where the line has another shape.
pub open spec fn parse_meta_line(line: Seq<u8>) -> Option<MetaEntryView> {
    let t1 = index_of(line, 0x09);
    let rest = line.skip(t1 + 1);
    let t2 = index_of(rest, 0x09);
    if t1 < line.len() && t2 < rest.len() && valid_name(line.take(t1)) && valid_utf8(
        line.take(t1),
    ) && parse_decimal_spec(rest.take(t2), u64::MAX) is Some && parse_decimal_spec(
        rest.skip(t2 + 1),
        u64::MAX,
    ) is Some {
        Some(
            MetaEntryView {
                channel_name: decode_utf8(line.take(t1)),
                depth: parse_decimal_spec(rest.take(t2), u64::MAX)->Some_0,
                in_flight: parse_decimal_spec(rest.skip(t2 + 1), u64::MAX)->Some_0,
            },
        )
    } else {
        None
    }
}

/// What the lines `lines` record, or `None` where one of them has another
/// shape.
pub open spec fn parse_meta_lines(lines: Seq<Seq<u8>>) -> Option<Seq<MetaEntryView>>
    decreases lines.len(),
{
    if lines.len() == 0 {
        Some(Seq::empty())
    } else {
        match (parse_meta_lines(lines.drop_last()), parse_meta_line(lines.last())) {
            (Some(entries), Some(e)) => Some(entries.push(e)),
            _ => None,
        }
    }
}

/// Writes the content of the `meta` file for `entries`.
pub fn write_meta(entries: &Vec<MetaEntry>) -> (out: Vec<u8>)
    ensures
        out@ == meta_bytes(meta_views(entries@)),
{
    let ghost all = meta_views(entries@);
    let mut out: Vec<u8> = Vec::new();
    let n = entries.len();
    let mut k: usize = 0;
    proof {
        assert(all.take(0) =~= Seq::<MetaEntryView>::empty());
    }
    while k < n
        invariant
            k <= n,
            n == entries@.len(),
            all == meta_views(entries@),
            out@ == meta_bytes(all.take(k as int)),
        decreases n - k,
    {
        let e = &entries[k];
        let ghost before = out@;
        append_bytes(&mut out, string_bytes(&e.channel_name));
        out.push(0x09);
        put_decimal(&mut out, e.depth);
        out.push(0x09);
        put_decimal(&mut out, e.in_flight);
        out.push(0x0a);
        proof {
            assert(all.take(k + 1).drop_last() =~= all.take(k as int));
            assert(all.take(k + 1).last() == e@);
            assert(out@ =~= before + meta_line(e@));
        }
        k = k + 1;
    }
    proof {
        assert(all.take(n as int) =~= all);
    }
    out
}

/// Reads one line of the `meta` file, without its line feed.
pub fn read_meta_line(line: &[u8]) -> (res: Option<MetaEntry>)
    ensures
        match res {
            Some(e) => parse_meta_line(line@) == Some(e@),
            None => parse_meta_line(line@) is None,
        },
{
    let n = line.len();
    let t1 = match find_byte(line, 0x09) {
        Some(t1) => t1,
        None => {
            return None;
        },
    };
    let rest = vstd::slice::slice_subrange(line, t1 + 1, n);
    proof {
        assert(rest@ =~= line@.skip(t1 + 1));
    }
    let t2 = match find_byte(rest, 0x09) {
        Some(t2) => t2,
        None => {
            return None;
        },
    };
    let name = vstd::slice::slice_subrange(line, 0, t1);
    let first = vstd::slice::slice_subrange(rest, 0, t2);
    let second = vstd::slice::slice_subrange(rest, t2 + 1, rest.len());
    proof {
        assert(name@ =~= line@.take(t1 as int));
        assert(first@ =~= rest@.take(t2 as int));
        assert(second@ =~= rest@.skip(t2 + 1));
    }
    if !name_bytes_ok(name) {
        return None;
    }
    let depth = match parse_decimal(first, u64::MAX) {
        Some(depth) => depth,
        None => {
            return None;
        },
    };
    let in_flight = match parse_decimal(second, u64::MAX) {
        Some(in_flight) => in_flight,
        None => {
            return None;
        },
    };
    let copy = crate::wire::copy_range(name, 0, t1);
    proof {
        assert(copy@ =~= name@);
    }
    match string_from_utf8(copy) {
        Some(channel_name) => {
            proof {
                vstd::utf8::encode_utf8_decode_utf8(channel_name@);
            }
            Some(MetaEntry { channel_name, depth, in_flight })
        },
        None => None,
    }
}

/// Reads the content of a `meta` file: one entry for each line that is not
/// empty, or `None` where a line has another shape than a name and two
/// numbers separated by tabs.
pub fn read_meta(bytes: &[u8]) -> (res: Option<Vec<MetaEntry>>)
    ensures
        match res {
            Some(entries) => parse_meta_lines(lines_of(bytes@)) == Some(meta_views(entries@)),
            None => parse_meta_lines(lines_of(bytes@)) is None,
        },
{
    let lines = split_lines(bytes);
    let ghost rows = byte_rows(lines);
    let mut out: Vec<MetaEntry> = Vec::new();
    let n = lines.len();
    let mut k: usize = 0;
    proof {
        assert(rows.take(0) =~= Seq::<Seq<u8>>::empty());
        assert(meta_views(out@) =~= Seq::<MetaEntryView>::empty());
    }
    while k < n
        invariant
            k <= n,
            n == lines@.len(),
            rows == byte_rows(lines),
            rows == lines_of(bytes@),
            parse_meta_lines(rows.take(k as int)) == Some(meta_views(out@)),
        decreases n - k,
    {
        proof {
            assert(rows.take(k + 1).drop_last() =~= rows.take(k as int));
            assert(rows.take(k + 1).last() == lines@[k as int]@);
        }
        match read_meta_line(lines[k].as_slice()) {
            Some(e) => {
                let ghost before = meta_views(out@);
                out.push(e);
                proof {
                    assert(meta_views(out@) =~= before.push(e@));
                }
            },
            None => {
                proof {
                    assert(rows[k as int] == lines@[k as int]@);
                    lemma_bad_line_spoils(rows, k as int);
                }
                return None;
            },
        }
        k = k + 1;
    }
    proof {
        assert(rows.take(n as int) =~= rows);
    }
    Some(out)
}

/// One line of another shape spoils the whole file.
proof fn lemma_bad_line_spoils(lines: Seq<Seq<u8>>, k: int)
    requires
        0 <= k < lines.len(),
        parse_meta_line(lines[k]) is None,
    ensures
        parse_meta_lines(lines) is None,
    decreases lines.len(),
{
    if k < lines.len() - 1 {
        assert(lines.drop_last()[k] == lines[k]);
        lemma_bad_line_spoils(lines.drop_last(), k);
    }
}

} // verus!
