//! The bookkeeping of a queue's disk backing.
//!
//! A backing is a run of segment files, numbered upwards; each holds records
//! of a 4-byte big-endian length and that many bytes. This module decides
//! where a record goes and which record is read next; reading and writing
//! the files is left to the caller.

use crate::errors::NsqError;
use crate::text::{decimal_digits, parse_decimal, parse_decimal_spec, put_decimal};
use crate::wire::{
    append_bytes, copy_range, parse_payload, payload_bytes, put_payload, read_payload, read_u32,
    u32_from_be,
};
use vstd::prelude::*;
use vstd::string::*;

verus! {

/// The number of whole records at the start of `bytes`. A record that is cut
/// short, and whatever follows it, does not count.
pub open spec fn count_records(bytes: Seq<u8>) -> nat
    decreases bytes.len(),
{
    match parse_payload(bytes) {
        None => 0,
        Some(record) => 1 + count_records(bytes.skip(4 + record.len() as int)),
    }
}

/// The number of bytes that the whole records at the start of `bytes` take.
pub open spec fn complete_len(bytes: Seq<u8>) -> nat
    decreases bytes.len(),
{
    match parse_payload(bytes) {
        None => 0,
        Some(record) => 4 + record.len() + complete_len(bytes.skip(4 + record.len() as int)),
    }
}

/// What a scan of one segment found.
#[derive(Debug, Clone, Copy, PartialEq, Eq, Structural)]
pub struct SegmentScan {
    /// The number of whole records.
    pub records: u64,
    /// The bytes that the whole records take.
    pub valid_len: usize,
    /// Whether bytes follow the last whole record.
    pub truncated: bool,
}

proof fn lemma_scan_bounds(bytes: Seq<u8>)
    ensures
        complete_len(bytes) <= bytes.len(),
        4 * count_records(bytes) <= complete_len(bytes),
    decreases bytes.len(),
{
    match parse_payload(bytes) {
        None => {},
        Some(record) => {
            lemma_scan_bounds(bytes.skip(4 + record.len() as int));
        },
    }
}

/// Scans the bytes of a segment: counts its whole records and stops at the
/// first record that is cut short.
pub fn scan_segment(bytes: &[u8]) -> (scan: SegmentScan)
    ensures
        scan.records == count_records(bytes@),
        scan.valid_len == complete_len(bytes@),
        scan.truncated == (complete_len(bytes@) < bytes@.len()),
{
    let n = bytes.len();
    let mut pos: usize = 0;
    let mut records: u64 = 0;
    proof {
        assert(bytes@.skip(0) =~= bytes@);
        lemma_scan_bounds(bytes@);
    }
    loop
        invariant
            pos <= n,
            n == bytes@.len(),
            records + count_records(bytes@.skip(pos as int)) == count_records(bytes@),
            pos + complete_len(bytes@.skip(pos as int)) == complete_len(bytes@),
            4 * records <= pos,
        ensures
            parse_payload(bytes@.skip(pos as int)) is None,
        decreases n - pos,
    {
        let ghost here = bytes@.skip(pos as int);
        if n - pos < 4 {
            break ;
        }
        let len = read_u32(bytes, pos) as usize;
        proof {
            assert(here.subrange(0, 4) =~= bytes@.subrange(pos as int, pos + 4));
        }
        if n - pos - 4 < len {
            break ;
        }
        proof {
            assert(here.skip(4 + len) =~= bytes@.skip(pos + 4 + len));
        }
        pos = pos + 4 + len;
        records = records + 1;
    }
    SegmentScan { records, valid_len: pos, truncated: pos < n }
}

/// One segment file found on disk.
#[derive(Debug, Clone, Copy, PartialEq, Eq, Structural)]
pub struct Segment {
    /// The number in the name of the file.
    pub file_num: u64,
    /// What a scan of the file found.
    pub scan: SegmentScan,
}

/// The segment with the greatest number among `segments`, if there is any.
pub open spec fn newest(segments: Seq<Segment>) -> Option<Segment>
    decreases segments.len(),
{
    if segments.len() == 0 {
        None
    } else {
        match newest(segments.drop_last()) {
            None => Some(segments.last()),
            Some(best) => if segments.last().file_num > best.file_num {
                Some(segments.last())
            } else {
                Some(best)
            },
        }
    }
}

/// The segment with the smallest number among `segments`, if there is any.
pub open spec fn oldest(segments: Seq<Segment>) -> Option<Segment>
    decreases segments.len(),
{
    if segments.len() == 0 {
        None
    } else {
        match oldest(segments.drop_last()) {
            None => Some(segments.last()),
            Some(best) => if segments.last().file_num < best.file_num {
                Some(segments.last())
            } else {
                Some(best)
            },
        }
    }
}

/// The number of whole records in `segments` together.
pub open spec fn record_total(segments: Seq<Segment>) -> nat
    decreases segments.len(),
{
    if segments.len() == 0 {
        0
    } else {
        record_total(segments.drop_last()) + segments.last().scan.records as nat
    }
}

/// The state of a backing that is found on disk as `segments`: reading
/// starts at the oldest segment, writing goes on behind the whole records
/// of the newest, and every whole record is waiting. Without segments the
/// backing is empty.
pub open spec fn recovered_state(max_file_size: u64, max_msg_size: usize, segments: Seq<Segment>)
    -> DiskState {
    DiskState {
        max_file_size,
        max_msg_size,
        read_file_num: match oldest(segments) {
            Some(s) => s.file_num,
            None => 0,
        },
        read_pos: 0,
        write_file_num: match newest(segments) {
            Some(s) => s.file_num,
            None => 0,
        },
        write_pos: match newest(segments) {
            Some(s) => s.scan.valid_len as u64,
            None => 0,
        },
        depth: if record_total(segments) <= u64::MAX {
            record_total(segments) as u64
        } else {
            u64::MAX
        },
        sync_count: 0,
    }
}

/// Where a record is to be written.
#[derive(Debug)]
pub struct DiskWrite {
    /// The number of the segment file.
    pub file_num: u64,
    /// The offset in that file; zero opens a new file.
    pub offset: u64,
    /// The bytes to append: the length and the data.
    pub record: Vec<u8>,
}

/// What reading the next record gave.
#[derive(Debug)]
pub enum DiskRead {
    /// The data of the next record.
    Record(Vec<u8>),
    /// The segment is drained; the read position moved to the next one.
    NextSegment,
    /// Nothing is left to read.
    Empty,
}

/// The state of a disk backing as plain numbers.
pub struct DiskState {
    pub max_file_size: u64,
    pub max_msg_size: usize,
    pub read_file_num: u64,
    pub read_pos: u64,
    pub write_file_num: u64,
    pub write_pos: u64,
    pub depth: u64,
    pub sync_count: u64,
}

/// The bookkeeping of one disk backing.
#[derive(Debug)]
pub struct DiskQueue {
    max_file_size: u64,
    max_msg_size: usize,
    read_file_num: u64,
    read_pos: u64,
    write_file_num: u64,
    write_pos: u64,
    depth: u64,
    sync_count: u64,
}

impl View for DiskQueue {
    type V = DiskState;

    closed spec fn view(&self) -> DiskState {
        DiskState {
            max_file_size: self.max_file_size,
            max_msg_size: self.max_msg_size,
            read_file_num: self.read_file_num,
            read_pos: self.read_pos,
            write_file_num: self.write_file_num,
            write_pos: self.write_pos,
            depth: self.depth,
            sync_count: self.sync_count,
        }
    }
}

/// The state of a disk backing, where there is one.
pub open spec fn disk_view(disk: Option<DiskQueue>) -> Option<DiskState> {
    match disk {
        Some(d) => Some(d@),
        None => None,
    }
}

impl DiskState {
    /// Whether a record of `len` bytes can be written: it is within the
    /// message limit and the length field, and neither the file number nor
    /// the depth would overflow.
    pub open spec fn accepts(self, len: nat) -> bool {
        &&& len <= self.max_msg_size
        &&& len <= u32::MAX
        &&& self.depth < u64::MAX
        &&& (self.rotates(len) ==> self.write_file_num < u64::MAX)
    }

    /// Whether `n` records of at most `big` bytes each can be written,
    /// whatever their sizes are.
    pub open spec fn has_room(self, n: nat, big: nat) -> bool {
        &&& big <= self.max_msg_size
        &&& big < u32::MAX
        &&& self.depth + n < u64::MAX
        &&& self.write_file_num + n < u64::MAX
    }

    /// Whether writing a record of `len` bytes opens a new segment: the
    /// record would run past the size limit of the current one.
    pub open spec fn rotates(self, len: nat) -> bool {
        self.write_pos + 4 + len > self.max_file_size
    }

    /// The file that a record of `len` bytes goes to.
    pub open spec fn target_file(self, len: nat) -> u64 {
        if self.rotates(len) {
            (self.write_file_num + 1) as u64
        } else {
            self.write_file_num
        }
    }

    /// The offset that a record of `len` bytes goes to.
    pub open spec fn target_offset(self, len: nat) -> u64 {
        if self.rotates(len) {
            0
        } else {
            self.write_pos
        }
    }

    /// The state after a record of `len` bytes was written.
    pub open spec fn after_put(self, len: nat) -> DiskState {
        DiskState {
            write_file_num: self.target_file(len),
            write_pos: (self.target_offset(len) + 4 + len) as u64,
            depth: (self.depth + 1) as u64,
            ..self
        }
    }

    /// The record at the read position of `segment`, if records are waiting
    /// and a whole one is there.
    pub open spec fn next_record(self, segment: Seq<u8>) -> Option<Seq<u8>> {
        if self.depth > 0 && self.read_pos <= segment.len() {
            parse_payload(segment.skip(self.read_pos as int))
        } else {
            None
        }
    }

    /// The state after a record of `len` bytes was read.
    pub open spec fn after_record(self, len: nat) -> DiskState {
        DiskState {
            read_pos: (self.read_pos + 4 + len) as u64,
            depth: (self.depth - 1) as u64,
            ..self
        }
    }

    /// Whether the write position can go back to `offset` in segment
    /// `file_num`, giving up the last `n` records: as many are waiting, and
    /// the position lies between the read and the write position.
    pub open spec fn can_rewind(self, file_num: u64, offset: u64, n: u64) -> bool {
        &&& n <= self.depth
        &&& (file_num < self.write_file_num || (file_num == self.write_file_num && offset
            <= self.write_pos))
        &&& (file_num > self.read_file_num || (file_num == self.read_file_num && offset
            >= self.read_pos))
    }

    /// The state after the last `n` records were given up and the write
    /// position went back to `offset` in segment `file_num`; no change where
    /// that cannot be.
    pub open spec fn after_rewind(self, file_num: u64, offset: u64, n: u64) -> DiskState {
        if self.can_rewind(file_num, offset, n) {
            DiskState {
                write_file_num: file_num,
                write_pos: offset,
                depth: (self.depth - n) as u64,
                ..self
            }
        } else {
            self
        }
    }

    /// The state of an empty backing with the limits of this one.
    pub open spec fn fresh(self) -> DiskState {
        DiskState {
            max_file_size: self.max_file_size,
            max_msg_size: self.max_msg_size,
            read_file_num: 0,
            read_pos: 0,
            write_file_num: 0,
            write_pos: 0,
            depth: 0,
            sync_count: 0,
        }
    }

    /// The state after everything written so far was skipped: the read
    /// position stands at the write position and nothing is waiting.
    pub open spec fn after_skip(self) -> DiskState {
        DiskState {
            read_file_num: self.write_file_num,
            read_pos: self.write_pos,
            depth: 0,
            ..self
        }
    }

    /// The state after the read position moved to the next segment.
    pub open spec fn after_roll(self) -> DiskState {
        DiskState { read_file_num: (self.read_file_num + 1) as u64, read_pos: 0, ..self }
    }
}

impl DiskQueue {
    /// The bookkeeping of an empty backing whose segments hold at most
    /// `max_file_size` bytes and whose records hold at most `max_msg_size`.
    pub fn new(max_file_size: u64, max_msg_size: usize) -> (q: DiskQueue)
        ensures
            q@ == (DiskState {
                max_file_size,
                max_msg_size,
                read_file_num: 0,
                read_pos: 0,
                write_file_num: 0,
                write_pos: 0,
                depth: 0,
                sync_count: 0,
            }),
    {
        DiskQueue {
            max_file_size,
            max_msg_size,
            read_file_num: 0,
            read_pos: 0,
            write_file_num: 0,
            write_pos: 0,
            depth: 0,
            sync_count: 0,
        }
    }

    /// The bookkeeping of a backing that is found on disk as `segments`, in
    /// any order. A segment that is cut short counts up to its last whole
    /// record.
    pub fn recover(max_file_size: u64, max_msg_size: usize, segments: &Vec<Segment>) -> (q:
        DiskQueue)
        ensures
            q@ == recovered_state(max_file_size, max_msg_size, segments@),
    {
        let n = segments.len();
        let mut first: u64 = 0;
        let mut last: u64 = 0;
        let mut last_len: u64 = 0;
        let mut depth: u64 = 0;
        let mut k: usize = 0;
        proof {
            assert(segments@.take(0) =~= Seq::<Segment>::empty());
        }
        while k < n
            invariant
                k <= n,
                n == segments@.len(),
                recovered_state(max_file_size, max_msg_size, segments@.take(k as int)) == (
                DiskState {
                    max_file_size,
                    max_msg_size,
                    read_file_num: first,
                    read_pos: 0,
                    write_file_num: last,
                    write_pos: last_len,
                    depth,
                    sync_count: 0,
                }),
                k > 0 ==> oldest(segments@.take(k as int)) is Some && newest(
                    segments@.take(k as int),
                ) is Some,
                k == 0 ==> oldest(segments@.take(k as int)) is None && newest(
                    segments@.take(k as int),
                ) is None,
            decreases n - k,
        {
            let s = segments[k];
            proof {
                assert(segments@.take(k + 1).drop_last() =~= segments@.take(k as int));
                assert(segments@.take(k + 1).last() == s);
            }
            if k == 0 || s.file_num < first {
                first = s.file_num;
            }
            if k == 0 || s.file_num > last {
                last = s.file_num;
                last_len = s.scan.valid_len as u64;
            }
            depth = depth.saturating_add(s.scan.records);
            k = k + 1;
        }
        proof {
            assert(segments@.take(n as int) =~= segments@);
        }
        DiskQueue {
            max_file_size,
            max_msg_size,
            read_file_num: first,
            read_pos: 0,
            write_file_num: last,
            write_pos: last_len,
            depth,
            sync_count: 0,
        }
    }

    /// The bookkeeping of a backing found on disk: reading starts at the
    /// first segment, writing goes on at the end of the last, and `depth`
    /// records are waiting.
    pub fn recovered(
        max_file_size: u64,
        max_msg_size: usize,
        first_file: u64,
        last_file: u64,
        last_len: u64,
        depth: u64,
    ) -> (q: DiskQueue)
        ensures
            q@ == (DiskState {
                max_file_size,
                max_msg_size,
                read_file_num: first_file,
                read_pos: 0,
                write_file_num: last_file,
                write_pos: last_len,
                depth,
                sync_count: 0,
            }),
    {
        DiskQueue {
            max_file_size,
            max_msg_size,
            read_file_num: first_file,
            read_pos: 0,
            write_file_num: last_file,
            write_pos: last_len,
            depth,
            sync_count: 0,
        }
    }

    /// Whether a record of `len` bytes can be written.
    pub fn accepts(&self, len: usize) -> (yes: bool)
        ensures
            yes == self@.accepts(len as nat),
    {
        if len > self.max_msg_size || len > u32::MAX as usize || self.depth == u64::MAX {
            return false;
        }
        let need: u64 = 4 + len as u64;
        let rotate = self.write_pos > self.max_file_size || need > self.max_file_size
            - self.write_pos;
        !(rotate && self.write_file_num == u64::MAX)
    }

    /// Whether `n` records of at most `big` bytes each can be written.
    pub fn has_room(&self, n: usize, big: usize) -> (yes: bool)
        ensures
            yes == self@.has_room(n as nat, big as nat),
    {
        big <= self.max_msg_size && big < u32::MAX as usize && (n as u64) < u64::MAX - self.depth
            && (n as u64) < u64::MAX - self.write_file_num
    }

    /// The bookkeeping of an empty backing with the limits of this one.
    pub fn fresh(&self) -> (q: DiskQueue)
        ensures
            q@ == self@.fresh(),
    {
        DiskQueue::new(self.max_file_size, self.max_msg_size)
    }

    /// Plans the write of one record.
    ///
    /// Data over the message limit is a validation error; a counter that
    /// would overflow is a queue error; in both cases nothing changes.
    /// Otherwise the record goes to the end of the current segment, or to
    /// the start of the next where it would run past the segment limit.
    pub fn put(&mut self, data: &[u8]) -> (res: Result<DiskWrite, NsqError>)
        ensures
            old(self)@.accepts(data@.len()) ==> final(self)@ == old(self)@.after_put(data@.len()),
            old(self)@.accepts(data@.len()) ==> res is Ok && res->Ok_0.file_num == old(self)@.target_file(
                data@.len(),
            ) && res->Ok_0.offset == old(self)@.target_offset(
                data@.len(),
            ) && res->Ok_0.record@ == payload_bytes(data@),
            !old(self)@.accepts(data@.len()) ==> final(self)@ == old(self)@ && res is Err,
            data@.len() > old(self)@.max_msg_size ==> res is Err && res->Err_0 is Validation,
            res is Err ==> res->Err_0 is Validation || res->Err_0 is Queue,
    {
        let len = data.len();
        if len > self.max_msg_size {
            return Err(NsqError::Validation(String::from_str("Message too large")));
        }
        if len > u32::MAX as usize {
            return Err(NsqError::Validation(String::from_str("Message too large")));
        }
        if self.depth == u64::MAX {
            return Err(NsqError::Queue(String::from_str("Disk queue is full")));
        }
        let need: u64 = 4 + len as u64;
        let rotate = self.write_pos > self.max_file_size || need > self.max_file_size
            - self.write_pos;
        if rotate && self.write_file_num == u64::MAX {
            return Err(NsqError::Queue(String::from_str("Disk queue is full")));
        }
        if rotate {
            self.write_file_num = self.write_file_num + 1;
            self.write_pos = 0;
        }
        let mut record: Vec<u8> = Vec::new();
        put_payload(&mut record, data);
        let write = DiskWrite { file_num: self.write_file_num, offset: self.write_pos, record };
        self.write_pos = self.write_pos + need;
        self.depth = self.depth + 1;
        Ok(write)
    }

    /// Takes the next record out of `segment`, the bytes of the segment at
    /// the read position's file.
    ///
    /// Where records are waiting and a whole one stands at the read position
    /// it is returned and the position moves past it. Where none does and
    /// later segments exist, the position moves to the start of the next
    /// segment. Otherwise nothing is left and nothing changes.
    pub fn get(&mut self, segment: &[u8]) -> (res: DiskRead)
        ensures
            match old(self)@.next_record(segment@) {
                Some(record) => {
                    &&& res matches DiskRead::Record(data) && data@ == record
                    &&& final(self)@ == old(self)@.after_record(record.len())
                },
                None => if old(self)@.read_file_num < old(self)@.write_file_num {
                    res is NextSegment && final(self)@ == old(self)@.after_roll()
                } else {
                    res is Empty && final(self)@ == old(self)@
                },
            },
    {
        let n = segment.len();
        if self.depth > 0 && self.read_pos <= n as u64 {
            let at = self.read_pos as usize;
            let rest = vstd::slice::slice_subrange(segment, at, n);
            proof {
                assert(rest@ =~= segment@.skip(at as int));
            }
            match read_payload(rest) {
                Some(data) => {
                    self.read_pos = self.read_pos + 4 + data.len() as u64;
                    self.depth = self.depth - 1;
                    return DiskRead::Record(data);
                },
                None => {},
            }
        }
        if self.read_file_num < self.write_file_num {
            self.read_file_num = self.read_file_num + 1;
            self.read_pos = 0;
            DiskRead::NextSegment
        } else {
            DiskRead::Empty
        }
    }

    /// Gives up the last `n` records, which were planned and could not be
    /// written: the write position goes back to `offset` in segment
    /// `file_num`, where the first of them was to go. The result tells
    /// whether that could be; if not, nothing changes.
    pub fn rewind(&mut self, file_num: u64, offset: u64, n: u64) -> (done: bool)
        ensures
            done == old(self)@.can_rewind(file_num, offset, n),
            final(self)@ == old(self)@.after_rewind(file_num, offset, n),
    {
        let before_write = file_num < self.write_file_num || (file_num == self.write_file_num
            && offset <= self.write_pos);
        let after_read = file_num > self.read_file_num || (file_num == self.read_file_num && offset
            >= self.read_pos);
        if n <= self.depth && before_write && after_read {
            self.write_file_num = file_num;
            self.write_pos = offset;
            self.depth = self.depth - n;
            true
        } else {
            false
        }
    }

    /// Skips every record written so far.
    pub fn skip_all(&mut self)
        ensures
            final(self)@ == old(self)@.after_skip(),
    {
        self.read_file_num = self.write_file_num;
        self.read_pos = self.write_pos;
        self.depth = 0;
    }

    /// The number of records waiting on disk.
    pub fn depth(&self) -> (n: u64)
        ensures
            n == self@.depth,
    {
        self.depth
    }

    /// Records that the segment being written was flushed to disk.
    pub fn sync(&mut self)
        ensures
            final(self)@ == (DiskState {
                sync_count: if old(self)@.sync_count < u64::MAX {
                    (old(self)@.sync_count + 1) as u64
                } else {
                    u64::MAX
                },
                ..old(self)@
            }),
    {
        self.sync_count = self.sync_count.saturating_add(1);
    }

    /// How many times the backing was flushed.
    pub fn sync_count(&self) -> (n: u64)
        ensures
            n == self@.sync_count,
    {
        self.sync_count
    }

    /// The number of the segment that is read next.
    pub fn read_file_num(&self) -> (n: u64)
        ensures
            n == self@.read_file_num,
    {
        self.read_file_num
    }

    /// The number of the segment that is written next.
    pub fn write_file_num(&self) -> (n: u64)
        ensures
            n == self@.write_file_num,
    {
        self.write_file_num
    }

    /// Picks the segments to delete from those present, `files`: each one
    /// that is fully drained (numbered below the read position) and that has
    /// at least `max_files` higher-numbered segments after it. They come in
    /// the order of `files`.
    pub fn delete_old_files(&self, files: &Vec<u64>, max_files: usize) -> (doomed: Vec<u64>)
        ensures
            doomed@ == files@.filter(
                |f: u64| expendable(files@, f, max_files as nat, self@.read_file_num),
            ),
    {
        let mut doomed: Vec<u64> = Vec::new();
        let n = files.len();
        let ghost keep = |f: u64| expendable(files@, f, max_files as nat, self@.read_file_num);
        let mut i: usize = 0;
        proof {
            assert(files@.take(0) =~= Seq::<u64>::empty());
        }
        while i < n
            invariant
                i <= n,
                n == files@.len(),
                keep == |f: u64| expendable(files@, f, max_files as nat, self@.read_file_num),
                doomed@ == files@.take(i as int).filter(keep),
            decreases n - i,
        {
            let f = files[i];
            let newer = count_newer(files, f);
            proof {
                lemma_filter_step(files@, i as int, keep);
            }
            if f < self.read_file_num && newer >= max_files {
                doomed.push(f);
            }
            i = i + 1;
        }
        proof {
            assert(files@.take(n as int) =~= files@);
        }
        doomed
    }
}

/// The number of entries of `files` greater than `f`.
pub open spec fn newer_count(files: Seq<u64>, f: u64) -> nat
    decreases files.len(),
{
    if files.len() == 0 {
        0
    } else {
        newer_count(files.drop_last(), f) + if files.last() > f {
            1nat
        } else {
            0nat
        }
    }
}

/// Whether segment `f` may be deleted: it is drained and at least `keep`
/// newer segments exist.
pub open spec fn expendable(files: Seq<u64>, f: u64, keep: nat, read_file_num: u64) -> bool {
    f < read_file_num && newer_count(files, f) >= keep
}

fn count_newer(files: &Vec<u64>, f: u64) -> (n: usize)
    ensures
        n == newer_count(files@, f),
{
    let mut n: usize = 0;
    let mut i: usize = 0;
    proof {
        assert(files@.take(0) =~= Seq::<u64>::empty());
    }
    while i < files.len()
        invariant
            i <= files@.len(),
            n == newer_count(files@.take(i as int), f),
            n <= i,
        decreases files@.len() - i,
    {
        proof {
            assert(files@.take(i + 1).drop_last() =~= files@.take(i as int));
        }
        if files[i] > f {
            n = n + 1;
        }
        i = i + 1;
    }
    proof {
        assert(files@.take(files@.len() as int) =~= files@);
    }
    n
}

/// Filtering one element more: the element joins the result exactly when it
/// passes.
pub proof fn lemma_filter_step<T>(s: Seq<T>, i: int, pred: spec_fn(T) -> bool)
    requires
        0 <= i < s.len(),
    ensures
        s.take(i + 1).filter(pred) == if pred(s[i]) {
            s.take(i).filter(pred).push(s[i])
        } else {
            s.take(i).filter(pred)
        },
{
    reveal(Seq::filter);
    assert(s.take(i + 1).drop_last() =~= s.take(i));
    assert(s.take(i + 1).last() == s[i]);
}

/// The bytes of `nsq.`.
pub open spec fn segment_prefix() -> Seq<u8> {
    seq![0x6eu8, 0x73, 0x71, 0x2e]
}

/// The bytes of `.dat`.
pub open spec fn segment_suffix() -> Seq<u8> {
    seq![0x2eu8, 0x64, 0x61, 0x74]
}

/// The name of segment `n`: `nsq.`, the number in decimal, `.dat`.
pub open spec fn segment_name(n: u64) -> Seq<u8> {
    segment_prefix() + decimal_digits(n as nat) + segment_suffix()
}

/// The name of the file that holds segment `n`, as ASCII bytes.
pub fn segment_file_name(n: u64) -> (name: Vec<u8>)
    ensures
        name@ == segment_name(n),
{
    let mut name: Vec<u8> = vec![0x6eu8, 0x73, 0x71, 0x2e];
    proof {
        assert(name@ =~= segment_prefix());
    }
    put_decimal(&mut name, n);
    let suffix: Vec<u8> = vec![0x2eu8, 0x64, 0x61, 0x74];
    proof {
        assert(suffix@ =~= segment_suffix());
    }
    append_bytes(&mut name, suffix.as_slice());
    name
}

/// The segment number that a file name holds: the decimal number between
/// `nsq.` and `.dat`, or `None` where the name has another shape.
pub open spec fn segment_number(name: Seq<u8>) -> Option<u64> {
    if name.len() >= 8 && name.take(4) == segment_prefix() && name.skip(name.len() - 4)
        == segment_suffix() {
        parse_decimal_spec(name.subrange(4, name.len() - 4), u64::MAX)
    } else {
        None
    }
}

/// Reads the segment number out of a file name.
pub fn parse_segment_file_name(name: &[u8]) -> (res: Option<u64>)
    ensures
        res == segment_number(name@),
{
    let n = name.len();
    if n < 8 {
        return None;
    }
    let prefix: Vec<u8> = vec![0x6eu8, 0x73, 0x71, 0x2e];
    let suffix: Vec<u8> = vec![0x2eu8, 0x64, 0x61, 0x74];
    proof {
        assert(prefix@ =~= segment_prefix());
        assert(suffix@ =~= segment_suffix());
        assert(name@.take(4) =~= name@.subrange(0, 4));
        assert(name@.skip(n - 4) =~= name@.subrange(n - 4, n as int));
    }
    if !crate::wire::bytes_equal(vstd::slice::slice_subrange(name, 0, 4), prefix.as_slice()) {
        return None;
    }
    if !crate::wire::bytes_equal(vstd::slice::slice_subrange(name, n - 4, n), suffix.as_slice()) {
        return None;
    }
    parse_decimal(vstd::slice::slice_subrange(name, 4, n - 4), u64::MAX)
}

} // verus!
