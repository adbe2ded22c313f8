//! The kernel tree-search protocol: request key layout, byte-level decoding
//! of returned extent-data items, and the cursor logic that resumes a search
//! whose single-call buffer filled before all matching records were returned.
//!
//! The search call itself is an ioctl issued by the surrounding binary;
//! this module performs no I/O. It prepares the request key, and given the
//! filled response buffer it decodes the batch and decides whether the
//! search must be re-issued with an advanced key range.

use vstd::prelude::*;

use crate::bytes::{le_u32_at, le_u64_at, read_le_u32, read_le_u64};

verus! {

/// Key type selecting extent-data items in the filesystem tree.
pub const BTRFS_EXTENT_DATA_KEY: u32 = 108;

/// Size in bytes of the fixed header preceding each returned item.
pub const SEARCH_HEADER_SIZE: usize = 32;

/// Size in bytes of a full (non-inline) extent-data item payload.
pub const EXTENT_ITEM_SIZE: usize = 53;

/// Byte offset of `disk_bytenr` within an extent-data payload; for an inline
/// item the embedded file data starts here instead.
pub const INLINE_DATA_OFFSET: usize = 21;

/// Header plus full payload: the typical size one returned item occupies.
pub const BUF_ITEM_SIZE: usize = 85;

/// Capacity of the fixed response buffer.
pub const SEARCH_BUF_SIZE: usize = 65536;

/// The on-disk type tag of an extent-data item.
#[derive(Clone, Copy, Debug, PartialEq, Eq, Structural)]
pub enum BtrfsFileExtentType {
    INLINE,
    REGULAR,
    PREALLOC,
    UNKNOWN,
}

/// The extent type encoded by a raw tag byte; every unrecognized tag maps to
/// `UNKNOWN` so that decoding never fails on unexpected kernel data.
pub open spec fn kind_from_byte(v: u8) -> BtrfsFileExtentType {
    if v == 0 {
        BtrfsFileExtentType::INLINE
    } else if v == 1 {
        BtrfsFileExtentType::REGULAR
    } else if v == 2 {
        BtrfsFileExtentType::PREALLOC
    } else {
        BtrfsFileExtentType::UNKNOWN
    }
}

impl From<u8> for BtrfsFileExtentType {
    fn from(v: u8) -> (r: Self) {
        match v {
            0 => BtrfsFileExtentType::INLINE,
            1 => BtrfsFileExtentType::REGULAR,
            2 => BtrfsFileExtentType::PREALLOC,
            _ => BtrfsFileExtentType::UNKNOWN,
        }
    }
}

impl vstd::std_specs::convert::FromSpecImpl<u8> for BtrfsFileExtentType {
    open spec fn obeys_from_spec() -> bool {
        true
    }

    open spec fn from_spec(v: u8) -> Self {
        kind_from_byte(v)
    }
}

/// One decoded extent-data record of a file.
///
/// Exactly one of "`disk_bytenr` is present" and "the record is inline"
/// holds: inline data lives inside the metadata item itself and has no
/// physical extent identity.
#[derive(Clone, Copy, Debug)]
pub struct BtrfsFileExtentItem {
    pub kind: BtrfsFileExtentType,
    pub generation: u64,
    pub ram_bytes: u64,
    pub compression: u8,
    pub encryption: u8,
    pub disk_bytenr: Option<u64>,
    pub disk_num_bytes: u64,
    pub offset: Option<u64>,
    pub num_bytes: u64,
}

impl BtrfsFileExtentItem {
    /// The record invariant: physical identity if and only if not inline,
    /// and an inline record references exactly its uncompressed payload.
    pub open spec fn wf(self) -> bool {
        &&& (self.kind == BtrfsFileExtentType::INLINE <==> self.disk_bytenr is None)
        &&& (self.kind == BtrfsFileExtentType::INLINE <==> self.offset is None)
        &&& (self.kind == BtrfsFileExtentType::INLINE ==> self.num_bytes == self.ram_bytes)
    }

    /// Builds a record from the raw stored fields of one kernel item, deriving
    /// the fields an inline item does not store: its on-disk size is the item
    /// payload length past the fixed prefix, and its logical length equals
    /// `ram_bytes`.
    pub fn from_raw(
        item_len: u32,
        type_byte: u8,
        generation: u64,
        ram_bytes: u64,
        compression: u8,
        encryption: u8,
        disk_bytenr: u64,
        disk_num_bytes: u64,
        offset: u64,
        num_bytes: u64,
    ) -> (r: Self)
        requires
            kind_from_byte(type_byte) == BtrfsFileExtentType::INLINE ==> item_len >= 21,
        ensures
            r.wf(),
            r.kind == kind_from_byte(type_byte),
            r.generation == generation,
            r.ram_bytes == ram_bytes,
            r.compression == compression,
            r.encryption == encryption,
            r.kind == BtrfsFileExtentType::INLINE ==> {
                &&& r.disk_bytenr is None
                &&& r.disk_num_bytes == item_len - 21
                &&& r.offset is None
                &&& r.num_bytes == ram_bytes
            },
            r.kind != BtrfsFileExtentType::INLINE ==> {
                &&& r.disk_bytenr == Some(disk_bytenr)
                &&& r.disk_num_bytes == disk_num_bytes
                &&& r.offset == Some(offset)
                &&& r.num_bytes == num_bytes
            },
    {
        let kind = BtrfsFileExtentType::from(type_byte);
        if kind == BtrfsFileExtentType::INLINE {
            BtrfsFileExtentItem {
                kind,
                generation,
                ram_bytes,
                compression,
                encryption,
                disk_bytenr: None,
                disk_num_bytes: (item_len - 21) as u64,
                offset: None,
                num_bytes: ram_bytes,
            }
        } else {
            BtrfsFileExtentItem {
                kind,
                generation,
                ram_bytes,
                compression,
                encryption,
                disk_bytenr: Some(disk_bytenr),
                disk_num_bytes,
                offset: Some(offset),
                num_bytes,
            }
        }
    }

    /// Transaction id of the extent's creation.
    pub fn generation(&self) -> (r: u64)
        ensures
            r == self.generation,
    {
        self.generation
    }

    /// Uncompressed size of the data the extent represents.
    pub fn ram_bytes(&self) -> (r: u64)
        ensures
            r == self.ram_bytes,
    {
        self.ram_bytes
    }

    /// Compression algorithm code recorded on the extent.
    pub fn compression(&self) -> (r: u8)
        ensures
            r == self.compression,
    {
        self.compression
    }

    /// Encryption code (reserved, unused by the statistics).
    pub fn encryption(&self) -> (r: u8)
        ensures
            r == self.encryption,
    {
        self.encryption
    }

    /// The extent type tag.
    pub fn type_(&self) -> (r: BtrfsFileExtentType)
        ensures
            r == self.kind,
    {
        self.kind
    }

    /// Physical start address; `None` exactly for an inline record, whose
    /// data lives inside the metadata item rather than a separate extent.
    pub fn disk_bytenr(&self) -> (r: Option<u64>)
        ensures
            r == self.disk_bytenr,
    {
        self.disk_bytenr
    }

    /// Physical bytes the extent occupies on disk; for an inline record this
    /// is the size of the embedded payload.
    pub fn disk_num_bytes(&self) -> (r: u64)
        ensures
            r == self.disk_num_bytes,
    {
        self.disk_num_bytes
    }

    /// Byte offset within the extent where this file's logical range begins;
    /// `None` exactly for an inline record.
    pub fn offset(&self) -> (r: Option<u64>)
        ensures
            r == self.offset,
    {
        self.offset
    }

    /// Logical length this file references from the extent; for an inline
    /// record this equals `ram_bytes`.
    pub fn num_bytes(&self) -> (r: u64)
        ensures
            r == self.num_bytes,
    {
        self.num_bytes
    }
}

/// An inline record references exactly its embedded payload — its logical
/// length equals its uncompressed length — and carries no physical extent
/// identity that could enter the shared registry.
pub proof fn lemma_inline_no_physical_identity(r: BtrfsFileExtentItem)
    requires
        r.wf(),
        r.kind == BtrfsFileExtentType::INLINE,
    ensures
        r.num_bytes == r.ram_bytes,
        r.disk_bytenr is None,
{
}

} // verus!

verus! {

/// The fixed-layout search key of one kernel tree-search request.
#[allow(non_camel_case_types)]
#[derive(Clone, Copy, Debug, PartialEq, Eq, Structural)]
pub struct btrfs_ioctl_search_key {
    pub tree_id: u64,
    pub min_objectid: u64,
    pub max_objectid: u64,
    pub min_offset: u64,
    pub max_offset: u64,
    pub min_transid: u64,
    pub max_transid: u64,
    pub min_type: u32,
    pub max_type: u32,
    pub nr_items: u32,
    pub unused: u32,
    pub unused1: u64,
    pub unused2: u64,
    pub unused3: u64,
    pub unused4: u64,
}

/// The key that selects every extent-data item of the inode `ino`: object-id
/// range pinned to the inode, type range pinned to extent data, offset and
/// transaction ranges spanning the full domain, item count unbounded.
pub open spec fn spec_search_key_for(ino: u64) -> btrfs_ioctl_search_key {
    btrfs_ioctl_search_key {
        tree_id: 0,
        min_objectid: ino,
        max_objectid: ino,
        min_offset: 0,
        max_offset: u64::MAX,
        min_transid: 0,
        max_transid: u64::MAX,
        min_type: BTRFS_EXTENT_DATA_KEY,
        max_type: BTRFS_EXTENT_DATA_KEY,
        nr_items: u32::MAX,
        unused: 0,
        unused1: 0,
        unused2: 0,
        unused3: 0,
        unused4: 0,
    }
}

/// One kernel tree-search request: the search key followed by the fixed
/// 64 KiB response buffer the kernel fills with matching items.
#[allow(non_camel_case_types)]
pub struct btrfs_ioctl_search_args_v2_64KB {
    pub key: btrfs_ioctl_search_key,
    pub buf_size: u64,
    pub buf: Vec<u8>,
}

impl btrfs_ioctl_search_args_v2_64KB {
    /// The buffer really has the fixed capacity the request advertises.
    pub open spec fn wf(self) -> bool {
        &&& self.buf_size == SEARCH_BUF_SIZE
        &&& self.buf@.len() == SEARCH_BUF_SIZE
    }

    /// Creates request arguments with the fixed zeroed buffer and the key
    /// returned by [`spec_search_key_for`]: ideal for searching all extents
    /// of a file by its inode number.
    pub fn new_search_file_extent_data(ino: u64) -> (r: btrfs_ioctl_search_args_v2_64KB)
        ensures
            r.wf(),
            r.key == spec_search_key_for(ino),
            forall|i: int| 0 <= i < r.buf@.len() ==> r.buf@[i] == 0,
    {
        let mut buf: Vec<u8> = Vec::new();
        let mut i: usize = 0;
        while i < SEARCH_BUF_SIZE
            invariant
                i <= SEARCH_BUF_SIZE,
                buf@.len() == i,
                forall|j: int| 0 <= j < i ==> buf@[j] == 0,
            decreases SEARCH_BUF_SIZE - i,
        {
            buf.push(0u8);
            i = i + 1;
        }
        btrfs_ioctl_search_args_v2_64KB {
            key: btrfs_ioctl_search_key {
                tree_id: 0,
                min_objectid: ino,
                max_objectid: ino,
                min_offset: u64::MIN,
                max_offset: u64::MAX,
                min_transid: u64::MIN,
                max_transid: u64::MAX,
                min_type: BTRFS_EXTENT_DATA_KEY,
                max_type: BTRFS_EXTENT_DATA_KEY,
                nr_items: u32::MAX,
                unused: 0,
                unused1: 0,
                unused2: 0,
                unused3: 0,
                unused4: 0,
            },
            buf_size: 65536,
            buf,
        }
    }

    /// Resets `self.key` as if freshly created by
    /// [`Self::new_search_file_extent_data`], reusing the large buffer.
    pub fn set_search_file_extent_data(&mut self, ino: u64)
        requires
            old(self).wf(),
        ensures
            final(self).wf(),
            final(self).key == spec_search_key_for(ino),
            final(self).buf == old(self).buf,
    {
        self.buf_size = 65536;
        self.key.tree_id = 0;
        self.key.max_objectid = ino;
        self.key.min_objectid = ino;
        self.key.min_offset = u64::MIN;
        self.key.max_offset = u64::MAX;
        self.key.min_transid = u64::MIN;
        self.key.max_transid = u64::MAX;
        self.key.min_type = BTRFS_EXTENT_DATA_KEY;
        self.key.max_type = BTRFS_EXTENT_DATA_KEY;
        self.key.nr_items = u32::MAX;
        self.key.unused = 0;
        self.key.unused1 = 0;
        self.key.unused2 = 0;
        self.key.unused3 = 0;
        self.key.unused4 = 0;
    }
}

} // verus!

verus! {

/// The fixed header the kernel places before each returned item.
#[allow(non_camel_case_types)]
#[derive(Clone, Copy, Debug)]
pub struct btrfs_ioctl_search_header {
    pub transid: u64,
    pub objectid: u64,
    pub offset: u64,
    pub type_: u32,
    pub len: u32,
}

/// The header encoded at byte position `pos` of the response buffer.
pub open spec fn spec_header(buf: Seq<u8>, pos: int) -> btrfs_ioctl_search_header {
    btrfs_ioctl_search_header {
        transid: le_u64_at(buf, pos) as u64,
        objectid: le_u64_at(buf, pos + 8) as u64,
        offset: le_u64_at(buf, pos + 16) as u64,
        type_: le_u32_at(buf, pos + 24) as u32,
        len: le_u32_at(buf, pos + 28) as u32,
    }
}

/// Reads one item header from the response buffer.
pub fn read_header(buf: &Vec<u8>, pos: usize) -> (h: btrfs_ioctl_search_header)
    requires
        pos + SEARCH_HEADER_SIZE <= buf.len(),
    ensures
        h == spec_header(buf@, pos as int),
{
    btrfs_ioctl_search_header {
        transid: read_le_u64(buf, pos),
        objectid: read_le_u64(buf, pos + 8),
        offset: read_le_u64(buf, pos + 16),
        type_: read_le_u32(buf, pos + 24),
        len: read_le_u32(buf, pos + 28),
    }
}

/// The extent-data record encoded at byte position `pos` of the buffer, for
/// an item whose stated payload length is `item_len`. The fixed prefix
/// (generation, ram_bytes, compression, encryption, type tag) is present in
/// every kind; the fields past it exist only for non-inline kinds — for an
/// inline item that byte region holds the embedded file data instead.
pub open spec fn spec_extent_item(buf: Seq<u8>, pos: int, item_len: u32) -> BtrfsFileExtentItem {
    let kind = kind_from_byte(buf[pos + 20]);
    if kind == BtrfsFileExtentType::INLINE {
        BtrfsFileExtentItem {
            kind,
            generation: le_u64_at(buf, pos) as u64,
            ram_bytes: le_u64_at(buf, pos + 8) as u64,
            compression: buf[pos + 16],
            encryption: buf[pos + 17],
            disk_bytenr: None,
            disk_num_bytes: (item_len - 21) as u64,
            offset: None,
            num_bytes: le_u64_at(buf, pos + 8) as u64,
        }
    } else {
        BtrfsFileExtentItem {
            kind,
            generation: le_u64_at(buf, pos) as u64,
            ram_bytes: le_u64_at(buf, pos + 8) as u64,
            compression: buf[pos + 16],
            encryption: buf[pos + 17],
            disk_bytenr: Some(le_u64_at(buf, pos + 21) as u64),
            disk_num_bytes: le_u64_at(buf, pos + 29) as u64,
            offset: Some(le_u64_at(buf, pos + 37) as u64),
            num_bytes: le_u64_at(buf, pos + 45) as u64,
        }
    }
}

/// Decodes the extent-data payload starting at `pos`.
pub fn decode_extent_item(buf: &Vec<u8>, pos: usize, item_len: u32) -> (r: BtrfsFileExtentItem)
    requires
        item_len >= INLINE_DATA_OFFSET,
        pos + item_len <= buf.len(),
        kind_from_byte(buf@[pos + 20]) != BtrfsFileExtentType::INLINE ==> item_len
            >= EXTENT_ITEM_SIZE,
    ensures
        r == spec_extent_item(buf@, pos as int, item_len),
        r.wf(),
{
    let generation = read_le_u64(buf, pos);
    let ram_bytes = read_le_u64(buf, pos + 8);
    let compression = buf[pos + 16];
    let encryption = buf[pos + 17];
    let type_byte = buf[pos + 20];
    if type_byte == 0 {
        BtrfsFileExtentItem::from_raw(
            item_len,
            type_byte,
            generation,
            ram_bytes,
            compression,
            encryption,
            0,
            0,
            0,
            0,
        )
    } else {
        let disk_bytenr = read_le_u64(buf, pos + 21);
        let disk_num_bytes = read_le_u64(buf, pos + 29);
        let offset = read_le_u64(buf, pos + 37);
        let num_bytes = read_le_u64(buf, pos + 45);
        BtrfsFileExtentItem::from_raw(
            item_len,
            type_byte,
            generation,
            ram_bytes,
            compression,
            encryption,
            disk_bytenr,
            disk_num_bytes,
            offset,
            num_bytes,
        )
    }
}

/// Whether a well-formed item can be decoded at `pos`: its header and stated
/// payload lie within the buffer, the payload reaches through the type tag,
/// and a non-inline payload has its full stored size.
pub open spec fn spec_item_ok(buf: Seq<u8>, pos: int) -> bool {
    let h = spec_header(buf, pos);
    &&& pos + SEARCH_HEADER_SIZE <= buf.len()
    &&& pos + SEARCH_HEADER_SIZE + h.len <= buf.len()
    &&& h.len >= INLINE_DATA_OFFSET
    &&& (kind_from_byte(buf[pos + SEARCH_HEADER_SIZE + 20]) != BtrfsFileExtentType::INLINE
        ==> h.len >= EXTENT_ITEM_SIZE)
}

/// What one completed kernel batch decodes to: the records in buffer order,
/// the byte position just past the last item, and the key offset of the last
/// consumed header (`last` when the batch holds no item).
#[verifier::ext_equal]
pub ghost struct BatchSpec {
    pub items: Seq<BtrfsFileExtentItem>,
    pub end_pos: int,
    pub last_key_offset: u64,
}

/// Decodes `n` consecutive items starting at `pos`; `None` when some item is
/// malformed or overruns the buffer.
pub open spec fn spec_batch(buf: Seq<u8>, pos: int, n: int, last: u64) -> Option<BatchSpec>
    decreases n,
{
    if n <= 0 {
        Some(BatchSpec { items: Seq::empty(), end_pos: pos, last_key_offset: last })
    } else if !spec_item_ok(buf, pos) {
        None
    } else {
        let h = spec_header(buf, pos);
        let item = spec_extent_item(buf, pos + SEARCH_HEADER_SIZE, h.len);
        match spec_batch(buf, pos + SEARCH_HEADER_SIZE + h.len, n - 1, h.offset) {
            Some(b) => Some(
                BatchSpec {
                    items: seq![item] + b.items,
                    end_pos: b.end_pos,
                    last_key_offset: b.last_key_offset,
                },
            ),
            None => None,
        }
    }
}

/// A batch that consumed at least one item and left less slack than one
/// typical item signals that more matching items may exist: the kernel fills
/// the buffer with as many items as fit and reports an out-of-space failure
/// only when not even one fits. No continuation is possible past the largest
/// key offset, so none is signalled there.
pub open spec fn spec_continuation(b: BatchSpec, n: int) -> bool {
    &&& n > 0
    &&& SEARCH_BUF_SIZE - b.end_pos < BUF_ITEM_SIZE
    &&& b.last_key_offset < u64::MAX
}

/// The search key re-armed to resume just past the last consumed item.
pub open spec fn spec_resume_key(k: btrfs_ioctl_search_key, last: u64) -> btrfs_ioctl_search_key {
    btrfs_ioctl_search_key { min_offset: (last + 1) as u64, nr_items: u32::MAX, ..k }
}

/// A decoding failure: an item of the response buffer is malformed —
/// it overruns the buffer or its stated payload is too short.
#[derive(Clone, Copy, Debug, PartialEq, Eq, Structural)]
pub enum ProtocolError {
    MalformedItem,
}

/// Glues already-decoded records onto the decoding of the rest of a batch.
pub open spec fn spec_batch_join(
    prefix: Seq<BtrfsFileExtentItem>,
    rest: Option<BatchSpec>,
) -> Option<BatchSpec> {
    match rest {
        Some(b) => Some(
            BatchSpec {
                items: prefix + b.items,
                end_pos: b.end_pos,
                last_key_offset: b.last_key_offset,
            },
        ),
        None => None,
    }
}

/// Decodes the batch the kernel left in `args.buf` — `args.key.nr_items`
/// records — and applies the truncation heuristic: when the consumed batch
/// left less slack than one typical item, the key is re-armed to resume from
/// the last item's key offset plus one and the caller must re-issue the
/// search; otherwise the sequence is complete and `args` is left untouched.
pub fn process_batch(args: &mut btrfs_ioctl_search_args_v2_64KB) -> (r: Result<
    (Vec<BtrfsFileExtentItem>, bool),
    ProtocolError,
>)
    requires
        old(args).wf(),
    ensures
        final(args).wf(),
        final(args).buf == old(args).buf,
        match r {
            Ok(pair) => {
                let b = spec_batch(old(args).buf@, 0, old(args).key.nr_items as int, 0);
                &&& b is Some
                &&& pair.0@ == b->Some_0.items
                &&& pair.0@.len() == old(args).key.nr_items
                &&& (forall|k: int| 0 <= k < pair.0@.len() ==> pair.0@[k].wf())
                &&& pair.1 == spec_continuation(b->Some_0, old(args).key.nr_items as int)
                &&& (pair.1 ==> final(args).key == spec_resume_key(
                    old(args).key,
                    b->Some_0.last_key_offset,
                ))
                &&& (!pair.1 ==> *final(args) == *old(args))
            },
            Err(e) => {
                &&& spec_batch(old(args).buf@, 0, old(args).key.nr_items as int, 0) is None
                &&& *final(args) == *old(args)
                &&& e == ProtocolError::MalformedItem
            },
        },
{
    let n: u32 = args.key.nr_items;
    let ghost buf0 = args.buf@;
    let mut items: Vec<BtrfsFileExtentItem> = Vec::new();
    let mut pos: usize = 0;
    let mut i: u32 = 0;
    let mut last_off: u64 = 0;
    proof {
        let whole = spec_batch(buf0, 0, n as int, 0);
        if whole is Some {
            assert(Seq::<BtrfsFileExtentItem>::empty() + whole->Some_0.items =~= whole
                ->Some_0.items);
            assert(spec_batch_join(Seq::<BtrfsFileExtentItem>::empty(), whole)->Some_0 =~= whole
                ->Some_0);
        }
    }
    while i < n
        invariant
            args.wf(),
            args.key == old(args).key,
            args.buf == old(args).buf,
            buf0 == args.buf@,
            n == old(args).key.nr_items,
            i <= n,
            pos <= args.buf@.len(),
            items@.len() == i,
            forall|k: int| 0 <= k < items@.len() ==> items@[k].wf(),
            spec_batch(buf0, 0, n as int, 0) == spec_batch_join(
                items@,
                spec_batch(buf0, pos as int, (n - i) as int, last_off),
            ),
        decreases n - i,
    {
        if args.buf.len() - pos < SEARCH_HEADER_SIZE {
            return Err(ProtocolError::MalformedItem);
        }
        let h = read_header(&args.buf, pos);
        let payload = pos + SEARCH_HEADER_SIZE;
        if h.len < 21 {
            return Err(ProtocolError::MalformedItem);
        }
        if args.buf.len() - payload < h.len as usize {
            return Err(ProtocolError::MalformedItem);
        }
        let type_byte = args.buf[payload + 20];
        if type_byte != 0 && h.len < 53 {
            return Err(ProtocolError::MalformedItem);
        }
        let item = decode_extent_item(&args.buf, payload, h.len);
        let ghost inner = spec_batch(buf0, pos as int, (n - i) as int, last_off);
        let ghost next = spec_batch(
            buf0,
            payload + h.len as int,
            (n - i - 1) as int,
            h.offset,
        );
        proof {
            assert(spec_item_ok(buf0, pos as int));
            if next is Some {
                assert(items@ + (seq![item] + next->Some_0.items) =~= items@.push(item) + next
                    ->Some_0.items);
                assert(spec_batch_join(items@, inner)->Some_0 =~= spec_batch_join(
                    items@.push(item),
                    next,
                )->Some_0);
            }
        }
        items.push(item);
        pos = payload + h.len as usize;
        last_off = h.offset;
        i = i + 1;
    }
    let more: bool = if n == 0 {
        false
    } else {
        SEARCH_BUF_SIZE - pos < BUF_ITEM_SIZE && last_off < u64::MAX
    };
    proof {
        let tail = spec_batch(buf0, pos as int, 0, last_off);
        assert(items@ + tail->Some_0.items =~= items@);
        assert(spec_batch_join(items@, tail)->Some_0 =~= (BatchSpec {
            items: items@,
            end_pos: pos as int,
            last_key_offset: last_off,
        }));
    }
    if more {
        args.key.min_offset = last_off + 1;
        args.key.nr_items = u32::MAX;
    }
    Ok((items, more))
}

} // verus!
