//! Flattened device tree (FDT) definitions and routines.
//!
//! A device tree blob starts with a header of ten big-endian words. The
//! header locates the structure block, a sequence of tokens, and the strings
//! block. The reader checks the header and then walks the tokens of the
//! structure block, handing out the name of each node.

use vstd::prelude::*;

verus! {

/// The word that a device tree blob starts with.
pub const MAGIC: u32 = 0xd00dfeed;

/// The version of the format that the reader understands.
pub const COMPATIBLE_VERSION: u32 = 17;

/// Number of bytes in the header of a blob.
pub const HEADER_SIZE: usize = 40;

/// The kind of a token of the structure block.
pub type FdtTokenType = u32;

/// Starts a node; the name of the node follows, closed by a zero byte.
pub const FDT_BEGIN_NODE: FdtTokenType = 0x00000001;

/// Ends a node.
pub const FDT_END_NODE: FdtTokenType = 0x00000002;

/// Starts a property; its length, the offset of its name and its value
/// follow.
pub const FDT_PROP: FdtTokenType = 0x00000003;

/// Stands for nothing.
pub const FDT_NOP: FdtTokenType = 0x00000004;

/// Ends the structure block.
pub const FDT_END: FdtTokenType = 0x00000009;

/// Why a blob was turned down.
#[derive(Clone, Copy, Debug, PartialEq, Eq, Structural)]
pub enum FdtError {
    /// The blob starts with this word in place of [`MAGIC`].
    BadMagic(u32),
    /// The header names a block whose end cannot be told.
    InvalidFormat,
    /// The blob is of a version that the reader does not understand.
    IncompatibleVersion,
    /// The buffer is shorter than the header, or than the header says.
    BufferOverflow,
}

/// The header of a blob, each word decoded.
#[derive(Clone, Copy, Debug, PartialEq, Eq, Structural)]
pub struct Header {
    /// The word that marks a blob.
    pub magic: u32,
    /// Length of the whole blob in bytes.
    pub totalsize: u32,
    /// Offset of the structure block from the start of the blob.
    pub off_dt_struct: u32,
    /// Offset of the strings block from the start of the blob.
    pub off_dt_strings: u32,
    /// Offset of the memory reservation block from the start of the blob.
    pub off_mem_rsvmap: u32,
    /// Version of the format of the blob.
    pub version: u32,
    /// The oldest version that the blob is still compatible with.
    pub last_comp_version: u32,
    /// Number of the processor that boots the system.
    pub boot_cpuid_phys: u32,
    /// Length of the strings block in bytes.
    pub size_dt_strings: u32,
    /// Length of the structure block in bytes.
    pub size_dt_struct: u32,
}

/// A device tree, as views into the buffer that holds the blob.
pub struct Fdt<'a> {
    header: Header,
    mem_rsvmap: &'a [u8],
    dt_struct: &'a [u8],
    dt_strings: &'a [u8],
}

/// What a device tree stands for: its header and the bytes of its blocks.
pub struct FdtView {
    /// The header of the blob.
    pub header: Header,
    /// The memory reservation block. Its length is not known from the
    /// header, so it is taken as empty.
    pub reservations: Seq<u8>,
    /// The structure block.
    pub structure: Seq<u8>,
    /// The strings block.
    pub strings: Seq<u8>,
}

/// A forward walk over the tokens of a structure block.
pub struct DeviceTreeIterator<'a, 'b> {
    fdt: &'a Fdt<'b>,
    next_token_offset: usize,
}

/// What a walk stands for: a place in a structure block.
pub struct WalkView {
    /// The structure block that the walk goes over.
    pub structure: Seq<u8>,
    /// The offset of the token that the walk reads next.
    pub offset: int,
}

/// What the token at some offset of a structure block amounts to.
pub enum Step {
    /// A node starts here; the walk goes on at `next`.
    Node { name: Seq<u8>, next: int },
    /// A token without a name stands here; the walk goes on at `next`.
    Skip { next: int },
    /// The walk ends here.
    Stop,
}

/// The big-endian word that the four bytes of `bytes` from `at` on hold.
pub open spec fn word_at(bytes: Seq<u8>, at: int) -> u32 {
    (bytes[at] * 0x100_0000 + bytes[at + 1] * 0x1_0000 + bytes[at + 2] * 0x100 + bytes[at
        + 3]) as u32
}

/// The next multiple of four from `offset` on.
pub open spec fn align4(offset: int) -> int {
    (offset + 3) / 4 * 4
}

/// The place of the first zero byte of `bytes` from `from` on, or the length
/// of `bytes` where there is none.
pub open spec fn name_end(bytes: Seq<u8>, from: int) -> int
    decreases bytes.len() - from,
{
    if from < 0 || from >= bytes.len() {
        bytes.len() as int
    } else if bytes[from] == 0 {
        from
    } else {
        name_end(bytes, from + 1)
    }
}

/// The header that the first bytes of `bytes` hold.
pub open spec fn header_of(bytes: Seq<u8>) -> Header {
    Header {
        magic: word_at(bytes, 0),
        totalsize: word_at(bytes, 4),
        off_dt_struct: word_at(bytes, 8),
        off_dt_strings: word_at(bytes, 12),
        off_mem_rsvmap: word_at(bytes, 16),
        version: word_at(bytes, 20),
        last_comp_version: word_at(bytes, 24),
        boot_cpuid_phys: word_at(bytes, 28),
        size_dt_strings: word_at(bytes, 32),
        size_dt_struct: word_at(bytes, 36),
    }
}

/// Why the blob in `buffer` is turned down, if it is. The checks come in
/// this order: the length of the header, the magic word, the version, the
/// ends of the blocks, and the place of the blocks in the buffer.
pub open spec fn parse_error(buffer: Seq<u8>) -> Option<FdtError> {
    let header = header_of(buffer);
    if buffer.len() < HEADER_SIZE {
        Some(FdtError::BufferOverflow)
    } else if !header.spec_is_valid() {
        Some(FdtError::BadMagic(header.magic))
    } else if !header.spec_is_compatible() {
        Some(FdtError::IncompatibleVersion)
    } else if header.struct_end() > usize::MAX || header.strings_end() > usize::MAX {
        Some(FdtError::InvalidFormat)
    } else if header.strings_end() > buffer.len() || header.struct_end() > buffer.len()
        || header.off_mem_rsvmap > buffer.len() {
        Some(FdtError::BufferOverflow)
    } else {
        None
    }
}

/// What the token at `offset` of the structure block `block` amounts to.
///
/// The walk stops at the end of the block, at a token that is cut short, at
/// a node whose name is not closed, at the end token and at any word that is
/// no token.
pub open spec fn step(block: Seq<u8>, offset: int) -> Step {
    if offset < 0 || offset + 4 > block.len() {
        Step::Stop
    } else if word_at(block, offset) == FDT_BEGIN_NODE {
        let end = name_end(block, offset + 4);
        if end < block.len() && align4(end + 1) <= usize::MAX {
            Step::Node { name: block.subrange(offset + 4, end), next: align4(end + 1) }
        } else {
            Step::Stop
        }
    } else if word_at(block, offset) == FDT_PROP {
        if offset + 12 <= block.len() && align4(offset + 12 + word_at(block, offset + 4))
            <= usize::MAX {
            Step::Skip { next: align4(offset + 12 + word_at(block, offset + 4)) }
        } else {
            Step::Stop
        }
    } else if word_at(block, offset) == FDT_END_NODE || word_at(block, offset) == FDT_NOP {
        Step::Skip { next: offset + 4 }
    } else {
        Step::Stop
    }
}

impl Header {
    /// Whether the header starts with the magic word.
    pub open spec fn spec_is_valid(&self) -> bool {
        self.magic == MAGIC
    }

    /// Whether the blob is of a version that the reader understands: it is
    /// at least of that version, and still compatible with it.
    pub open spec fn spec_is_compatible(&self) -> bool {
        self.version >= COMPATIBLE_VERSION && self.last_comp_version <= COMPATIBLE_VERSION
    }

    /// The end of the structure block.
    pub open spec fn struct_end(&self) -> int {
        self.off_dt_struct + self.size_dt_struct
    }

    /// The end of the strings block.
    pub open spec fn strings_end(&self) -> int {
        self.off_dt_strings + self.size_dt_strings
    }

    /// Decodes the header at the start of `buffer`, if the buffer is long
    /// enough.
    pub fn read(buffer: &[u8]) -> (header: Option<Header>)
        ensures
            header == if buffer@.len() >= HEADER_SIZE {
                Some(header_of(buffer@))
            } else {
                None
            },
    {
        if buffer.len() < HEADER_SIZE {
            return None;
        }
        Some(
            Header {
                magic: read_word_at(buffer, 0),
                totalsize: read_word_at(buffer, 4),
                off_dt_struct: read_word_at(buffer, 8),
                off_dt_strings: read_word_at(buffer, 12),
                off_mem_rsvmap: read_word_at(buffer, 16),
                version: read_word_at(buffer, 20),
                last_comp_version: read_word_at(buffer, 24),
                boot_cpuid_phys: read_word_at(buffer, 28),
                size_dt_strings: read_word_at(buffer, 32),
                size_dt_struct: read_word_at(buffer, 36),
            },
        )
    }

    /// Whether the header starts with the magic word.
    #[verifier::when_used_as_spec(spec_is_valid)]
    pub fn is_valid(&self) -> (valid: bool)
        ensures
            valid == self.spec_is_valid(),
    {
        self.magic == MAGIC
    }

    /// Whether the blob is of a version that the reader understands.
    #[verifier::when_used_as_spec(spec_is_compatible)]
    pub fn is_compatible(&self) -> (compatible: bool)
        ensures
            compatible == self.spec_is_compatible(),
    {
        self.version >= COMPATIBLE_VERSION && self.last_comp_version <= COMPATIBLE_VERSION
    }
}

impl<'a> View for Fdt<'a> {
    type V = FdtView;

    closed spec fn view(&self) -> FdtView {
        FdtView {
            header: self.header,
            reservations: self.mem_rsvmap@,
            structure: self.dt_struct@,
            strings: self.dt_strings@,
        }
    }
}

impl<'a, 'b> View for DeviceTreeIterator<'a, 'b> {
    type V = WalkView;

    closed spec fn view(&self) -> WalkView {
        WalkView { structure: self.fdt.dt_struct@, offset: self.next_token_offset as int }
    }
}

impl<'a> Fdt<'a> {
    /// Reads the length of a blob off the start of its header.
    ///
    /// The buffer has to hold the header; the length is that of the whole
    /// blob.
    pub fn read_length(buffer: &[u8]) -> (length: Result<usize, FdtError>)
        ensures
            length == if buffer@.len() < HEADER_SIZE {
                Err::<usize, FdtError>(FdtError::BufferOverflow)
            } else if !header_of(buffer@).spec_is_valid() {
                Err(FdtError::BadMagic(header_of(buffer@).magic))
            } else {
                Ok(header_of(buffer@).totalsize as usize)
            },
    {
        match Header::read(buffer) {
            None => Err(FdtError::BufferOverflow),
            Some(header) => {
                if !header.is_valid() {
                    Err(FdtError::BadMagic(header.magic))
                } else {
                    Ok(header.totalsize as usize)
                }
            },
        }
    }

    /// Reads the device tree that `buffer` holds.
    ///
    /// The blob is turned down where [`parse_error`] says so. Otherwise the
    /// tree holds the decoded header and views of the blocks that the header
    /// names.
    pub fn from_buffer(buffer: &'a [u8]) -> (tree: Result<Fdt<'a>, FdtError>)
        ensures
            match tree {
                Ok(fdt) => {
                    let header = header_of(buffer@);
                    &&& parse_error(buffer@) is None
                    &&& fdt@ == (FdtView {
                        header,
                        reservations: Seq::empty(),
                        structure: buffer@.subrange(
                            header.off_dt_struct as int,
                            header.struct_end(),
                        ),
                        strings: buffer@.subrange(
                            header.off_dt_strings as int,
                            header.strings_end(),
                        ),
                    })
                },
                Err(error) => parse_error(buffer@) == Some(error),
            },
    {
        let header = match Header::read(buffer) {
            None => {
                return Err(FdtError::BufferOverflow);
            },
            Some(header) => header,
        };
        if !header.is_valid() {
            return Err(FdtError::BadMagic(header.magic));
        }
        if !header.is_compatible() {
            return Err(FdtError::IncompatibleVersion);
        }
        let offset_reservation = header.off_mem_rsvmap as usize;
        let offset_structure = header.off_dt_struct as usize;
        let offset_strings = header.off_dt_strings as usize;

        let end_structure = match offset_structure.checked_add(header.size_dt_struct as usize) {
            None => {
                return Err(FdtError::InvalidFormat);
            },
            Some(end) => end,
        };
        let end_strings = match offset_strings.checked_add(header.size_dt_strings as usize) {
            None => {
                return Err(FdtError::InvalidFormat);
            },
            Some(end) => end,
        };

        if end_strings > buffer.len() || end_structure > buffer.len() || offset_reservation
            > buffer.len() {
            return Err(FdtError::BufferOverflow);
        }
        let fdt = Fdt {
            header,
            mem_rsvmap: &buffer[offset_reservation..offset_reservation],
            dt_struct: &buffer[offset_structure..end_structure],
            dt_strings: &buffer[offset_strings..end_strings],
        };
        assert(fdt.mem_rsvmap@ =~= Seq::<u8>::empty());
        Ok(fdt)
    }

    /// Starts a walk over the nodes of the tree.
    pub fn nodes(&self) -> (walk: DeviceTreeIterator<'_, 'a>)
        ensures
            walk@ == (WalkView { structure: self@.structure, offset: 0 }),
    {
        DeviceTreeIterator { fdt: self, next_token_offset: 0 }
    }
}

impl<'a, 'b> DeviceTreeIterator<'a, 'b> {
    /// Reads the next token.
    ///
    /// The result is the name of the node where a node starts, `Some(None)`
    /// for any other token that the walk passes, and `None` where the walk
    /// ends. A walk that has ended stays where it is.
    pub fn next(&mut self) -> (item: Option<Option<&'b [u8]>>)
        ensures
            match step(old(self)@.structure, old(self)@.offset) {
                Step::Node { name, next } => {
                    &&& item matches Some(Some(bytes))
                    &&& bytes@ == name
                    &&& final(self)@ == (WalkView { offset: next, ..old(self)@ })
                },
                Step::Skip { next } => {
                    &&& item == Some(None::<&[u8]>)
                    &&& final(self)@ == (WalkView { offset: next, ..old(self)@ })
                },
                Step::Stop => {
                    &&& item is None
                    &&& final(self)@ == old(self)@
                },
            },
    {
        let dt_struct = self.fdt.dt_struct;
        let offset = self.next_token_offset;

        if offset >= dt_struct.len() || dt_struct.len() - offset < 4 {
            return None;
        }
        let mut next_offset = offset + 4;
        let token_type = read_word(&dt_struct[offset..next_offset]);
        assert(token_type == word_at(dt_struct@, offset as int));

        if token_type == FDT_BEGIN_NODE {
            let name_start = next_offset;
            proof {
                lemma_name_end_bounds(dt_struct@, name_start as int);
            }
            while next_offset < dt_struct.len() && dt_struct[next_offset] != 0
                invariant
                    name_start <= next_offset <= dt_struct@.len(),
                    name_end(dt_struct@, next_offset as int) == name_end(
                        dt_struct@,
                        name_start as int,
                    ),
                decreases dt_struct@.len() - next_offset,
            {
                next_offset += 1;
            }
            if next_offset >= dt_struct.len() || next_offset > usize::MAX - 4 {
                return None;
            }
            let name = &dt_struct[name_start..next_offset];

            next_offset += 1;
            self.next_token_offset = next_aligned(next_offset);

            Some(Some(name))
        } else if token_type == FDT_PROP {
            if dt_struct.len() - offset < 12 {
                return None;
            }
            let length = read_word(&dt_struct[next_offset..(next_offset + 4)]) as usize;
            let _name_offset = read_word(&dt_struct[(next_offset + 4)..(next_offset + 8)]);
            assert(length == word_at(dt_struct@, offset + 4));

            let after = match (next_offset + 8).checked_add(length) {
                None => {
                    return None;
                },
                Some(after) => after,
            };
            if after > usize::MAX - 3 {
                proof {
                    lemma_align4(after as int);
                }
                return None;
            }
            self.next_token_offset = next_aligned(after);

            Some(None)
        } else if token_type == FDT_END_NODE || token_type == FDT_NOP {
            self.next_token_offset = next_offset;
            Some(None)
        } else {
            None
        }
    }
}

/// Decodes a big-endian word of four bytes.
pub fn read_word(buffer: &[u8]) -> (word: u32)
    requires
        buffer@.len() == 4,
    ensures
        word == word_at(buffer@, 0),
{
    let b0 = buffer[0] as u32;
    let b1 = buffer[1] as u32;
    let b2 = buffer[2] as u32;
    let b3 = buffer[3] as u32;
    assert((b0 << 24) | (b1 << 16) | (b2 << 8) | b3 == b0 * 0x100_0000 + b1 * 0x1_0000 + b2
        * 0x100 + b3) by (bit_vector)
        requires
            b0 < 256,
            b1 < 256,
            b2 < 256,
            b3 < 256,
    ;
    (b0 << 24) | (b1 << 16) | (b2 << 8) | b3
}

/// Decodes the big-endian word that starts at `at`.
fn read_word_at(buffer: &[u8], at: usize) -> (word: u32)
    requires
        at + 4 <= buffer.len(),
    ensures
        word == word_at(buffer@, at as int),
{
    read_word(&buffer[at..(at + 4)])
}

/// Moves `offset` up to the next 32-bit aligned boundary.
pub fn next_aligned(offset: usize) -> (aligned: usize)
    requires
        offset <= usize::MAX - 3,
    ensures
        aligned == align4(offset as int),
{
    let mut offset = offset;
    let ghost start = offset;
    while offset & 0x3 > 0
        invariant
            start <= offset <= align4(start as int),
            start <= usize::MAX - 3,
        decreases align4(start as int) - offset,
    {
        assert(offset & 0x3 == offset % 4) by (bit_vector);
        offset += 1;
    }
    assert(offset & 0x3 == offset % 4) by (bit_vector);
    offset
}

/// Every token that the walk passes takes it forward, so that a walk ends
/// after as many steps as the block has bytes, at most.
pub proof fn lemma_step_advances(block: Seq<u8>, offset: int)
    ensures
        match step(block, offset) {
            Step::Node { name, next } => offset + 4 + name.len() < next,
            Step::Skip { next } => offset + 4 <= next,
            Step::Stop => true,
        },
{
    if 0 <= offset && offset + 4 <= block.len() {
        lemma_name_end_bounds(block, offset + 4);
        lemma_align4(name_end(block, offset + 4) + 1);
        lemma_align4(offset + 12 + word_at(block, offset + 4));
    }
}

/// The next multiple of four is at most three away.
pub proof fn lemma_align4(offset: int)
    ensures
        offset <= align4(offset) <= offset + 3,
        align4(offset) % 4 == 0,
{
}

/// The end of a name lies between its start and the end of the block, and
/// no byte of the name is zero.
pub proof fn lemma_name_end_bounds(bytes: Seq<u8>, from: int)
    requires
        0 <= from <= bytes.len(),
    ensures
        from <= name_end(bytes, from) <= bytes.len(),
        name_end(bytes, from) < bytes.len() ==> bytes[name_end(bytes, from)] == 0,
        forall|k: int| from <= k < name_end(bytes, from) ==> bytes[k] != 0,
    decreases bytes.len() - from,
{
    if from < bytes.len() && bytes[from] != 0 {
        lemma_name_end_bounds(bytes, from + 1);
    }
}

} // verus!
