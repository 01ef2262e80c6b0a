//! System description tables and the register addresses stored in them.

use crate::checksum::{
    generate_checksum, lemma_with_checksum_fixed_point, lemma_with_checksum_sums_to_zero,
    sums_to_zero, with_checksum,
};
use crate::encoding::{
    le_bytes, le_value, lemma_byte_ranges, lemma_le_bytes_len, lemma_le_round_trip, push_le,
    FixedBytes,
};
use crate::{CREATOR_ID, CREATOR_REVISION};
use vstd::prelude::*;

verus! {

/// The size of the header that every table starts with.
pub const HEADER_LEN: usize = 36;

/// Where the header holds the table's total length, a little-endian `u32`.
pub const LENGTH_OFFSET: usize = 4;

/// Where the header holds the checksum byte.
pub const CHECKSUM_OFFSET: usize = 9;

/// The address space of registers that are reached through memory.
pub const ADDRESS_SPACE_MEMORY: u8 = 0;

/// The address space of registers that are reached through I/O ports.
pub const ADDRESS_SPACE_IO: u8 = 1;

/// `s` with the bytes from `offset` on replaced by `bytes`; the length and
/// every other byte stay as they are.
pub open spec fn overwrite(s: Seq<u8>, offset: int, bytes: Seq<u8>) -> Seq<u8>
    recommends
        0 <= offset,
        offset + bytes.len() <= s.len(),
{
    Seq::new(
        s.len(),
        |i: int|
            if offset <= i < offset + bytes.len() {
                bytes[i - offset]
            } else {
                s[i]
            },
    )
}

/// `n` zero bytes.
pub open spec fn zeros(n: nat) -> Seq<u8> {
    Seq::new(n, |i: int| 0u8)
}

/// The 36 header bytes of a new table, with the checksum byte still zero.
pub open spec fn header(
    signature: Seq<u8>,
    length: u32,
    revision: u8,
    oem_id: Seq<u8>,
    oem_table: Seq<u8>,
    oem_revision: u32,
    creator_id: Seq<u8>,
    creator_revision: Seq<u8>,
) -> Seq<u8> {
    signature + le_bytes(length as nat, 4) + seq![revision, 0u8] + oem_id + oem_table + le_bytes(
        oem_revision as nat,
        4,
    ) + creator_id + creator_revision
}

/// The bytes of a new table of `length` bytes: the header, a body of zeros,
/// and the checksum in its place.
pub open spec fn new_table(
    signature: Seq<u8>,
    length: u32,
    revision: u8,
    oem_id: Seq<u8>,
    oem_table: Seq<u8>,
    oem_revision: u32,
    creator_id: Seq<u8>,
    creator_revision: Seq<u8>,
) -> Seq<u8>
    recommends
        length >= HEADER_LEN,
{
    with_checksum(
        header(
            signature,
            length,
            revision,
            oem_id,
            oem_table,
            oem_revision,
            creator_id,
            creator_revision,
        ) + zeros((length - HEADER_LEN) as nat),
        CHECKSUM_OFFSET as int,
    )
}

/// The bytes of a table after a write: `bytes` stand at `offset`, and the
/// checksum is that of the result.
pub open spec fn written(table: Seq<u8>, offset: int, bytes: Seq<u8>) -> Seq<u8>
    recommends
        table.len() >= HEADER_LEN,
        0 <= offset,
        offset + bytes.len() <= table.len(),
{
    with_checksum(overwrite(table, offset, bytes), CHECKSUM_OFFSET as int)
}

/// The bytes of a table after `bytes` were appended: `bytes` follow the old
/// table, the length field holds the new length, and the checksum is that of
/// the result.
pub open spec fn appended(table: Seq<u8>, bytes: Seq<u8>) -> Seq<u8>
    recommends
        table.len() >= HEADER_LEN,
        table.len() + bytes.len() <= u32::MAX,
{
    with_checksum(
        overwrite(
            table + bytes,
            LENGTH_OFFSET as int,
            le_bytes(table.len() + bytes.len(), 4),
        ),
        CHECKSUM_OFFSET as int,
    )
}

/// The number in the length field of a table's header.
pub open spec fn length_field(table: Seq<u8>) -> nat
    recommends
        table.len() >= HEADER_LEN,
{
    le_value(table.subrange(LENGTH_OFFSET as int, LENGTH_OFFSET + 4))
}

/// After any write the table sums to zero, keeps its length, and holds the
/// written bytes wherever they do not cover the checksum byte.
pub proof fn lemma_written(table: Seq<u8>, offset: int, bytes: Seq<u8>)
    requires
        table.len() >= HEADER_LEN,
        0 <= offset,
        offset + bytes.len() <= table.len(),
    ensures
        sums_to_zero(written(table, offset, bytes)),
        written(table, offset, bytes).len() == table.len(),
        forall|i: int|
            0 <= i < bytes.len() && offset + i != CHECKSUM_OFFSET ==> written(
                table,
                offset,
                bytes,
            )[offset + i] == bytes[i],
        forall|i: int|
            0 <= i < table.len() && !(offset <= i < offset + bytes.len()) && i != CHECKSUM_OFFSET
                ==> written(table, offset, bytes)[i] == table[i],
{
    lemma_with_checksum_sums_to_zero(overwrite(table, offset, bytes), CHECKSUM_OFFSET as int);
}

/// After any append the table sums to zero, has grown by the appended bytes,
/// ends with them, and its length field holds its new length; the header
/// bytes outside the length field and the checksum, and the old body, stay.
pub proof fn lemma_appended(table: Seq<u8>, bytes: Seq<u8>)
    requires
        table.len() >= HEADER_LEN,
        table.len() + bytes.len() <= u32::MAX,
    ensures
        sums_to_zero(appended(table, bytes)),
        appended(table, bytes).len() == table.len() + bytes.len(),
        length_field(appended(table, bytes)) == table.len() + bytes.len(),
        appended(table, bytes).subrange(table.len() as int, (table.len() + bytes.len()) as int)
            == bytes,
        forall|i: int|
            0 <= i < table.len() && !(LENGTH_OFFSET <= i < LENGTH_OFFSET + 4) && i
                != CHECKSUM_OFFSET ==> appended(table, bytes)[i] == table[i],
{
    let total = (table.len() + bytes.len()) as nat;
    let field = le_bytes(total, 4);
    let raw = overwrite(table + bytes, LENGTH_OFFSET as int, field);
    lemma_le_bytes_len(total, 4);
    lemma_with_checksum_sums_to_zero(raw, CHECKSUM_OFFSET as int);
    lemma_byte_ranges();
    lemma_le_round_trip(total, 4);
    assert(appended(table, bytes).subrange(LENGTH_OFFSET as int, LENGTH_OFFSET + 4) =~= field);
    assert(appended(table, bytes).subrange(
        table.len() as int,
        (table.len() + bytes.len()) as int,
    ) =~= bytes);
}

/// A new table sums to zero, has the length asked for, and its length field
/// holds that length.
pub proof fn lemma_new_table(
    signature: Seq<u8>,
    length: u32,
    revision: u8,
    oem_id: Seq<u8>,
    oem_table: Seq<u8>,
    oem_revision: u32,
    creator_id: Seq<u8>,
    creator_revision: Seq<u8>,
)
    requires
        length >= HEADER_LEN,
        signature.len() == 4,
        oem_id.len() == 6,
        oem_table.len() == 8,
        creator_id.len() == 4,
        creator_revision.len() == 4,
    ensures
        header(
            signature,
            length,
            revision,
            oem_id,
            oem_table,
            oem_revision,
            creator_id,
            creator_revision,
        ).len() == HEADER_LEN,
        new_table(
            signature,
            length,
            revision,
            oem_id,
            oem_table,
            oem_revision,
            creator_id,
            creator_revision,
        ).len() == length,
        sums_to_zero(
            new_table(
                signature,
                length,
                revision,
                oem_id,
                oem_table,
                oem_revision,
                creator_id,
                creator_revision,
            ),
        ),
        length_field(
            new_table(
                signature,
                length,
                revision,
                oem_id,
                oem_table,
                oem_revision,
                creator_id,
                creator_revision,
            ),
        ) == length,
{
    let head = header(
        signature,
        length,
        revision,
        oem_id,
        oem_table,
        oem_revision,
        creator_id,
        creator_revision,
    );
    let table = new_table(
        signature,
        length,
        revision,
        oem_id,
        oem_table,
        oem_revision,
        creator_id,
        creator_revision,
    );
    lemma_le_bytes_len(length as nat, 4);
    lemma_le_bytes_len(oem_revision as nat, 4);
    lemma_with_checksum_sums_to_zero(
        head + zeros((length - HEADER_LEN) as nat),
        CHECKSUM_OFFSET as int,
    );
    lemma_byte_ranges();
    lemma_le_round_trip(length as nat, 4);
    assert(table.subrange(LENGTH_OFFSET as int, LENGTH_OFFSET + 4) =~= le_bytes(length as nat, 4));
}

/// Copies `bytes` over the bytes of `data` that start at `offset`.
fn store_bytes(data: &mut Vec<u8>, offset: usize, bytes: &[u8])
    requires
        offset + bytes.len() <= old(data).len(),
    ensures
        final(data)@ == overwrite(old(data)@, offset as int, bytes@),
{
    let mut i: usize = 0;
    proof {
        assert(data@ =~= overwrite(old(data)@, offset as int, bytes@.subrange(0, 0)));
    }
    while i < bytes.len()
        invariant
            i <= bytes.len(),
            offset + bytes.len() <= data.len(),
            data.len() == old(data).len(),
            data@ == overwrite(old(data)@, offset as int, bytes@.subrange(0, i as int)),
        decreases bytes.len() - i,
    {
        data[offset + i] = bytes[i];
        i += 1;
        proof {
            assert(data@ =~= overwrite(old(data)@, offset as int, bytes@.subrange(0, i as int)));
        }
    }
    proof {
        assert(bytes@.subrange(0, i as int) =~= bytes@);
    }
}

/// One system description table: the header and the body, as the bytes that
/// are handed to the table's consumer.
pub struct Sdt {
    data: Vec<u8>,
}

impl View for Sdt {
    type V = Seq<u8>;

    closed spec fn view(&self) -> Seq<u8> {
        self.data@
    }
}

impl Sdt {
    /// The table holds its header. Every table that this type builds does,
    /// and the operations on a table ask for no more than this.
    pub open spec fn has_header(&self) -> bool {
        self@.len() >= HEADER_LEN
    }

    /// The table holds its header and its checksum is current: all of its
    /// bytes sum to zero modulo 256.
    pub open spec fn valid(&self) -> bool {
        &&& self.has_header()
        &&& sums_to_zero(self@)
    }

    /// Builds a table of `length` bytes with the library's own creator
    /// identifier and revision: the header, then zeros, the checksum current.
    pub fn new(
        signature: [u8; 4],
        length: u32,
        revision: u8,
        oem_id: [u8; 6],
        oem_table: [u8; 8],
        oem_revision: u32,
    ) -> (sdt: Self)
        requires
            length >= HEADER_LEN,
        ensures
            sdt@ == new_table(
                signature@,
                length,
                revision,
                oem_id@,
                oem_table@,
                oem_revision,
                CREATOR_ID@,
                CREATOR_REVISION@,
            ),
            sdt@.len() == length,
            sdt.valid(),
            length_field(sdt@) == length,
    {
        Sdt::with_creator(
            signature,
            length,
            revision,
            oem_id,
            oem_table,
            oem_revision,
            CREATOR_ID,
            CREATOR_REVISION,
        )
    }

    /// Builds a table of `length` bytes for a creator given by the caller:
    /// the header, then zeros, the checksum current.
    pub fn with_creator(
        signature: [u8; 4],
        length: u32,
        revision: u8,
        oem_id: [u8; 6],
        oem_table: [u8; 8],
        oem_revision: u32,
        creator_id: [u8; 4],
        creator_revision: [u8; 4],
    ) -> (sdt: Self)
        requires
            length >= HEADER_LEN,
        ensures
            sdt@ == new_table(
                signature@,
                length,
                revision,
                oem_id@,
                oem_table@,
                oem_revision,
                creator_id@,
                creator_revision@,
            ),
            sdt@.len() == length,
            sdt.valid(),
            length_field(sdt@) == length,
    {
        let mut data: Vec<u8> = Vec::with_capacity(length as usize);
        data.extend_from_slice(signature.as_slice());
        push_le(&mut data, length as u64, 4);
        data.push(revision);
        data.push(0);
        data.extend_from_slice(oem_id.as_slice());
        data.extend_from_slice(oem_table.as_slice());
        push_le(&mut data, oem_revision as u64, 4);
        data.extend_from_slice(creator_id.as_slice());
        data.extend_from_slice(creator_revision.as_slice());
        proof {
            lemma_new_table(
                signature@,
                length,
                revision,
                oem_id@,
                oem_table@,
                oem_revision,
                creator_id@,
                creator_revision@,
            );
            lemma_le_bytes_len(length as nat, 4);
            lemma_le_bytes_len(oem_revision as nat, 4);
            assert(data@ =~= header(
                signature@,
                length,
                revision,
                oem_id@,
                oem_table@,
                oem_revision,
                creator_id@,
                creator_revision@,
            ));
        }
        let ghost head = data@;
        data.resize(length as usize, 0);
        proof {
            assert(data@ =~= head + zeros((length - HEADER_LEN) as nat));
        }
        let mut sdt = Sdt { data };
        sdt.update_checksum();
        sdt
    }

    /// Brings the checksum up to date: the checksum byte becomes the
    /// checksum of all the other bytes, which stay as they are. On a table
    /// whose checksum is current already, nothing changes.
    pub fn update_checksum(&mut self)
        requires
            old(self).has_header(),
        ensures
            final(self)@ == with_checksum(old(self)@, CHECKSUM_OFFSET as int),
            final(self)@.len() == old(self)@.len(),
            final(self).valid(),
            old(self).valid() ==> final(self)@ == old(self)@,
    {
        self.data[CHECKSUM_OFFSET] = 0;
        let checksum: u8 = generate_checksum(self.data.as_slice());
        self.data[CHECKSUM_OFFSET] = checksum;
        proof {
            lemma_with_checksum_sums_to_zero(old(self)@, CHECKSUM_OFFSET as int);
            if old(self).valid() {
                lemma_with_checksum_fixed_point(old(self)@, CHECKSUM_OFFSET as int);
            }
        }
    }

    /// The table's bytes.
    pub fn as_slice(&self) -> (bytes: &[u8])
        ensures
            bytes@ == self@,
    {
        self.data.as_slice()
    }

    /// Appends the encoding of `value` to the table, and brings the length
    /// field and the checksum up to date.
    pub fn append<T: FixedBytes>(&mut self, value: T)
        requires
            old(self).has_header(),
            old(self)@.len() + T::encoded_size() <= u32::MAX,
        ensures
            final(self)@ == appended(old(self)@, value.encoding()),
            final(self)@.len() == old(self)@.len() + T::encoded_size(),
            final(self).valid(),
            length_field(final(self)@) == final(self)@.len(),
    {
        proof {
            value.lemma_encoding_len();
            lemma_appended(old(self)@, value.encoding());
            lemma_le_bytes_len((old(self)@.len() + T::encoded_size()) as nat, 4);
        }
        let orig_length: usize = self.data.len();
        let new_length: usize = orig_length + T::size();
        self.data.resize(new_length, 0);
        self.write_u32(LENGTH_OFFSET, new_length as u32);
        let ghost sized = self@;
        self.write(orig_length, value);
        proof {
            let target = overwrite(
                old(self)@ + value.encoding(),
                LENGTH_OFFSET as int,
                le_bytes(new_length as nat, 4),
            );
            let stored = overwrite(sized, orig_length as int, value.encoding());
            assert(stored.update(CHECKSUM_OFFSET as int, 0u8) =~= target.update(
                CHECKSUM_OFFSET as int,
                0u8,
            ));
            assert(self@ =~= appended(old(self)@, value.encoding()));
        }
    }

    /// Appends `data` to the table, and brings the length field and the
    /// checksum up to date.
    pub fn append_slice(&mut self, data: &[u8])
        requires
            old(self).has_header(),
            old(self)@.len() + data@.len() <= u32::MAX,
        ensures
            final(self)@ == appended(old(self)@, data@),
            final(self)@.len() == old(self)@.len() + data@.len(),
            final(self).valid(),
            length_field(final(self)@) == final(self)@.len(),
    {
        proof {
            lemma_appended(old(self)@, data@);
            lemma_le_bytes_len((old(self)@.len() + data@.len()) as nat, 4);
        }
        let orig_length: usize = self.data.len();
        let new_length: usize = orig_length + data.len();
        self.write_u32(LENGTH_OFFSET, new_length as u32);
        self.data.extend_from_slice(data);
        let ghost grown = self@;
        self.update_checksum();
        proof {
            let target = overwrite(
                old(self)@ + data@,
                LENGTH_OFFSET as int,
                le_bytes(new_length as nat, 4),
            );
            assert(grown.update(CHECKSUM_OFFSET as int, 0u8) =~= target.update(
                CHECKSUM_OFFSET as int,
                0u8,
            ));
            assert(self@ =~= appended(old(self)@, data@));
        }
    }

    /// Overwrites the bytes from `offset` on with the encoding of `value`,
    /// then brings the checksum up to date. The table keeps its length.
    pub fn write<T: FixedBytes>(&mut self, offset: usize, value: T)
        requires
            old(self).has_header(),
            offset + T::encoded_size() <= old(self)@.len(),
        ensures
            final(self)@ == written(old(self)@, offset as int, value.encoding()),
            final(self)@.len() == old(self)@.len(),
            final(self).valid(),
    {
        proof {
            value.lemma_encoding_len();
            lemma_written(old(self)@, offset as int, value.encoding());
        }
        let bytes: Vec<u8> = value.to_bytes();
        store_bytes(&mut self.data, offset, bytes.as_slice());
        self.update_checksum();
    }

    /// Writes one byte at `offset`.
    pub fn write_u8(&mut self, offset: usize, val: u8)
        requires
            old(self).has_header(),
            offset + 1 <= old(self)@.len(),
        ensures
            final(self)@ == written(old(self)@, offset as int, le_bytes(val as nat, 1)),
            final(self)@.len() == old(self)@.len(),
            final(self).valid(),
    {
        self.write(offset, val);
    }

    /// Writes `val` at `offset`, in two bytes, little-endian.
    pub fn write_u16(&mut self, offset: usize, val: u16)
        requires
            old(self).has_header(),
            offset + 2 <= old(self)@.len(),
        ensures
            final(self)@ == written(old(self)@, offset as int, le_bytes(val as nat, 2)),
            final(self)@.len() == old(self)@.len(),
            final(self).valid(),
    {
        self.write(offset, val);
    }

    /// Writes `val` at `offset`, in four bytes, little-endian.
    pub fn write_u32(&mut self, offset: usize, val: u32)
        requires
            old(self).has_header(),
            offset + 4 <= old(self)@.len(),
        ensures
            final(self)@ == written(old(self)@, offset as int, le_bytes(val as nat, 4)),
            final(self)@.len() == old(self)@.len(),
            final(self).valid(),
    {
        self.write(offset, val);
    }

    /// Writes `val` at `offset`, in eight bytes, little-endian.
    pub fn write_u64(&mut self, offset: usize, val: u64)
        requires
            old(self).has_header(),
            offset + 8 <= old(self)@.len(),
        ensures
            final(self)@ == written(old(self)@, offset as int, le_bytes(val as nat, 8)),
            final(self)@.len() == old(self)@.len(),
            final(self).valid(),
    {
        self.write(offset, val);
    }

    /// The table's length in bytes.
    pub fn len(&self) -> (n: usize)
        ensures
            n == self@.len(),
    {
        self.data.len()
    }

    /// Whether the table has no bytes.
    pub fn is_empty(&self) -> (empty: bool)
        ensures
            empty == (self@.len() == 0),
    {
        self.data.is_empty()
    }
}

/// How to reach a hardware register: the address space it lives in, its
/// width and offset in bits, the size of an access in bytes, and its address.
#[derive(Clone, Copy)]
pub struct GenericAddress {
    pub address_space_id: u8,
    pub register_bit_width: u8,
    pub register_bit_offset: u8,
    pub access_size: u8,
    pub address: u64,
}

impl GenericAddress {
    /// The address of a register in `space` at `address` that is stored as
    /// `size` bytes: its width is `size` bytes, it is accessed whole, and it
    /// starts at bit 0.
    pub open spec fn of_size(space: u8, size: nat, address: u64) -> GenericAddress
        recommends
            size <= 31,
    {
        GenericAddress {
            address_space_id: space,
            register_bit_width: (8 * size) as u8,
            register_bit_offset: 0,
            access_size: size as u8,
            address,
        }
    }

    /// The address of a register behind I/O port `address`, stored as a `T`.
    pub fn io_port_address<T: FixedBytes>(address: u16) -> (ga: Self)
        requires
            T::encoded_size() <= 31,
        ensures
            ga == Self::of_size(ADDRESS_SPACE_IO, T::encoded_size(), address as u64),
    {
        let size: u8 = T::size() as u8;
        GenericAddress {
            address_space_id: ADDRESS_SPACE_IO,
            register_bit_width: 8 * size,
            register_bit_offset: 0,
            access_size: size,
            address: address as u64,
        }
    }

    /// The address of a register in memory at `address`, stored as a `T`.
    pub fn mmio_address<T: FixedBytes>(address: u64) -> (ga: Self)
        requires
            T::encoded_size() <= 31,
        ensures
            ga == Self::of_size(ADDRESS_SPACE_MEMORY, T::encoded_size(), address),
    {
        let size: u8 = T::size() as u8;
        GenericAddress {
            address_space_id: ADDRESS_SPACE_MEMORY,
            register_bit_width: 8 * size,
            register_bit_offset: 0,
            access_size: size,
            address,
        }
    }
}

impl FixedBytes for GenericAddress {
    open spec fn encoded_size() -> nat {
        12
    }

    open spec fn encoding(&self) -> Seq<u8> {
        seq![
            self.address_space_id,
            self.register_bit_width,
            self.register_bit_offset,
            self.access_size,
        ] + le_bytes(self.address as nat, 8)
    }

    proof fn lemma_encoding_len(&self) {
        lemma_le_bytes_len(self.address as nat, 8);
    }

    fn size() -> (n: usize) {
        12
    }

    fn to_bytes(&self) -> (out: Vec<u8>) {
        let mut out: Vec<u8> = Vec::new();
        out.push(self.address_space_id);
        out.push(self.register_bit_width);
        out.push(self.register_bit_offset);
        out.push(self.access_size);
        proof {
            assert(out@ =~= seq![
                self.address_space_id,
                self.register_bit_width,
                self.register_bit_offset,
                self.access_size,
            ]);
        }
        push_le(&mut out, self.address, 8);
        out
    }
}

} // verus!
