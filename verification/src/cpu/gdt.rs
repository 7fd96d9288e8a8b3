use vstd::prelude::*;

verus! {

/// The mask of the low `width` bits of a 16-bit word.
pub open spec fn low_bits(width: u16) -> u16 {
    ((1u32 << width) - 1) as u16
}

/// The field of `width` bits at bit `lo` of `word`.
pub open spec fn field_of(word: u16, lo: u16, width: u16) -> u16 {
    (word >> lo) & low_bits(width)
}

/// `word` with the field of `width` bits at bit `lo` replaced by the low
/// `width` bits of `value`.
pub open spec fn with_field(word: u16, lo: u16, width: u16, value: u16) -> u16 {
    (word & !(low_bits(width) << lo)) | ((value & low_bits(width)) << lo)
}

/// A field reads back what was written in it, and writing one field leaves
/// every field that does not overlap it as it was.
pub proof fn lemma_field_with(word: u16, lo: u16, width: u16, value: u16, lo2: u16, width2: u16)
    requires
        1 <= width,
        lo + width <= 16,
        1 <= width2,
        lo2 + width2 <= 16,
    ensures
        field_of(with_field(word, lo, width, value), lo, width) == value & low_bits(width),
        (lo2 + width2 <= lo || lo + width <= lo2) ==> field_of(
            with_field(word, lo, width, value),
            lo2,
            width2,
        ) == field_of(word, lo2, width2),
{
    assert(((((word & !((((1u32 << width) - 1) as u16) << lo)) | ((value & (((1u32 << width) - 1) as u16)) << lo)) >> lo) & (((1u32 << width) - 1) as u16)) == value & (((1u32 << width) - 1) as u16)) by (bit_vector)
        requires
            1 <= width,
            lo + width <= 16,
    ;
    assert((lo2 + width2 <= lo || lo + width <= lo2) ==> ((((word & !((((1u32 << width) - 1) as u16) << lo)) | ((value & (((1u32 << width) - 1) as u16)) << lo)) >> lo2) & (((1u32 << width2) - 1) as u16)) == ((word >> lo2) & (((1u32 << width2) - 1) as u16))) by (bit_vector)
        requires
            1 <= width,
            lo + width <= 16,
            1 <= width2,
            lo2 + width2 <= 16,
    ;
}

proof fn lemma_one_shl(width: u16)
    requires
        width <= 16,
    ensures
        1u32 << width >= 1,
{
    assert(width <= 16 ==> 1u32 << width >= 1) by (bit_vector);
}

/// The field of `width` bits at bit `lo` of `word`.
pub fn get_field(word: u16, lo: u16, width: u16) -> (f: u16)
    requires
        1 <= width,
        lo + width <= 16,
    ensures
        f == field_of(word, lo, width),
{
    proof {
        lemma_one_shl(width);
    }
    let mask: u16 = ((1u32 << width) - 1) as u16;
    (word >> lo) & mask
}

/// `word` with the field of `width` bits at bit `lo` replaced by the low
/// `width` bits of `value`.
pub fn set_field(word: u16, lo: u16, width: u16, value: u16) -> (w: u16)
    requires
        1 <= width,
        lo + width <= 16,
    ensures
        w == with_field(word, lo, width, value),
{
    proof {
        lemma_one_shl(width);
    }
    let mask: u16 = ((1u32 << width) - 1) as u16;
    (word & !(mask << lo)) | ((value & mask) << lo)
}

/// The privilege level of a segment: 0 for the kernel, 3 for user code.
#[derive(Debug, Clone, Copy, PartialEq, Eq, Structural)]
pub enum PrivilegeLevel {
    /// Level 0, with full access to the machine.
    Supervisor,
    /// Level 3, with restricted access.
    User,
}

/// The number of a privilege level.
pub open spec fn privilege_bits(p: PrivilegeLevel) -> u16 {
    match p {
        PrivilegeLevel::Supervisor => 0,
        PrivilegeLevel::User => 3,
    }
}

impl Default for PrivilegeLevel {
    fn default() -> (p: Self)
        ensures
            p == PrivilegeLevel::Supervisor,
    {
        PrivilegeLevel::Supervisor
    }
}

impl PrivilegeLevel {
    /// The number of the level.
    pub fn into_bits(self) -> (b: u16)
        ensures
            b == privilege_bits(self),
    {
        match self {
            PrivilegeLevel::Supervisor => 0,
            PrivilegeLevel::User => 3,
        }
    }

    /// The level with number `value`, which must be 0 or 3.
    pub fn from_bits(value: u16) -> (p: Self)
        requires
            value == 0 || value == 3,
        ensures
            privilege_bits(p) == value,
    {
        if value == 0 {
            PrivilegeLevel::Supervisor
        } else {
            PrivilegeLevel::User
        }
    }
}

/// A segment selector: the index of a descriptor in the descriptor table,
/// shifted left by 3, with the requested privilege level in the low 2 bits.
#[derive(Debug, Clone, Copy)]
pub struct SegmentSelector(pub u16);

impl SegmentSelector {
    /// The selector of descriptor `index` at `privilege_level`.
    pub fn new(index: u16, privilege_level: PrivilegeLevel) -> (s: Self)
        ensures
            s.0 == (index << 3u16) | privilege_bits(privilege_level),
    {
        SegmentSelector(index << 3 | privilege_level.into_bits())
    }

    /// The index of the descriptor.
    pub fn index(self) -> (i: u16)
        ensures
            i == self.0 >> 3u16,
    {
        self.0 >> 3
    }

    /// The requested privilege level; the low 2 bits must hold 0 or 3.
    pub fn privilege_level(self) -> (p: PrivilegeLevel)
        requires
            self.0 & 3 == 0 || self.0 & 3 == 3,
        ensures
            privilege_bits(p) == self.0 & 3,
    {
        PrivilegeLevel::from_bits(self.0 & 0b11)
    }
}

impl From<SegmentSelector> for u64 {
    fn from(value: SegmentSelector) -> (v: u64) {
        value.0 as u64
    }
}

impl vstd::std_specs::convert::FromSpecImpl<SegmentSelector> for u64 {
    open spec fn obeys_from_spec() -> bool {
        true
    }

    open spec fn from_spec(value: SegmentSelector) -> u64 {
        value.0 as u64
    }
}

/// The type of a segment.
#[derive(Debug, Clone, Copy, PartialEq, Eq, Structural)]
pub enum SegmentType {
    /// No type: the null descriptor.
    Null,
    /// Code (type 0b11010).
    Code,
    /// Code that was accessed (type 0b11011).
    CodeAccessed,
    /// Data (type 0b10010).
    Data,
    /// Data that was accessed (type 0b10011).
    DataAccessed,
    /// A task state segment (type 0b01001).
    Task,
}

/// The number of a segment type.
pub open spec fn segment_type_bits(t: SegmentType) -> u8 {
    match t {
        SegmentType::Null => 0,
        SegmentType::Code => 0b11010,
        SegmentType::CodeAccessed => 0b11011,
        SegmentType::Data => 0b10010,
        SegmentType::DataAccessed => 0b10011,
        SegmentType::Task => 0b01001,
    }
}

/// Whether `value` is the number of a segment type.
pub open spec fn is_segment_type_bits(value: int) -> bool {
    value == 0 || value == 0b11010 || value == 0b11011 || value == 0b10010 || value == 0b10011
        || value == 0b01001
}

impl Default for SegmentType {
    fn default() -> (t: Self)
        ensures
            t == SegmentType::Null,
    {
        SegmentType::Null
    }
}

impl SegmentType {
    /// The number of the type.
    pub fn into_bits(self) -> (b: u8)
        ensures
            b == segment_type_bits(self),
    {
        match self {
            SegmentType::Null => 0b0,
            SegmentType::Code => 0b11010,
            SegmentType::CodeAccessed => 0b11011,
            SegmentType::Data => 0b10010,
            SegmentType::DataAccessed => 0b10011,
            SegmentType::Task => 0b01001,
        }
    }

    /// The type with number `value`, which must be the number of a type.
    pub fn from_bits(value: u8) -> (t: Self)
        requires
            is_segment_type_bits(value as int),
        ensures
            segment_type_bits(t) == value,
    {
        match value {
            0b11010 => SegmentType::Code,
            0b11011 => SegmentType::CodeAccessed,
            0b10010 => SegmentType::Data,
            0b10011 => SegmentType::DataAccessed,
            0b01001 => SegmentType::Task,
            _ => SegmentType::Null,
        }
    }
}

/// The 16 attribute bits of a segment descriptor, from the low bit up: the
/// segment type (5 bits), the privilege level (2), present, the high bits of
/// the limit (4), available, long mode, default operation size, granularity.
#[derive(Debug, Clone, Copy)]
pub struct SegmentAttributes(u16);

impl SegmentAttributes {
    /// The 16 bits.
    pub closed spec fn spec_bits(&self) -> u16 {
        self.0
    }

    /// The attributes with bits `bits`.
    pub closed spec fn from_bits_spec(bits: u16) -> Self {
        SegmentAttributes(bits)
    }

    /// All bits clear.
    pub fn new() -> (a: Self)
        ensures
            a.spec_bits() == 0,
    {
        SegmentAttributes(0)
    }

    /// The attributes with bits `bits`.
    pub fn from_bits(bits: u16) -> (a: Self)
        ensures
            a.spec_bits() == bits,
            a == Self::from_bits_spec(bits),
    {
        SegmentAttributes(bits)
    }

    /// The 16 bits.
    pub fn into_bits(self) -> (b: u16)
        ensures
            b == self.spec_bits(),
    {
        self.0
    }

    /// These attributes with the segment type set to `t`.
    pub fn with_segment_type(self, t: SegmentType) -> (a: Self)
        ensures
            a.spec_bits() == with_field(self.spec_bits(), 0, 5, segment_type_bits(t) as u16),
    {
        SegmentAttributes(set_field(self.0, 0, 5, t.into_bits() as u16))
    }

    /// The segment type; the field must hold the number of a type.
    pub fn segment_type(self) -> (t: SegmentType)
        requires
            is_segment_type_bits(field_of(self.spec_bits(), 0, 5) as int),
        ensures
            segment_type_bits(t) == field_of(self.spec_bits(), 0, 5),
    {
        let f = get_field(self.0, 0, 5);
        SegmentType::from_bits(f as u8)
    }

    /// These attributes with the privilege level set to `dpl`.
    pub fn with_dpl(self, dpl: PrivilegeLevel) -> (a: Self)
        ensures
            a.spec_bits() == with_field(self.spec_bits(), 5, 2, privilege_bits(dpl)),
    {
        SegmentAttributes(set_field(self.0, 5, 2, dpl.into_bits()))
    }

    /// The privilege level; the field must hold 0 or 3.
    pub fn dpl(self) -> (p: PrivilegeLevel)
        requires
            field_of(self.spec_bits(), 5, 2) == 0 || field_of(self.spec_bits(), 5, 2) == 3,
        ensures
            privilege_bits(p) == field_of(self.spec_bits(), 5, 2),
    {
        PrivilegeLevel::from_bits(get_field(self.0, 5, 2))
    }

    /// These attributes with the present flag set to `present`.
    pub fn with_present(self, present: bool) -> (a: Self)
        ensures
            a.spec_bits() == with_field(self.spec_bits(), 7, 1, if present { 1 } else { 0 }),
            a == Self::from_bits_spec(a.spec_bits()),
    {
        SegmentAttributes(set_field(self.0, 7, 1, if present { 1 } else { 0 }))
    }

    /// The present flag.
    pub fn present(self) -> (b: bool)
        ensures
            b == (field_of(self.spec_bits(), 7, 1) == 1),
    {
        get_field(self.0, 7, 1) == 1
    }

    /// These attributes with the long mode flag set to `long_mode`.
    pub fn with_long_mode(self, long_mode: bool) -> (a: Self)
        ensures
            a.spec_bits() == with_field(self.spec_bits(), 13, 1, if long_mode { 1 } else { 0 }),
    {
        SegmentAttributes(set_field(self.0, 13, 1, if long_mode { 1 } else { 0 }))
    }

    /// The long mode flag.
    pub fn long_mode(self) -> (b: bool)
        ensures
            b == (field_of(self.spec_bits(), 13, 1) == 1),
    {
        get_field(self.0, 13, 1) == 1
    }
}

/// The attribute bits of a descriptor of type `t` at level `dpl`, with the
/// present and long mode flags given and every other bit clear.
pub open spec fn descriptor_attributes(
    t: SegmentType,
    dpl: PrivilegeLevel,
    present: bool,
    long_mode: bool,
) -> u16 {
    with_field(
        with_field(
            with_field(with_field(0, 0, 5, segment_type_bits(t) as u16), 5, 2, privilege_bits(dpl)),
            7,
            1,
            if present { 1 } else { 0 },
        ),
        13,
        1,
        if long_mode { 1 } else { 0 },
    )
}

/// A segment descriptor of the descriptor table, with base 0.
#[derive(Debug, Clone, Copy)]
pub struct SegmentDescriptor {
    /// The low 16 bits of the limit.
    pub limit_low: u16,
    /// Bits 0..16 of the base.
    pub base_low: u16,
    /// Bits 16..24 of the base.
    pub base_middle: u8,
    /// The attribute bits.
    pub attributes: SegmentAttributes,
    /// Bits 24..32 of the base.
    pub base_high: u8,
}

/// Whether `d` is the descriptor with limit `limit_low`, base 0, and the
/// attributes that `descriptor_attributes` gives.
pub open spec fn is_descriptor(
    d: SegmentDescriptor,
    limit_low: u16,
    t: SegmentType,
    dpl: PrivilegeLevel,
    present: bool,
    long_mode: bool,
) -> bool {
    &&& d.limit_low == limit_low
    &&& d.base_low == 0
    &&& d.base_middle == 0
    &&& d.base_high == 0
    &&& d.attributes.spec_bits() == descriptor_attributes(t, dpl, present, long_mode)
}

impl SegmentDescriptor {
    /// The null descriptor: no type, level 0, present.
    fn null() -> (d: Self)
        ensures
            is_descriptor(d, 0, SegmentType::Null, PrivilegeLevel::Supervisor, true, false),
    {
        Self::new(0, SegmentType::Null, PrivilegeLevel::Supervisor, true, false)
    }

    /// A descriptor with base 0 and the attributes given.
    fn new(
        limit_low: u16,
        segment_type: SegmentType,
        dpl: PrivilegeLevel,
        present: bool,
        long_mode: bool,
    ) -> (d: Self)
        ensures
            is_descriptor(d, limit_low, segment_type, dpl, present, long_mode),
    {
        SegmentDescriptor {
            limit_low,
            base_low: 0,
            base_middle: 0,
            attributes: SegmentAttributes::new().with_segment_type(segment_type).with_dpl(
                dpl,
            ).with_present(present).with_long_mode(long_mode),
            base_high: 0,
        }
    }

    /// A present descriptor of type `segment_type` at level `dpl`, in long
    /// mode when it is a code segment.
    fn new_from_type(segment_type: SegmentType, dpl: PrivilegeLevel) -> (d: Self)
        ensures
            is_descriptor(d, 0, segment_type, dpl, true, segment_type == SegmentType::Code),
    {
        match segment_type {
            SegmentType::Code => Self::new(0, segment_type, dpl, true, true),
            _ => Self::new(0, segment_type, dpl, true, false),
        }
    }
}

/// The descriptor of a task state segment: 16 bytes, with a 64-bit base.
#[derive(Debug, Clone, Copy)]
pub struct TssDescriptor {
    /// The size of the segment.
    pub length: u16,
    /// Bits 0..16 of the base.
    pub base_low: u16,
    /// Bits 16..24 of the base.
    pub base_middle: u8,
    /// The attribute bits.
    pub attributes: SegmentAttributes,
    /// Bits 24..32 of the base.
    pub base_high: u8,
    /// Bits 32..64 of the base.
    pub base_upper: u32,
    /// Reserved: zero.
    pub reserved: u32,
}

/// Whether `d` describes a task state segment of 104 bytes at base 0, in
/// long mode and not present.
pub open spec fn is_null_tss(d: TssDescriptor) -> bool {
    &&& d.length == 104
    &&& d.base_low == 0
    &&& d.base_middle == 0
    &&& d.base_high == 0
    &&& d.base_upper == 0
    &&& d.reserved == 0
    &&& d.attributes.spec_bits() == with_field(
        with_field(0, 0, 5, segment_type_bits(SegmentType::Task) as u16),
        13,
        1,
        1,
    )
}

impl TssDescriptor {
    /// A descriptor of a task state segment of 104 bytes at base 0, in long
    /// mode and not present.
    pub fn null() -> (d: Self)
        ensures
            is_null_tss(d),
    {
        TssDescriptor {
            length: 104,
            base_low: 0,
            base_middle: 0,
            attributes: SegmentAttributes::new().with_segment_type(SegmentType::Task).with_long_mode(
                true,
            ),
            base_high: 0,
            base_upper: 0,
            reserved: 0,
        }
    }
}

/// The global descriptor table: the null descriptor, code and data for the
/// kernel, code and data for user programs, and the task state segment.
#[derive(Debug, Clone, Copy)]
pub struct GlobalDescriptorTable {
    null: SegmentDescriptor,
    kernel_code: SegmentDescriptor,
    kernel_data: SegmentDescriptor,
    user_code: SegmentDescriptor,
    user_data: SegmentDescriptor,
    /// The descriptor of the task state segment.
    pub tss: TssDescriptor,
}

impl GlobalDescriptorTable {
    /// The descriptors in table order, without the task state segment.
    pub closed spec fn segments(&self) -> Seq<SegmentDescriptor> {
        seq![self.null, self.kernel_code, self.kernel_data, self.user_code, self.user_data]
    }

    /// The descriptor of the task state segment.
    pub closed spec fn spec_tss(&self) -> TssDescriptor {
        self.tss
    }

    /// The table with a null descriptor, kernel code and data at level 0,
    /// user code and data at level 3 (code in long mode), and the descriptor
    /// of a task state segment at base 0.
    pub fn new() -> (gdt: Self)
        ensures
            is_descriptor(
                gdt.segments()[0],
                0,
                SegmentType::Null,
                PrivilegeLevel::Supervisor,
                true,
                false,
            ),
            is_descriptor(
                gdt.segments()[1],
                0,
                SegmentType::Code,
                PrivilegeLevel::Supervisor,
                true,
                true,
            ),
            is_descriptor(
                gdt.segments()[2],
                0,
                SegmentType::Data,
                PrivilegeLevel::Supervisor,
                true,
                false,
            ),
            is_descriptor(gdt.segments()[3], 0, SegmentType::Code, PrivilegeLevel::User, true, true),
            is_descriptor(gdt.segments()[4], 0, SegmentType::Data, PrivilegeLevel::User, true, false),
            is_null_tss(gdt.spec_tss()),
    {
        GlobalDescriptorTable {
            null: SegmentDescriptor::null(),
            kernel_code: SegmentDescriptor::new_from_type(
                SegmentType::Code,
                PrivilegeLevel::Supervisor,
            ),
            kernel_data: SegmentDescriptor::new_from_type(
                SegmentType::Data,
                PrivilegeLevel::Supervisor,
            ),
            user_code: SegmentDescriptor::new_from_type(SegmentType::Code, PrivilegeLevel::User),
            user_data: SegmentDescriptor::new_from_type(SegmentType::Data, PrivilegeLevel::User),
            tss: TssDescriptor::null(),
        }
    }
}

/// The descriptor `d` pointed at base `addr` and marked present.
pub open spec fn tss_at(d: TssDescriptor, addr: u64) -> TssDescriptor {
    TssDescriptor {
        base_low: addr as u16,
        base_middle: (addr >> 16u64) as u8,
        base_high: (addr >> 24u64) as u8,
        base_upper: (addr >> 32u64) as u32,
        attributes: SegmentAttributes::from_bits_spec(with_field(d.attributes.spec_bits(), 7, 1, 1)),
        ..d
    }
}

impl GlobalDescriptorTable {
    /// Points the descriptor of the task state segment at `addr` and marks it
    /// present.
    pub fn set_tss_base(&mut self, addr: u64)
        ensures
            final(self).segments() == old(self).segments(),
            final(self).spec_tss() == tss_at(old(self).spec_tss(), addr),
    {
        self.tss.base_low = addr as u16;
        self.tss.base_middle = (addr >> 16) as u8;
        self.tss.attributes = self.tss.attributes.with_present(true);
        self.tss.base_high = (addr >> 24) as u8;
        self.tss.base_upper = (addr >> 32) as u32;
    }
}

/// The value loaded into the descriptor table register: the table's size
/// minus one and its address.
pub struct GlobalDescriptorTableRegister {
    /// The size of the table in bytes, minus one.
    pub limit: u16,
    /// The address of the table.
    pub addr: u64,
}

} // verus!
