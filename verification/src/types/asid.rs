use vstd::prelude::*;

verus! {

/// Kind of translation an ASID entry describes.
#[derive(Clone, Copy, Debug, PartialEq, Eq)]
pub enum TranslationType {
    Linear,
    Table,
    Offset,
    Varadix,
}

impl TranslationType {
    pub open spec fn spec_raw(self) -> u8 {
        match self {
            TranslationType::Linear => 0,
            TranslationType::Table => 1,
            TranslationType::Offset => 2,
            TranslationType::Varadix => 3,
        }
    }

    pub open spec fn spec_from_raw(v: u8) -> Option<TranslationType> {
        if v == 0 {
            Some(TranslationType::Linear)
        } else if v == 1 {
            Some(TranslationType::Table)
        } else if v == 2 {
            Some(TranslationType::Offset)
        } else if v == 3 {
            Some(TranslationType::Varadix)
        } else {
            None
        }
    }

    /// Numeric code (declaration order).
    pub fn raw(self) -> (r: u8)
        ensures
            r == self.spec_raw(),
    {
        match self {
            TranslationType::Linear => 0,
            TranslationType::Table => 1,
            TranslationType::Offset => 2,
            TranslationType::Varadix => 3,
        }
    }

    pub fn from_raw(v: u8) -> (r: Option<TranslationType>)
        ensures
            r == Self::spec_from_raw(v),
    {
        match v {
            0 => Some(TranslationType::Linear),
            1 => Some(TranslationType::Table),
            2 => Some(TranslationType::Offset),
            3 => Some(TranslationType::Varadix),
            _ => None,
        }
    }
}

/// Packed metadata word of an ASID entry.
///
/// Layout: `count` bits 0..=11, `vmid` bits 12..=19, `type` bits 20..=21,
/// `log_maxhops` bits 22..=25, `extra` bits 26..=31.
#[derive(Clone, Copy, Debug, PartialEq, Eq)]
pub struct AsidEntryFields(pub u32);

impl AsidEntryFields {
    pub open spec fn spec_count(self) -> u32 {
        self.0 & 0xFFF
    }

    pub open spec fn spec_vmid(self) -> u8 {
        ((self.0 >> 12u32) & 0xFF) as u8
    }

    pub open spec fn spec_trans_type(self) -> u8 {
        ((self.0 >> 20u32) & 0x3) as u8
    }

    pub open spec fn spec_log_maxhops(self) -> u8 {
        ((self.0 >> 22u32) & 0xF) as u8
    }

    pub open spec fn spec_extra(self) -> u8 {
        (self.0 >> 26u32) as u8
    }

    pub open spec fn spec_set(self, mask: u32, shift: u32, v: u32) -> AsidEntryFields {
        AsidEntryFields((self.0 & !(mask << shift)) | ((v & mask) << shift))
    }

    pub fn count(self) -> (r: u32)
        ensures
            r == self.spec_count(),
            r <= 0xFFF,
    {
        let r = self.0 & 0xFFF;
        proof {
            crate::bits::lemma_u32_masks(self.0);
        }
        r
    }

    pub fn vmid(self) -> (r: u8)
        ensures
            r == self.spec_vmid(),
    {
        ((self.0 >> 12u32) & 0xFF) as u8
    }

    pub fn trans_type(self) -> (r: u8)
        ensures
            r == self.spec_trans_type(),
    {
        ((self.0 >> 20u32) & 0x3) as u8
    }

    pub fn log_maxhops(self) -> (r: u8)
        ensures
            r == self.spec_log_maxhops(),
            r < 16,
    {
        let r = ((self.0 >> 22u32) & 0xF) as u8;
        proof {
            crate::bits::lemma_u32_masks(self.0);
        }
        r
    }

    pub fn extra(self) -> (r: u8)
        ensures
            r == self.spec_extra(),
    {
        (self.0 >> 26u32) as u8
    }

    pub fn with_count(self, v: u32) -> (r: AsidEntryFields)
        ensures
            r == self.spec_set(0xFFF, 0, v),
    {
        AsidEntryFields((self.0 & !(0xFFFu32 << 0u32)) | ((v & 0xFFF) << 0u32))
    }

    pub fn with_vmid(self, v: u8) -> (r: AsidEntryFields)
        ensures
            r == self.spec_set(0xFF, 12, v as u32),
    {
        AsidEntryFields((self.0 & !(0xFFu32 << 12u32)) | (((v as u32) & 0xFF) << 12u32))
    }

    pub fn with_type(self, t: TranslationType) -> (r: AsidEntryFields)
        ensures
            r == self.spec_set(0x3, 20, t.spec_raw() as u32),
    {
        let v = t.raw() as u32;
        AsidEntryFields((self.0 & !(0x3u32 << 20u32)) | ((v & 0x3) << 20u32))
    }

    pub fn with_log_maxhops(self, v: u8) -> (r: AsidEntryFields)
        ensures
            r == self.spec_set(0xF, 22, v as u32),
    {
        AsidEntryFields((self.0 & !(0xFu32 << 22u32)) | (((v as u32) & 0xF) << 22u32))
    }

    pub fn with_extra(self, v: u8) -> (r: AsidEntryFields)
        ensures
            r == self.spec_set(0x3F, 26, v as u32),
    {
        AsidEntryFields((self.0 & !(0x3Fu32 << 26u32)) | (((v as u32) & 0x3F) << 26u32))
    }
}

/// One entry of the ASID table: the page-table base (or translation
/// configuration) and the packed metadata.
#[derive(Clone, Copy, Debug, PartialEq, Eq)]
pub struct AsidEntry {
    pub ptb: u32,
    pub fields: AsidEntryFields,
}

impl AsidEntry {
    pub open spec fn spec_is_empty(self) -> bool {
        self.ptb == 0 && self.fields.0 == 0
    }

    /// The unused entry (all zero).
    pub fn empty() -> (r: AsidEntry)
        ensures
            r.ptb == 0,
            r.fields.0 == 0,
    {
        AsidEntry { ptb: 0, fields: AsidEntryFields(0) }
    }

    /// Whether the entry is all zero.
    pub fn is_empty(&self) -> (r: bool)
        ensures
            r == self.spec_is_empty(),
    {
        self.ptb == 0 && self.fields.0 == 0
    }

    pub fn trans_type(&self) -> (r: u8)
        ensures
            r == self.fields.spec_trans_type(),
    {
        self.fields.trans_type()
    }

    pub fn vmid(&self) -> (r: u8)
        ensures
            r == self.fields.spec_vmid(),
    {
        self.fields.vmid()
    }
}


/// Each field setter of `AsidEntryFields` sets its field to the value
/// given, cut to the field's width, and keeps every other field.
pub proof fn lemma_asid_fields_setters(f: AsidEntryFields, v: u32)
    ensures
        f.spec_set(0xFFF, 0, v).spec_count() == v & 0xFFF,
        f.spec_set(0xFFF, 0, v).spec_vmid() == f.spec_vmid(),
        f.spec_set(0xFFF, 0, v).spec_trans_type() == f.spec_trans_type(),
        f.spec_set(0xFFF, 0, v).spec_log_maxhops() == f.spec_log_maxhops(),
        f.spec_set(0xFFF, 0, v).spec_extra() == f.spec_extra(),
        f.spec_set(0xFF, 12, v).spec_count() == f.spec_count(),
        f.spec_set(0xFF, 12, v).spec_vmid() == (v & 0xFF) as u8,
        f.spec_set(0xFF, 12, v).spec_trans_type() == f.spec_trans_type(),
        f.spec_set(0xFF, 12, v).spec_log_maxhops() == f.spec_log_maxhops(),
        f.spec_set(0xFF, 12, v).spec_extra() == f.spec_extra(),
        f.spec_set(0x3, 20, v).spec_count() == f.spec_count(),
        f.spec_set(0x3, 20, v).spec_vmid() == f.spec_vmid(),
        f.spec_set(0x3, 20, v).spec_trans_type() == (v & 0x3) as u8,
        f.spec_set(0x3, 20, v).spec_log_maxhops() == f.spec_log_maxhops(),
        f.spec_set(0x3, 20, v).spec_extra() == f.spec_extra(),
        f.spec_set(0xF, 22, v).spec_count() == f.spec_count(),
        f.spec_set(0xF, 22, v).spec_vmid() == f.spec_vmid(),
        f.spec_set(0xF, 22, v).spec_trans_type() == f.spec_trans_type(),
        f.spec_set(0xF, 22, v).spec_log_maxhops() == (v & 0xF) as u8,
        f.spec_set(0xF, 22, v).spec_extra() == f.spec_extra(),
        f.spec_set(0x3F, 26, v).spec_count() == f.spec_count(),
        f.spec_set(0x3F, 26, v).spec_vmid() == f.spec_vmid(),
        f.spec_set(0x3F, 26, v).spec_trans_type() == f.spec_trans_type(),
        f.spec_set(0x3F, 26, v).spec_log_maxhops() == f.spec_log_maxhops(),
        f.spec_set(0x3F, 26, v).spec_extra() == (v & 0x3F) as u8,
{
    lemma_asid_field_bits(f.0, v);
}

proof fn lemma_asid_field_bits(x: u32, v: u32)
    by (bit_vector)
    ensures
        (((x & !(0xFFFu32 << 0u32)) | ((v & 0xFFF) << 0u32))) & 0xFFF == v & 0xFFF,
        ((((x & !(0xFFFu32 << 0u32)) | ((v & 0xFFF) << 0u32))) >> 12u32) & 0xFF == ((x) >> 12u32) & 0xFF,
        ((((x & !(0xFFFu32 << 0u32)) | ((v & 0xFFF) << 0u32))) >> 20u32) & 0x3 == ((x) >> 20u32) & 0x3,
        ((((x & !(0xFFFu32 << 0u32)) | ((v & 0xFFF) << 0u32))) >> 22u32) & 0xF == ((x) >> 22u32) & 0xF,
        (((x & !(0xFFFu32 << 0u32)) | ((v & 0xFFF) << 0u32))) >> 26u32 == (x) >> 26u32,
        (((x & !(0xFFu32 << 12u32)) | ((v & 0xFF) << 12u32))) & 0xFFF == (x) & 0xFFF,
        ((((x & !(0xFFu32 << 12u32)) | ((v & 0xFF) << 12u32))) >> 12u32) & 0xFF == v & 0xFF,
        ((((x & !(0xFFu32 << 12u32)) | ((v & 0xFF) << 12u32))) >> 20u32) & 0x3 == ((x) >> 20u32) & 0x3,
        ((((x & !(0xFFu32 << 12u32)) | ((v & 0xFF) << 12u32))) >> 22u32) & 0xF == ((x) >> 22u32) & 0xF,
        (((x & !(0xFFu32 << 12u32)) | ((v & 0xFF) << 12u32))) >> 26u32 == (x) >> 26u32,
        (((x & !(0x3u32 << 20u32)) | ((v & 0x3) << 20u32))) & 0xFFF == (x) & 0xFFF,
        ((((x & !(0x3u32 << 20u32)) | ((v & 0x3) << 20u32))) >> 12u32) & 0xFF == ((x) >> 12u32) & 0xFF,
        ((((x & !(0x3u32 << 20u32)) | ((v & 0x3) << 20u32))) >> 20u32) & 0x3 == v & 0x3,
        ((((x & !(0x3u32 << 20u32)) | ((v & 0x3) << 20u32))) >> 22u32) & 0xF == ((x) >> 22u32) & 0xF,
        (((x & !(0x3u32 << 20u32)) | ((v & 0x3) << 20u32))) >> 26u32 == (x) >> 26u32,
        (((x & !(0xFu32 << 22u32)) | ((v & 0xF) << 22u32))) & 0xFFF == (x) & 0xFFF,
        ((((x & !(0xFu32 << 22u32)) | ((v & 0xF) << 22u32))) >> 12u32) & 0xFF == ((x) >> 12u32) & 0xFF,
        ((((x & !(0xFu32 << 22u32)) | ((v & 0xF) << 22u32))) >> 20u32) & 0x3 == ((x) >> 20u32) & 0x3,
        ((((x & !(0xFu32 << 22u32)) | ((v & 0xF) << 22u32))) >> 22u32) & 0xF == v & 0xF,
        (((x & !(0xFu32 << 22u32)) | ((v & 0xF) << 22u32))) >> 26u32 == (x) >> 26u32,
        (((x & !(0x3Fu32 << 26u32)) | ((v & 0x3F) << 26u32))) & 0xFFF == (x) & 0xFFF,
        ((((x & !(0x3Fu32 << 26u32)) | ((v & 0x3F) << 26u32))) >> 12u32) & 0xFF == ((x) >> 12u32) & 0xFF,
        ((((x & !(0x3Fu32 << 26u32)) | ((v & 0x3F) << 26u32))) >> 20u32) & 0x3 == ((x) >> 20u32) & 0x3,
        ((((x & !(0x3Fu32 << 26u32)) | ((v & 0x3F) << 26u32))) >> 22u32) & 0xF == ((x) >> 22u32) & 0xF,
        (((x & !(0x3Fu32 << 26u32)) | ((v & 0x3F) << 26u32))) >> 26u32 == v & 0x3F,
{
}

} // verus!
