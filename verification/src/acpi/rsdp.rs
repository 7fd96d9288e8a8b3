use vstd::prelude::*;
use vstd::utf8::valid_utf8;
use vstd::wrapping::u8_specs::wrapping_add;
use crate::fs::disk::le32_bytes;

verus! {

/// The Root System Description Pointer: where the firmware tells the
/// system description tables of ACPI lie.
#[derive(Debug, Clone, Copy)]
pub struct Rsdp {
    /// "RSD PTR ".
    pub signature: [u8; 8],
    /// Makes the first 20 bytes sum to zero.
    pub checksum: u8,
    /// The manufacturer.
    pub oem_id: [u8; 6],
    /// 0 for ACPI 1.0, 2 for 2.0 and later.
    pub revision: u8,
    /// The address of the root system description table.
    pub rsdt_address: u32,
    /// The length of the structure with its extended fields.
    pub length: u32,
    /// The address of the extended system description table.
    pub xsdt_address: u64,
    /// Makes the whole structure sum to zero.
    pub extended_checksum: u8,
    /// Reserved.
    pub reserved: [u8; 3],
}

/// The addresses of the system description tables the kernel uses, by kind.
#[derive(Debug, Clone, Copy, PartialEq, Eq, Structural)]
pub struct StdHeaders {
    /// The fixed ACPI description table ("FACP").
    pub facp: Option<u64>,
    /// The multiple APIC description table ("APIC").
    pub apic: Option<u64>,
    /// The high precision event timer table ("HPET").
    pub hpet: Option<u64>,
    /// The PCI express configuration table ("MCFG").
    pub mcfg: Option<u64>,
    /// The Windows ACPI emulated devices table ("WAET").
    pub waet: Option<u64>,
    /// The boot graphics resource table ("BGRT").
    pub bgrt: Option<u64>,
}

/// The RSDP and the tables it leads to.
#[derive(Debug, Clone, Copy)]
pub struct RsdpManager {
    /// The address of the RSDP.
    pub rsd_ptr: u64,
    /// The address of the root system description table.
    pub root_sdt: u64,
    /// The number of entries of the root table.
    pub entry_count: usize,
    /// The tables found, by kind.
    pub sdt_headers: StdHeaders,
}

/// The headers with no table found.
pub open spec fn no_headers() -> StdHeaders {
    StdHeaders { facp: None, apic: None, hpet: None, mcfg: None, waet: None, bgrt: None }
}

impl StdHeaders {
    /// No table found.
    pub fn default() -> (h: StdHeaders)
        ensures
            h == no_headers(),
    {
        StdHeaders { facp: None, apic: None, hpet: None, mcfg: None, waet: None, bgrt: None }
    }
}

/// The headers `h` once the table at `addr` with signature `sig` is
/// recorded under its kind; a table of another kind is not recorded.
pub open spec fn with_table(h: StdHeaders, addr: u64, sig: Seq<u8>) -> StdHeaders {
    if sig == seq![0x46u8, 0x41, 0x43, 0x50] {
        StdHeaders { facp: Some(addr), ..h }
    } else if sig == seq![0x41u8, 0x50, 0x49, 0x43] {
        StdHeaders { apic: Some(addr), ..h }
    } else if sig == seq![0x48u8, 0x50, 0x45, 0x54] {
        StdHeaders { hpet: Some(addr), ..h }
    } else if sig == seq![0x4Du8, 0x43, 0x46, 0x47] {
        StdHeaders { mcfg: Some(addr), ..h }
    } else if sig == seq![0x57u8, 0x41, 0x45, 0x54] {
        StdHeaders { waet: Some(addr), ..h }
    } else if sig == seq![0x42u8, 0x47, 0x52, 0x54] {
        StdHeaders { bgrt: Some(addr), ..h }
    } else {
        h
    }
}

/// Whether the four bytes `s` spell `a`, `b`, `c`, `d`.
fn sig_is(s: &[u8; 4], a: u8, b: u8, c: u8, d: u8) -> (r: bool)
    ensures
        r == (s@ == seq![a, b, c, d]),
{
    let r = s[0] == a && s[1] == b && s[2] == c && s[3] == d;
    proof {
        if r {
            assert(s@ =~= seq![a, b, c, d]);
        }
    }
    r
}

impl RsdpManager {
    /// The manager of the RSDP at `rsdp_addr`, whose root table is
    /// `rsdt_length` bytes long: the table's entries are the 4-byte
    /// addresses after its 36-byte header.
    pub fn new(rsdp_addr: u64, rsdp: &Rsdp, rsdt_length: u32) -> (m: RsdpManager)
        requires
            rsdt_length >= 36,
        ensures
            m.rsd_ptr == rsdp_addr,
            m.root_sdt == rsdp.rsdt_address as u64,
            m.entry_count == (rsdt_length - 36) / 4,
            m.sdt_headers == no_headers(),
    {
        let rsdt = rsdp.get_root_sdt();
        let entry_count = rsdp.get_table_count(rsdt_length);
        RsdpManager {
            rsd_ptr: rsdp_addr,
            root_sdt: rsdt,
            entry_count,
            sdt_headers: StdHeaders::default(),
        }
    }

    /// The address in entry `index` of the root table, whose entries are
    /// `entries`; `None` past the last entry.
    pub fn get_entry(&self, index: usize, entries: &Vec<u32>) -> (r: Option<u64>)
        requires
            entries@.len() >= self.entry_count,
        ensures
            r == if index < self.entry_count {
                Some(entries@[index as int] as u64)
            } else {
                None
            },
    {
        if index < self.entry_count {
            Some(entries[index] as u64)
        } else {
            None
        }
    }

    /// Records the table at `header`, whose signature is `signature`,
    /// under its kind; a table of another kind is not recorded. The
    /// signature must be valid UTF-8.
    pub fn add_sdt_header(&mut self, header: u64, signature: [u8; 4])
        requires
            valid_utf8(signature@),
        ensures
            final(self).sdt_headers == with_table(old(self).sdt_headers, header, signature@),
            final(self).rsd_ptr == old(self).rsd_ptr,
            final(self).root_sdt == old(self).root_sdt,
            final(self).entry_count == old(self).entry_count,
    {
        if sig_is(&signature, 0x46, 0x41, 0x43, 0x50) {
            self.sdt_headers.facp = Some(header);
        } else if sig_is(&signature, 0x41, 0x50, 0x49, 0x43) {
            self.sdt_headers.apic = Some(header);
        } else if sig_is(&signature, 0x48, 0x50, 0x45, 0x54) {
            self.sdt_headers.hpet = Some(header);
        } else if sig_is(&signature, 0x4D, 0x43, 0x46, 0x47) {
            self.sdt_headers.mcfg = Some(header);
        } else if sig_is(&signature, 0x57, 0x41, 0x45, 0x54) {
            self.sdt_headers.waet = Some(header);
        } else if sig_is(&signature, 0x42, 0x47, 0x52, 0x54) {
            self.sdt_headers.bgrt = Some(header);
        }
    }
}

/// The signature "FACP" of the fixed ACPI description table.
pub open spec fn sig_facp() -> Seq<u8> {
    seq!['F' as u8, 'A' as u8, 'C' as u8, 'P' as u8]
}

/// The signature "APIC" of the multiple APIC description table.
pub open spec fn sig_apic() -> Seq<u8> {
    seq!['A' as u8, 'P' as u8, 'I' as u8, 'C' as u8]
}

/// The signature "HPET" of the high precision event timer table.
pub open spec fn sig_hpet() -> Seq<u8> {
    seq!['H' as u8, 'P' as u8, 'E' as u8, 'T' as u8]
}

/// The signature "MCFG" of the PCI express memory mapped configuration table.
pub open spec fn sig_mcfg() -> Seq<u8> {
    seq!['M' as u8, 'C' as u8, 'F' as u8, 'G' as u8]
}

/// The signature "WAET" of the windows ACPI emulated devices table.
pub open spec fn sig_waet() -> Seq<u8> {
    seq!['W' as u8, 'A' as u8, 'E' as u8, 'T' as u8]
}

/// The signature "BGRT" of the boot graphics resource table.
pub open spec fn sig_bgrt() -> Seq<u8> {
    seq!['B' as u8, 'G' as u8, 'R' as u8, 'T' as u8]
}

/// Whether `sig` is one of the six signatures the headers have a field for.
pub open spec fn is_known_sig(sig: Seq<u8>) -> bool {
    sig == sig_facp() || sig == sig_apic() || sig == sig_hpet() || sig == sig_mcfg() || sig
        == sig_waet() || sig == sig_bgrt()
}

/// The field of `h` that holds the table of signature `sig`; `None` for a
/// signature without a field.
pub open spec fn field_for(h: StdHeaders, sig: Seq<u8>) -> Option<u64> {
    if sig == sig_facp() {
        h.facp
    } else if sig == sig_apic() {
        h.apic
    } else if sig == sig_hpet() {
        h.hpet
    } else if sig == sig_mcfg() {
        h.mcfg
    } else if sig == sig_waet() {
        h.waet
    } else if sig == sig_bgrt() {
        h.bgrt
    } else {
        None
    }
}

proof fn lemma_sigs_distinct()
    ensures
        sig_facp() != sig_apic(),
        sig_facp() != sig_hpet(),
        sig_facp() != sig_mcfg(),
        sig_facp() != sig_waet(),
        sig_facp() != sig_bgrt(),
        sig_apic() != sig_hpet(),
        sig_apic() != sig_mcfg(),
        sig_apic() != sig_waet(),
        sig_apic() != sig_bgrt(),
        sig_hpet() != sig_mcfg(),
        sig_hpet() != sig_waet(),
        sig_hpet() != sig_bgrt(),
        sig_mcfg() != sig_waet(),
        sig_mcfg() != sig_bgrt(),
        sig_waet() != sig_bgrt(),
{
    assert(sig_facp()[0] != sig_apic()[0]);
    assert(sig_facp()[0] != sig_hpet()[0]);
    assert(sig_facp()[0] != sig_mcfg()[0]);
    assert(sig_facp()[0] != sig_waet()[0]);
    assert(sig_facp()[0] != sig_bgrt()[0]);
    assert(sig_apic()[0] != sig_hpet()[0]);
    assert(sig_apic()[0] != sig_mcfg()[0]);
    assert(sig_apic()[0] != sig_waet()[0]);
    assert(sig_apic()[0] != sig_bgrt()[0]);
    assert(sig_hpet()[0] != sig_mcfg()[0]);
    assert(sig_hpet()[0] != sig_waet()[0]);
    assert(sig_hpet()[0] != sig_bgrt()[0]);
    assert(sig_mcfg()[0] != sig_waet()[0]);
    assert(sig_mcfg()[0] != sig_bgrt()[0]);
    assert(sig_waet()[0] != sig_bgrt()[0]);
}

/// Recording a table: a table whose signature is "FACP", "APIC", "HPET",
/// "MCFG", "WAET" or "BGRT" is put in that signature's own field, which
/// then holds the table's address, and every other field keeps what it
/// held; a table with any other signature leaves the headers as they were.
pub proof fn lemma_table_recorded(h: StdHeaders, addr: u64, sig: Seq<u8>, other: Seq<u8>)
    ensures
        sig == sig_facp() ==> with_table(h, addr, sig) == (StdHeaders { facp: Some(addr), ..h }),
        sig == sig_apic() ==> with_table(h, addr, sig) == (StdHeaders { apic: Some(addr), ..h }),
        sig == sig_hpet() ==> with_table(h, addr, sig) == (StdHeaders { hpet: Some(addr), ..h }),
        sig == sig_mcfg() ==> with_table(h, addr, sig) == (StdHeaders { mcfg: Some(addr), ..h }),
        sig == sig_waet() ==> with_table(h, addr, sig) == (StdHeaders { waet: Some(addr), ..h }),
        sig == sig_bgrt() ==> with_table(h, addr, sig) == (StdHeaders { bgrt: Some(addr), ..h }),
        !is_known_sig(sig) ==> with_table(h, addr, sig) == h,
        is_known_sig(sig) ==> field_for(with_table(h, addr, sig), sig) == Some(addr),
        other != sig ==> field_for(with_table(h, addr, sig), other) == field_for(h, other),
{
    lemma_sigs_distinct();
    assert(sig_facp() =~= seq![0x46u8, 0x41, 0x43, 0x50]);
    assert(sig_apic() =~= seq![0x41u8, 0x50, 0x49, 0x43]);
    assert(sig_hpet() =~= seq![0x48u8, 0x50, 0x45, 0x54]);
    assert(sig_mcfg() =~= seq![0x4Du8, 0x43, 0x46, 0x47]);
    assert(sig_waet() =~= seq![0x57u8, 0x41, 0x45, 0x54]);
    assert(sig_bgrt() =~= seq![0x42u8, 0x47, 0x52, 0x54]);
}

/// No table of a known signature is dropped: once the first `n` entries of
/// the root table are recorded, the field of a known signature holds the
/// address of the last of those entries that has that signature.
pub proof fn lemma_last_table_kept(h: StdHeaders, tables: Seq<(u32, [u8; 4])>, n: nat, i: int)
    requires
        n <= tables.len(),
        0 <= i < n,
        is_known_sig(tables[i].1@),
        forall|j: int| i < j < n ==> (#[trigger] tables[j]).1@ != tables[i].1@,
    ensures
        field_for(tables_upto(h, tables, n), tables[i].1@) == Some(tables[i].0 as u64),
    decreases n,
{
    let prev = tables_upto(h, tables, (n - 1) as nat);
    let t = tables[n - 1];
    if i == n - 1 {
        lemma_table_recorded(prev, t.0 as u64, t.1@, t.1@);
    } else {
        lemma_last_table_kept(h, tables, (n - 1) as nat, i);
        lemma_table_recorded(prev, t.0 as u64, t.1@, tables[i].1@);
    }
}

/// The sum of the bytes of `s`.
pub open spec fn byte_sum(s: Seq<u8>) -> int
    decreases s.len(),
{
    if s.len() == 0 {
        0
    } else {
        byte_sum(s.drop_last()) + s.last()
    }
}

/// The first 20 bytes of the RSDP: its signature, checksum, manufacturer,
/// revision and the address of the root table.
pub open spec fn rsdp_head(r: Rsdp) -> Seq<u8> {
    r.signature@ + seq![r.checksum] + r.oem_id@ + seq![r.revision] + le32_bytes(r.rsdt_address)
}

impl Rsdp {
    /// Whether the first 20 bytes of the RSDP sum to zero, modulo 256.
    pub fn validate_checksum(&self) -> (valid: bool)
        ensures
            valid == (byte_sum(rsdp_head(*self)) % 256 == 0),
    {
        let mut bytes: Vec<u8> = Vec::new();
        let mut i: usize = 0;
        while i < 8
            invariant
                i <= 8,
                bytes@ == self.signature@.subrange(0, i as int),
            decreases 8 - i,
        {
            bytes.push(self.signature[i]);
            i = i + 1;
        }
        bytes.push(self.checksum);
        let mut i: usize = 0;
        while i < 6
            invariant
                i <= 6,
                bytes@ == self.signature@ + seq![self.checksum] + self.oem_id@.subrange(0, i as int),
            decreases 6 - i,
        {
            bytes.push(self.oem_id[i]);
            i = i + 1;
        }
        bytes.push(self.revision);
        let a = self.rsdt_address;
        bytes.push((a % 256) as u8);
        bytes.push(((a / 256) % 256) as u8);
        bytes.push(((a / 65536) % 256) as u8);
        bytes.push((a / 16777216) as u8);
        assert(bytes@ =~= rsdp_head(*self));
        let mut sum: u8 = 0;
        let mut i: usize = 0;
        while i < bytes.len()
            invariant
                i <= bytes@.len(),
                sum == byte_sum(bytes@.subrange(0, i as int)) % 256,
            decreases bytes@.len() - i,
        {
            let b = bytes[i];
            proof {
                let pre = bytes@.subrange(0, i as int);
                assert(bytes@.subrange(0, i + 1).drop_last() =~= pre);
                vstd::arithmetic::div_mod::lemma_add_mod_noop(byte_sum(pre), b as int, 256);
                vstd::arithmetic::div_mod::lemma_small_mod(b as nat, 256);
                vstd::arithmetic::div_mod::lemma_mod_sub_multiples_vanish(sum + b, 256);
                if sum + b >= 256 {
                    vstd::arithmetic::div_mod::lemma_small_mod((sum + b - 256) as nat, 256);
                } else {
                    vstd::arithmetic::div_mod::lemma_small_mod((sum + b) as nat, 256);
                }
            }
            sum = sum.wrapping_add(b);
            i = i + 1;
        }
        assert(bytes@.subrange(0, bytes@.len() as int) =~= bytes@);
        sum == 0
    }

    /// The address of the root system description table.
    pub fn get_root_sdt(&self) -> (addr: u64)
        ensures
            addr == self.rsdt_address as u64,
    {
        self.rsdt_address as u64
    }

    /// The number of entries of the root table, `rsdt_length` bytes long: 4
    /// bytes each after the 36-byte header.
    pub fn get_table_count(&self, rsdt_length: u32) -> (count: usize)
        requires
            rsdt_length >= 36,
        ensures
            count == (rsdt_length - 36) / 4,
    {
        ((rsdt_length - 36) / 4) as usize
    }
}

/// The tables of the first `n` entries of the root table recorded, in order.
pub open spec fn tables_upto(h: StdHeaders, tables: Seq<(u32, [u8; 4])>, n: nat) -> StdHeaders
    decreases n,
{
    if n == 0 {
        h
    } else {
        let t = tables[n - 1];
        with_table(tables_upto(h, tables, (n - 1) as nat), t.0 as u64, t.1@)
    }
}

/// The manager of the RSDP at `rsdp_addr`, with every table of its root
/// table recorded under its kind: `rsdt_length` is the length of the root
/// table, and `tables` holds the address in each of its entries with the
/// signature of the table there.
pub fn init_rsdp(rsdp_addr: u64, rsdp: &Rsdp, rsdt_length: u32, tables: &Vec<(u32, [u8; 4])>) -> (m: RsdpManager)
    requires
        rsdt_length >= 36,
        tables@.len() >= (rsdt_length - 36) / 4,
        forall|i: int| 0 <= i < (rsdt_length - 36) / 4 ==> valid_utf8((#[trigger] tables@[i]).1@),
    ensures
        m.rsd_ptr == rsdp_addr,
        m.root_sdt == rsdp.rsdt_address as u64,
        m.entry_count == (rsdt_length - 36) / 4,
        m.sdt_headers == tables_upto(no_headers(), tables@, m.entry_count as nat),
{
    let mut rsdp_manager = RsdpManager::new(rsdp_addr, rsdp, rsdt_length);
    let mut i: usize = 0;
    while i < rsdp_manager.entry_count
        invariant
            rsdp_manager.rsd_ptr == rsdp_addr,
            rsdp_manager.root_sdt == rsdp.rsdt_address as u64,
            rsdp_manager.entry_count == (rsdt_length - 36) / 4,
            tables@.len() >= rsdp_manager.entry_count,
            forall|j: int| 0 <= j < (rsdt_length - 36) / 4 ==> valid_utf8((#[trigger] tables@[j]).1@),
            i <= rsdp_manager.entry_count,
            rsdp_manager.sdt_headers == tables_upto(no_headers(), tables@, i as nat),
        decreases rsdp_manager.entry_count - i,
    {
        let (addr, signature) = tables[i];
        rsdp_manager.add_sdt_header(addr as u64, signature);
        i = i + 1;
    }
    rsdp_manager
}

} // verus!
