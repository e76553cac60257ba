//! Cartridge save media: which chip a ROM carries, and how big it is.

use vstd::prelude::*;

verus! {

/// Which battery-backed save chip the cartridge carries. Detected from the
/// ASCII marker the SDK leaves in the ROM image (see `detect_save_type`).
#[derive(Clone, Copy, PartialEq, Eq, Debug, Structural)]
pub enum SaveType {
    /// 32KB static RAM at 0x0E000000, plain 8-bit reads and writes.
    Sram,
    /// 64KB flash, one bank, Panasonic MN63F805MNP (0x32 / 0x1B).
    Flash64,
    /// 128KB flash, two 64KB banks, Sanyo LE26FV10N1TS (0x62 / 0x13).
    Flash128,
    /// 512 byte serial EEPROM, 6-bit block address.
    Eeprom512,
    /// 8KB serial EEPROM, 14-bit block address.
    Eeprom8k,
    /// EEPROM of not-yet-known size; resolved by the first DMA3 transfer.
    EepromUnknown,
}

impl SaveType {
    /// Size in bytes of the save medium (and therefore of the .sav file).
    /// An EEPROM of pending size provisionally counts as 8KB; nothing can be
    /// written before the size settles, so the .sav is never that size.
    #[verifier::allow_in_spec]
    pub fn size(self) -> usize
        returns
            (match self {
                SaveType::Sram => 0x8000usize,
                SaveType::Flash64 => 0x10000usize,
                SaveType::Flash128 => 0x20000usize,
                SaveType::Eeprom512 => 512usize,
                SaveType::Eeprom8k => 8192usize,
                SaveType::EepromUnknown => 8192usize,
            }),
    {
        match self {
            SaveType::Sram => 0x8000,
            SaveType::Flash64 => 0x10000,
            SaveType::Flash128 => 0x20000,
            SaveType::Eeprom512 => 512,
            SaveType::Eeprom8k | SaveType::EepromUnknown => 8192,
        }
    }

    #[verifier::allow_in_spec]
    pub fn is_eeprom(self) -> bool
        returns
            (self is Eeprom512 || self is Eeprom8k || self is EepromUnknown),
    {
        match self {
            SaveType::Eeprom512 | SaveType::Eeprom8k | SaveType::EepromUnknown => true,
            _ => false,
        }
    }

    #[verifier::allow_in_spec]
    pub fn is_flash(self) -> bool
        returns
            (self is Flash64 || self is Flash128),
    {
        match self {
            SaveType::Flash64 | SaveType::Flash128 => true,
            _ => false,
        }
    }

    /// Byte the medium is erased to (flash erases to 0xFF; SRAM/EEPROM start
    /// blank, but 0xFF is what a fresh cartridge reads back as either way).
    #[verifier::allow_in_spec]
    pub fn fill(self) -> u8
        returns
            0xFFu8,
    {
        0xFF
    }

    /// Human-readable description of the medium.
    pub fn name(self) -> (r: &'static str)
        ensures
            r@ == self.name_spec(),
    {
        match self {
            SaveType::Sram => "SRAM 32KB",
            SaveType::Flash64 => "Flash 64KB",
            SaveType::Flash128 => "Flash 128KB",
            SaveType::Eeprom512 => "EEPROM 512B",
            SaveType::Eeprom8k => "EEPROM 8KB",
            SaveType::EepromUnknown => "EEPROM (size pending)",
        }
    }

    pub open spec fn name_spec(self) -> Seq<char> {
        match self {
            SaveType::Sram => "SRAM 32KB"@,
            SaveType::Flash64 => "Flash 64KB"@,
            SaveType::Flash128 => "Flash 128KB"@,
            SaveType::Eeprom512 => "EEPROM 512B"@,
            SaveType::Eeprom8k => "EEPROM 8KB"@,
            SaveType::EepromUnknown => "EEPROM (size pending)"@,
        }
    }
}

// The six SDK marker strings, as ASCII bytes.
pub open spec fn eeprom_marker() -> Seq<u8> {
    seq![69u8, 69, 80, 82, 79, 77, 95, 86]  // "EEPROM_V"
}

pub open spec fn sram_marker() -> Seq<u8> {
    seq![83u8, 82, 65, 77, 95, 86]  // "SRAM_V"
}

pub open spec fn sram_f_marker() -> Seq<u8> {
    seq![83u8, 82, 65, 77, 95, 70, 95, 86]  // "SRAM_F_V"
}

pub open spec fn flash1m_marker() -> Seq<u8> {
    seq![70u8, 76, 65, 83, 72, 49, 77, 95, 86]  // "FLASH1M_V"
}

pub open spec fn flash512_marker() -> Seq<u8> {
    seq![70u8, 76, 65, 83, 72, 53, 49, 50, 95, 86]  // "FLASH512_V"
}

pub open spec fn flash_marker() -> Seq<u8> {
    seq![70u8, 76, 65, 83, 72, 95, 86]  // "FLASH_V"
}

/// `pat` occurs in `rom` starting at offset `i`.
pub open spec fn occurs_at(rom: Seq<u8>, i: int, pat: Seq<u8>) -> bool {
    0 <= i && i + pat.len() <= rom.len() && rom.subrange(i, i + pat.len()) == pat
}

/// The save medium named by a marker starting at offset `i`, if one does.
pub open spec fn marker_at(rom: Seq<u8>, i: int) -> Option<SaveType> {
    if occurs_at(rom, i, eeprom_marker()) {
        Some(SaveType::EepromUnknown)
    } else if occurs_at(rom, i, sram_marker()) || occurs_at(rom, i, sram_f_marker()) {
        Some(SaveType::Sram)
    } else if occurs_at(rom, i, flash1m_marker()) {
        Some(SaveType::Flash128)
    } else if occurs_at(rom, i, flash512_marker()) || occurs_at(rom, i, flash_marker()) {
        Some(SaveType::Flash64)
    } else {
        None
    }
}

/// The medium of the first marker at or after offset `i`; 128KB flash when
/// there is none.
pub open spec fn first_marker_from(rom: Seq<u8>, i: int) -> SaveType
    decreases rom.len() - i,
{
    if i < 0 || i >= rom.len() {
        SaveType::Flash128
    } else {
        match marker_at(rom, i) {
            Some(t) => t,
            None => first_marker_from(rom, i + 1),
        }
    }
}

/// The save medium a ROM declares: that of the first marker in address
/// order, or 128KB flash for a ROM without one.
pub open spec fn detected_save_type(rom: Seq<u8>) -> SaveType {
    first_marker_from(rom, 0)
}

/// Detection never settles an EEPROM's size: that takes a transfer or a
/// save file.
pub proof fn lemma_detected_not_sized_eeprom(rom: Seq<u8>, i: int)
    ensures
        first_marker_from(rom, i) != SaveType::Eeprom512,
        first_marker_from(rom, i) != SaveType::Eeprom8k,
    decreases rom.len() - i,
{
    if 0 <= i < rom.len() && marker_at(rom, i) is None {
        lemma_detected_not_sized_eeprom(rom, i + 1);
    }
}

fn occurs(rom: &[u8], i: usize, pat: &[u8]) -> (r: bool)
    requires
        i < rom.len(),
    ensures
        r == occurs_at(rom@, i as int, pat@),
{
    if rom.len() - i < pat.len() {
        return false;
    }
    let mut k: usize = 0;
    while k < pat.len()
        invariant
            i + pat.len() <= rom.len(),
            k <= pat.len(),
            forall|j: int| 0 <= j < k ==> rom@[i + j] == pat@[j],
        decreases pat.len() - k,
    {
        if rom[i + k] != pat[k] {
            assert(rom@.subrange(i as int, i + pat.len())[k as int] != pat@[k as int]);
            return false;
        }
        k = k + 1;
    }
    assert(rom@.subrange(i as int, i + pat.len()) =~= pat@);
    true
}

/// Scan a ROM image for the save-hardware marker string the Nintendo SDK
/// links into every commercial cartridge, e.g. "FLASH1M_V103". The first
/// marker in address order wins; the six strings have no common prefixes so
/// the match is unambiguous. With no marker (homebrew, prototypes, trimmed
/// dumps) the largest flash part is assumed, which is harmless for a game
/// that never touches the save region.
pub fn detect_save_type(rom: &[u8]) -> (t: SaveType)
    ensures
        t == detected_save_type(rom@),
        t != SaveType::Eeprom512 && t != SaveType::Eeprom8k,
{
    let ee: [u8; 8] = [69, 69, 80, 82, 79, 77, 95, 86];
    let sr: [u8; 6] = [83, 82, 65, 77, 95, 86];
    let srf: [u8; 8] = [83, 82, 65, 77, 95, 70, 95, 86];
    let f1m: [u8; 9] = [70, 76, 65, 83, 72, 49, 77, 95, 86];
    let f512: [u8; 10] = [70, 76, 65, 83, 72, 53, 49, 50, 95, 86];
    let fl: [u8; 7] = [70, 76, 65, 83, 72, 95, 86];
    let ee_s: &[u8] = &ee;
    let sr_s: &[u8] = &sr;
    let srf_s: &[u8] = &srf;
    let f1m_s: &[u8] = &f1m;
    let f512_s: &[u8] = &f512;
    let fl_s: &[u8] = &fl;
    assert(ee_s@ == eeprom_marker());
    assert(sr_s@ == sram_marker());
    assert(srf_s@ == sram_f_marker());
    assert(f1m_s@ == flash1m_marker());
    assert(f512_s@ == flash512_marker());
    assert(fl_s@ == flash_marker());
    proof {
        lemma_detected_not_sized_eeprom(rom@, 0);
    }
    let mut i: usize = 0;
    while i < rom.len()
        invariant
            i <= rom.len(),
            first_marker_from(rom@, 0) != SaveType::Eeprom512,
            first_marker_from(rom@, 0) != SaveType::Eeprom8k,
            ee_s@ == eeprom_marker(),
            sr_s@ == sram_marker(),
            srf_s@ == sram_f_marker(),
            f1m_s@ == flash1m_marker(),
            f512_s@ == flash512_marker(),
            fl_s@ == flash_marker(),
            first_marker_from(rom@, 0) == first_marker_from(rom@, i as int),
        decreases rom.len() - i,
    {
        let c = rom[i];
        if c == 69 && occurs(rom, i, ee_s) {
            return SaveType::EepromUnknown;
        }
        if c == 83 && (occurs(rom, i, sr_s) || occurs(rom, i, srf_s)) {
            return SaveType::Sram;
        }
        if c == 70 && occurs(rom, i, f1m_s) {
            return SaveType::Flash128;
        }
        if c == 70 && (occurs(rom, i, f512_s) || occurs(rom, i, fl_s)) {
            return SaveType::Flash64;
        }
        proof {
            // A marker can only start with its own first letter.
            if occurs_at(rom@, i as int, eeprom_marker()) {
                assert(rom@.subrange(i as int, i + 8)[0] == rom@[i as int]);
            }
            if occurs_at(rom@, i as int, sram_marker()) {
                assert(rom@.subrange(i as int, i + 6)[0] == rom@[i as int]);
            }
            if occurs_at(rom@, i as int, sram_f_marker()) {
                assert(rom@.subrange(i as int, i + 8)[0] == rom@[i as int]);
            }
            if occurs_at(rom@, i as int, flash1m_marker()) {
                assert(rom@.subrange(i as int, i + 9)[0] == rom@[i as int]);
            }
            if occurs_at(rom@, i as int, flash512_marker()) {
                assert(rom@.subrange(i as int, i + 10)[0] == rom@[i as int]);
            }
            if occurs_at(rom@, i as int, flash_marker()) {
                assert(rom@.subrange(i as int, i + 7)[0] == rom@[i as int]);
            }
            assert(marker_at(rom@, i as int) is None);
        }
        i = i + 1;
    }
    SaveType::Flash128
}

} // verus!
