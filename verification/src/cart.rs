//! The cartridge save controllers: battery SRAM, the flash command
//! protocol (64KB single bank, or 128KB in two banks) and the bit-serial
//! EEPROM driven by DMA3 through the 0x0D region.

use vstd::prelude::*;
use crate::bitfacts::{lemma_u32_masks, lemma_u8_bits, lemma_flash_addr};
use crate::bus::{Bus, addr_bits_of};
use crate::save::SaveType;
use crate::io::bus_frame;

verus! {

/// `s` cut or padded with erased bytes to `n` bytes.
pub open spec fn resized(s: Seq<u8>, n: nat) -> Seq<u8> {
    Seq::new(n, |i: int| if i < s.len() { s[i] } else { 0xFFu8 })
}

/// Big-endian value of a sequence of bits.
pub open spec fn bits_value(s: Seq<u8>) -> nat
    decreases s.len(),
{
    if s.len() == 0 {
        0
    } else {
        2 * bits_value(s.drop_last()) + s.last() as nat
    }
}

pub proof fn lemma_bits_value_bound(s: Seq<u8>)
    requires
        forall|i: int| 0 <= i < s.len() ==> #[trigger] s[i] <= 1,
    ensures
        bits_value(s) < vstd::arithmetic::power2::pow2(s.len()),
    decreases s.len(),
{
    if s.len() > 0 {
        lemma_bits_value_bound(s.drop_last());
        vstd::arithmetic::power2::lemma_pow2_unfold(s.len());
        assert(s.last() <= 1);
    } else {
        vstd::arithmetic::power2::lemma2_to64();
    }
}

/// Byte offset of EEPROM block `block` in a save of `len` bytes: blocks
/// past the chip wrap around instead of indexing out of it.
pub open spec fn ee_block_offset(len: nat, block: nat) -> nat {
    let blocks = if len / 8 >= 1 { len / 8 } else { 1 };
    (block % blocks) * 8
}

/// The save after a complete write command in `buf` ("10", `n` address
/// bits, 64 data bits): the eight data bytes replace the addressed block.
pub open spec fn ee_store(save: Seq<u8>, buf: Seq<u8>, n: int) -> Seq<u8> {
    let off = ee_block_offset(save.len(), bits_value(buf.subrange(2, 2 + n))) as int;
    Seq::new(save.len(), |j: int|
        if off <= j < off + 8 {
            bits_value(buf.subrange(2 + n + 8 * (j - off), 2 + n + 8 * (j - off) + 8)) as u8
        } else {
            save[j]
        })
}

/// `new` differs from `old` at most in the save medium and the EEPROM
/// protocol state.
pub open spec fn save_frame(old: Bus, new: Bus) -> bool {
    new == (Bus {
        save_type: new.save_type,
        save: new.save,
        save_dirty: new.save_dirty,
        ee_addr_bits: new.ee_addr_bits,
        ee_buf: new.ee_buf,
        ee_reading: new.ee_reading,
        ee_out: new.ee_out,
        ee_read_off: new.ee_read_off,
        ..old
    })
}

/// `new` differs from `old` at most in the save medium and the flash
/// protocol state.
pub open spec fn flash_frame(old: Bus, new: Bus) -> bool {
    new == (Bus {
        save: new.save,
        save_dirty: new.save_dirty,
        flash_bank: new.flash_bank,
        flash_state: new.flash_state,
        flash_id_mode: new.flash_id_mode,
        flash_erase_mode: new.flash_erase_mode,
        flash_write_byte: new.flash_write_byte,
        flash_bank_select: new.flash_bank_select,
        ..old
    })
}

/// One command bit `bit` shifted into the EEPROM, whose type and contents
/// are `t` and `save0` at that moment (the address width `n` is known).
pub open spec fn ee_shifted(old: Bus, new: Bus, bit: u8, t: SaveType, save0: Seq<u8>) -> bool {
    let n = addr_bits_of(t) as int;
    let buf = old.ee_buf@.push(bit % 2);
    &&& save_frame(old, new)
    &&& new.save_type == t
    &&& new.ee_addr_bits == addr_bits_of(t)
    &&& if buf[0] == 0 {
        // A leading 0 is the stop bit of the previous request.
        &&& new.ee_buf@ == Seq::<u8>::empty()
        &&& new.save@ == save0
        &&& new.save_dirty == old.save_dirty
        &&& new.ee_reading == old.ee_reading && new.ee_out == old.ee_out && new.ee_read_off == old.ee_read_off
    } else if buf.len() < 2 {
        &&& new.ee_buf@ == buf
        &&& new.save@ == save0
        &&& new.save_dirty == old.save_dirty
        &&& new.ee_reading == old.ee_reading && new.ee_out == old.ee_out && new.ee_read_off == old.ee_read_off
    } else if buf[1] == 1 {
        // "11" = read request: address, then the game clocks the data out.
        &&& new.save@ == save0
        &&& new.save_dirty == old.save_dirty
        &&& if buf.len() == 2 + n {
            &&& new.ee_buf@ == Seq::<u8>::empty()
            &&& new.ee_reading
            &&& new.ee_out == 0
            &&& new.ee_read_off == ee_block_offset(save0.len(), bits_value(buf.subrange(2, 2 + n)))
        } else {
            &&& new.ee_buf@ == buf
            &&& new.ee_reading == old.ee_reading && new.ee_out == old.ee_out && new.ee_read_off == old.ee_read_off
        }
    } else {
        // "10" = write request: address followed by 64 data bits.
        &&& new.ee_reading == old.ee_reading && new.ee_out == old.ee_out && new.ee_read_off == old.ee_read_off
        &&& if buf.len() == 2 + n + 64 {
            &&& new.ee_buf@ == Seq::<u8>::empty()
            &&& new.save@ == ee_store(save0, buf, n)
            &&& new.save_dirty
        } else {
            &&& new.save@ == save0
            &&& new.save_dirty == old.save_dirty
            &&& if buf.len() > 2 + n + 64 {
                new.ee_buf@ == Seq::<u8>::empty()  // desynced
            } else {
                new.ee_buf@ == buf
            }
        }
    }
}

/// The EEPROM after a command bit is clocked in: an EEPROM whose width is
/// still unknown is taken to be the 6-bit, 512-byte part first.
#[verifier::opaque]
pub open spec fn ee_bit_written(old: Bus, new: Bus, bit: u8) -> bool {
    if old.ee_addr_bits != 0 {
        ee_shifted(old, new, bit, old.save_type, old.save@)
    } else {
        ee_shifted(
            Bus { save_type: SaveType::Eeprom512, ee_addr_bits: 6, ..old },
            new,
            bit,
            SaveType::Eeprom512,
            resized(old.save@, 512),
        )
    }
}

/// The EEPROM bit clocked out on a read of the chip.
pub open spec fn ee_read_value(b: Bus) -> u8 {
    if !b.ee_reading {
        1  // idle chip reads back as ready
    } else if b.ee_out < 4 {
        0  // four dummy bits precede the data
    } else {
        let k = b.ee_out - 4;
        let idx = b.ee_read_off + k / 8;
        let byte = if idx < b.save@.len() { b.save@[idx as int] } else { 0xFFu8 };
        (byte >> ((7 - k % 8) as u8)) & 1
    }
}

/// The EEPROM state after one bit has been clocked out.
pub open spec fn ee_read_next(old: Bus, new: Bus) -> bool {
    if !old.ee_reading {
        new == old
    } else {
        new == (Bus {
            ee_out: (old.ee_out + 1) as u32,
            ee_reading: old.ee_out < 4 || old.ee_out - 4 < 63,
            ..old
        })
    }
}

/// Which save medium `load_save` settles on for a blob of `len` bytes: an
/// EEPROM of pending size takes its size from an existing save.
pub open spec fn type_after_load(t: SaveType, len: nat) -> SaveType {
    if t == SaveType::EepromUnknown && len == 512 {
        SaveType::Eeprom512
    } else if t == SaveType::EepromUnknown && len == 8192 {
        SaveType::Eeprom8k
    } else {
        t
    }
}

impl Bus {
    /// Settle the EEPROM size: the medium becomes `t`, resized with erased
    /// bytes, and the address width follows.
    fn set_save_type(&mut self, t: SaveType)
        requires
            old(self).wf(),
            t == SaveType::Eeprom512 || t == SaveType::Eeprom8k,
            old(self).save_type == t || old(self).ee_addr_bits == 0,
        ensures
            final(self).wf(),
            old(self).save_type == t ==> *final(self) == *old(self),
            old(self).save_type != t ==> {
                &&& *final(self) == (Bus { save_type: t, save: final(self).save, ee_addr_bits: addr_bits_of(t), ..*old(self) })
                &&& final(self).save@ == resized(old(self).save@, t.size() as nat)
            },
    {
        if self.save_type == t {
            return;
        }
        let n = t.size();
        self.save_type = t;
        if n <= self.save.len() {
            self.save.truncate(n);
        } else {
            while self.save.len() < n
                invariant
                    n == t.size(),
                    old(self).save@.len() <= self.save@.len() <= n,
                    forall|i: int| 0 <= i < self.save@.len() ==> #[trigger] self.save@[i] == (if i < old(self).save@.len() { old(self).save@[i] } else { 0xFFu8 }),
                    *self == (Bus { save_type: t, save: self.save, ..*old(self) }),
                decreases n - self.save.len(),
            {
                self.save.push(0xFF);
            }
        }
        assert(self.save@ =~= resized(old(self).save@, n as nat));
        self.ee_addr_bits = if t == SaveType::Eeprom512 { 6 } else { 14 };
    }

    /// Adopt a previously written .sav blob. A blob whose length does not
    /// match the detected medium is taken on a best-effort basis rather than
    /// rejected: the common prefix is copied and the rest reads as erased.
    /// Returns true when the blob matched the medium exactly. An EEPROM of
    /// pending size is settled by a 512- or 8192-byte blob.
    pub fn load_save(&mut self, data: &[u8]) -> (r: bool)
        requires
            old(self).wf(),
        ensures
            final(self).wf(),
            ({
                let t = type_after_load(old(self).save_type, data@.len());
                &&& *final(self) == (Bus { save_type: t, save: final(self).save, ee_addr_bits: addr_bits_of(t), ..*old(self) })
                &&& final(self).save@ == Seq::new(t.size() as nat, |i: int| if i < data@.len() { data@[i] } else { 0xFFu8 })
                &&& r == (data@.len() == t.size())
            }),
    {
        if self.save_type == SaveType::EepromUnknown {
            if data.len() == 512 {
                self.set_save_type(SaveType::Eeprom512);
            } else if data.len() == 8192 {
                self.set_save_type(SaveType::Eeprom8k);
            }
        }
        let ghost mid = *self;
        let len = self.save.len();
        let n = if data.len() < len { data.len() } else { len };
        let mut i: usize = 0;
        while i < len
            invariant
                len == self.save@.len(),
                len == mid.save@.len(),
                n <= len,
                n <= data@.len(),
                n == data@.len() || n == len,
                i <= len,
                forall|j: int| 0 <= j < i ==> #[trigger] self.save@[j] == (if j < data@.len() { data@[j] } else { 0xFFu8 }),
                *self == (Bus { save: self.save, ..mid }),
            decreases len - i,
        {
            if i < n {
                self.save.set(i, data[i]);
            } else {
                self.save.set(i, 0xFF);
            }
            i = i + 1;
        }
        assert(self.save@ =~= Seq::new(self.save_type.size() as nat, |j: int| if j < data@.len() { data@[j] } else { 0xFFu8 }));
        data.len() == self.save.len()
    }
}


/// Offset into the save of flash address `a` (0..0xFFFF): the 128KB part
/// adds the selected 64KB bank. Never past the buffer.
pub open spec fn flash_offset_of(b: Bus, a: int) -> int {
    let off = if b.save_type == SaveType::Flash128 { b.flash_bank * 0x10000 + a } else { a % 0x10000 };
    let len = b.save@.len() as int;
    if off < len { off } else { off % (if len >= 1 { len } else { 1 }) }
}

/// What a flash read returns: the manufacturer and device ID in ID mode
/// (Sanyo 0x62/0x13 for 128KB, Panasonic 0x32/0x1B for 64KB), else the
/// stored byte.
pub open spec fn flash_peek(b: Bus, addr: u32) -> u8 {
    let a = (addr & 0xFFFF) as int;
    if b.flash_id_mode {
        let (man, dev) = if b.save_type == SaveType::Flash128 { (0x62u8, 0x13u8) } else { (0x32u8, 0x1Bu8) };
        if a == 0 { man } else if a == 1 { dev } else { 0xFF }
    } else {
        let idx = flash_offset_of(b, a);
        if 0 <= idx < b.save@.len() { b.save@[idx] } else { 0xFF }
    }
}

/// The save with bytes `start..end` erased.
pub open spec fn erased(s: Seq<u8>, start: int, end: int) -> Seq<u8> {
    Seq::new(s.len(), |i: int| if start <= i < end { 0xFFu8 } else { s[i] })
}

/// The flash chip after byte `val` is written at `addr`: a pending program
/// clears bits of the addressed byte; a pending bank select picks the bank
/// (128KB only); otherwise the write advances the AA/55 unlock sequence or,
/// after it, runs a command: 0x90/0xF0 enter/leave ID mode, 0x80 arms
/// erase, 0x10 (armed) erases the chip, 0xA0 arms a program, 0xB0 arms a
/// bank select, and 0x30 (armed) to any other address erases its 4KB sector.
/// Anything else resets the sequence.
#[verifier::opaque]
pub open spec fn flash_written(old: Bus, new: Bus, addr: u32, val: u8) -> bool {
    let a = (addr & 0xFFFF) as int;
    let len = old.save@.len() as int;
    if old.flash_write_byte {
        let off = flash_offset_of(old, a);
        &&& new == (Bus { save: new.save, flash_write_byte: false, save_dirty: true, ..old })
        &&& new.save@ == (if 0 <= off < len { old.save@.update(off, old.save@[off] & val) } else { old.save@ })
    } else if old.flash_bank_select && a == 0 {
        new == (Bus {
            flash_bank: if old.save_type == SaveType::Flash128 { (val & 1) as usize } else { old.flash_bank },
            flash_bank_select: false,
            ..old
        })
    } else {
        flash_cmd_written(old, new, a, val)
    }
}

/// The flash chip after byte `val` is written at chip offset `a` with no
/// program or bank select pending: the unlock sequence and the commands,
/// as [`flash_written`] describes.
pub open spec fn flash_cmd_written(old: Bus, new: Bus, a: int, val: u8) -> bool {
    let len = old.save@.len() as int;
    if old.flash_state == 0 && a == 0x5555 && val == 0xAA {
        new == (Bus { flash_state: 1, ..old })
    } else if old.flash_state == 1 && a == 0x2AAA && val == 0x55 {
        new == (Bus { flash_state: 2, ..old })
    } else if old.flash_state == 2 && a == 0x5555 {
        if val == 0x90 {
            new == (Bus { flash_state: 0, flash_id_mode: true, ..old })
        } else if val == 0xF0 {
            new == (Bus { flash_state: 0, flash_id_mode: false, ..old })
        } else if val == 0x80 {
            new == (Bus { flash_state: 0, flash_erase_mode: true, ..old })
        } else if val == 0x10 && old.flash_erase_mode {
            &&& new == (Bus { save: new.save, flash_state: 0, flash_erase_mode: false, save_dirty: true, ..old })
            &&& new.save@ == erased(old.save@, 0, len)
        } else if val == 0xA0 {
            new == (Bus { flash_state: 0, flash_write_byte: true, ..old })
        } else if val == 0xB0 {
            new == (Bus { flash_state: 0, flash_bank_select: true, ..old })
        } else {
            new == (Bus { flash_state: 0, ..old })
        }
    } else if old.flash_state == 2 && val == 0x30 && old.flash_erase_mode {
        let start = flash_offset_of(old, (a / 0x1000) * 0x1000);
        let end = if start + 0x1000 < len { start + 0x1000 } else { len };
        &&& new == (Bus { save: new.save, flash_state: 0, flash_erase_mode: false, save_dirty: true, ..old })
        &&& new.save@ == erased(old.save@, start, end)
    } else {
        new == (Bus { flash_state: 0, ..old })
    }
}

/// A change confined to the flash state keeps the bus invariant.
proof fn lemma_flash_frame_wf(old: Bus, new: Bus)
    requires
        old.wf(),
        flash_frame(old, new),
        new.save@.len() == old.save@.len(),
        new.flash_bank <= 1,
    ensures
        new.wf(),
{
    assert(forall|t: int| 0 <= t < 4 ==> #[trigger] new.timer_counter[t] == old.timer_counter[t]);
    assert(forall|i: int| 0 <= i < new.ee_buf@.len() ==> #[trigger] new.ee_buf@[i] == old.ee_buf@[i]);
}

impl Bus {
    fn flash_offset(&self, a: usize) -> (r: usize)
        requires
            self.wf(),
            self.save_type.is_flash(),
            a <= 0xFFFF,
        ensures
            r == flash_offset_of(*self, a as int),
            r < self.save@.len(),
    {
        let off = if self.save_type == SaveType::Flash128 {
            self.flash_bank * 0x10000 + a
        } else {
            a & 0xFFFF
        };
        proof { lemma_flash_addr(a); }
        // Never index past the buffer, whatever the game does.
        if off < self.save.len() {
            off
        } else {
            off % if self.save.len() >= 1 { self.save.len() } else { 1 }
        }
    }

    pub(crate) fn flash_read(&self, addr: u32) -> (r: u8)
        requires
            self.wf(),
            self.save_type.is_flash(),
        ensures
            r == flash_peek(*self, addr),
    {
        let a = (addr & 0xFFFF) as usize;
        proof { lemma_u32_masks(addr); }
        if self.flash_id_mode {
            let (man, dev): (u8, u8) = if self.save_type == SaveType::Flash128 {
                (0x62, 0x13)
            } else {
                (0x32, 0x1B)
            };
            return if a == 0 { man } else if a == 1 { dev } else { 0xFF };
        }
        let idx = self.flash_offset(a);
        if idx < self.save.len() { self.save[idx] } else { 0xFF }
    }

    pub(crate) fn flash_write(&mut self, addr: u32, val: u8)
        requires
            old(self).wf(),
            old(self).save_type.is_flash(),
        ensures
            final(self).wf(),
            flash_written(*old(self), *final(self), addr, val),
            bus_frame(*old(self), *final(self)),
    {
        proof { reveal(flash_written); }
        let a = (addr & 0xFFFF) as usize;
        proof { lemma_u32_masks(addr); }
        if self.flash_write_byte {
            let off = self.flash_offset(a);
            let b = self.save[off];
            self.save.set(off, b & val);  // programming can only clear bits
            self.flash_write_byte = false;
            self.save_dirty = true;
            proof { lemma_flash_frame_wf(*old(self), *self); }
            return;
        }
        if self.flash_bank_select && a == 0 {
            // Only the 128KB part has a second bank.
            if self.save_type == SaveType::Flash128 {
                self.flash_bank = (val & 1) as usize;
                proof { lemma_u8_bits(val); }
            }
            self.flash_bank_select = false;
            proof { lemma_flash_frame_wf(*old(self), *self); }
            return;
        }
        self.flash_command(a, val);
        proof { assert(flash_written(*old(self), *self, addr, val)); }
    }

    #[verifier::spinoff_prover]
    #[verifier::rlimit(100)]
    fn flash_command(&mut self, a: usize, val: u8)
        requires
            old(self).wf(),
            old(self).save_type.is_flash(),
            a <= 0xFFFF,
            !old(self).flash_write_byte,
            !(old(self).flash_bank_select && a == 0),
        ensures
            final(self).wf(),
            flash_cmd_written(*old(self), *final(self), a as int, val),
    {
        if self.flash_state == 0 && a == 0x5555 && val == 0xAA {
            self.flash_state = 1;
        } else if self.flash_state == 1 && a == 0x2AAA && val == 0x55 {
            self.flash_state = 2;
        } else if self.flash_state == 2 && a == 0x5555 {
            self.flash_state = 0;
            if val == 0x90 {
                self.flash_id_mode = true;
            } else if val == 0xF0 {
                self.flash_id_mode = false;
            } else if val == 0x80 {
                self.flash_erase_mode = true;
            } else if val == 0x10 && self.flash_erase_mode {
                let len = self.save.len();
                self.fill_erased(0, len);
                self.flash_erase_mode = false;
                self.save_dirty = true;
            } else if val == 0xA0 {
                self.flash_write_byte = true;
            } else if val == 0xB0 {
                self.flash_bank_select = true;
            }
        } else if self.flash_state == 2 && val == 0x30 && self.flash_erase_mode {
            // 4KB sector erase
            let sa = a & 0xF000;
            proof { lemma_flash_addr(a); }
            let start = self.flash_offset(sa);
            let end = if start + 0x1000 < self.save.len() { start + 0x1000 } else { self.save.len() };
            self.fill_erased(start, end);
            self.flash_erase_mode = false;
            self.flash_state = 0;
            self.save_dirty = true;
        } else {
            self.flash_state = 0;
        }
        proof { lemma_flash_frame_wf(*old(self), *self); }
    }

    /// Erase save bytes `start..end`.
    fn fill_erased(&mut self, start: usize, end: usize)
        requires
            start <= end <= old(self).save@.len(),
        ensures
            *final(self) == (Bus { save: final(self).save, ..*old(self) }),
            final(self).save@ == erased(old(self).save@, start as int, end as int),
    {
        let mut i = start;
        while i < end
            invariant
                start <= i <= end,
                end <= self.save@.len(),
                self.save@.len() == old(self).save@.len(),
                forall|j: int| 0 <= j < self.save@.len() ==> #[trigger] self.save@[j]
                    == (if start <= j < i { 0xFFu8 } else { old(self).save@[j] }),
                *self == (Bus { save: self.save, ..*old(self) }),
            decreases end - i,
        {
            self.save.set(i, 0xFF);
            i = i + 1;
        }
        assert(self.save@ =~= erased(old(self).save@, start as int, end as int));
    }
}


/// A change confined to the save medium and the EEPROM state keeps the bus
/// invariant, given the EEPROM facts it states.
proof fn lemma_save_frame_wf(old: Bus, new: Bus)
    requires
        old.wf(),
        save_frame(old, new),
        new.save@.len() == new.save_type.size(),
        new.ee_addr_bits == addr_bits_of(new.save_type),
        forall|i: int| 0 <= i < new.ee_buf@.len() ==> #[trigger] new.ee_buf@[i] <= 1,
        new.ee_reading ==> new.ee_out <= 67 && new.ee_read_off + 8 <= new.save@.len() && new.ee_addr_bits != 0,
    ensures
        new.wf(),
{
    assert(forall|t: int| 0 <= t < 4 ==> #[trigger] new.timer_counter[t] == old.timer_counter[t]);
}

/// Big-endian value of bits `from..to` of a bit buffer.
fn bits_of(buf: &Vec<u8>, from: usize, to: usize) -> (r: usize)
    requires
        from <= to <= buf@.len(),
        to - from <= 16,
        forall|i: int| 0 <= i < buf@.len() ==> #[trigger] buf@[i] <= 1,
    ensures
        r == bits_value(buf@.subrange(from as int, to as int)),
        r < 0x10000,
{
    let mut acc: usize = 0;
    let mut k = from;
    proof {
        vstd::arithmetic::power2::lemma2_to64();
    }
    while k < to
        invariant
            from <= k <= to,
            to <= buf@.len(),
            to - from <= 16,
            forall|i: int| 0 <= i < buf@.len() ==> #[trigger] buf@[i] <= 1,
            acc == bits_value(buf@.subrange(from as int, k as int)),
            acc < vstd::arithmetic::power2::pow2((k - from) as nat),
        decreases to - k,
    {
        proof {
            let s1 = buf@.subrange(from as int, k as int + 1);
            assert(s1.drop_last() =~= buf@.subrange(from as int, k as int));
            assert(s1.last() == buf@[k as int]);
            vstd::arithmetic::power2::lemma_pow2_unfold((k + 1 - from) as nat);
            if k + 1 - from < 16 {
                vstd::arithmetic::power2::lemma_pow2_strictly_increases((k + 1 - from) as nat, 16);
            }
            vstd::arithmetic::power2::lemma2_to64();
        }
        acc = acc * 2 + buf[k] as usize;
        k = k + 1;
    }
    proof {
        if to - from < 16 {
            vstd::arithmetic::power2::lemma_pow2_strictly_increases((to - from) as nat, 16);
        }
        vstd::arithmetic::power2::lemma2_to64();
    }
    acc
}

/// The chip told of a DMA transfer of `count` bits into it: its serial
/// buffer emptied and, while the address width is unknown, the width (and
/// the save size) that a read or write request of that length reveals.
pub open spec fn ee_dma_begun(old: Bus, new: Bus, count: nat) -> bool {
    let t = if old.ee_addr_bits != 0 {
        old.save_type
    } else if count == 9 || count == 72 || count == 73 {
        SaveType::Eeprom512
    } else if count == 17 || count == 80 || count == 81 {
        SaveType::Eeprom8k
    } else {
        old.save_type
    };
    &&& new == (Bus {
        ee_buf: new.ee_buf,
        save_type: t,
        save: new.save,
        ee_addr_bits: addr_bits_of(t),
        ..old
    })
    &&& new.ee_buf@ == Seq::<u8>::empty()
    &&& new.save@ == (if t == old.save_type { old.save@ } else { resized(old.save@, t.size() as nat) })
}

impl Bus {
    /// True when `addr` decodes to the EEPROM chip rather than a ROM mirror.
    /// Cartridges larger than 16MB only expose EEPROM in the last 256 bytes
    /// of the 0x0D region; smaller ones answer anywhere in it.
    pub open spec fn eeprom_at(self, addr: u32) -> bool {
        self.save_type.is_eeprom() && (self.rom@.len() <= 0x0100_0000 || addr & 0x00FF_FF00 == 0x00FF_FF00)
    }

    pub(crate) fn eeprom_selected(&self, addr: u32) -> (r: bool)
        ensures
            r == self.eeprom_at(addr),
    {
        self.save_type.is_eeprom() && (self.rom.len() <= 0x0100_0000 || addr & 0x00FF_FF00 == 0x00FF_FF00)
    }

    /// A DMA3 transfer of `count` halfwords into the EEPROM is starting.
    ///
    /// Hardware deselects the chip between transfers, so the command shift
    /// register starts empty each time; without that a single malformed
    /// stream would desync the chip forever.
    ///
    /// The transfer length is also what distinguishes the 6-bit part from the
    /// 14-bit one: a read request is 2+n+1 bits and a write is 2+n+64+1, so
    /// 9/73 means 6-bit and 17/81 means 14-bit. (Some SDKs omit the trailing
    /// stop bit, hence 72/80 too.) Once the width is known it stays.
    pub fn eeprom_dma_begin(&mut self, count: u32)
        requires
            old(self).wf(),
        ensures
            final(self).wf(),
            ee_dma_begun(*old(self), *final(self), count as nat),
    {
        self.ee_buf.clear();
        if self.ee_addr_bits != 0 {
            return;
        }
        if count == 9 || count == 72 || count == 73 {
            self.set_save_type(SaveType::Eeprom512);
        } else if count == 17 || count == 80 || count == 81 {
            self.set_save_type(SaveType::Eeprom8k);
        }
    }

    fn eeprom_block_offset(&self, block: usize) -> (r: usize)
        requires
            self.wf(),
        ensures
            r == ee_block_offset(self.save@.len(), block as nat),
            self.save@.len() >= 8 ==> r + 8 <= self.save@.len(),
    {
        let blocks = if self.save.len() / 8 >= 1 { self.save.len() / 8 } else { 1 };
        proof {
            if self.save@.len() >= 8 {
                assert((block % blocks) * 8 + 8 <= blocks * 8) by (nonlinear_arith)
                    requires blocks >= 1, block % blocks < blocks;
            }
        }
        (block % blocks) * 8
    }

    /// A complete read request: the addressed block's offset latched, its
    /// data to be clocked out from the start, the command buffer emptied.
    #[verifier::spinoff_prover]
    #[verifier::rlimit(60)]
    fn eeprom_begin_read(&mut self, n: usize)
        requires
            old(self).wf(),
            n == old(self).ee_addr_bits,
            n == 6 || n == 14,
            old(self).ee_buf@.len() == 2 + n,
        ensures
            final(self).wf(),
            *final(self) == (Bus { ee_read_off: final(self).ee_read_off, ee_reading: true, ee_out: 0,
                ee_buf: final(self).ee_buf, ..*old(self) }),
            final(self).ee_buf@ == Seq::<u8>::empty(),
            final(self).ee_read_off == ee_block_offset(old(self).save@.len(),
                bits_value(old(self).ee_buf@.subrange(2, 2 + n as int))),
    {
        let block = bits_of(&self.ee_buf, 2, 2 + n);
        self.ee_read_off = self.eeprom_block_offset(block);
        self.ee_reading = true;
        self.ee_out = 0;
        self.ee_buf.clear();
        proof {
            assert(self.ee_buf@ =~= Seq::<u8>::empty());
            lemma_save_frame_wf(*old(self), *self);
        }
    }

    /// A complete write request: the 64 data bits stored in the addressed
    /// block, the save marked dirty, the command buffer emptied.
    #[verifier::spinoff_prover]
    #[verifier::rlimit(60)]
    fn eeprom_finish_write(&mut self, n: usize)
        requires
            old(self).wf(),
            n == old(self).ee_addr_bits,
            n == 6 || n == 14,
            old(self).ee_buf@.len() == 2 + n + 64,
        ensures
            final(self).wf(),
            *final(self) == (Bus { save: final(self).save, save_dirty: true, ee_buf: final(self).ee_buf, ..*old(self) }),
            final(self).ee_buf@ == Seq::<u8>::empty(),
            final(self).save@ == ee_store(old(self).save@, old(self).ee_buf@, n as int),
    {
        let block = bits_of(&self.ee_buf, 2, 2 + n);
        let off = self.eeprom_block_offset(block);
        let ghost buf = self.ee_buf@;
        let ghost s0 = self.save@;
        let mut i: usize = 0;
        while i < 8
            invariant
                i <= 8,
                n == self.ee_addr_bits,
                n == 6 || n == 14,
                buf == self.ee_buf@,
                buf.len() == 2 + n + 64,
                forall|k: int| 0 <= k < buf.len() ==> #[trigger] buf[k] <= 1,
                off == ee_block_offset(s0.len(), bits_value(buf.subrange(2, 2 + n as int))),
                off + 8 <= s0.len(),
                self.save@.len() == s0.len(),
                forall|j: int| 0 <= j < s0.len() ==> #[trigger] self.save@[j] == (
                    if off <= j < off + i { bits_value(buf.subrange(2 + n + 8 * (j - off), 2 + n + 8 * (j - off) + 8)) as u8 } else { s0[j] }),
                *self == (Bus { save: self.save, ..*self }),
                save_frame(*old(self), *self),
                self.ee_buf@ == old(self).ee_buf@,
                self.save_type == old(self).save_type,
                self.ee_reading == old(self).ee_reading && self.ee_out == old(self).ee_out && self.ee_read_off == old(self).ee_read_off,
                self.save_dirty == old(self).save_dirty,
                self.ee_addr_bits == old(self).ee_addr_bits,
                s0 == old(self).save@,
            decreases 8 - i,
        {
            let byte = bits_of(&self.ee_buf, 2 + n + i * 8, 2 + n + i * 8 + 8) as u8;
            proof {
                lemma_bits_value_bound(buf.subrange(2 + n + 8 * i, 2 + n + 8 * i + 8));
                vstd::arithmetic::power2::lemma2_to64();
            }
            self.save.set(off + i, byte);
            i = i + 1;
        }
        assert(self.save@ =~= ee_store(s0, buf, n as int));
        self.save_dirty = true;
        self.ee_buf.clear();
        proof {
            assert(self.ee_buf@ =~= Seq::<u8>::empty());
            lemma_save_frame_wf(*old(self), *self);
        }
    }

    /// Shift one command bit into the EEPROM, whose address width is known.
    #[verifier::spinoff_prover]
    #[verifier::rlimit(100)]
    fn eeprom_shift_in(&mut self, bit: u8)
        requires
            old(self).wf(),
            old(self).ee_addr_bits != 0,
        ensures
            final(self).wf(),
            ee_shifted(*old(self), *final(self), bit, old(self).save_type, old(self).save@),
    {
        let n = self.ee_addr_bits as usize;
        assert(bit & 1 == bit % 2 && bit & 1 <= 1) by { lemma_u8_bits(bit); }
        self.ee_buf.push(bit & 1);
        proof { lemma_save_frame_wf(*old(self), *self); }
        // Every command starts with a 1; a leading 0 is the stop bit of the
        // previous request, so drop it and stay in sync.
        if self.ee_buf[0] == 0 {
            self.ee_buf.clear();
            proof { lemma_save_frame_wf(*old(self), *self); }
            return;
        }
        if self.ee_buf.len() < 2 {
            return;
        }
        if self.ee_buf[1] == 1 {
            if self.ee_buf.len() == 2 + n {
                self.eeprom_begin_read(n);
            }
        } else if self.ee_buf.len() == 2 + n + 64 {
            self.eeprom_finish_write(n);
        } else if self.ee_buf.len() > 2 + n + 64 {
            self.ee_buf.clear();  // desynced; resynchronise on the next command
            proof { lemma_save_frame_wf(*old(self), *self); }
        }
    }

    /// Clock one command bit into the EEPROM (bit 0 of `bit`). Nothing told
    /// the width yet means the 6-bit part: a 14-bit game always issues a 17-
    /// or 81-halfword transfer first.
    pub(crate) fn eeprom_write_bit(&mut self, bit: u8)
        requires
            old(self).wf(),
        ensures
            final(self).wf(),
            ee_bit_written(*old(self), *final(self), bit),
            old(self).save_type.is_eeprom() ==> bus_frame(*old(self), *final(self)),
    {
        proof { reveal(ee_bit_written); }
        if self.ee_addr_bits == 0 {
            self.set_save_type(SaveType::Eeprom512);
        }
        self.eeprom_shift_in(bit);
    }

    /// Clock one data bit out of the EEPROM.
    pub(crate) fn eeprom_read_bit(&mut self) -> (r: u8)
        requires
            old(self).wf(),
        ensures
            final(self).wf(),
            r == ee_read_value(*old(self)),
            ee_read_next(*old(self), *final(self)),
    {
        if !self.ee_reading {
            return 1;  // idle chip reads back as ready
        }
        let i = self.ee_out;
        self.ee_out += 1;
        if i < 4 {
            return 0;  // four dummy bits precede the data
        }
        let b = (i - 4) as usize;
        if b == 63 {
            self.ee_reading = false;
        }
        let idx = self.ee_read_off + b / 8;
        let byte = if idx < self.save.len() { self.save[idx] } else { 0xFF };
        (byte >> (7 - b % 8) as u8) & 1
    }
}

} // verus!
