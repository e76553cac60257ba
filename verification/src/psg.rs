//! The GBA's legacy PSG channels: the Game Boy sound hardware embedded in
//! the GBA. Two square channels (ch1 with sweep), a wavetable channel with
//! two banks, and LFSR noise. Register layout differs from the GB (packed
//! into 16-bit SOUNDxCNT registers) but the channel behavior is identical.
//!
//! This module produces each channel's current 4-bit level; mixing those
//! levels into a stereo signal is done by the audio frontend.

use vstd::prelude::*;
use crate::bitfacts::{lemma_u8_bits, lemma_u16_bytes, lemma_freq_bits, lemma_psg_shifts};

verus! {

/// Level (0 or 1) of step `pos` of duty pattern `duty`: 12.5%, 25%, 50%, 75%.
pub open spec fn duty_level(duty: u8, pos: u8) -> u8 {
    let row: u8 = if duty == 0 {
        0x80u8
    } else if duty == 1 {
        0x81u8
    } else if duty == 2 {
        0xE1u8
    } else {
        0x7Eu8
    };
    (row >> pos) & 1
}

fn duty_bit(duty: u8, pos: u8) -> (r: u8)
    requires
        pos < 8,
    ensures
        r == duty_level(duty, pos),
        r <= 1,
{
    let row: u8 = if duty == 0 {
        0x80
    } else if duty == 1 {
        0x81
    } else if duty == 2 {
        0xE1
    } else {
        0x7E
    };
    let r = (row >> pos) & 1;
    proof { lemma_psg_shifts(row, pos, 0, 0, 0, 0); }
    r
}

/// How many periods must be added to a timer that dropped to `t` before it
/// is positive again.
pub open spec fn wraps(t: int, period: int) -> int {
    if t > 0 || period <= 0 {
        0
    } else {
        (-t) / period + 1
    }
}

/// One more period added to a timer still at or below zero: the sum, and
/// whether that count is the one [`wraps`] gives.
proof fn lemma_wraps_step(t0: int, period: int, k: int)
    requires
        period > 0,
        0 <= k,
        t0 + k * period <= 0,
    ensures
        t0 + (k + 1) * period == t0 + k * period + period,
        t0 + (k + 1) * period > 0 ==> k + 1 == wraps(t0, period),
        t0 + (k + 1) * period <= 0 ==> k + 1 < wraps(t0, period),
{
    assert(t0 + (k + 1) * period == t0 + k * period + period) by (nonlinear_arith);
    assert(k * period >= 0) by (nonlinear_arith)
        requires k >= 0, period > 0;
    let w = wraps(t0, period);
    assert((-t0) / period * period <= -t0) by (nonlinear_arith)
        requires period > 0, -t0 >= 0;
    assert((-t0) < ((-t0) / period + 1) * period) by (nonlinear_arith)
        requires period > 0, -t0 >= 0;
    if t0 + (k + 1) * period > 0 {
        assert(k * period <= -t0);
        assert(k <= (-t0) / period) by (nonlinear_arith)
            requires k * period <= -t0, period > 0, -t0 >= 0;
        assert(k + 1 >= w) by (nonlinear_arith)
            requires t0 + (k + 1) * period > 0, w == (-t0) / period + 1,
                (-t0) / period * period <= -t0, period > 0;
    } else {
        assert(k + 1 < w) by (nonlinear_arith)
            requires t0 + (k + 1) * period <= 0, w == (-t0) / period + 1,
                (-t0) < ((-t0) / period + 1) * period, period > 0;
    }
}

/// A square-wave channel (ch1 has the frequency sweep unit, ch2 does not).
pub struct Square {
    pub enabled: bool,
    pub dac: bool,
    pub duty: u8,
    pub duty_pos: u8,
    pub freq: u16,
    pub timer: i32,
    pub length: u16,
    pub length_enable: bool,
    pub volume: u8,
    pub env_vol: u8,
    pub env_add: bool,
    pub env_period: u8,
    pub env_timer: u8,
    pub sweep_period: u8,
    pub sweep_negate: bool,
    pub sweep_shift: u8,
    pub sweep_timer: u8,
    pub sweep_enabled: bool,
    pub sweep_shadow: u16,
}

impl Square {
    pub open spec fn wf(self) -> bool {
        &&& self.duty <= 3
        &&& self.duty_pos <= 7
        &&& self.freq <= 2047
        &&& 0 <= self.timer <= 32768
        &&& self.length <= 64
        &&& self.volume <= 15
        &&& self.env_vol <= 15
        &&& self.env_period <= 7
        &&& self.env_timer <= 7
        &&& self.sweep_period <= 7
        &&& self.sweep_shift <= 7
        &&& self.sweep_timer <= 8
        &&& self.sweep_shadow <= 2047
    }

    /// Timer reload value: the GB period scaled to the GBA's 4x clock.
    pub open spec fn period(self) -> int {
        (2048 - self.freq) * 16
    }

    /// The power-on state: everything off and zero.
    pub open spec fn powered_on() -> Square {
        Square {
            enabled: false,
            dac: false,
            duty: 0,
            duty_pos: 0,
            freq: 0,
            timer: 0,
            length: 0,
            length_enable: false,
            volume: 0,
            env_vol: 0,
            env_add: false,
            env_period: 0,
            env_timer: 0,
            sweep_period: 0,
            sweep_negate: false,
            sweep_shift: 0,
            sweep_timer: 0,
            sweep_enabled: false,
            sweep_shadow: 0,
        }
    }

    pub fn new() -> (s: Square)
        ensures
            s.wf(),
            s == Square::powered_on(),
    {
        Square {
            enabled: false,
            dac: false,
            duty: 0,
            duty_pos: 0,
            freq: 0,
            timer: 0,
            length: 0,
            length_enable: false,
            volume: 0,
            env_vol: 0,
            env_add: false,
            env_period: 0,
            env_timer: 0,
            sweep_period: 0,
            sweep_negate: false,
            sweep_shift: 0,
            sweep_timer: 0,
            sweep_enabled: false,
            sweep_shadow: 0,
        }
    }

    /// The frequency the sweep unit would move to next.
    pub open spec fn sweep_target(self) -> int {
        let d = (self.sweep_shadow >> self.sweep_shift) as int;
        if self.sweep_negate {
            self.sweep_shadow - d
        } else {
            self.sweep_shadow + d
        }
    }

    fn sweep_next(&self) -> (r: u32)
        requires
            self.wf(),
        ensures
            r == self.sweep_target(),
            r <= 4094,
    {
        let sh = self.sweep_shadow;
        let k = self.sweep_shift;
        let d = sh >> k;
        proof { lemma_psg_shifts(0, 0, sh, k, 0, 0); }
        if self.sweep_negate {
            (self.sweep_shadow - d) as u32
        } else {
            self.sweep_shadow as u32 + d as u32
        }
    }

    /// State after a trigger (write with bit 7 of the high control byte).
    pub open spec fn triggered(self, has_sweep: bool) -> Square {
        let s = Square {
            enabled: self.dac,
            length: if self.length == 0 { 64 } else { self.length },
            timer: self.period() as i32,
            env_vol: self.volume,
            env_timer: self.env_period,
            ..self
        };
        if has_sweep {
            let s2 = Square {
                sweep_shadow: self.freq,
                sweep_timer: if self.sweep_period == 0 { 8 } else { self.sweep_period },
                sweep_enabled: self.sweep_period != 0 || self.sweep_shift != 0,
                ..s
            };
            if s2.sweep_shift != 0 && s2.sweep_target() > 2047 {
                Square { enabled: false, ..s2 }
            } else {
                s2
            }
        } else {
            s
        }
    }

    fn trigger(&mut self, has_sweep: bool)
        requires
            old(self).wf(),
        ensures
            *final(self) == old(self).triggered(has_sweep),
            final(self).wf(),
    {
        self.enabled = self.dac;
        if self.length == 0 {
            self.length = 64;
        }
        self.timer = (2048 - self.freq as i32) * 16;  // GBA clock = 4x GB
        self.env_vol = self.volume;
        self.env_timer = self.env_period;
        if has_sweep {
            self.sweep_shadow = self.freq;
            self.sweep_timer = if self.sweep_period == 0 { 8 } else { self.sweep_period };
            self.sweep_enabled = self.sweep_period != 0 || self.sweep_shift != 0;
            if self.sweep_shift != 0 && self.sweep_next() > 2047 {
                self.enabled = false;
            }
        }
    }

    /// State after one sweep clock of the frame sequencer.
    pub open spec fn swept(self) -> Square {
        let t = if self.sweep_timer > 0 { (self.sweep_timer - 1) as u8 } else { 0u8 };
        if t != 0 {
            Square { sweep_timer: t, ..self }
        } else {
            let s = Square {
                sweep_timer: if self.sweep_period == 0 { 8 } else { self.sweep_period },
                ..self
            };
            if s.sweep_enabled && s.sweep_period != 0 {
                let next = s.sweep_target();
                if next > 2047 {
                    Square { enabled: false, ..s }
                } else if s.sweep_shift != 0 {
                    let s2 = Square { sweep_shadow: next as u16, freq: next as u16, ..s };
                    if s2.sweep_target() > 2047 {
                        Square { enabled: false, ..s2 }
                    } else {
                        s2
                    }
                } else {
                    s
                }
            } else {
                s
            }
        }
    }

    fn clock_sweep(&mut self)
        requires
            old(self).wf(),
        ensures
            *final(self) == old(self).swept(),
            final(self).wf(),
    {
        if self.sweep_timer > 0 {
            self.sweep_timer -= 1;
        }
        if self.sweep_timer == 0 {
            self.sweep_timer = if self.sweep_period == 0 { 8 } else { self.sweep_period };
            if self.sweep_enabled && self.sweep_period != 0 {
                let next = self.sweep_next();
                if next > 2047 {
                    self.enabled = false;
                } else if self.sweep_shift != 0 {
                    self.sweep_shadow = next as u16;
                    self.freq = next as u16;
                    if self.sweep_next() > 2047 {
                        self.enabled = false;
                    }
                }
            }
        }
    }

    /// State after one length clock: the counter runs down while enabled and
    /// silences the channel when it reaches zero.
    pub open spec fn length_clocked(self) -> Square {
        if self.length_enable && self.length > 0 {
            Square {
                length: (self.length - 1) as u16,
                enabled: if self.length == 1 { false } else { self.enabled },
                ..self
            }
        } else {
            self
        }
    }

    fn clock_length(&mut self)
        requires
            old(self).wf(),
        ensures
            *final(self) == old(self).length_clocked(),
            final(self).wf(),
    {
        if self.length_enable && self.length > 0 {
            self.length -= 1;
            if self.length == 0 {
                self.enabled = false;
            }
        }
    }

    /// State after one envelope clock: every `env_period` clocks the volume
    /// steps one unit up or down, saturating at 15 and 0.
    pub open spec fn env_clocked(self) -> Square {
        if self.env_period == 0 {
            self
        } else {
            let t = if self.env_timer > 0 { (self.env_timer - 1) as u8 } else { 0u8 };
            if t != 0 {
                Square { env_timer: t, ..self }
            } else {
                Square {
                    env_timer: self.env_period,
                    env_vol: if self.env_add && self.env_vol < 15 {
                        (self.env_vol + 1) as u8
                    } else if !self.env_add && self.env_vol > 0 {
                        (self.env_vol - 1) as u8
                    } else {
                        self.env_vol
                    },
                    ..self
                }
            }
        }
    }

    fn clock_env(&mut self)
        requires
            old(self).wf(),
        ensures
            *final(self) == old(self).env_clocked(),
            final(self).wf(),
    {
        if self.env_period == 0 {
            return;
        }
        if self.env_timer > 0 {
            self.env_timer -= 1;
        }
        if self.env_timer == 0 {
            self.env_timer = self.env_period;
            if self.env_add && self.env_vol < 15 {
                self.env_vol += 1;
            } else if !self.env_add && self.env_vol > 0 {
                self.env_vol -= 1;
            }
        }
    }

    /// State after `cycles` CPU cycles: the timer runs down and each time it
    /// expires the duty position steps once and the timer reloads with the
    /// period. A disabled channel stands still.
    pub open spec fn ticked(self, cycles: int) -> Square {
        if !self.enabled {
            self
        } else {
            let k = wraps(self.timer - cycles, self.period());
            Square {
                timer: (self.timer - cycles + k * self.period()) as i32,
                duty_pos: ((self.duty_pos + k) % 8) as u8,
                ..self
            }
        }
    }

    /// Advance the waveform by `cycles` CPU cycles (see [`Square::ticked`]).
    fn tick(&mut self, cycles: i32)
        requires
            old(self).wf(),
            0 <= cycles,
        ensures
            final(self).wf(),
            *final(self) == old(self).ticked(cycles as int),
            !old(self).enabled ==> *final(self) == *old(self),
            old(self).enabled ==> {
                let k = wraps(old(self).timer - cycles, old(self).period());
                &&& *final(self) == (Square {
                    timer: (old(self).timer - cycles + k * old(self).period()) as i32,
                    duty_pos: ((old(self).duty_pos + k) % 8) as u8,
                    ..*old(self)
                })
                &&& 0 < final(self).timer
            },
    {
        if !self.enabled {
            return;
        }
        let ghost t0 = self.timer - cycles;
        let ghost p0 = self.duty_pos;
        let period = (2048 - self.freq as i32) * 16;
        assert(period == self.period());
        self.timer -= cycles;
        let ghost mut k: int = 0;
        while self.timer <= 0
            invariant
                16 <= period <= 32768,
                period == old(self).period(),
                t0 == old(self).timer - cycles,
                -0x7FFF_FFFF <= t0 <= 32768,
                0 <= k,
                k <= wraps(t0, period as int),
                self.timer == t0 + k * period,
                self.timer <= 0 ==> k < wraps(t0, period as int),
                self.timer > 0 ==> k == wraps(t0, period as int),
                self.duty_pos == (p0 + k) % 8,
                self.timer <= 32768,
                *self == (Square { timer: self.timer, duty_pos: self.duty_pos, ..*old(self) }),
            decreases wraps(t0, period as int) - k,
        {
            proof {
                assert(t0 + (k + 1) * period == t0 + k * period + period) by (nonlinear_arith);
                let w = wraps(t0, period as int);
                assert((-t0) / (period as int) * period <= -t0) by (nonlinear_arith)
                    requires period > 0, -t0 >= 0;
                assert((-t0) < ((-t0) / (period as int) + 1) * period) by (nonlinear_arith)
                    requires period > 0, -t0 >= 0;
                if t0 + (k + 1) * period > 0 {
                    // k + 1 is the first count that makes the timer positive.
                    assert(t0 + k * period <= 0);
                    assert(k * period <= -t0);
                    assert(k <= (-t0) / (period as int)) by (nonlinear_arith)
                        requires k * period <= -t0, period > 0, -t0 >= 0;
                    assert(k + 1 >= w) by (nonlinear_arith)
                        requires t0 + (k + 1) * period > 0, w == (-t0) / (period as int) + 1,
                            (-t0) / (period as int) * period <= -t0, period > 0;
                } else {
                    assert(k + 1 < w) by (nonlinear_arith)
                        requires t0 + (k + 1) * period <= 0, w == (-t0) / (period as int) + 1,
                            (-t0) < ((-t0) / (period as int) + 1) * period, period > 0;
                }
            }
            self.timer += period;
            let dp = self.duty_pos;
            let dp1: u8 = dp + 1;
            let ndp = dp1 & 7;
            proof { lemma_u8_bits(dp1); }
            self.duty_pos = ndp;
            proof {
                k = k + 1;
                assert(((p0 + k - 1) % 8 + 1) % 8 == (p0 + k) % 8) by (nonlinear_arith);
            }
        }
        proof {
            if t0 > 0 {
                assert(k == 0);
            }
        }
    }

    /// Current 4-bit output level.
    pub open spec fn level(self) -> u8 {
        if self.enabled && self.dac {
            if duty_level(self.duty, self.duty_pos) == 1 {
                self.env_vol
            } else {
                0
            }
        } else {
            0
        }
    }

    fn output(&self) -> (r: u8)
        requires
            self.wf(),
        ensures
            r == self.level(),
            r <= 15,
    {
        if self.enabled && self.dac {
            let b = duty_bit(self.duty, self.duty_pos);
            if b == 1 { self.env_vol } else { 0 }
        } else {
            0
        }
    }
}

/// The wavetable channel.
pub struct Wave {
    pub enabled: bool,
    pub dac: bool,
    pub two_banks: bool,
    pub bank: u8,
    pub freq: u16,
    pub timer: i32,
    pub length: u16,
    pub length_enable: bool,
    /// 0..3, plus the force-75% flag encoded as 4.
    pub volume_code: u8,
    pub pos: u8,
    pub sample: u8,
}

impl Wave {
    pub open spec fn wf(self) -> bool {
        &&& self.bank <= 1
        &&& self.freq <= 2047
        &&& 0 <= self.timer <= 16384
        &&& self.length <= 256
        &&& self.volume_code <= 4
        &&& self.pos <= 31
        &&& self.sample <= 15
    }

    pub open spec fn period(self) -> int {
        (2048 - self.freq) * 8
    }

    /// The power-on state: everything off and zero.
    pub open spec fn powered_on() -> Wave {
        Wave {
            enabled: false,
            dac: false,
            two_banks: false,
            bank: 0,
            freq: 0,
            timer: 0,
            length: 0,
            length_enable: false,
            volume_code: 0,
            pos: 0,
            sample: 0,
        }
    }

    pub fn new() -> (w: Wave)
        ensures
            w.wf(),
            w == Wave::powered_on(),
    {
        Wave {
            enabled: false,
            dac: false,
            two_banks: false,
            bank: 0,
            freq: 0,
            timer: 0,
            length: 0,
            length_enable: false,
            volume_code: 0,
            pos: 0,
            sample: 0,
        }
    }

    /// State after one expiry of the timer: the timer reloads with the
    /// period, the sample position advances (wrapping at 32, which switches
    /// banks in two-bank mode), and the 4-bit sample at the new position is
    /// fetched from `ram`, high nibble first.
    pub open spec fn stepped(self, ram: [u8; 32]) -> Wave {
        let pos = ((self.pos + 1) % 32) as u8;
        let bank = if pos == 0 && self.two_banks { self.bank ^ 1u8 } else { self.bank };
        let byte = ram[bank * 16 + pos / 2];
        Wave {
            timer: (self.timer + self.period()) as i32,
            pos: pos,
            bank: bank,
            sample: if pos % 2 == 0 { byte / 16 } else { byte % 16 },
            ..self
        }
    }

    /// State after `n` timer expiries.
    pub open spec fn steps(self, ram: [u8; 32], n: nat) -> Wave
        decreases n,
    {
        if n == 0 {
            self
        } else {
            self.steps(ram, (n - 1) as nat).stepped(ram)
        }
    }

    /// State after `cycles` CPU cycles with wave RAM `ram`: the timer runs
    /// down and each expiry is one step (see [`Wave::stepped`]). A disabled
    /// channel stands still.
    pub open spec fn ticked(self, ram: [u8; 32], cycles: int) -> Wave {
        if !self.enabled {
            self
        } else {
            Wave { timer: (self.timer - cycles) as i32, ..self }.steps(ram, wraps(self.timer - cycles, self.period()) as nat)
        }
    }

    /// State after one length clock: the counter runs down while enabled and
    /// silences the channel when it reaches zero.
    pub open spec fn length_clocked(self) -> Wave {
        if self.length_enable && self.length > 0 {
            Wave { length: (self.length - 1) as u16, enabled: if self.length == 1 { false } else { self.enabled }, ..self }
        } else {
            self
        }
    }

    /// Current 4-bit output level after the volume shift.
    pub open spec fn level(self) -> u8 {
        if self.enabled && self.dac {
            if self.volume_code == 0 {
                0
            } else if self.volume_code == 1 {
                self.sample
            } else if self.volume_code == 2 {
                self.sample >> 1
            } else if self.volume_code == 3 {
                self.sample >> 2
            } else {
                ((self.sample * 3) as u8) >> 2
            }
        } else {
            0
        }
    }
}

/// The LFSR noise channel.
pub struct Noise {
    pub enabled: bool,
    pub dac: bool,
    pub length: u16,
    pub length_enable: bool,
    pub volume: u8,
    pub env_vol: u8,
    pub env_add: bool,
    pub env_period: u8,
    pub env_timer: u8,
    pub divisor_code: u8,
    pub width7: bool,
    pub shift: u8,
    pub timer: i32,
    pub lfsr: u16,
}

/// The noise clock period for a divisor code and shift, in CPU cycles:
/// the divisor (8 for code 0, else 16 times the code) shifted left by the
/// clock shift, times four for the GBA's faster clock.
pub open spec fn noise_period(divisor_code: u8, shift: u8) -> int {
    let d: u32 = if divisor_code == 0 { 8 } else { (divisor_code * 16) as u32 };
    ((d << shift) as int) * 4
}

/// One LFSR step: the XOR of the two low bits feeds bit 14 (and bit 6 in
/// 7-bit mode) as the register shifts right.
pub open spec fn lfsr_step(lfsr: u16, width7: bool) -> u16 {
    let bit = (lfsr ^ (lfsr >> 1)) & 1;
    let l = (lfsr >> 1) | (bit << 14);
    if width7 {
        (l & !(1u16 << 6)) | (bit << 6)
    } else {
        l
    }
}

/// The LFSR stays 15 bits wide.
proof fn lemma_lfsr_bound(l: u16, width7: bool)
    requires
        l < 0x8000,
    ensures
        lfsr_step(l, width7) < 0x8000,
{
    let bit = (l ^ (l >> 1)) & 1;
    assert(((l >> 1) | (bit << 14)) < 0x8000 && (((l >> 1) | (bit << 14)) & !(1u16 << 6)) | (bit << 6) < 0x8000)
        by (bit_vector)
        requires
            l < 0x8000,
            bit == (l ^ (l >> 1)) & 1,
    ;
}

/// The LFSR after `n` steps.
pub open spec fn lfsr_steps(lfsr: u16, width7: bool, n: nat) -> u16
    decreases n,
{
    if n == 0 {
        lfsr
    } else {
        lfsr_step(lfsr_steps(lfsr, width7, (n - 1) as nat), width7)
    }
}

impl Noise {
    pub open spec fn wf(self) -> bool {
        &&& self.length <= 64
        &&& self.volume <= 15
        &&& self.env_vol <= 15
        &&& self.env_period <= 7
        &&& self.env_timer <= 7
        &&& self.divisor_code <= 7
        &&& self.shift <= 15
        &&& -0x7FFF_F800 <= self.timer <= 0x0100_0000
        &&& self.lfsr < 0x8000
    }

    /// The power-on state: everything off and zero but the LFSR, which
    /// starts with all 15 bits set.
    pub open spec fn powered_on() -> Noise {
        Noise {
            enabled: false,
            dac: false,
            length: 0,
            length_enable: false,
            volume: 0,
            env_vol: 0,
            env_add: false,
            env_period: 0,
            env_timer: 0,
            divisor_code: 0,
            width7: false,
            shift: 0,
            timer: 0,
            lfsr: 0x7FFF,
        }
    }

    pub fn new() -> (n: Noise)
        ensures
            n.wf(),
            n == Noise::powered_on(),
    {
        Noise {
            enabled: false,
            dac: false,
            length: 0,
            length_enable: false,
            volume: 0,
            env_vol: 0,
            env_add: false,
            env_period: 0,
            env_timer: 0,
            divisor_code: 0,
            width7: false,
            shift: 0,
            timer: 0,
            lfsr: 0x7FFF,
        }
    }

    fn period(&self) -> (r: i32)
        requires
            self.divisor_code <= 7,
            self.shift <= 15,
        ensures
            r == noise_period(self.divisor_code, self.shift),
            32 <= r <= 112 * 0x8000 * 4,
    {
        let d: u32 = if self.divisor_code == 0 { 8 } else { self.divisor_code as u32 * 16 };
        let s = self.shift as u32;
        let m = d << s;
        proof { lemma_psg_shifts(0, 0, 0, 0, d, s); }
                (m as i32) * 4  // GBA clock = 4x GB
    }

    /// State after `cycles` CPU cycles: each expiry of the timer steps the
    /// LFSR once and reloads the timer, at most 64 times. A disabled channel
    /// stands still.
    pub open spec fn ticked(self, cycles: int) -> Noise {
        if !self.enabled {
            self
        } else {
            let p = noise_period(self.divisor_code, self.shift);
            let w = wraps(self.timer - cycles, p);
            let k: nat = if w < 64 { w as nat } else { 64 };
            Noise {
                timer: (self.timer - cycles + k * p) as i32,
                lfsr: lfsr_steps(self.lfsr, self.width7, k),
                ..self
            }
        }
    }

    /// Advance by `cycles` CPU cycles (see [`Noise::ticked`]).
    fn tick(&mut self, cycles: i32)
        requires
            old(self).wf(),
            0 <= cycles,
            old(self).enabled ==> old(self).timer - cycles >= i32::MIN,
        ensures
            final(self).wf(),
            *final(self) == old(self).ticked(cycles as int),
    {
        if !self.enabled {
            return;
        }
        let period = self.period();
        let ghost t0: int = self.timer - cycles;
        self.timer -= cycles;
        let mut steps: u32 = 0;
        while self.timer <= 0 && steps < 64
            invariant
                32 <= period <= 112 * 0x8000 * 4,
                period == noise_period(old(self).divisor_code, old(self).shift),
                old(self).wf(),
                t0 == old(self).timer - cycles,
                steps <= 64,
                self.timer == t0 + steps * period,
                self.timer <= 0 ==> steps < wraps(t0, period as int),
                self.timer > 0 ==> steps == wraps(t0, period as int),
                self.lfsr == lfsr_steps(old(self).lfsr, old(self).width7, steps as nat),
                self.lfsr < 0x8000,
                *self == (Noise { timer: self.timer, lfsr: self.lfsr, ..*old(self) }),
                self.timer <= 0x0100_0000,
            decreases 64 - steps,
        {
            proof {
                lemma_wraps_step(t0, period as int, steps as int);
            }
            self.timer += period;
            steps += 1;
            let ghost l0 = self.lfsr;
            let bit = (self.lfsr ^ (self.lfsr >> 1)) & 1;
            self.lfsr = (self.lfsr >> 1) | (bit << 14);
            if self.width7 {
                self.lfsr = (self.lfsr & !(1 << 6)) | (bit << 6);
            }
            proof {
                lemma_lfsr_bound(l0, old(self).width7);
            }
        }
        proof {
            // The timer ends no higher than one period and no lower than the
            // start of this call, since 64 periods outweigh any tick.
            if self.timer <= 0 {
                assert(steps == 64);
                assert(steps * period >= 64 * 32) by (nonlinear_arith)
                    requires steps == 64, period >= 32;
            }
        }
    }

    /// State after one length clock: the counter runs down while enabled and
    /// silences the channel when it reaches zero.
    pub open spec fn length_clocked(self) -> Noise {
        if self.length_enable && self.length > 0 {
            Noise { length: (self.length - 1) as u16, enabled: if self.length == 1 { false } else { self.enabled }, ..self }
        } else {
            self
        }
    }

    /// State after one envelope clock: every `env_period` clocks the volume
    /// steps one unit up or down, saturating at 15 and 0.
    pub open spec fn env_clocked(self) -> Noise {
        if self.env_period == 0 {
            self
        } else {
            let t = if self.env_timer > 0 { (self.env_timer - 1) as u8 } else { 0u8 };
            if t != 0 {
                Noise { env_timer: t, ..self }
            } else {
                Noise {
                    env_timer: self.env_period,
                    env_vol: if self.env_add && self.env_vol < 15 {
                        (self.env_vol + 1) as u8
                    } else if !self.env_add && self.env_vol > 0 {
                        (self.env_vol - 1) as u8
                    } else {
                        self.env_vol
                    },
                    ..self
                }
            }
        }
    }

    pub open spec fn level(self) -> u8 {
        if self.enabled && self.dac && self.lfsr & 1 == 0 {
            self.env_vol
        } else {
            0
        }
    }

    fn output(&self) -> (r: u8)
        ensures
            r == self.level(),
    {
        if self.enabled && self.dac && self.lfsr & 1 == 0 {
            self.env_vol
        } else {
            0
        }
    }
}


impl Square {
    /// SOUNDxCNT low control byte: length load (low 6 bits) and duty (top 2).
    pub open spec fn with_length_duty(self, val: u8) -> Square {
        Square { length: (64 - (val & 0x3F)) as u16, duty: val >> 6, ..self }
    }

    /// Envelope byte: period (bits 0-2), direction (bit 3), initial volume
    /// (bits 4-7). A zero top five bits turns the DAC, and the channel, off.
    pub open spec fn with_envelope(self, val: u8) -> Square {
        Square {
            env_period: val & 7,
            env_add: val & 0x08 != 0,
            volume: val >> 4,
            dac: val & 0xF8 != 0,
            enabled: if val & 0xF8 != 0 { self.enabled } else { false },
            ..self
        }
    }

    /// Low frequency byte.
    pub open spec fn with_freq_lo(self, val: u8) -> Square {
        Square { freq: ((self.freq & 0x700) | (val as u16)) as u16, ..self }
    }

    /// High control byte: frequency bits 8-10, length enable (bit 6) and
    /// trigger (bit 7).
    pub open spec fn with_freq_hi(self, val: u8, has_sweep: bool) -> Square {
        let s = Square {
            freq: ((self.freq & 0xFF) | (((val as u16) & 7) << 8)) as u16,
            length_enable: val & 0x40 != 0,
            ..self
        };
        if val & 0x80 != 0 {
            s.triggered(has_sweep)
        } else {
            s
        }
    }
}

/// The four PSG channels, the wave RAM and the 512 Hz frame sequencer.
pub struct Psg {
    pub ch1: Square,
    pub ch2: Square,
    pub ch3: Wave,
    pub ch4: Noise,
    /// Two 16-byte banks of 4-bit samples; bank `b` is bytes `16*b..16*b+16`.
    pub wave_ram: [u8; 32],
    pub frame_timer: u32,
    pub frame_step: u8,
    /// SOUNDCNT_L: PSG panning and master volumes.
    pub cnt_l: u16,
}

/// Index into wave RAM of register byte `off` (0x90..=0x9F): the CPU always
/// sees the bank that is not playing.
pub open spec fn wave_index(bank: u8, off: u32) -> int {
    ((bank ^ 1u8) as int) * 16 + (off - 0x90)
}

impl Psg {
    /// Every channel's waveform timer run for `cycles` CPU cycles.
    pub open spec fn channels_ticked(self, cycles: int) -> Psg {
        Psg {
            ch1: self.ch1.ticked(cycles),
            ch2: self.ch2.ticked(cycles),
            ch3: self.ch3.ticked(self.wave_ram, cycles),
            ch4: self.ch4.ticked(cycles),
            ..self
        }
    }

    /// Every channel's length counter clocked once.
    pub open spec fn lengths_clocked(self) -> Psg {
        Psg {
            ch1: self.ch1.length_clocked(),
            ch2: self.ch2.length_clocked(),
            ch3: self.ch3.length_clocked(),
            ch4: self.ch4.length_clocked(),
            ..self
        }
    }

    /// One step of the frame sequencer: lengths on even steps, the sweep on
    /// steps 2 and 6, the envelopes on step 7; then the next step.
    pub open spec fn sequenced(self) -> Psg {
        let st = self.frame_step;
        let p = if st == 0 || st == 4 {
            self.lengths_clocked()
        } else if st == 2 || st == 6 {
            let q = self.lengths_clocked();
            Psg { ch1: q.ch1.swept(), ..q }
        } else if st == 7 {
            Psg { ch1: self.ch1.env_clocked(), ch2: self.ch2.env_clocked(), ch4: self.ch4.env_clocked(), ..self }
        } else {
            self
        };
        Psg { frame_step: ((st + 1) % 8) as u8, ..p }
    }

    /// `n` steps of the frame sequencer.
    pub open spec fn sequenced_n(self, n: nat) -> Psg
        decreases n,
    {
        if n == 0 { self } else { self.sequenced_n((n - 1) as nat).sequenced() }
    }

    /// The PSG after `cycles` CPU cycles: the channels' timers run, then the
    /// frame sequencer takes a step for every 32768 cycles its timer passes.
    pub open spec fn ticked(self, cycles: int) -> Psg {
        Psg {
            frame_timer: ((self.frame_timer + cycles) % 32768) as u32,
            ..self.channels_ticked(cycles).sequenced_n(((self.frame_timer + cycles) / 32768) as nat)
        }
    }

    pub open spec fn wf(self) -> bool {
        &&& self.ch1.wf()
        &&& self.ch2.wf()
        &&& self.ch3.wf()
        &&& self.ch4.wf()
        &&& self.frame_timer < 32768
        &&& self.frame_step <= 7
    }

    pub fn new() -> (p: Psg)
        ensures
            p.wf(),
            p.ch1 == Square::powered_on(),
            p.ch2 == Square::powered_on(),
            p.ch3 == Wave::powered_on(),
            p.ch4 == Noise::powered_on(),
            p.cnt_l == 0,
            p.frame_timer == 0,
            p.frame_step == 0,
            forall|i: int| 0 <= i < 32 ==> p.wave_ram[i] == 0,
    {
        Psg {
            ch1: Square::new(),
            ch2: Square::new(),
            ch3: Wave::new(),
            ch4: Noise::new(),
            wave_ram: [0; 32],
            frame_timer: 0,
            frame_step: 0,
            cnt_l: 0,
        }
    }

    /// Run the wave channel for `c` cycles: each time its timer expires the
    /// channel takes one step (see `Wave::stepped`).
    fn tick_wave(&mut self, c: i32)
        requires
            old(self).wf(),
            0 <= c,
        ensures
            final(self).wf(),
            final(self).ch1 == old(self).ch1,
            final(self).ch2 == old(self).ch2,
            final(self).ch4 == old(self).ch4,
            final(self).wave_ram == old(self).wave_ram,
            final(self).cnt_l == old(self).cnt_l,
            final(self).frame_timer == old(self).frame_timer,
            final(self).frame_step == old(self).frame_step,
            !old(self).ch3.enabled ==> final(self).ch3 == old(self).ch3,
            final(self).ch3 == old(self).ch3.ticked(old(self).wave_ram, c as int),
            old(self).ch3.enabled ==> {
                let start = Wave { timer: (old(self).ch3.timer - c) as i32, ..old(self).ch3 };
                let k = wraps(old(self).ch3.timer - c, old(self).ch3.period());
                &&& final(self).ch3 == start.steps(old(self).wave_ram, k as nat)
                &&& 0 < final(self).ch3.timer
            },
    {
        if self.ch3.enabled {
            let ghost t0: int = self.ch3.timer - c;
            let ghost start = Wave { timer: (self.ch3.timer - c) as i32, ..self.ch3 };
            let ghost ram = self.wave_ram;
            self.ch3.timer -= c;
            let period = (2048 - self.ch3.freq as i32) * 8;
            assert(period == old(self).ch3.period());
            let ghost mut k: int = 0;
            assert(self.ch3 == start.steps(ram, 0));
            while self.ch3.timer <= 0
                invariant
                    8 <= period <= 16384,
                    period == old(self).ch3.period(),
                    t0 == old(self).ch3.timer - c,
                    -0x7FFF_FFFF <= t0 <= 16384,
                    start == (Wave { timer: t0 as i32, ..old(self).ch3 }),
                    ram == old(self).wave_ram,
                    0 <= k <= wraps(t0, period as int),
                    self.ch3.timer == t0 + k * period,
                    self.ch3.timer <= 0 ==> k < wraps(t0, period as int),
                    self.ch3.timer > 0 ==> k == wraps(t0, period as int),
                    self.ch3 == start.steps(ram, k as nat),
                    -0x7FFF_FFFF <= self.ch3.timer <= 16384,
                    self.ch3.bank <= 1,
                    self.ch3.pos <= 31,
                    self.ch3.sample <= 15,
                    self.ch3.freq == old(self).ch3.freq,
                    self.ch3.freq <= 2047,
                    self.ch3.length <= 256,
                    self.ch3.volume_code <= 4,
                    self.ch1 == old(self).ch1,
                    self.ch2 == old(self).ch2,
                    self.ch4 == old(self).ch4,
                    self.wave_ram == old(self).wave_ram,
                    self.cnt_l == old(self).cnt_l,
                    self.frame_timer == old(self).frame_timer,
                    self.frame_step == old(self).frame_step,
                decreases 0x10000 - self.ch3.timer,
            {
                proof {
                    assert(t0 + (k + 1) * period == t0 + k * period + period) by (nonlinear_arith);
                    let w = wraps(t0, period as int);
                    assert((-t0) / (period as int) * period <= -t0) by (nonlinear_arith)
                        requires period > 0, -t0 >= 0;
                    assert((-t0) < ((-t0) / (period as int) + 1) * period) by (nonlinear_arith)
                        requires period > 0, -t0 >= 0;
                    if t0 + (k + 1) * period > 0 {
                        // k + 1 is the first count that makes the timer positive.
                        assert(k * period <= -t0);
                        assert(k <= (-t0) / (period as int)) by (nonlinear_arith)
                            requires k * period <= -t0, period > 0, -t0 >= 0;
                        assert(k + 1 >= w) by (nonlinear_arith)
                            requires t0 + (k + 1) * period > 0, w == (-t0) / (period as int) + 1,
                                (-t0) / (period as int) * period <= -t0, period > 0;
                    } else {
                        assert(k + 1 < w) by (nonlinear_arith)
                            requires t0 + (k + 1) * period <= 0, w == (-t0) / (period as int) + 1,
                                (-t0) < ((-t0) / (period as int) + 1) * period, period > 0;
                    }
                }
                let ghost prev = self.ch3;
                self.ch3.timer += period;
                let p1: u8 = self.ch3.pos + 1;
                self.ch3.pos = p1 & 31;
                proof { lemma_u8_bits(p1); }
                if self.ch3.pos == 0 && self.ch3.two_banks {
                    let ob = self.ch3.bank;
                    let nb = ob ^ 1;
                    proof { lemma_u8_bits(ob); }
                    self.ch3.bank = nb;
                }
                let idx = self.ch3.bank as usize * 16 + (self.ch3.pos / 2) as usize;
                let byte = self.wave_ram[idx];
                let smp = if self.ch3.pos & 1 == 0 { byte >> 4 } else { byte & 0x0F };
                proof {
                    lemma_u8_bits(byte);
                    lemma_u8_bits(self.ch3.pos);
                }
                self.ch3.sample = smp;
                proof {
                    assert(self.ch3 == prev.stepped(ram));
                    k = k + 1;
                }
            }
        }
    }

    /// Advance by CPU cycles (16.78 MHz): every channel's waveform timer
    /// runs, and the frame sequencer steps once per 32768 cycles (512 Hz),
    /// clocking lengths on even steps, the sweep on steps 2 and 6 and the
    /// envelopes on step 7.
    pub fn tick(&mut self, cycles: u32)
        requires
            old(self).wf(),
            cycles <= i32::MAX,
            old(self).ch4.enabled ==> old(self).ch4.timer - cycles >= i32::MIN,
        ensures
            final(self).wf(),
            *final(self) == old(self).ticked(cycles as int),
            final(self).frame_timer == (old(self).frame_timer + cycles) % 32768,
            final(self).frame_step == (old(self).frame_step + (old(self).frame_timer + cycles)
                / 32768) % 8,
            final(self).wave_ram == old(self).wave_ram,
            final(self).cnt_l == old(self).cnt_l,
    {
        let c = cycles as i32;
        self.ch1.tick(c);
        self.ch2.tick(c);
        self.ch4.tick(c);
        self.tick_wave(c);
        let ghost mid = *self;
        assert(mid == old(self).channels_ticked(cycles as int));

        // Frame sequencer at 512 Hz: 32768 CPU cycles per step.
        let ghost total: int = old(self).frame_timer + cycles;
        let mut ft: u32 = self.frame_timer + cycles;
        let ghost mut j: int = 0;
        while ft >= 32768
            invariant
                self.wf(),
                self.wave_ram == old(self).wave_ram,
                self.cnt_l == old(self).cnt_l,
                self.frame_timer == old(self).frame_timer,
                total == old(self).frame_timer + cycles,
                0 <= j,
                ft + 32768 * j == total,
                self.frame_step == (old(self).frame_step + j) % 8,
                *self == mid.sequenced_n(j as nat),
                mid.frame_step == old(self).frame_step,
            decreases ft,
        {
            let ghost prev = *self;
            ft -= 32768;
            let st = self.frame_step;
            if st == 0 || st == 4 {
                self.clock_lengths();
            } else if st == 2 || st == 6 {
                self.clock_lengths();
                self.ch1.clock_sweep();
            } else if st == 7 {
                self.ch1.clock_env();
                self.ch2.clock_env();
                self.clock_noise_env();
            }
            let s1: u8 = st + 1;
            self.frame_step = s1 & 7;
            proof {
                lemma_u8_bits(s1);
                assert(*self == prev.sequenced());
                j = j + 1;
            }
        }
        self.frame_timer = ft;
        proof {
            vstd::arithmetic::div_mod::lemma_fundamental_div_mod_converse(total, 32768, j, ft as int);
        }
    }

    fn clock_noise_env(&mut self)
        requires
            old(self).wf(),
        ensures
            final(self).wf(),
            final(self).ch4 == old(self).ch4.env_clocked(),
            final(self).ch1 == old(self).ch1,
            final(self).ch2 == old(self).ch2,
            final(self).ch3 == old(self).ch3,
            final(self).wave_ram == old(self).wave_ram,
            final(self).cnt_l == old(self).cnt_l,
            final(self).frame_timer == old(self).frame_timer,
            final(self).frame_step == old(self).frame_step,
    {
        let n = &mut self.ch4;
        if n.env_period > 0 {
            if n.env_timer > 0 {
                n.env_timer -= 1;
            }
            if n.env_timer == 0 {
                n.env_timer = n.env_period;
                if n.env_add && n.env_vol < 15 {
                    n.env_vol += 1;
                } else if !n.env_add && n.env_vol > 0 {
                    n.env_vol -= 1;
                }
            }
        }
    }

    #[verifier::spinoff_prover]
    #[verifier::rlimit(60)]
    fn clock_lengths(&mut self)
        requires
            old(self).wf(),
        ensures
            final(self).wf(),
            *final(self) == old(self).lengths_clocked(),
    {
        self.ch1.clock_length();
        self.ch2.clock_length();
        if self.ch3.length_enable && self.ch3.length > 0 {
            self.ch3.length -= 1;
            if self.ch3.length == 0 {
                self.ch3.enabled = false;
            }
        }
        if self.ch4.length_enable && self.ch4.length > 0 {
            self.ch4.length -= 1;
            if self.ch4.length == 0 {
                self.ch4.enabled = false;
            }
        }
    }

    /// The four channels' current 4-bit output levels (square 1, square 2,
    /// wave, noise), before panning and master volume.
    pub fn levels(&self) -> (r: (u8, u8, u8, u8))
        requires
            self.wf(),
        ensures
            r == (self.ch1.level(), self.ch2.level(), self.ch3.level(), self.ch4.level()),
            r.0 <= 15 && r.1 <= 15 && r.2 <= 15 && r.3 <= 15,
    {
        let w = &self.ch3;
        let wave_out = if w.enabled && w.dac {
            if w.volume_code == 0 {
                0
            } else if w.volume_code == 1 {
                w.sample
            } else if w.volume_code == 2 {
                w.sample >> 1
            } else if w.volume_code == 3 {
                w.sample >> 2
            } else {
                (w.sample * 3) >> 2
            }
        } else {
            0
        };
        proof {
            lemma_u8_bits(w.sample);
            lemma_u8_bits((w.sample * 3) as u8);
        }
        (self.ch1.output(), self.ch2.output(), wave_out, self.ch4.output())
    }

    /// Register read: SOUNDCNT_L and the wave RAM bank not playing; other
    /// PSG registers read as 0.
    pub fn read(&self, off: u32) -> (r: u8)
        requires
            self.ch3.bank <= 1,
        ensures
            r == (if off == 0x80 {
                (self.cnt_l % 256) as u8
            } else if off == 0x81 {
                (self.cnt_l / 256) as u8
            } else if 0x90 <= off <= 0x9F {
                self.wave_ram[wave_index(self.ch3.bank, off)]
            } else {
                0u8
            }),
    {
        if off == 0x80 {
            let v = self.cnt_l;
            let r = v as u8;
            proof { lemma_u16_bytes(v); }
            r
        } else if off == 0x81 {
            let v = self.cnt_l;
            let r = (v >> 8) as u8;
            proof { lemma_u16_bytes(v); }
            r
        } else if 0x90 <= off && off <= 0x9F {
            // CPU accesses the bank NOT currently playing.
            let bk = self.ch3.bank;
            proof { lemma_u8_bits(bk); }
            let b = (bk ^ 1) as usize;
            self.wave_ram[b * 16 + (off - 0x90) as usize]
        } else {
            0
        }
    }
}


impl Psg {
    fn write_square1(&mut self, off: u32, val: u8)
        requires
            old(self).wf(),
            0x60 <= off <= 0x65,
        ensures
            final(self).wf(),
            *final(self) == old(self).written(off, val),
    {
        match off {
            // SOUND1CNT_L: sweep
            0x60 => {
                self.ch1.sweep_shift = val & 7;
                self.ch1.sweep_negate = val & 0x08 != 0;
                self.ch1.sweep_period = (val >> 4) & 7;
                proof { lemma_u8_bits(val); }
            }
            // SOUND1CNT_H: duty/length (lo), envelope (hi)
            0x62 => {
                proof { lemma_u8_bits(val); }
                self.ch1.length = 64 - (val & 0x3F) as u16;
                self.ch1.duty = val >> 6;
            }
            0x63 => {
                self.ch1.env_period = val & 7;
                self.ch1.env_add = val & 0x08 != 0;
                self.ch1.volume = val >> 4;
                self.ch1.dac = val & 0xF8 != 0;
                proof { lemma_u8_bits(val); }
                if !self.ch1.dac {
                    self.ch1.enabled = false;
                }
            }
            // SOUND1CNT_X: frequency + trigger
            0x64 => {
                let f = self.ch1.freq;
                self.ch1.freq = (f & 0x700) | val as u16;
                proof { lemma_freq_bits(f, val); }
            }
            0x65 => {
                let f = self.ch1.freq;
                self.ch1.freq = (f & 0xFF) | ((val as u16 & 7) << 8);
                proof { lemma_freq_bits(f, val); }
                self.ch1.length_enable = val & 0x40 != 0;
                if val & 0x80 != 0 {
                    self.ch1.trigger(true);
                }
            }
            _ => {}
        }
    }

    fn write_square2(&mut self, off: u32, val: u8)
        requires
            old(self).wf(),
            0x68 <= off <= 0x6D,
        ensures
            final(self).wf(),
            *final(self) == old(self).written(off, val),
    {
        match off {
            // SOUND2CNT_L / SOUND2CNT_H
            0x68 => {
                proof { lemma_u8_bits(val); }
                self.ch2.length = 64 - (val & 0x3F) as u16;
                self.ch2.duty = val >> 6;
            }
            0x69 => {
                self.ch2.env_period = val & 7;
                self.ch2.env_add = val & 0x08 != 0;
                self.ch2.volume = val >> 4;
                self.ch2.dac = val & 0xF8 != 0;
                proof { lemma_u8_bits(val); }
                if !self.ch2.dac {
                    self.ch2.enabled = false;
                }
            }
            0x6C => {
                let f = self.ch2.freq;
                self.ch2.freq = (f & 0x700) | val as u16;
                proof { lemma_freq_bits(f, val); }
            }
            0x6D => {
                let f = self.ch2.freq;
                self.ch2.freq = (f & 0xFF) | ((val as u16 & 7) << 8);
                proof { lemma_freq_bits(f, val); }
                self.ch2.length_enable = val & 0x40 != 0;
                if val & 0x80 != 0 {
                    self.ch2.trigger(false);
                }
            }
            _ => {}
        }
    }

    fn write_wave(&mut self, off: u32, val: u8)
        requires
            old(self).wf(),
            0x70 <= off <= 0x75,
        ensures
            final(self).wf(),
            *final(self) == old(self).written(off, val),
    {
        match off {
            // SOUND3CNT_L: enable + bank mode
            0x70 => {
                self.ch3.two_banks = val & 0x20 != 0;
                self.ch3.bank = (val >> 6) & 1;
                proof { lemma_u8_bits(val); }
                self.ch3.dac = val & 0x80 != 0;
                if !self.ch3.dac {
                    self.ch3.enabled = false;
                }
            }
            // SOUND3CNT_H: length (lo), volume (hi)
            0x72 => self.ch3.length = 256 - val as u16,
            0x73 => {
                self.ch3.volume_code = if val & 0x80 != 0 { 4 } else { (val >> 5) & 3 };
                proof { lemma_u8_bits(val); }
            }
            // SOUND3CNT_X
            0x74 => {
                let f = self.ch3.freq;
                self.ch3.freq = (f & 0x700) | val as u16;
                proof { lemma_freq_bits(f, val); }
            }
            0x75 => {
                let f = self.ch3.freq;
                self.ch3.freq = (f & 0xFF) | ((val as u16 & 7) << 8);
                proof { lemma_freq_bits(f, val); }
                self.ch3.length_enable = val & 0x40 != 0;
                if val & 0x80 != 0 {
                    self.ch3.enabled = self.ch3.dac;
                    if self.ch3.length == 0 {
                        self.ch3.length = 256;
                    }
                    self.ch3.timer = (2048 - self.ch3.freq as i32) * 8;
                    self.ch3.pos = 0;
                }
            }
            _ => {}
        }
    }

    fn write_noise(&mut self, off: u32, val: u8)
        requires
            old(self).wf(),
            0x78 <= off <= 0x7D,
        ensures
            final(self).wf(),
            *final(self) == old(self).written(off, val),
    {
        match off {
            // SOUND4CNT_L
            0x78 => {
                proof { lemma_u8_bits(val); }
                self.ch4.length = 64 - (val & 0x3F) as u16;
            }
            0x79 => {
                self.ch4.env_period = val & 7;
                self.ch4.env_add = val & 0x08 != 0;
                self.ch4.volume = val >> 4;
                self.ch4.dac = val & 0xF8 != 0;
                proof { lemma_u8_bits(val); }
                if !self.ch4.dac {
                    self.ch4.enabled = false;
                }
            }
            // SOUND4CNT_H
            0x7C => {
                self.ch4.divisor_code = val & 7;
                self.ch4.width7 = val & 0x08 != 0;
                self.ch4.shift = val >> 4;
                proof { lemma_u8_bits(val); }
            }
            0x7D => {
                self.ch4.length_enable = val & 0x40 != 0;
                if val & 0x80 != 0 {
                    self.ch4.enabled = self.ch4.dac;
                    if self.ch4.length == 0 {
                        self.ch4.length = 64;
                    }
                    self.ch4.timer = self.ch4.period();
                    self.ch4.lfsr = 0x7FFF;
                    self.ch4.env_vol = self.ch4.volume;
                    self.ch4.env_timer = self.ch4.env_period;
                }
            }
            _ => {}
        }
    }

    /// The register file after writing byte `val` at offset `off` of the
    /// I/O block, wave RAM aside (see `write`).
    pub open spec fn written(self, off: u32, val: u8) -> Psg {
        if off == 0x60 {
            // SOUND1CNT_L: sweep shift, direction and period.
            Psg {
                ch1: Square {
                    sweep_shift: val & 7,
                    sweep_negate: val & 0x08 != 0,
                    sweep_period: (val >> 4) & 7,
                    ..self.ch1
                },
                ..self
            }
        } else if off == 0x62 {
            Psg { ch1: self.ch1.with_length_duty(val), ..self }
        } else if off == 0x63 {
            Psg { ch1: self.ch1.with_envelope(val), ..self }
        } else if off == 0x64 {
            Psg { ch1: self.ch1.with_freq_lo(val), ..self }
        } else if off == 0x65 {
            Psg { ch1: self.ch1.with_freq_hi(val, true), ..self }
        } else if off == 0x68 {
            Psg { ch2: self.ch2.with_length_duty(val), ..self }
        } else if off == 0x69 {
            Psg { ch2: self.ch2.with_envelope(val), ..self }
        } else if off == 0x6C {
            Psg { ch2: self.ch2.with_freq_lo(val), ..self }
        } else if off == 0x6D {
            Psg { ch2: self.ch2.with_freq_hi(val, false), ..self }
        } else if off == 0x70 {
            // SOUND3CNT_L: bank mode, selected bank, DAC enable.
            Psg {
                ch3: Wave {
                    two_banks: val & 0x20 != 0,
                    bank: (val >> 6) & 1,
                    dac: val & 0x80 != 0,
                    enabled: if val & 0x80 != 0 { self.ch3.enabled } else { false },
                    ..self.ch3
                },
                ..self
            }
        } else if off == 0x72 {
            Psg { ch3: Wave { length: (256 - val) as u16, ..self.ch3 }, ..self }
        } else if off == 0x73 {
            Psg {
                ch3: Wave {
                    volume_code: if val & 0x80 != 0 { 4 } else { (val >> 5) & 3 },
                    ..self.ch3
                },
                ..self
            }
        } else if off == 0x74 {
            Psg { ch3: Wave { freq: ((self.ch3.freq & 0x700) | (val as u16)) as u16, ..self.ch3 }, ..self }
        } else if off == 0x75 {
            let w = Wave {
                freq: ((self.ch3.freq & 0xFF) | (((val as u16) & 7) << 8)) as u16,
                length_enable: val & 0x40 != 0,
                ..self.ch3
            };
            let w2 = if val & 0x80 != 0 {
                Wave {
                    enabled: w.dac,
                    length: if w.length == 0 { 256 } else { w.length },
                    timer: w.period() as i32,
                    pos: 0,
                    ..w
                }
            } else {
                w
            };
            Psg { ch3: w2, ..self }
        } else if off == 0x78 {
            Psg { ch4: Noise { length: (64 - (val & 0x3F)) as u16, ..self.ch4 }, ..self }
        } else if off == 0x79 {
            Psg {
                ch4: Noise {
                    env_period: val & 7,
                    env_add: val & 0x08 != 0,
                    volume: val >> 4,
                    dac: val & 0xF8 != 0,
                    enabled: if val & 0xF8 != 0 { self.ch4.enabled } else { false },
                    ..self.ch4
                },
                ..self
            }
        } else if off == 0x7C {
            Psg {
                ch4: Noise {
                    divisor_code: val & 7,
                    width7: val & 0x08 != 0,
                    shift: val >> 4,
                    ..self.ch4
                },
                ..self
            }
        } else if off == 0x7D {
            let n = Noise { length_enable: val & 0x40 != 0, ..self.ch4 };
            let n2 = if val & 0x80 != 0 {
                Noise {
                    enabled: n.dac,
                    length: if n.length == 0 { 64 } else { n.length },
                    timer: noise_period(n.divisor_code, n.shift) as i32,
                    lfsr: 0x7FFF,
                    env_vol: n.volume,
                    env_timer: n.env_period,
                    ..n
                }
            } else {
                n
            };
            Psg { ch4: n2, ..self }
        } else if off == 0x80 {
            Psg { cnt_l: ((self.cnt_l & 0xFF00) | (val as u16)) as u16, ..self }
        } else if off == 0x81 {
            Psg { cnt_l: ((self.cnt_l & 0x00FF) | ((val as u16) << 8)) as u16, ..self }
        } else {
            self
        }
    }

    /// Register write. Bytes 0x90..=0x9F store into the wave RAM bank that
    /// is not playing; everything else goes through `written`.
    pub fn write(&mut self, off: u32, val: u8)
        requires
            old(self).wf(),
        ensures
            final(self).wf(),
            0x90 <= off <= 0x9F ==> *final(self) == (Psg { wave_ram: final(self).wave_ram, ..*old(self) })
                && final(self).wave_ram@ == old(self).wave_ram@.update(wave_index(old(self).ch3.bank, off), val),
            !(0x90 <= off <= 0x9F) ==> *final(self) == old(self).written(off, val),
    {
        if 0x60 <= off && off <= 0x65 {
            self.write_square1(off, val);
            return;
        }
        if 0x68 <= off && off <= 0x6D {
            self.write_square2(off, val);
            return;
        }
        if 0x70 <= off && off <= 0x75 {
            self.write_wave(off, val);
            return;
        }
        if 0x78 <= off && off <= 0x7D {
            self.write_noise(off, val);
            return;
        }
        match off {
            0x80 => {
                let c = self.cnt_l;
                self.cnt_l = (c & 0xFF00) | val as u16;
            }
            0x81 => {
                let c = self.cnt_l;
                self.cnt_l = (c & 0x00FF) | ((val as u16) << 8);
            }
            0x90..=0x9F => {
                let bk = self.ch3.bank;
                proof { lemma_u8_bits(bk); }
                let b = (bk ^ 1) as usize;
                self.wave_ram[b * 16 + (off - 0x90) as usize] = val;
            }
            _ => {}
        }
    }
}

} // verus!
