//! Stream formats and the arithmetic of the stream descriptor and buffer
//! descriptor registers of an HDA controller.
//!
//! The registers themselves are memory-mapped hardware; what is read from
//! them and written to them is computed here, from and into plain values.

use vstd::prelude::*;

verus! {

/// The base sample rate that a stream's rate is derived from.
#[derive(Debug, Clone, Copy, PartialEq, Eq, Structural)]
pub enum BaseRate {
    BR44_1,
    BR48,
}

/// A sample rate: a base rate times `mult`, divided by `div`.
#[derive(Debug, Clone, Copy)]
pub struct SampleRate {
    base: BaseRate,
    mult: u16,
    div: u16,
}

impl SampleRate {
    /// Multiplier and divisor are at least one.
    #[verifier::type_invariant]
    spec fn inv(self) -> bool {
        self.mult >= 1 && self.div >= 1
    }

    /// The base rate.
    pub closed spec fn base_rate(self) -> BaseRate {
        self.base
    }

    /// The multiplier of the base rate.
    pub closed spec fn multiplier(self) -> u16 {
        self.mult
    }

    /// The divisor of the base rate.
    pub closed spec fn divisor(self) -> u16 {
        self.div
    }
}

/// 8 kHz.
pub fn sr_8() -> (r: SampleRate)
    ensures
        r.base_rate() == BaseRate::BR48,
        r.multiplier() == 1,
        r.divisor() == 6,
{
    SampleRate { base: BaseRate::BR48, mult: 1, div: 6 }
}

/// 11.025 kHz.
pub fn sr_11_025() -> (r: SampleRate)
    ensures
        r.base_rate() == BaseRate::BR44_1,
        r.multiplier() == 1,
        r.divisor() == 4,
{
    SampleRate { base: BaseRate::BR44_1, mult: 1, div: 4 }
}

/// 16 kHz.
pub fn sr_16() -> (r: SampleRate)
    ensures
        r.base_rate() == BaseRate::BR48,
        r.multiplier() == 1,
        r.divisor() == 3,
{
    SampleRate { base: BaseRate::BR48, mult: 1, div: 3 }
}

/// 22.05 kHz.
pub fn sr_22_05() -> (r: SampleRate)
    ensures
        r.base_rate() == BaseRate::BR44_1,
        r.multiplier() == 1,
        r.divisor() == 2,
{
    SampleRate { base: BaseRate::BR44_1, mult: 1, div: 2 }
}

/// 32 kHz.
pub fn sr_32() -> (r: SampleRate)
    ensures
        r.base_rate() == BaseRate::BR48,
        r.multiplier() == 2,
        r.divisor() == 3,
{
    SampleRate { base: BaseRate::BR48, mult: 2, div: 3 }
}

/// 44.1 kHz.
pub fn sr_44_1() -> (r: SampleRate)
    ensures
        r.base_rate() == BaseRate::BR44_1,
        r.multiplier() == 1,
        r.divisor() == 1,
{
    SampleRate { base: BaseRate::BR44_1, mult: 1, div: 1 }
}

/// 48 kHz.
pub fn sr_48() -> (r: SampleRate)
    ensures
        r.base_rate() == BaseRate::BR48,
        r.multiplier() == 1,
        r.divisor() == 1,
{
    SampleRate { base: BaseRate::BR48, mult: 1, div: 1 }
}

/// 88.2 kHz.
pub fn sr_88_1() -> (r: SampleRate)
    ensures
        r.base_rate() == BaseRate::BR44_1,
        r.multiplier() == 2,
        r.divisor() == 1,
{
    SampleRate { base: BaseRate::BR44_1, mult: 2, div: 1 }
}

/// 96 kHz.
pub fn sr_96() -> (r: SampleRate)
    ensures
        r.base_rate() == BaseRate::BR48,
        r.multiplier() == 2,
        r.divisor() == 1,
{
    SampleRate { base: BaseRate::BR48, mult: 2, div: 1 }
}

/// 176.4 kHz.
pub fn sr_176_4() -> (r: SampleRate)
    ensures
        r.base_rate() == BaseRate::BR44_1,
        r.multiplier() == 4,
        r.divisor() == 1,
{
    SampleRate { base: BaseRate::BR44_1, mult: 4, div: 1 }
}

/// 192 kHz.
pub fn sr_192() -> (r: SampleRate)
    ensures
        r.base_rate() == BaseRate::BR48,
        r.multiplier() == 4,
        r.divisor() == 1,
{
    SampleRate { base: BaseRate::BR48, mult: 4, div: 1 }
}


/// The sample container width of a stream.
#[derive(Debug, Clone, Copy, PartialEq, Eq, Structural)]
pub enum BitsPerSample {
    Bits8,
    Bits16,
    Bits20,
    Bits24,
    Bits32,
}

/// The code of a sample width in the format word's BITS field.
pub open spec fn bits_code(bps: BitsPerSample) -> u16 {
    match bps {
        BitsPerSample::Bits8 => 0,
        BitsPerSample::Bits16 => 1,
        BitsPerSample::Bits20 => 2,
        BitsPerSample::Bits24 => 3,
        BitsPerSample::Bits32 => 4,
    }
}

impl BitsPerSample {
    /// The width's code in the format word: 0 for 8 bits up to 4 for 32 bits.
    pub fn code(self) -> (r: u16)
        ensures
            r == bits_code(self),
    {
        match self {
            BitsPerSample::Bits8 => 0,
            BitsPerSample::Bits16 => 1,
            BitsPerSample::Bits20 => 2,
            BitsPerSample::Bits24 => 3,
            BitsPerSample::Bits32 => 4,
        }
    }
}

/// The BASE bit of the format word: set for 44.1 kHz, clear for 48 kHz.
pub open spec fn base_code(base: BaseRate) -> int {
    match base {
        BaseRate::BR44_1 => 1,
        BaseRate::BR48 => 0,
    }
}

/// The stream format word: bit 14 the base rate, bits 13..11 the multiplier
/// less one, bits 10..8 the divisor less one, bits 6..4 the sample width code
/// and bits 3..0 the number of channels less one, each field taken modulo
/// its width.
pub open spec fn format_word(
    base: BaseRate,
    mult: int,
    div: int,
    bps: BitsPerSample,
    channels: int,
) -> int {
    base_code(base) * 0x4000 + ((mult - 1) % 8) * 0x800 + ((div - 1) % 8) * 0x100
        + bits_code(bps) * 0x10 + (channels - 1) % 16
}

/// Encodes a sample rate, a sample width and a channel count as a stream
/// format word.
pub fn format_to_u16(sr: &SampleRate, bps: BitsPerSample, channels: u8) -> (r: u16)
    requires
        channels >= 1,
    ensures
        r == format_word(sr.base_rate(), sr.multiplier() as int, sr.divisor() as int, bps, channels as int),
{
    proof {
        use_type_invariant(sr);
    }
    let base: u16 = match sr.base {
        BaseRate::BR44_1 => 1 << 14,
        BaseRate::BR48 => 0,
    };
    assert((1u16 << 14u16) == 0x4000) by (bit_vector);
    let m1: u16 = sr.mult - 1;
    let d1: u16 = sr.div - 1;
    let b: u16 = bps.code();
    let c1: u8 = channels - 1;
    let mult: u16 = (m1 & 0x7) << 11;
    let div: u16 = (d1 & 0x7) << 8;
    let bits: u16 = b << 4;
    let chan: u16 = (c1 & 0xF) as u16;
    let val: u16 = base | mult | div | bits | chan;
    assert(val == base + (m1 % 8) * 0x800 + (d1 % 8) * 0x100 + b * 0x10 + c1 % 16) by (bit_vector)
        requires
            base == 0 || base == 0x4000,
            b <= 4,
            mult == (m1 & 0x7) << 11,
            div == (d1 & 0x7) << 8,
            bits == b << 4,
            chan == (c1 & 0xF) as u16,
            val == base | mult | div | bits | chan,
    ;
    val
}

/// The RUN bit of the stream descriptor control register.
pub const CONTROL_RUN: u32 = 1 << 1;

/// The interrupt-on-completion enable bit of the control register.
pub const CONTROL_IOC: u32 = 1 << 2;

/// The buffer-completion bit of the stream descriptor status register.
pub const STATUS_BUFFER_COMPLETE: u8 = 1 << 2;

/// The three interrupt status bits of the status register; writing them
/// back clears them.
pub const STATUS_INTERRUPTS: u8 = 0x7 << 2;

/// The 24-bit control register that a low word and a high byte make up.
pub open spec fn control_value(lo: u16, hi: u8) -> u32 {
    (lo as u32) | ((hi as u32) << 16u32)
}

/// The low word of a control value.
pub open spec fn control_low(control: u32) -> u16 {
    (control & 0xFFFF) as u16
}

/// The high byte of a control value: bits 23..16.
pub open spec fn control_high(control: u32) -> u8 {
    ((control >> 16u32) & 0xFF) as u8
}

/// A control value with the RUN bit set.
pub open spec fn run_control(control: u32) -> u32 {
    control | 2u32
}

/// A control value with the RUN bit clear.
pub open spec fn stop_control(control: u32) -> u32 {
    control & !2u32
}

/// The stream number field, bits 23..20 of the control value.
pub open spec fn stream_number_of(control: u32) -> u8 {
    ((control >> 20u32) & 0xF) as u8
}

/// A control value with the stream number field set to the low four bits of
/// `n`. Of the original value only the low word stays; bits 19..16 and
/// 31..24 come out clear.
pub open spec fn with_stream_number(control: u32, n: u8) -> u32 {
    (control & 0x00FFFF) | (((n & 0xF) as u32) << 20u32)
}

/// A control value with the interrupt-on-completion bit set or cleared.
pub open spec fn with_interrupt_on_completion(control: u32, enable: bool) -> u32 {
    if enable {
        control | 4u32
    } else {
        control & !4u32
    }
}

/// Reads a control value from its two registers.
pub fn control_from_parts(lo: u16, hi: u8) -> (r: u32)
    ensures
        r == control_value(lo, hi),
        r == lo as int + hi as int * 0x10000,
{
    let mut ctrl: u32 = lo as u32;
    ctrl |= (hi as u32) << 16;
    assert(((lo as u32) | ((hi as u32) << 16u32)) as int == lo as int + hi as int * 0x10000)
        by (bit_vector);
    ctrl
}

/// Splits a control value into the word and the byte that its two registers
/// take; bits 31..24 are dropped.
pub fn control_to_parts(control: u32) -> (r: (u16, u8))
    ensures
        r.0 == control_low(control),
        r.1 == control_high(control),
        r.0 == control % 0x10000,
        r.1 == (control / 0x10000) % 0x100,
{
    assert((control & 0xFFFF) as u16 as int == control % 0x10000) by (bit_vector);
    assert(((control >> 16u32) & 0xFF) as u8 as int == (control / 0x10000) % 0x100) by (bit_vector);
    ((control & 0xFFFF) as u16, ((control >> 16) & 0xFF) as u8)
}

/// The control value that starts the stream's DMA engine.
pub fn control_with_run(control: u32) -> (r: u32)
    ensures
        r == run_control(control),
{
    assert(CONTROL_RUN == 2u32) by (bit_vector);
    control | CONTROL_RUN
}

/// The control value that stops the stream's DMA engine.
pub fn control_with_stop(control: u32) -> (r: u32)
    ensures
        r == stop_control(control),
{
    assert(CONTROL_RUN == 2u32) by (bit_vector);
    control & !CONTROL_RUN
}

/// The stream number that a control value holds.
pub fn stream_number_from_control(control: u32) -> (r: u8)
    ensures
        r == stream_number_of(control),
        r == (control / 0x100000) % 16,
{
    assert(((control >> 20u32) & 0xF) as u8 as int == (control / 0x100000) % 16) by (bit_vector);
    ((control >> 20) & 0xF) as u8
}

/// The control value that assigns a stream number.
pub fn control_with_stream_number(control: u32, stream_number: u8) -> (r: u32)
    ensures
        r == with_stream_number(control, stream_number),
{
    (control & 0x00FFFF) | (((stream_number & 0xF) as u32) << 20)
}

/// The control value that enables or disables the interrupt on completion.
pub fn control_with_interrupt_on_completion(control: u32, enable: bool) -> (r: u32)
    ensures
        r == with_interrupt_on_completion(control, enable),
{
    assert(CONTROL_IOC == 4u32) by (bit_vector);
    let mut ctrl: u32 = control;
    if enable {
        ctrl |= CONTROL_IOC;
    } else {
        ctrl &= !CONTROL_IOC;
    }
    ctrl
}

/// Splits a buffer descriptor list address into the values of its lower and
/// upper 32-bit registers.
pub fn address_to_parts(addr: usize) -> (r: (u32, u32))
    ensures
        r.0 == addr as int % 0x1_0000_0000,
        r.1 == addr as int / 0x1_0000_0000,
        r.1 as int * 0x1_0000_0000 + r.0 as int == addr as int,
{
    let a: u64 = addr as u64;
    let lo: u32 = (a & 0xFFFFFFFF) as u32;
    let hi: u32 = ((a >> 32) & 0xFFFFFFFF) as u32;
    assert(lo as int == a as int % 0x1_0000_0000 && hi as int == a as int / 0x1_0000_0000)
        by (bit_vector)
        requires
            lo == (a & 0xFFFFFFFF) as u32,
            hi == ((a >> 32u64) & 0xFFFFFFFF) as u32,
    ;
    (lo, hi)
}

/// Whether a status value reports the completion of a buffer.
pub fn status_buffer_complete(status: u8) -> (r: bool)
    ensures
        r == (status & 4u8 == 4u8),
        r == ((status / 4) % 2 == 1),
{
    assert((status & 4u8 == 4u8) == ((status / 4) % 2 == 1)) by (bit_vector);
    assert(STATUS_BUFFER_COMPLETE == 4u8) by (bit_vector);
    (status & STATUS_BUFFER_COMPLETE) == STATUS_BUFFER_COMPLETE
}

/// The number of bytes that a sample width takes in memory: one, two, or
/// four for every width above 16 bits.
pub open spec fn container_bytes(code: int) -> int {
    if code == 0 {
        1
    } else if code == 1 {
        2
    } else {
        4
    }
}

/// The bytes of one sample frame in a stream of the given format word: the
/// container size of the BITS field times the number of channels.
pub open spec fn frame_bytes(format: int) -> int {
    container_bytes((format / 16) % 16) * (format % 16 + 1)
}

/// The size in bytes of one sample frame of a stream with the given format.
pub fn sample_size_of_format(format: u16) -> (r: usize)
    ensures
        r == frame_bytes(format as int),
{
    let chan: usize = (format & 0xF) as usize;
    let bits: usize = ((format >> 4) & 0xF) as usize;
    assert(chan == format % 16 && bits == (format / 16) % 16) by (bit_vector)
        requires
            chan == (format & 0xF) as usize,
            bits == ((format >> 4u16) & 0xF) as usize,
    ;
    match bits {
        0 => 1 * (chan + 1),
        1 => 2 * (chan + 1),
        _ => 4 * (chan + 1),
    }
}

/// Whether the interrupt-on-completion bit, bit 0, of a buffer descriptor's
/// last word is set.
pub fn interrupt_on_completion_flag(ioc_resv: u32) -> (r: bool)
    ensures
        r == (ioc_resv & 1u32 == 1u32),
        r == (ioc_resv % 2 == 1),
{
    assert((ioc_resv & 1u32 == 1u32) == (ioc_resv % 2 == 1)) by (bit_vector);
    (ioc_resv & 0x1) == 0x1
}

/// A buffer descriptor's last word with the interrupt-on-completion bit set
/// or cleared and every other bit kept.
pub open spec fn with_ioc_flag(ioc_resv: u32, ioc: bool) -> u32 {
    if ioc {
        ioc_resv | 1u32
    } else {
        ioc_resv & !1u32
    }
}

/// Sets or clears the interrupt-on-completion bit of a buffer descriptor's
/// last word.
pub fn ioc_resv_with(ioc_resv: u32, ioc: bool) -> (r: u32)
    ensures
        r == with_ioc_flag(ioc_resv, ioc),
{
    if ioc {
        ioc_resv | 1
    } else {
        ioc_resv & !1
    }
}

/// Writing a control value to the two registers and reading it back gives
/// its low 24 bits.
pub proof fn lemma_control_round_trip(control: u32)
    ensures
        control_value(control_low(control), control_high(control)) == control & 0xFF_FFFF,
{
    assert(((((control & 0xFFFF) as u16) as u32) | (((((control >> 16u32) & 0xFF) as u8) as u32) << 16u32))
        == control & 0xFF_FFFF) by (bit_vector);
}

/// The two registers read back what a control value assembled from them
/// holds.
pub proof fn lemma_control_parts_round_trip(lo: u16, hi: u8)
    ensures
        control_low(control_value(lo, hi)) == lo,
        control_high(control_value(lo, hi)) == hi,
{
    assert((((lo as u32) | ((hi as u32) << 16u32)) & 0xFFFF) as u16 == lo) by (bit_vector);
    assert(((((lo as u32) | ((hi as u32) << 16u32)) >> 16u32) & 0xFF) as u8 == hi) by (bit_vector);
}

/// Starting a stream sets the RUN bit and stopping clears it; neither touches
/// another bit, and each undoes the other.
pub proof fn lemma_run_stop(control: u32)
    ensures
        run_control(control) & 2u32 == 2u32,
        stop_control(control) & 2u32 == 0u32,
        run_control(control) & !2u32 == control & !2u32,
        stop_control(control) & !2u32 == control & !2u32,
        stop_control(run_control(control)) == stop_control(control),
        run_control(stop_control(control)) == run_control(control),
        run_control(run_control(control)) == run_control(control),
        stop_control(stop_control(control)) == stop_control(control),
{
    assert((control | 2u32) & 2u32 == 2u32) by (bit_vector);
    assert((control & !2u32) & 2u32 == 0u32) by (bit_vector);
    assert((control | 2u32) & !2u32 == control & !2u32) by (bit_vector);
    assert((control & !2u32) & !2u32 == control & !2u32) by (bit_vector);
    assert((control & !2u32) | 2u32 == control | 2u32) by (bit_vector);
    assert((control | 2u32) | 2u32 == control | 2u32) by (bit_vector);
}

/// The stream number reads back as the low four bits of the number written,
/// and assigning it keeps the low word of the control value.
pub proof fn lemma_stream_number_round_trip(control: u32, n: u8)
    ensures
        stream_number_of(with_stream_number(control, n)) == n & 0xF,
        with_stream_number(control, n) & 0xFFFF == control & 0xFFFF,
        control_low(with_stream_number(control, n)) == control_low(control),
{
    assert(((((control & 0x00FFFF) | (((n & 0xF) as u32) << 20u32)) >> 20u32) & 0xF) as u8 == n & 0xF)
        by (bit_vector);
    assert(((control & 0x00FFFF) | (((n & 0xF) as u32) << 20u32)) & 0xFFFF == control & 0xFFFF)
        by (bit_vector);
}

/// Enabling or disabling the interrupt on completion sets that bit as asked
/// and keeps every other bit.
pub proof fn lemma_interrupt_on_completion(control: u32, enable: bool)
    ensures
        (with_interrupt_on_completion(control, enable) & 4u32 == 4u32) == enable,
        with_interrupt_on_completion(control, enable) & !4u32 == control & !4u32,
{
    assert((control | 4u32) & 4u32 == 4u32) by (bit_vector);
    assert((control & !4u32) & 4u32 != 4u32) by (bit_vector);
    assert((control | 4u32) & !4u32 == control & !4u32) by (bit_vector);
    assert((control & !4u32) & !4u32 == control & !4u32) by (bit_vector);
}

/// The interrupt-on-completion bit of a buffer descriptor reads back as
/// written, and writing it keeps the other bits of the word.
pub proof fn lemma_ioc_flag_round_trip(ioc_resv: u32, ioc: bool)
    ensures
        (with_ioc_flag(ioc_resv, ioc) & 1u32 == 1u32) == ioc,
        with_ioc_flag(ioc_resv, ioc) & !1u32 == ioc_resv & !1u32,
{
    assert((ioc_resv | 1u32) & 1u32 == 1u32) by (bit_vector);
    assert((ioc_resv & !1u32) & 1u32 != 1u32) by (bit_vector);
    assert((ioc_resv | 1u32) & !1u32 == ioc_resv & !1u32) by (bit_vector);
    assert((ioc_resv & !1u32) & !1u32 == ioc_resv & !1u32) by (bit_vector);
}

/// A stream format word decodes back to the sample container size times the
/// channel count it was made from (the channel count taken modulo 16, as the
/// four-bit field holds it).
pub proof fn lemma_frame_bytes_of_format(
    base: BaseRate,
    mult: int,
    div: int,
    bps: BitsPerSample,
    channels: int,
)
    requires
        1 <= channels,
    ensures
        frame_bytes(format_word(base, mult, div, bps, channels)) == container_bytes(
            bits_code(bps) as int,
        ) * ((channels - 1) % 16 + 1),
{
    let hi = base_code(base) * 0x40 + ((mult - 1) % 8) * 8 + (div - 1) % 8;
    let c = (channels - 1) % 16;
    let b = bits_code(bps) as int;
    assert(format_word(base, mult, div, bps, channels) == (hi * 16 + b) * 16 + c);
    assert(0 <= c < 16);
    assert(0 <= b < 16);
    assert(0 <= hi);
    let f = (hi * 16 + b) * 16 + c;
    assert(f % 16 == c && f / 16 == hi * 16 + b) by (nonlinear_arith)
        requires
            f == (hi * 16 + b) * 16 + c,
            0 <= c < 16,
    ;
    assert((hi * 16 + b) % 16 == b) by (nonlinear_arith)
        requires
            0 <= b < 16,
    ;
}

/// The size of a sample frame is one byte per channel for 8-bit samples,
/// two for 16-bit samples, and four for 20-, 24- and 32-bit samples, which
/// travel in 32-bit containers; for a stream of 1 to 16 channels, the frame
/// size read from its format word is that many bytes times the channels.
pub proof fn lemma_frame_bytes_by_width(
    base: BaseRate,
    mult: int,
    div: int,
    bps: BitsPerSample,
    channels: int,
    format: u16,
)
    requires
        1 <= channels <= 16,
    ensures
        frame_bytes(format_word(base, mult, div, bps, channels)) == match bps {
            BitsPerSample::Bits8 => 1int,
            BitsPerSample::Bits16 => 2int,
            BitsPerSample::Bits20 => 4int,
            BitsPerSample::Bits24 => 4int,
            BitsPerSample::Bits32 => 4int,
        } * channels,
        (format / 16) % 16 >= 2 ==> frame_bytes(format as int) == 4 * (format % 16 + 1),
        (format / 16) % 16 == 1 ==> frame_bytes(format as int) == 2 * (format % 16 + 1),
        (format / 16) % 16 == 0 ==> frame_bytes(format as int) == format % 16 + 1,
{
    lemma_frame_bytes_of_format(base, mult, div, bps, channels);
    assert((channels - 1) % 16 == channels - 1);
}

/// The codes that a format word carries: bit 14 is set for the 44.1 kHz
/// base and clear for 48 kHz, and the BITS field holds 0, 1, 2, 3 or 4 for
/// 8-, 16-, 20-, 24- and 32-bit samples.
pub proof fn lemma_format_codes(base: BaseRate, mult: int, div: int, bps: BitsPerSample, channels: int)
    ensures
        (format_word(base, mult, div, bps, channels) / 0x4000) % 2 == match base {
            BaseRate::BR44_1 => 1int,
            BaseRate::BR48 => 0int,
        },
        (format_word(base, mult, div, bps, channels) / 16) % 16 == match bps {
            BitsPerSample::Bits8 => 0int,
            BitsPerSample::Bits16 => 1int,
            BitsPerSample::Bits20 => 2int,
            BitsPerSample::Bits24 => 3int,
            BitsPerSample::Bits32 => 4int,
        },
{
    lemma_format_fields(base, mult, div, bps, channels);
}

/// Assigning a stream number keeps the low 16 bits of the control value,
/// puts the number's low four bits at bits 23..20, and clears the rest.
pub proof fn lemma_stream_number_arithmetic(control: u32, n: u8)
    ensures
        with_stream_number(control, n) as int == control as int % 0x10000 + (n as int % 16)
            * 0x100000,
{
    assert(((control & 0x00FFFF) | (((n & 0xF) as u32) << 20u32)) as int == control as int
        % 0x10000 + (n as int % 16) * 0x100000) by (bit_vector);
}

/// Each field of a stream format word reads back as what went into it: the
/// base rate, the multiplier and divisor less one modulo 8, the sample width
/// code, and the channel count less one modulo 16; and the word fits in 15
/// bits.
pub proof fn lemma_format_fields(
    base: BaseRate,
    mult: int,
    div: int,
    bps: BitsPerSample,
    channels: int,
)
    ensures
        ({
            let f = format_word(base, mult, div, bps, channels);
            &&& 0 <= f < 0x8000
            &&& (f / 0x4000) % 2 == base_code(base)
            &&& (f / 0x800) % 8 == (mult - 1) % 8
            &&& (f / 0x100) % 8 == (div - 1) % 8
            &&& (f / 0x10) % 16 == bits_code(bps)
            &&& f % 16 == (channels - 1) % 16
        }),
{
    let a = base_code(base);
    let m = (mult - 1) % 8;
    let d = (div - 1) % 8;
    let b = bits_code(bps) as int;
    let c = (channels - 1) % 16;
    let f = format_word(base, mult, div, bps, channels);
    assert(f == a * 0x4000 + m * 0x800 + d * 0x100 + b * 0x10 + c);
    assert(0 <= f < 0x8000 && (f / 0x4000) % 2 == a && (f / 0x800) % 8 == m && (f / 0x100) % 8 == d
        && (f / 0x10) % 16 == b && f % 16 == c) by (nonlinear_arith)
        requires
            f == a * 0x4000 + m * 0x800 + d * 0x100 + b * 0x10 + c,
            0 <= a <= 1,
            0 <= m < 8,
            0 <= d < 8,
            0 <= b <= 4,
            0 <= c < 16,
    ;
}

/// The state of a cyclic output stream: its buffer and how it is cut into
/// blocks.
pub struct Stream {
    buff: usize,
    buff_phys: usize,
    buff_length: usize,
    output_current_block: usize,
    block_length: usize,
    block_count: usize,
}

/// The message of a failed physical allocation.
pub const ALLOC_FAILED: &'static str = "Could not allocate physical memory for buffer.";

/// The message of a failed mapping of allocated memory.
pub const MAP_FAILED: &'static str = "Could not map physical memory for buffer.";

/// A buffer in physical memory, mapped into the driver's address space.
pub struct StreamBuffer {
    phys: usize,
    addr: usize,
    len: usize,
}

impl StreamBuffer {
    /// The physical address.
    pub closed spec fn spec_phys(&self) -> usize {
        self.phys
    }

    /// The address the buffer is mapped at.
    pub closed spec fn spec_addr(&self) -> usize {
        self.addr
    }

    /// The length in bytes.
    pub closed spec fn spec_length(&self) -> usize {
        self.len
    }

    /// The first step of making a buffer of `length` bytes: what the
    /// physical allocation returned (`None` for an error) decides between
    /// going on to map the memory at the returned physical address and
    /// failing.
    pub fn check_allocation(phys: Option<usize>) -> (r: Result<usize, &'static str>)
        ensures
            match phys {
                Some(p) => r == Ok::<usize, &'static str>(p),
                None => r == Err::<usize, &'static str>(ALLOC_FAILED),
            },
    {
        match phys {
            Some(p) => Ok(p),
            None => Err(ALLOC_FAILED),
        }
    }

    /// The second step: what mapping the memory allocated at `phys`
    /// returned (`None` for an error) decides between the buffer and
    /// failing.
    pub fn check_mapping(phys: usize, addr: Option<usize>, length: usize) -> (r: Result<
        StreamBuffer,
        &'static str,
    >)
        ensures
            match addr {
                Some(a) => r matches Ok(b) && b.spec_phys() == phys && b.spec_addr() == a
                    && b.spec_length() == length,
                None => r == Err::<StreamBuffer, &'static str>(MAP_FAILED),
            },
    {
        match addr {
            Some(a) => Ok(StreamBuffer { phys, addr: a, len: length }),
            None => Err(MAP_FAILED),
        }
    }

    /// The length in bytes.
    pub fn length(&self) -> (r: usize)
        ensures
            r == self.spec_length(),
    {
        self.len
    }

    /// The address the buffer is mapped at.
    pub fn addr(&self) -> (r: usize)
        ensures
            r == self.spec_addr(),
    {
        self.addr
    }

    /// The physical address.
    pub fn phys(&self) -> (r: usize)
        ensures
            r == self.spec_phys(),
    {
        self.phys
    }
}

} // verus!
