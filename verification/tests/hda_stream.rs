use redox_drivers::hda::stream::{
    address_to_parts, control_from_parts, control_to_parts, control_with_interrupt_on_completion,
    control_with_run, control_with_stop, control_with_stream_number, format_to_u16,
    interrupt_on_completion_flag, ioc_resv_with, sample_size_of_format, sr_11_025, sr_16,
    sr_176_4, sr_192, sr_22_05, sr_32, sr_44_1, sr_48, sr_8, sr_88_1, sr_96,
    status_buffer_complete, stream_number_from_control, BitsPerSample, StreamBuffer,
    ALLOC_FAILED, MAP_FAILED, STATUS_INTERRUPTS,
};

#[test]
fn format_48k_16bit_stereo() {
    assert_eq!(format_to_u16(&sr_48(), BitsPerSample::Bits16, 2), 0x0011);
}

#[test]
fn format_44_1k_16bit_stereo() {
    assert_eq!(format_to_u16(&sr_44_1(), BitsPerSample::Bits16, 2), 0x4011);
}

#[test]
fn format_every_rate() {
    let bps = BitsPerSample::Bits8;
    assert_eq!(format_to_u16(&sr_8(), bps, 1), 0x0500);
    assert_eq!(format_to_u16(&sr_11_025(), bps, 1), 0x4300);
    assert_eq!(format_to_u16(&sr_16(), bps, 1), 0x0200);
    assert_eq!(format_to_u16(&sr_22_05(), bps, 1), 0x4100);
    assert_eq!(format_to_u16(&sr_32(), bps, 1), 0x0A00);
    assert_eq!(format_to_u16(&sr_88_1(), bps, 1), 0x4800);
    assert_eq!(format_to_u16(&sr_96(), bps, 1), 0x0800);
    assert_eq!(format_to_u16(&sr_176_4(), bps, 1), 0x5800);
    assert_eq!(format_to_u16(&sr_192(), bps, 1), 0x1800);
}

#[test]
fn format_widths_and_channels() {
    assert_eq!(format_to_u16(&sr_48(), BitsPerSample::Bits20, 4), 0x0023);
    assert_eq!(format_to_u16(&sr_48(), BitsPerSample::Bits24, 8), 0x0037);
    assert_eq!(format_to_u16(&sr_48(), BitsPerSample::Bits32, 16), 0x004F);
    // The channel field holds four bits: 17 channels wrap to 1.
    assert_eq!(format_to_u16(&sr_48(), BitsPerSample::Bits32, 17), 0x0040);
}

#[test]
fn sample_size_reads_format_back() {
    assert_eq!(sample_size_of_format(format_to_u16(&sr_48(), BitsPerSample::Bits16, 2)), 4);
    assert_eq!(sample_size_of_format(format_to_u16(&sr_48(), BitsPerSample::Bits8, 1)), 1);
    assert_eq!(sample_size_of_format(format_to_u16(&sr_44_1(), BitsPerSample::Bits24, 2)), 8);
    assert_eq!(sample_size_of_format(format_to_u16(&sr_96(), BitsPerSample::Bits20, 6)), 24);
    assert_eq!(sample_size_of_format(0x00FF), 64);
}

#[test]
fn control_register_round_trip() {
    assert_eq!(control_from_parts(0x1234, 0x56), 0x0056_1234);
    assert_eq!(control_to_parts(0xAB56_1234), (0x1234, 0x56));
    let (lo, hi) = control_to_parts(0xFFFF_FFFF);
    assert_eq!(control_from_parts(lo, hi), 0x00FF_FFFF);
}

#[test]
fn run_and_stop() {
    assert_eq!(control_with_run(0x0010_0000), 0x0010_0002);
    assert_eq!(control_with_stop(0x0010_0006), 0x0010_0004);
    assert_eq!(control_with_stop(control_with_run(0x5)), control_with_stop(0x5));
}

#[test]
fn stream_number_field() {
    assert_eq!(stream_number_from_control(0x0050_0000), 5);
    let c = control_with_stream_number(0xFF1F_ABCD, 0x13);
    assert_eq!(c, 0x0030_ABCD);
    assert_eq!(stream_number_from_control(c), 3);
}

#[test]
fn interrupt_on_completion_bit() {
    assert_eq!(control_with_interrupt_on_completion(0x1, true), 0x5);
    assert_eq!(control_with_interrupt_on_completion(0x7, false), 0x3);
}

#[test]
fn address_split() {
    assert_eq!(address_to_parts(0x1234_5678), (0x1234_5678, 0));
    if usize::BITS == 64 {
        let addr: u64 = 0xDEAD_BEEF_0000_1000;
        assert_eq!(address_to_parts(addr as usize), (0x0000_1000, 0xDEAD_BEEF));
    }
}

#[test]
fn status_bits() {
    assert!(status_buffer_complete(0x04));
    assert!(status_buffer_complete(0x1C));
    assert!(!status_buffer_complete(0x18));
    assert_eq!(STATUS_INTERRUPTS, 0x1C);
}

#[test]
fn buffer_descriptor_ioc() {
    assert!(interrupt_on_completion_flag(0x1));
    assert!(!interrupt_on_completion_flag(0x2));
    assert_eq!(ioc_resv_with(0x2, true), 0x3);
    assert_eq!(ioc_resv_with(0x3, false), 0x2);
    assert!(interrupt_on_completion_flag(ioc_resv_with(0xF0, true)));
}

#[test]
fn stream_buffer_steps() {
    assert_eq!(StreamBuffer::check_allocation(Some(0x1000)), Ok(0x1000));
    assert_eq!(StreamBuffer::check_allocation(None), Err(ALLOC_FAILED));
    assert!(matches!(StreamBuffer::check_mapping(0x1000, None, 64), Err(MAP_FAILED)));
    let buffer = match StreamBuffer::check_mapping(0x1000, Some(0x8000), 64) {
        Ok(b) => b,
        Err(e) => panic!("{}", e),
    };
    assert_eq!(buffer.phys(), 0x1000);
    assert_eq!(buffer.addr(), 0x8000);
    assert_eq!(buffer.length(), 64);
}
