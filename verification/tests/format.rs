//! Mix formats: which are usable, and how a header is read.
use noisegate::error::AudioError;
use noisegate::format::{
    plan_capture, prefill_bytes, read_mix_format, MixFormat, StreamFormat, WAVE_FORMAT_EXTENSIBLE,
    WAVE_FORMAT_IEEE_FLOAT,
};

fn float32(channels: u16) -> MixFormat {
    MixFormat {
        sample_rate: 48_000,
        channels,
        bits_per_sample: 32,
        block_align: channels * 4,
        is_float: true,
    }
}

fn refusal(format: &MixFormat) -> String {
    match format.validate() {
        Err(AudioError::UnsupportedFormat(why)) => why,
        other => panic!("{other:?}"),
    }
}

#[test]
fn accepts_float32_mix_formats() {
    assert!(float32(1).validate().is_ok());
    assert!(float32(2).validate().is_ok());
    assert!(float32(8).validate().is_ok());
}

#[test]
fn rejects_integer_pcm() {
    let f = MixFormat {
        bits_per_sample: 16,
        block_align: 4,
        is_float: false,
        ..float32(2)
    };
    assert!(f.validate().is_err());
}

#[test]
fn rejects_float64_and_mismatched_block_align() {
    let wide = MixFormat {
        bits_per_sample: 64,
        block_align: 16,
        ..float32(2)
    };
    assert!(wide.validate().is_err());

    let lying = MixFormat {
        block_align: 6,
        ..float32(2)
    };
    assert!(lying.validate().is_err());
}

#[test]
fn rejects_zero_channels() {
    let f = MixFormat {
        channels: 0,
        block_align: 0,
        ..float32(1)
    };
    assert!(f.validate().is_err());
    assert_eq!(refusal(&f), "device reports 0 channels");
}

#[test]
fn a_refusal_says_what_the_device_actually_does() {
    let pcm = MixFormat {
        bits_per_sample: 16,
        block_align: 4,
        is_float: false,
        ..float32(2)
    };
    let msg = refusal(&pcm);
    assert!(msg.contains("16"), "name the bit depth found: {msg}");
    assert!(msg.contains("integer PCM"), "name the sample type: {msg}");
    assert_eq!(
        msg,
        "device mixes integer PCM 16-bit samples; RoomMute needs 32-bit IEEE float"
    );

    let lying = MixFormat {
        block_align: 6,
        ..float32(2)
    };
    let msg = refusal(&lying);
    assert!(
        msg.contains('6') && msg.contains('8'),
        "give both the claimed and the required stride: {msg}"
    );
    assert_eq!(
        msg,
        "nBlockAlign is 6 but 2 channels of 32-bit float need 8"
    );
}

const PCM_TAG: u16 = 1;
const SUBTYPE_FLOAT: [u8; 16] = [
    3, 0, 0, 0, 0, 0, 0x10, 0, 0x80, 0, 0, 0xaa, 0, 0x38, 0x9b, 0x71,
];
const SUBTYPE_PCM: [u8; 16] = [
    1, 0, 0, 0, 0, 0, 0x10, 0, 0x80, 0, 0, 0xaa, 0, 0x38, 0x9b, 0x71,
];

fn header(tag: u16, bits: u16, channels: u16, cb_size: u16) -> Vec<u8> {
    let block = channels * (bits / 8);
    let mut out = Vec::new();
    out.extend(tag.to_le_bytes());
    out.extend(channels.to_le_bytes());
    out.extend(48_000u32.to_le_bytes());
    out.extend((48_000 * u32::from(block)).to_le_bytes());
    out.extend(block.to_le_bytes());
    out.extend(bits.to_le_bytes());
    out.extend(cb_size.to_le_bytes());
    out
}

fn extensible(subformat: [u8; 16], cb_size: u16) -> Vec<u8> {
    let mut out = header(WAVE_FORMAT_EXTENSIBLE, 32, 2, cb_size);
    out.extend([0u8; 6]);
    out.extend(subformat);
    out
}

#[test]
fn a_plain_float_header_decodes_field_for_field() {
    let h = header(WAVE_FORMAT_IEEE_FLOAT, 32, 2, 0);
    let got = read_mix_format(&h);
    assert!(got.is_float);
    assert_eq!(got.sample_rate, 48_000);
    assert_eq!(got.channels, 2);
    assert_eq!(got.bits_per_sample, 32);
    assert_eq!(got.block_align, 8);
    assert!(got.validate().is_ok(), "this is the format we want");
}

#[test]
fn integer_pcm_is_not_mistaken_for_float() {
    let h = header(PCM_TAG, 16, 2, 0);
    let got = read_mix_format(&h);
    assert!(!got.is_float, "16-bit PCM must not decode as float");
    assert!(
        got.validate().is_err(),
        "reinterpreting this buffer as f32 would read twice the bytes the \
         engine allocated"
    );
}

#[test]
fn an_extensible_header_is_read_through_to_its_subformat() {
    let float = extensible(SUBTYPE_FLOAT, 22);
    assert!(
        read_mix_format(&float).is_float,
        "the float subformat GUID is how real shared-mode devices say float"
    );
    let pcm = extensible(SUBTYPE_PCM, 22);
    assert!(
        !read_mix_format(&pcm).is_float,
        "an extensible PCM device is still PCM"
    );
}

#[test]
fn an_extensible_header_without_a_declared_tail_is_not_read_further() {
    let lying = extensible(SUBTYPE_FLOAT, 0);
    assert!(
        !read_mix_format(&lying).is_float,
        "cbSize said there is no subformat, so none may be read — even \
         though the bytes happen to be there in this test"
    );
    // The same without the bytes.
    assert!(!read_mix_format(&lying[..18]).is_float);
}

#[test]
fn only_mono_forty_eight_needs_no_converting() {
    let plan = plan_capture(&float32(1)).unwrap();
    assert_eq!(plan.resample_from, None);
    assert_eq!(plan_capture(&float32(2)).unwrap().resample_from, Some(48_000));
    let slow = MixFormat {
        sample_rate: 44_100,
        ..float32(1)
    };
    let plan = plan_capture(&slow).unwrap();
    assert_eq!((plan.channels, plan.resample_from), (1, Some(44_100)));
    assert!(plan_capture(&float32(0)).is_err());
    assert_eq!(prefill_bytes(480, 8), 3840);
    let own = StreamFormat::pipeline();
    assert_eq!((own.sample_rate, own.channels), (48_000, 1));
}
