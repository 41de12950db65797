//! The formats a device mixes in, and which of them can be used.
use vstd::prelude::*;
use vstd::string::StringExecFns;

use crate::error::AudioError;
use crate::text::push_decimal;
use crate::SAMPLE_RATE;

verus! {

/// The pipeline's own format: mono at 48 kHz. Channels are mixed and rates
/// converted where a device differs.
#[derive(Debug, Clone, Copy)]
pub struct StreamFormat {
    pub sample_rate: u32,
    pub channels: u16,
}

impl StreamFormat {
    /// What every stage between capture and render works in.
    pub fn pipeline() -> (r: Self)
        ensures
            r.sample_rate == SAMPLE_RATE,
            r.channels == 1,
    {
        StreamFormat { sample_rate: SAMPLE_RATE, channels: 1 }
    }
}

/// The fields of a device's mix format that the audio loops care about.
#[derive(Debug, Clone, Copy, PartialEq, Eq, Structural)]
pub struct MixFormat {
    pub sample_rate: u32,
    pub channels: u16,
    pub bits_per_sample: u16,
    /// Bytes per frame, all channels together.
    pub block_align: u16,
    /// The sample type is IEEE float.
    pub is_float: bool,
}

impl MixFormat {
    /// The device mixes 32-bit float, so that a buffer of `n` frames is exactly
    /// `n * channels` floats long.
    pub open spec fn spec_usable(&self) -> bool {
        &&& self.channels != 0
        &&& self.is_float
        &&& self.bits_per_sample == 32
        &&& self.block_align == self.channels * 4
    }

    /// Why a device that cannot be used is refused.
    pub open spec fn spec_refusal(&self) -> Seq<char> {
        if self.channels == 0 {
            "device reports 0 channels"@
        } else if !self.is_float || self.bits_per_sample != 32 {
            "device mixes "@ + (if self.is_float {
                "float"@
            } else {
                "integer PCM"@
            }) + " "@ + crate::text::decimal(self.bits_per_sample as nat)
                + "-bit samples; RoomMute needs 32-bit IEEE float"@
        } else {
            "nBlockAlign is "@ + crate::text::decimal(self.block_align as nat) + " but "@
                + crate::text::decimal(self.channels as nat)
                + " channels of 32-bit float need "@ + crate::text::decimal(
                (self.channels * 4) as nat,
            )
        }
    }

    /// Refuse a device whose buffers are not 32-bit float.
    ///
    /// Both audio loops read the engine's byte buffer as floats. On a 16-bit
    /// device that would be twice the bytes the engine allocated.
    pub fn validate(&self) -> (r: Result<(), AudioError>)
        ensures
            r is Ok <==> self.spec_usable(),
            r matches Err(e) ==> (e matches AudioError::UnsupportedFormat(why) && why@
                == self.spec_refusal()),
    {
        if self.channels == 0 {
            return Err(AudioError::UnsupportedFormat("device reports 0 channels".to_owned()));
        }
        if !self.is_float || self.bits_per_sample != 32 {
            let mut why = "device mixes ".to_owned();
            if self.is_float {
                why.append("float");
            } else {
                why.append("integer PCM");
            }
            why.append(" ");
            push_decimal(&mut why, self.bits_per_sample as u64);
            why.append("-bit samples; RoomMute needs 32-bit IEEE float");
            return Err(AudioError::UnsupportedFormat(why));
        }
        let expected: u32 = self.channels as u32 * 4;
        if self.block_align as u32 != expected {
            let mut why = "nBlockAlign is ".to_owned();
            push_decimal(&mut why, self.block_align as u64);
            why.append(" but ");
            push_decimal(&mut why, self.channels as u64);
            why.append(" channels of 32-bit float need ");
            push_decimal(&mut why, expected as u64);
            return Err(AudioError::UnsupportedFormat(why));
        }
        Ok(())
    }
}

/// The format tag of plain IEEE float samples.
pub const WAVE_FORMAT_IEEE_FLOAT: u16 = 3;

/// The format tag of a header whose sample type is a GUID behind it.
pub const WAVE_FORMAT_EXTENSIBLE: u16 = 0xfffe;

/// Bytes of the fixed part of a wave format header.
pub const WAVE_HEADER_BYTES: usize = 18;

/// Bytes that an extensible header declares behind the fixed part, at least.
pub const EXTENSIBLE_TAIL_BYTES: u16 = 22;

/// Where the sample type's GUID starts in an extensible header.
pub const SUBFORMAT_OFFSET: usize = 24;

/// The GUID of IEEE float samples, as it lies in memory.
pub open spec fn float_subformat() -> Seq<u8> {
    seq![
        0x03u8, 0x00u8, 0x00u8, 0x00u8, 0x00u8, 0x00u8, 0x10u8, 0x00u8,
        0x80u8, 0x00u8, 0x00u8, 0xaau8, 0x00u8, 0x38u8, 0x9bu8, 0x71u8,
    ]
}

/// The 16-bit number at `at`, low byte first.
pub open spec fn word_at(bytes: Seq<u8>, at: int) -> u16 {
    (bytes[at] + 256 * bytes[at + 1]) as u16
}

/// The 32-bit number at `at`, low byte first.
pub open spec fn dword_at(bytes: Seq<u8>, at: int) -> u32 {
    (word_at(bytes, at) + 65536 * word_at(bytes, at + 2)) as u32
}

/// How many bytes the header declares behind its fixed part.
pub open spec fn declared_tail(bytes: Seq<u8>) -> u16 {
    word_at(bytes, 16)
}

/// The header says its samples are IEEE float: by its tag, or by the GUID in a
/// tail that it declares to be long enough to hold one.
pub open spec fn header_is_float(bytes: Seq<u8>) -> bool {
    let tag = word_at(bytes, 0);
    ||| tag == WAVE_FORMAT_IEEE_FLOAT
    ||| {
        &&& tag == WAVE_FORMAT_EXTENSIBLE
        &&& declared_tail(bytes) >= EXTENSIBLE_TAIL_BYTES
        &&& bytes.subrange(24, 40) == float_subformat()
    }
}

fn read_word(bytes: &[u8], at: usize) -> (r: u16)
    requires
        at + 2 <= bytes@.len(),
    ensures
        r == word_at(bytes@, at as int),
{
    let length: usize = bytes.len();
    assert(at + 2 <= length);
    bytes[at] as u16 + 256 * bytes[at + 1] as u16
}

fn read_dword(bytes: &[u8], at: usize) -> (r: u32)
    requires
        at + 4 <= bytes@.len(),
    ensures
        r == dword_at(bytes@, at as int),
{
    let length: usize = bytes.len();
    assert(at + 4 <= length);
    read_word(bytes, at) as u32 + 65536 * read_word(bytes, at + 2) as u32
}

/// Whether the GUID in an extensible header is that of IEEE float.
fn subformat_is_float(bytes: &[u8]) -> (r: bool)
    requires
        bytes@.len() >= 40,
    ensures
        r == (bytes@.subrange(24, 40) == float_subformat()),
{
    let want: [u8; 16] = [
        0x03, 0x00, 0x00, 0x00, 0x00, 0x00, 0x10, 0x00,
        0x80, 0x00, 0x00, 0xaa, 0x00, 0x38, 0x9b, 0x71,
    ];
    assert(want@ =~= float_subformat());
    for i in 0..16
        invariant
            bytes@.len() >= 40,
            want@ == float_subformat(),
            forall|j: int| 0 <= j < i ==> bytes@[24 + j] == want@[j],
    {
        if bytes[SUBFORMAT_OFFSET + i] != want[i] {
            assert(bytes@.subrange(24, 40)[i as int] != float_subformat()[i as int]);
            return false;
        }
    }
    assert(bytes@.subrange(24, 40) =~= float_subformat());
    true
}

/// The mix format that a header holds.
pub open spec fn mix_format_of(bytes: Seq<u8>) -> MixFormat {
    MixFormat {
        sample_rate: dword_at(bytes, 4),
        channels: word_at(bytes, 2),
        bits_per_sample: word_at(bytes, 14),
        block_align: word_at(bytes, 12),
        is_float: header_is_float(bytes),
    }
}

/// Read the mix format out of the header the audio engine hands over.
///
/// `bytes` is the fixed part and as much behind it as the header declares.
/// Nothing behind the declared tail is read: a header that is marked
/// extensible but declares no room for a GUID does not count as float.
pub fn read_mix_format(bytes: &[u8]) -> (r: MixFormat)
    requires
        bytes@.len() >= WAVE_HEADER_BYTES,
        bytes@.len() >= WAVE_HEADER_BYTES + declared_tail(bytes@),
    ensures
        r.sample_rate == dword_at(bytes@, 4),
        r.channels == word_at(bytes@, 2),
        r.bits_per_sample == word_at(bytes@, 14),
        r.block_align == word_at(bytes@, 12),
        r.is_float == header_is_float(bytes@),
        r == mix_format_of(bytes@),
{
    let format_tag: u16 = read_word(bytes, 0);
    let cb_size: u16 = read_word(bytes, 16);
    let is_float = if format_tag == WAVE_FORMAT_IEEE_FLOAT {
        true
    } else if format_tag == WAVE_FORMAT_EXTENSIBLE && cb_size >= EXTENSIBLE_TAIL_BYTES {
        subformat_is_float(bytes)
    } else {
        false
    };
    MixFormat {
        sample_rate: read_dword(bytes, 4),
        channels: read_word(bytes, 2),
        bits_per_sample: read_word(bytes, 14),
        block_align: read_word(bytes, 12),
        is_float,
    }
}

/// Two headers that agree on the fixed part and on the tail they declare are
/// read alike, whatever lies behind that tail.
pub proof fn law_only_the_declared_header_is_read(a: Seq<u8>, b: Seq<u8>)
    requires
        a.len() >= WAVE_HEADER_BYTES,
        b.len() >= WAVE_HEADER_BYTES,
        a.len() >= WAVE_HEADER_BYTES + declared_tail(a),
        b.len() >= WAVE_HEADER_BYTES + declared_tail(b),
        a.take(WAVE_HEADER_BYTES as int) == b.take(WAVE_HEADER_BYTES as int),
        a.take(WAVE_HEADER_BYTES + declared_tail(a)) == b.take(WAVE_HEADER_BYTES + declared_tail(a)),
    ensures
        header_is_float(a) == header_is_float(b),
        dword_at(a, 4) == dword_at(b, 4),
        word_at(a, 2) == word_at(b, 2),
        word_at(a, 14) == word_at(b, 14),
        word_at(a, 12) == word_at(b, 12),
{
    let head = a.take(WAVE_HEADER_BYTES as int);
    assert forall|i: int| 0 <= i < WAVE_HEADER_BYTES implies a[i] == b[i] by {
        assert(head[i] == a[i]);
        assert(b.take(WAVE_HEADER_BYTES as int)[i] == b[i]);
    }
    if declared_tail(a) >= EXTENSIBLE_TAIL_BYTES {
        let full = WAVE_HEADER_BYTES + declared_tail(a);
        assert(a.subrange(24, 40) =~= a.take(full).subrange(24, 40));
        assert(b.subrange(24, 40) =~= b.take(full).subrange(24, 40));
    }
}

/// How a capture stream is opened.
#[derive(Debug, Clone, Copy, PartialEq, Eq, Structural)]
pub struct CapturePlan {
    pub channels: u16,
    /// The device's rate when its samples need converting, `None` when it
    /// already produces mono 48 kHz.
    pub resample_from: Option<u32>,
}

/// Decide how to read a capture device, or refuse it.
pub fn plan_capture(mix: &MixFormat) -> (r: Result<CapturePlan, AudioError>)
    ensures
        r is Ok <==> mix.spec_usable(),
        r matches Ok(plan) ==> plan.channels == mix.channels && plan.resample_from == (if mix.sample_rate
            == SAMPLE_RATE && mix.channels == 1 {
            None
        } else {
            Some(mix.sample_rate)
        }),
        r matches Err(e) ==> (e matches AudioError::UnsupportedFormat(why) && why@
            == mix.spec_refusal()),
{
    match mix.validate() {
        Err(e) => Err(e),
        Ok(()) => {
            let needs_convert = !(mix.sample_rate == SAMPLE_RATE && mix.channels == 1);
            Ok(
                CapturePlan {
                    channels: mix.channels,
                    resample_from: if needs_convert {
                        Some(mix.sample_rate)
                    } else {
                        None
                    },
                },
            )
        },
    }
}

/// Bytes of silence written before a render stream starts, so that the engine
/// does not run dry on its first tick: the whole buffer.
pub fn prefill_bytes(buffer_frames: u32, block_align: u16) -> (r: usize)
    requires
        buffer_frames * block_align <= u32::MAX,
    ensures
        r == buffer_frames * block_align,
{
    (buffer_frames * block_align as u32) as usize
}

/// On a device that is not refused, a buffer of any number of frames holds
/// exactly one 32-bit float per frame and channel: reading it as floats never
/// walks past its end.
pub proof fn law_usable_buffers_are_whole_floats(mix: MixFormat, frames: nat)
    requires
        mix.spec_usable(),
    ensures
        frames * mix.block_align == 4 * (frames * mix.channels),
{
    assert(frames * (mix.channels * 4) == 4 * (frames * mix.channels)) by (nonlinear_arith);
}

/// `n` stands in the bytes from `at` on, low byte first, `size` bytes long.
pub open spec fn written_at(bytes: Seq<u8>, at: int, size: nat, n: int) -> bool
    decreases size,
{
    if size == 0 {
        n == 0
    } else {
        bytes[at] == n % 256 && written_at(bytes, at + 1, (size - 1) as nat, n / 256)
    }
}

/// A header is read as it was written: the tag in the first two bytes, the
/// channels in the next two, the rate in four, four bytes that are of no
/// interest, then the bytes per frame, the bits per sample and the length of the
/// tail, two each. Plain float needs its tag alone; an extensible header needs a
/// tail of 22 bytes and the GUID behind the first six of them; and no other
/// header is float.
pub proof fn law_a_header_reads_back(
    bytes: Seq<u8>,
    tag: u16,
    channels: u16,
    rate: u32,
    block: u16,
    bits: u16,
    tail: u16,
)
    requires
        bytes.len() >= 18 + tail,
        written_at(bytes, 0, 2, tag as int),
        written_at(bytes, 2, 2, channels as int),
        written_at(bytes, 4, 4, rate as int),
        written_at(bytes, 12, 2, block as int),
        written_at(bytes, 14, 2, bits as int),
        written_at(bytes, 16, 2, tail as int),
    ensures
        declared_tail(bytes) == tail,
        mix_format_of(bytes) == (MixFormat {
            sample_rate: rate,
            channels,
            bits_per_sample: bits,
            block_align: block,
            is_float: tag == 3 || (tag == 0xfffe && tail >= 22 && bytes.subrange(24, 40) == seq![
                0x03u8, 0x00u8, 0x00u8, 0x00u8, 0x00u8, 0x00u8, 0x10u8, 0x00u8,
                0x80u8, 0x00u8, 0x00u8, 0xaau8, 0x00u8, 0x38u8, 0x9bu8, 0x71u8,
            ]),
        }),
{
    reveal_with_fuel(written_at, 5);
    assert(word_at(bytes, 0) == tag);
    assert(word_at(bytes, 2) == channels);
    assert(word_at(bytes, 12) == block);
    assert(word_at(bytes, 14) == bits);
    assert(word_at(bytes, 16) == tail);
    assert(dword_at(bytes, 4) == rate);
}

} // verus!
