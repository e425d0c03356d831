//! Audio as numbers: samples and their bytes, WAV files, the choice of a capture format.

use crate::json;
use crate::text::same;
use vstd::prelude::*;

verus! {

/// The capture rate that is asked for.
pub const PREFERRED_RATE: u32 = 48000;

/// Captures have one channel.
pub const CHANNELS: u16 = 1;

// ---------------------------------------------------------------------------------------------
// Samples and bytes

/// A 16-bit number in two bytes, the low one first.
pub open spec fn le16(x: int) -> Seq<u8> {
    let u = if x < 0 { x + 65536 } else { x };
    seq![(u % 256) as u8, (u / 256) as u8]
}

/// The sample in two bytes.
pub open spec fn sample_of(lo: u8, hi: u8) -> int {
    let u = lo + 256 * hi;
    if u >= 32768 {
        u - 65536
    } else {
        u
    }
}

/// The bytes of samples.
pub open spec fn pcm(samples: Seq<i16>) -> Seq<u8>
    decreases samples.len(),
{
    if samples.len() == 0 {
        Seq::empty()
    } else {
        pcm(samples.drop_last()) + le16(samples.last() as int)
    }
}

/// The samples in bytes: one in every two. An odd byte at the end is dropped.
pub open spec fn samples_in(bytes: Seq<u8>) -> Seq<i16> {
    Seq::new(
        bytes.len() / 2,
        |i: int| sample_of(bytes[2 * i], bytes[2 * i + 1]) as i16,
    )
}

/// The bytes of samples.
pub fn samples_to_pcm(samples: &[i16]) -> (r: Vec<u8>)
    ensures
        r@ == pcm(samples@),
{
    let mut r: Vec<u8> = Vec::new();
    let mut i: usize = 0;
    assert(samples@.take(0) =~= Seq::<i16>::empty());
    while i < samples.len()
        invariant
            i <= samples@.len(),
            r@ == pcm(samples@.take(i as int)),
        decreases samples.len() - i,
    {
        let x: i32 = samples[i] as i32;
        let u: i32 = if x < 0 {
            x + 65536
        } else {
            x
        };
        let ghost before = r@;
        r.push((u % 256) as u8);
        r.push((u / 256) as u8);
        proof {
            assert(samples@.take(i + 1).drop_last() =~= samples@.take(i as int));
            assert(r@ =~= before + le16(x as int));
        }
        i += 1;
    }
    assert(samples@.take(i as int) =~= samples@);
    r
}

/// The samples in bytes.
pub fn pcm_to_samples(bytes: &[u8]) -> (r: Vec<i16>)
    ensures
        r@ == samples_in(bytes@),
{
    let mut r: Vec<i16> = Vec::new();
    let n: usize = bytes.len() / 2;
    let mut i: usize = 0;
    while i < n
        invariant
            n == bytes.len() / 2,
            i <= n,
            r@.len() == i,
            forall|j: int| 0 <= j < i ==> #[trigger] r@[j] == samples_in(bytes@)[j],
        decreases n - i,
    {
        let u: i32 = bytes[2 * i] as i32 + 256 * bytes[2 * i + 1] as i32;
        let x: i16 = if u >= 32768 {
            (u - 65536) as i16
        } else {
            u as i16
        };
        r.push(x);
        i += 1;
    }
    assert(r@ =~= samples_in(bytes@));
    r
}

proof fn lemma_pcm(samples: Seq<i16>)
    ensures
        pcm(samples).len() == 2 * samples.len(),
        forall|i: int|
            #![trigger samples[i]]
            0 <= i < samples.len() ==> pcm(samples)[2 * i] == le16(samples[i] as int)[0] && pcm(
                samples,
            )[2 * i + 1] == le16(samples[i] as int)[1],
    decreases samples.len(),
{
    if samples.len() > 0 {
        let init = samples.drop_last();
        lemma_pcm(init);
        assert forall|i: int| #![trigger samples[i]] 0 <= i < samples.len() implies pcm(
            samples,
        )[2 * i] == le16(samples[i] as int)[0] && pcm(samples)[2 * i + 1] == le16(
            samples[i] as int,
        )[1] by {
            if i < init.len() {
                assert(init[i] == samples[i]);
            }
        }
    }
}

/// Samples written as bytes are read back.
pub proof fn law_pcm_reads_back(samples: Seq<i16>)
    ensures
        pcm(samples).len() == 2 * samples.len(),
        samples_in(pcm(samples)) == samples,
{
    lemma_pcm(samples);
    assert forall|i: int| 0 <= i < samples.len() implies #[trigger] samples_in(pcm(samples))[i]
        == samples[i] by {
        let x = samples[i] as int;
        let u = if x < 0 { x + 65536 } else { x };
        assert(le16(x)[0] == u % 256);
        assert(le16(x)[1] == u / 256);
        assert(sample_of(le16(x)[0], le16(x)[1]) == x);
    }
    assert(samples_in(pcm(samples)) =~= samples);
}

// ---------------------------------------------------------------------------------------------
// WAV files

/// A 32-bit number in four bytes, the low one first.
pub open spec fn le32(x: int) -> Seq<u8> {
    seq![
        (x % 256) as u8,
        (x / 256 % 256) as u8,
        (x / 65536 % 256) as u8,
        (x / 16777216) as u8,
    ]
}

/// A file of one channel of 16-bit samples.
pub open spec fn wav(samples: Seq<i16>, sample_rate: int) -> Seq<u8> {
    let size = 2 * samples.len() as int;
    seq![0x52u8, 0x49, 0x46, 0x46] + le32(36 + size) + seq![0x57u8, 0x41, 0x56, 0x45] + seq![
        0x66u8,
        0x6d,
        0x74,
        0x20,
    ] + le32(16) + le16(1) + le16(1) + le32(sample_rate) + le32(2 * sample_rate) + le16(2) + le16(
        16,
    ) + seq![0x64u8, 0x61, 0x74, 0x61] + le32(size) + pcm(samples)
}

/// `hound::WavWriter` on a buffer, with `write_sample` for each sample and `finalize`, for one
/// channel of 16-bit integers: the header of 44 bytes that the crate writes for at most two
/// channels of at most 16 bits ("RIFF", the size of the rest, "WAVE", the format, "data", the size
/// of the samples), then the samples, low byte first. The writer computes sizes and the byte rate
/// in 32 bits, and divides by the rate.
#[verifier::external_body]
fn write_wav_bytes(samples: &[i16], sample_rate: u32) -> (r: Vec<u8>)
    requires
        0 < sample_rate <= 0x7fff_ffff,
        36 + 2 * samples@.len() <= u32::MAX,
    ensures
        r@ == wav(samples@, sample_rate as int),
{
    let format = hound::SampleFormat::Int;
    let spec = hound::WavSpec { channels: 1, sample_rate, bits_per_sample: 16, sample_format: format };
    let mut cursor = std::io::Cursor::new(Vec::new());
    let mut writer = hound::WavWriter::new(&mut cursor, spec).unwrap();
    for &s in samples {
        writer.write_sample(s).unwrap();
    }
    writer.finalize().unwrap();
    cursor.into_inner()
}

/// A WAV file with one channel of samples.
pub fn encode_wav(samples: &[i16], sample_rate: u32) -> (r: Vec<u8>)
    requires
        0 < sample_rate <= 0x7fff_ffff,
        36 + 2 * samples@.len() <= u32::MAX,
    ensures
        r@ == wav(samples@, sample_rate as int),
{
    write_wav_bytes(samples, sample_rate)
}

/// A WAV file holds its samples: they are read back behind the header.
pub proof fn law_wav_holds_samples(samples: Seq<i16>, sample_rate: int)
    ensures
        wav(samples, sample_rate).len() == 44 + 2 * samples.len(),
        samples_in(wav(samples, sample_rate).skip(44)) == samples,
{
    law_pcm_reads_back(samples);
    assert(wav(samples, sample_rate).skip(44) =~= pcm(samples));
}

/// The MIME type that goes with the extension of a file.
pub open spec fn mime_of(extension: Option<Seq<char>>) -> Seq<char> {
    if extension == Some("flac"@) {
        "audio/flac"@
    } else if extension == Some("ogg"@) || extension == Some("oga"@) {
        "audio/ogg"@
    } else if extension == Some("mp3"@) {
        "audio/mpeg"@
    } else {
        "audio/wav"@
    }
}

/// The MIME type that goes with the extension of a file.
pub fn audio_mime(extension: Option<&str>) -> (r: &'static str)
    ensures
        r@ == mime_of(json::opt_str(extension)),
{
    match extension {
        Some(e) => if same(e, "flac") {
            "audio/flac"
        } else if same(e, "ogg") || same(e, "oga") {
            "audio/ogg"
        } else if same(e, "mp3") {
            "audio/mpeg"
        } else {
            "audio/wav"
        },
        None => "audio/wav",
    }
}

// ---------------------------------------------------------------------------------------------
// Length and loudness

/// How long a capture is, in milliseconds, where a rate of 0 counts as 1.
pub open spec fn capture_ms(samples: nat, sample_rate: nat) -> nat {
    samples * 1000 / if sample_rate == 0 { 1nat } else { sample_rate }
}

/// How long a capture is, in milliseconds.
pub fn duration_ms(samples: usize, sample_rate: u32) -> (r: u64)
    requires
        samples * 1000 <= u64::MAX,
    ensures
        r == capture_ms(samples as nat, sample_rate as nat),
{
    let rate: u64 = if sample_rate == 0 {
        1
    } else {
        sample_rate as u64
    };
    samples as u64 * 1000 / rate
}

/// The sum of the squares of samples.
pub open spec fn energy(samples: Seq<i16>) -> nat
    decreases samples.len(),
{
    if samples.len() == 0 {
        0
    } else {
        energy(samples.drop_last()) + (samples.last() * samples.last()) as nat
    }
}

/// Below this root mean square a capture counts as silence. It does not grow with the length of
/// the capture, as the peak does; it is low, since push-to-talk is deliberate.
pub const SILENCE_RMS: u64 = 12;

/// Whether a capture counts as silence: there is nothing in it, or the mean of the squares is
/// below the square of the threshold.
pub open spec fn silent(samples: Seq<i16>) -> bool {
    samples.len() == 0 || energy(samples) < SILENCE_RMS * SILENCE_RMS * samples.len()
}

/// Whether a capture counts as silence.
pub fn is_silent(samples: &[i16]) -> (r: bool)
    ensures
        r == silent(samples@),
{
    let mut sum: u128 = 0;
    let mut i: usize = 0;
    assert(samples@.take(0) =~= Seq::<i16>::empty());
    while i < samples.len()
        invariant
            i <= samples@.len(),
            sum == energy(samples@.take(i as int)),
            sum <= i * 0x4000_0000,
        decreases samples.len() - i,
    {
        let x: i64 = samples[i] as i64;
        assert(0 <= x * x <= 0x4000_0000) by (nonlinear_arith)
            requires
                -32768 <= x <= 32767,
        ;
        assert(samples@.take(i + 1).drop_last() =~= samples@.take(i as int));
        sum = sum + (x * x) as u128;
        i += 1;
    }
    assert(samples@.take(i as int) =~= samples@);
    samples.len() == 0 || sum < 144 * samples.len() as u128
}

/// Louder captures are not silence: where every sample is at least as far from zero as the
/// threshold, nothing is dropped.
pub proof fn law_loud_captures_are_kept(samples: Seq<i16>)
    requires
        samples.len() > 0,
        forall|i: int|
            0 <= i < samples.len() ==> (#[trigger] samples[i] >= 12 || samples[i] <= -12),
    ensures
        !silent(samples),
{
    lemma_energy(samples);
}

proof fn lemma_energy(samples: Seq<i16>)
    requires
        forall|i: int|
            0 <= i < samples.len() ==> (#[trigger] samples[i] >= 12 || samples[i] <= -12),
    ensures
        energy(samples) >= 144 * samples.len(),
    decreases samples.len(),
{
    if samples.len() > 0 {
        let x = samples.last() as int;
        assert(samples[samples.len() - 1] == x);
        assert(x * x >= 144) by (nonlinear_arith)
            requires
                x >= 12 || x <= -12,
        ;
        assert forall|i: int| 0 <= i < samples.drop_last().len() implies (
        #[trigger] samples.drop_last()[i] >= 12 || samples.drop_last()[i] <= -12) by {
            assert(samples.drop_last()[i] == samples[i]);
        }
        lemma_energy(samples.drop_last());
    }
}

/// The energy of a capture is that of its parts together, and that of a sample is its square: every
/// sample counts, wherever it stands.
pub proof fn law_every_sample_counts(a: Seq<i16>, b: Seq<i16>, x: i16)
    ensures
        energy(a + b) == energy(a) + energy(b),
        energy(seq![x]) == x * x,
    decreases b.len(),
{
    let one = seq![x];
    assert(one.drop_last() =~= Seq::<i16>::empty());
    assert(0 <= x * x) by (nonlinear_arith);
    assert(energy(one) == x * x) by {
        assert(energy(one.drop_last()) == 0);
    }
    if b.len() == 0 {
        assert(a + b =~= a);
    } else {
        law_every_sample_counts(a, b.drop_last(), x);
        assert((a + b).drop_last() =~= a + b.drop_last());
        assert((a + b).last() == b.last());
    }
}

/// A capture counts as silence exactly where it is empty or the mean of the squares of all of its
/// samples is below 144, the square of 12. So a part that is loud enough for the whole keeps it,
/// wherever it stands; what is not silence stays so with more that is not; and silence with more
/// silence is silence.
pub proof fn law_silence_is_judged_by_the_whole(a: Seq<i16>, b: Seq<i16>)
    ensures
        silent(a) <==> a.len() == 0 || energy(a) < 144 * a.len(),
        energy(b) >= 144 * (a + b).len() && (a + b).len() > 0 ==> !silent(a + b),
        energy(a) >= 144 * (a + b).len() && (a + b).len() > 0 ==> !silent(a + b),
        !silent(a) && !silent(b) ==> !silent(a + b),
        silent(a) && silent(b) ==> silent(a + b),
{
    law_every_sample_counts(a, b, 0);
}

/// Speech at the end of a capture keeps it: samples that are all at least 12 from zero, behind what
/// is not silence, leave it so.
pub proof fn law_louder_samples_never_silence(a: Seq<i16>, b: Seq<i16>)
    requires
        !silent(a),
        forall|i: int| 0 <= i < b.len() ==> (#[trigger] b[i] >= 12 || b[i] <= -12),
    ensures
        !silent(a + b),
        !silent(b + a),
{
    lemma_energy(b);
    law_every_sample_counts(a, b, 0);
    law_every_sample_counts(b, a, 0);
}

/// A capture of so many samples lasts as long as they do at its rate, rounded down to milliseconds.
pub proof fn law_duration_is_that_of_the_samples(samples: nat, sample_rate: nat)
    requires
        sample_rate > 0,
    ensures
        capture_ms(samples, sample_rate) * sample_rate <= 1000 * samples,
        1000 * samples < (capture_ms(samples, sample_rate) + 1) * sample_rate,
{
    let n = (samples * 1000) as int;
    let d = sample_rate as int;
    assert(n / d * d <= n < (n / d + 1) * d) by (nonlinear_arith)
        requires
            d > 0,
            n >= 0,
    ;
}

// ---------------------------------------------------------------------------------------------
// Devices

/// The device that a capture uses.
pub enum DeviceChoice {
    /// The system's default.
    Default,
    /// The one at this position.
    At(usize),
    /// There is none of that name: the message says so.
    Missing(String),
}

/// The device that a capture uses, given the names of those there are: without a name the default,
/// else the first of that name. A device without a name is never chosen.
pub fn choose_device(name: &str, devices: &[Option<String>]) -> (r: DeviceChoice)
    ensures
        if name@.len() == 0 {
            r is Default
        } else {
            match r {
                DeviceChoice::At(i) => {
                    &&& i < devices@.len()
                    &&& devices@[i as int] is Some
                    &&& devices@[i as int]->0@ == name@
                    &&& forall|j: int|
                        0 <= j < i ==> (#[trigger] devices@[j] is None || devices@[j]->0@ != name@)
                },
                DeviceChoice::Missing(m) => {
                    &&& m@ == "input device '"@ + name@ + "' not found"@
                    &&& forall|j: int|
                        0 <= j < devices@.len() ==> (#[trigger] devices@[j] is None
                            || devices@[j]->0@ != name@)
                },
                DeviceChoice::Default => false,
            }
        },
{
    if name.is_empty() {
        return DeviceChoice::Default;
    }
    let mut i: usize = 0;
    while i < devices.len()
        invariant
            name@.len() > 0,
            i <= devices@.len(),
            forall|j: int|
                0 <= j < i ==> (#[trigger] devices@[j] is None || devices@[j]->0@ != name@),
        decreases devices.len() - i,
    {
        if let Some(d) = &devices[i] {
            if same(d.as_str(), name) {
                return DeviceChoice::At(i);
            }
        }
        i += 1;
    }
    DeviceChoice::Missing("input device '".to_owned().concat(name).concat("' not found"))
}

// ---------------------------------------------------------------------------------------------
// Capture formats

/// A capture format that a device offers, over a range of rates.
#[derive(Clone, Copy)]
pub struct CaptureRange {
    pub channels: u16,
    /// Whether samples come as 32-bit floating-point numbers.
    pub is_float: bool,
    pub min_rate: u32,
    pub max_rate: u32,
}

/// Whether a format can be used.
pub open spec fn usable(c: CaptureRange) -> bool {
    c.channels <= CHANNELS && c.is_float
}

/// Whether the preferred rate is in the range of a format.
pub open spec fn has_preferred(c: CaptureRange) -> bool {
    c.min_rate <= PREFERRED_RATE <= c.max_rate
}

/// How good a format is: those with the preferred rate come first, then those that come closest
/// to it from below.
pub open spec fn merit(c: CaptureRange) -> (int, int) {
    if has_preferred(c) {
        (1, PREFERRED_RATE as int)
    } else {
        (0, if c.max_rate <= PREFERRED_RATE { c.max_rate as int } else { PREFERRED_RATE as int })
    }
}

/// Whether merit `a` is less than merit `b`.
pub open spec fn worse(a: (int, int), b: (int, int)) -> bool {
    a.0 < b.0 || (a.0 == b.0 && a.1 < b.1)
}

/// Whether format `i` is chosen: it can be used, none that can is better, and none that is as good
/// comes after it.
pub open spec fn chosen(ranges: Seq<CaptureRange>, i: int) -> bool {
    &&& 0 <= i < ranges.len()
    &&& usable(ranges[i])
    &&& forall|j: int|
        0 <= j < ranges.len() && usable(#[trigger] ranges[j]) ==> {
            &&& !worse(merit(ranges[i]), merit(ranges[j]))
            &&& j > i ==> worse(merit(ranges[j]), merit(ranges[i]))
        }
}

/// The rate at which a format is used.
pub open spec fn rate_of(c: CaptureRange) -> u32 {
    if has_preferred(c) {
        PREFERRED_RATE
    } else {
        let low = if c.max_rate <= PREFERRED_RATE { c.max_rate } else { PREFERRED_RATE };
        if low >= c.min_rate {
            low
        } else {
            c.min_rate
        }
    }
}

fn merit_of(c: CaptureRange) -> (r: (u8, u32))
    ensures
        (r.0 as int, r.1 as int) == merit(c),
{
    if c.min_rate <= PREFERRED_RATE && PREFERRED_RATE <= c.max_rate {
        (1, PREFERRED_RATE)
    } else if c.max_rate <= PREFERRED_RATE {
        (0, c.max_rate)
    } else {
        (0, PREFERRED_RATE)
    }
}

fn rate_for(c: CaptureRange) -> (r: u32)
    ensures
        r == rate_of(c),
{
    if c.min_rate <= PREFERRED_RATE && PREFERRED_RATE <= c.max_rate {
        PREFERRED_RATE
    } else {
        let low: u32 = if c.max_rate <= PREFERRED_RATE {
            c.max_rate
        } else {
            PREFERRED_RATE
        };
        if low >= c.min_rate {
            low
        } else {
            c.min_rate
        }
    }
}

/// Chooses a capture format among those of a device: its position and the rate. None where no
/// format can be used.
pub fn choose_format(ranges: &[CaptureRange]) -> (r: Option<(usize, u32)>)
    ensures
        match r {
            Some((i, rate)) => chosen(ranges@, i as int) && rate == rate_of(ranges@[i as int]),
            None => forall|j: int| 0 <= j < ranges@.len() ==> !usable(#[trigger] ranges@[j]),
        },
{
    let mut best: Option<usize> = None;
    let mut i: usize = 0;
    assert(forall|j: int| 0 <= j < 0 ==> !usable(#[trigger] ranges@.take(0)[j]));
    while i < ranges.len()
        invariant
            i <= ranges@.len(),
            match best {
                Some(b) => b < i && chosen(ranges@.take(i as int), b as int),
                None => forall|j: int| 0 <= j < i ==> !usable(#[trigger] ranges@[j]),
            },
        decreases ranges.len() - i,
    {
        let c: CaptureRange = ranges[i];
        let ghost seen = ranges@.take(i as int);
        let ghost next = ranges@.take(i + 1);
        proof {
            assert(forall|j: int| 0 <= j < i ==> #[trigger] next[j] == seen[j]);
            assert(next[i as int] == c);
        }
        if c.channels <= CHANNELS && c.is_float {
            match best {
                None => {
                    best = Some(i);
                    assert(chosen(next, i as int));
                },
                Some(b) => {
                    let have: (u8, u32) = merit_of(ranges[b]);
                    let offer: (u8, u32) = merit_of(c);
                    assert(seen[b as int] == ranges@[b as int]);
                    if offer.0 > have.0 || (offer.0 == have.0 && offer.1 >= have.1) {
                        best = Some(i);
                        assert(chosen(next, i as int));
                    } else {
                        assert(chosen(next, b as int));
                    }
                },
            }
        } else {
            assert(best is Some ==> chosen(next, best->0 as int));
        }
        i += 1;
    }
    assert(ranges@.take(i as int) =~= ranges@);
    match best {
        Some(b) => Some((b, rate_for(ranges[b]))),
        None => None,
    }
}

/// The chosen rate is one that the format offers, and the preferred one wherever a usable format
/// offers that.
pub proof fn law_chosen_rate_is_offered(ranges: Seq<CaptureRange>, i: int, j: int)
    requires
        chosen(ranges, i),
        ranges[i].min_rate <= ranges[i].max_rate,
        0 <= j < ranges.len(),
    ensures
        ranges[i].min_rate <= rate_of(ranges[i]) <= ranges[i].max_rate,
        usable(ranges[j]) && has_preferred(ranges[j]) ==> rate_of(ranges[i]) == PREFERRED_RATE,
{
}

/// A sample is two bytes, the low one first, and the samples of two captures are those of the first
/// and those of the second.
pub proof fn law_low_byte_comes_first(x: i16, a: Seq<i16>, b: Seq<i16>)
    ensures
        le16(x as int).len() == 2,
        (le16(x as int)[0] + 256 * le16(x as int)[1] - x) % 65536 == 0,
        sample_of(le16(x as int)[0], le16(x as int)[1]) == x,
        pcm(a + b) == pcm(a) + pcm(b),
        pcm(seq![x]) == le16(x as int),
    decreases b.len(),
{
    assert(seq![x].drop_last() =~= Seq::<i16>::empty());
    reveal_with_fuel(pcm, 2);
    assert(Seq::<u8>::empty() + le16(x as int) =~= le16(x as int));
    if b.len() > 0 {
        law_low_byte_comes_first(x, a, b.drop_last());
        assert((a + b).drop_last() =~= a + b.drop_last());
        assert(pcm(a + b) =~= pcm(a) + pcm(b));
    } else {
        assert(a + b =~= a);
        assert(pcm(a) + pcm(b) =~= pcm(a));
    }
}

/// The type of a file goes by its extension, and one that is not known is taken for a WAV file.
pub proof fn law_type_goes_by_extension(e: Seq<char>)
    ensures
        mime_of(Some("flac"@)) == "audio/flac"@,
        mime_of(Some("ogg"@)) == "audio/ogg"@,
        mime_of(Some("oga"@)) == "audio/ogg"@,
        mime_of(Some("mp3"@)) == "audio/mpeg"@,
        mime_of(None) == "audio/wav"@,
        e != "flac"@ && e != "ogg"@ && e != "oga"@ && e != "mp3"@ ==> mime_of(Some(e))
            == "audio/wav"@,
{
    reveal_strlit("flac");
    reveal_strlit("ogg");
    reveal_strlit("oga");
    reveal_strlit("mp3");
    assert("flac"@.len() == 4 && "ogg"@[0] == 'o' && "oga"@[0] == 'o' && "mp3"@[0] == 'm');
}

/// A format is usable where it has one channel at most of floating-point samples. The one that is
/// chosen has 48 kHz where a usable one does, and else comes closest to it from below. Of equals it
/// is the last.
pub proof fn law_chosen_format_is_the_best(ranges: Seq<CaptureRange>, i: int, j: int)
    requires
        chosen(ranges, i),
        0 <= j < ranges.len(),
        ranges[j].channels <= 1,
        ranges[j].is_float,
    ensures
        ranges[i].channels <= 1 && ranges[i].is_float,
        ranges[j].min_rate <= 48000 <= ranges[j].max_rate ==> ranges[i].min_rate <= 48000
            <= ranges[i].max_rate,
        ({
            let both = |n: int| ranges[n].min_rate <= 48000 <= ranges[n].max_rate;
            let near = |n: int| if ranges[n].max_rate < 48000 { ranges[n].max_rate as int } else { 48000 };
            &&& !both(i) ==> near(j) <= near(i)
            &&& j > i ==> (both(i) && !both(j)) || (!both(i) && near(j) < near(i))
        }),
{
    assert(usable(ranges[j]));
}

/// A format is used at 48 kHz where it has that rate, and else at the rate it has that is closest.
pub proof fn law_rate_is_the_closest(c: CaptureRange, rate: u32)
    requires
        c.min_rate <= rate <= c.max_rate,
    ensures
        c.min_rate <= 48000 <= c.max_rate ==> rate_of(c) == 48000,
        c.max_rate < 48000 ==> rate_of(c) == c.max_rate,
        c.min_rate > 48000 ==> rate_of(c) == c.min_rate,
        vstd::math::abs(rate_of(c) - 48000) <= vstd::math::abs(rate - 48000),
{
}

/// The number in the four bytes from `i` on, the lowest first.
pub open spec fn number_at(bytes: Seq<u8>, i: int) -> int {
    bytes[i] + 256 * bytes[i + 1] + 65536 * bytes[i + 2] + 16777216 * bytes[i + 3]
}

/// The header of a WAV file says what follows it: one channel of samples of 16 bits, at this rate
/// and of this size.
pub proof fn law_wav_header_says_what_follows(samples: Seq<i16>, sample_rate: int)
    requires
        0 < sample_rate <= 0x7fff_ffff,
        36 + 2 * samples.len() <= u32::MAX,
    ensures
        ({
            let w = wav(samples, sample_rate);
            &&& number_at(w, 4) == w.len() - 8
            &&& number_at(w, 24) == sample_rate
            &&& number_at(w, 28) == 2 * sample_rate
            &&& number_at(w, 40) == w.len() - 44
            &&& w[20] + 256 * w[21] == 1
            &&& w[22] + 256 * w[23] == 1
            &&& w[32] + 256 * w[33] == 2
            &&& w[34] + 256 * w[35] == 16
        }),
{
    law_wav_holds_samples(samples, sample_rate);
    lemma_le32(36 + 2 * samples.len() as int);
    lemma_le32(sample_rate);
    lemma_le32(2 * sample_rate);
    lemma_le32(2 * samples.len() as int);
    lemma_le32(16);
}

proof fn lemma_le32(x: int)
    requires
        0 <= x <= u32::MAX,
    ensures
        number_at(le32(x), 0) == x,
        le32(x).len() == 4,
{
}

/// Where a device has a usable format one is chosen, and only one.
pub proof fn law_usable_format_is_chosen(ranges: Seq<CaptureRange>, j: int)
    requires
        0 <= j < ranges.len(),
        ranges[j].channels <= 1,
        ranges[j].is_float,
    ensures
        exists|i: int| #[trigger] chosen(ranges, i),
        forall|i: int, k: int|
            #[trigger] chosen(ranges, i) && #[trigger] chosen(ranges, k) ==> i == k,
    decreases ranges.len(),
{
    let init = ranges.drop_last();
    let n = ranges.len() - 1;
    assert(forall|i: int| 0 <= i < n ==> init[i] == #[trigger] ranges[i]);
    assert(usable(ranges[j]));
    if exists|k: int| 0 <= k < n && usable(#[trigger] ranges[k]) {
        let k = choose|k: int| 0 <= k < n && usable(#[trigger] ranges[k]);
        law_usable_format_is_chosen(init, k);
        let i = choose|i: int| #[trigger] chosen(init, i);
        assert(ranges[i] == init[i]);
        if usable(ranges[n]) && !worse(merit(ranges[n]), merit(ranges[i])) {
            assert forall|m: int| 0 <= m < ranges.len() && usable(#[trigger] ranges[m]) implies {
                &&& !worse(merit(ranges[n]), merit(ranges[m]))
                &&& m > n ==> worse(merit(ranges[m]), merit(ranges[n]))
            } by {
                if m < n {
                    assert(init[m] == ranges[m]);
                }
            }
            assert(chosen(ranges, n));
        } else {
            assert forall|m: int| 0 <= m < ranges.len() && usable(#[trigger] ranges[m]) implies {
                &&& !worse(merit(ranges[i]), merit(ranges[m]))
                &&& m > i ==> worse(merit(ranges[m]), merit(ranges[i]))
            } by {
                if m < n {
                    assert(init[m] == ranges[m]);
                }
            }
            assert(chosen(ranges, i));
        }
    } else {
        assert(j == n);
        assert(chosen(ranges, n));
    }
    assert forall|i: int, k: int|
        #[trigger] chosen(ranges, i) && #[trigger] chosen(ranges, k) implies i == k by {
        assert(usable(ranges[i]) && usable(ranges[k]));
    }
}

} // verus!
