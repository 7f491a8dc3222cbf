use vstd::prelude::*;

verus! {

use vstd::string::{StringExecFns, StringSliceAdditionalSpecFns};

/// Samples per Opus frame at 48 kHz: 20 milliseconds.
pub const OPUS_FRAME_SAMPLES: usize = 960;

/// A 16-bit value as its two little-endian bytes.
pub open spec fn spec_le16(v: int) -> Seq<u8> {
    seq![(v % 256) as u8, ((v / 256) % 256) as u8]
}

/// A 32-bit value as its four little-endian bytes.
pub open spec fn spec_le32(v: int) -> Seq<u8> {
    seq![
        (v % 256) as u8,
        ((v / 256) % 256) as u8,
        ((v / 0x1_0000) % 256) as u8,
        ((v / 0x100_0000) % 256) as u8,
    ]
}

/// The bytes of the `OpusHead` magic.
pub open spec fn spec_opus_head_magic() -> Seq<u8> {
    seq![0x4Fu8, 0x70u8, 0x75u8, 0x73u8, 0x48u8, 0x65u8, 0x61u8, 0x64u8]
}

/// The bytes of the `OpusTags` magic.
pub open spec fn spec_opus_tags_magic() -> Seq<u8> {
    seq![0x4Fu8, 0x70u8, 0x75u8, 0x73u8, 0x54u8, 0x61u8, 0x67u8, 0x73u8]
}

/// The bytes of the `TIMESTAMP=` comment prefix.
pub open spec fn spec_timestamp_prefix() -> Seq<u8> {
    seq![0x54u8, 0x49u8, 0x4Du8, 0x45u8, 0x53u8, 0x54u8, 0x41u8, 0x4Du8, 0x50u8, 0x3Du8]
}

/// What an Opus identification header holds: the magic, version one,
/// the channel count, the pre-skip and input sample rate in little
/// endian, zero output gain, and channel mapping family zero.
pub open spec fn spec_opus_head(sample_rate_hz: int, channels: u8, preskip: int) -> Seq<u8> {
    spec_opus_head_magic() + seq![1u8, channels] + spec_le16(preskip) + spec_le32(sample_rate_hz)
        + spec_le16(0) + seq![0u8]
}

fn push_byte(v: &mut Vec<u8>, b: u8)
    ensures
        final(v)@ == old(v)@ + seq![b],
{
    v.push(b);
    assert(v@ =~= old(v)@ + seq![b]);
}

fn push_le16(v: &mut Vec<u8>, x: u16)
    ensures
        final(v)@ == old(v)@ + spec_le16(x as int),
{
    v.push((x % 256) as u8);
    v.push(((x / 256) % 256) as u8);
    assert(v@ =~= old(v)@ + spec_le16(x as int));
}

fn push_le32(v: &mut Vec<u8>, x: u32)
    ensures
        final(v)@ == old(v)@ + spec_le32(x as int),
{
    v.push((x % 256) as u8);
    v.push(((x / 256) % 256) as u8);
    v.push(((x / 0x1_0000) % 256) as u8);
    v.push(((x / 0x100_0000) % 256) as u8);
    assert(v@ =~= old(v)@ + spec_le32(x as int));
}

fn push_bytes(v: &mut Vec<u8>, s: &[u8])
    requires
        old(v)@.len() + s@.len() <= usize::MAX,
    ensures
        final(v)@ == old(v)@ + s@,
{
    let mut j: usize = 0;
    while j < s.len()
        invariant
            j <= s@.len(),
            v@ =~= old(v)@ + s@.subrange(0, j as int),
            v@.len() == old(v)@.len() + j,
        decreases s@.len() - j,
    {
        let x = s[j];
        v.push(x);
        j = j + 1;
        assert(v@ =~= old(v)@ + s@.subrange(0, j as int));
    }
    assert(v@ =~= old(v)@ + s@);
}

/// Build the Opus identification header packet for a recording.
pub fn build_opus_head(sample_rate_hz: u32, channels: u8, preskip: u16) -> (r: Vec<u8>)
    ensures
        r@ == spec_opus_head(sample_rate_hz as int, channels, preskip as int),
{
    let mut head: Vec<u8> = Vec::new();
    push_byte(&mut head, 0x4F);
    push_byte(&mut head, 0x70);
    push_byte(&mut head, 0x75);
    push_byte(&mut head, 0x73);
    push_byte(&mut head, 0x48);
    push_byte(&mut head, 0x65);
    push_byte(&mut head, 0x61);
    push_byte(&mut head, 0x64);
    push_byte(&mut head, 1);
    push_byte(&mut head, channels);
    push_le16(&mut head, preskip);
    push_le32(&mut head, sample_rate_hz);
    push_le16(&mut head, 0);
    push_byte(&mut head, 0);
    proof {
        assert(head@ =~= spec_opus_head(sample_rate_hz as int, channels, preskip as int));
    }
    head
}

/// What an Opus comment header holds: the magic, the vendor string with
/// its length, and one `TIMESTAMP=` comment with its length.
pub open spec fn spec_opus_tags(vendor: Seq<u8>, timestamp: Seq<u8>) -> Seq<u8> {
    spec_opus_tags_magic() + spec_le32(vendor.len() as int) + vendor + spec_le32(1) + spec_le32(
        10 + timestamp.len() as int,
    ) + spec_timestamp_prefix() + timestamp
}

/// Build the Opus comment header packet: the vendor string and a single
/// timestamp comment.
pub fn build_opus_tags(vendor: &str, timestamp: &str) -> (r: Vec<u8>)
    requires
        vendor.spec_bytes().len() <= u32::MAX,
        10 + timestamp.spec_bytes().len() <= u32::MAX,
        34 + vendor.spec_bytes().len() + timestamp.spec_bytes().len() <= usize::MAX,
    ensures
        r@ == spec_opus_tags(vendor.spec_bytes(), timestamp.spec_bytes()),
{
    let mut tags: Vec<u8> = Vec::new();
    push_byte(&mut tags, 0x4F);
    push_byte(&mut tags, 0x70);
    push_byte(&mut tags, 0x75);
    push_byte(&mut tags, 0x73);
    push_byte(&mut tags, 0x54);
    push_byte(&mut tags, 0x61);
    push_byte(&mut tags, 0x67);
    push_byte(&mut tags, 0x73);
    let vbytes = vendor.as_bytes();
    push_le32(&mut tags, vbytes.len() as u32);
    push_bytes(&mut tags, vbytes);
    push_le32(&mut tags, 1);
    let tbytes = timestamp.as_bytes();
    push_le32(&mut tags, (tbytes.len() + 10) as u32);
    push_byte(&mut tags, 0x54);
    push_byte(&mut tags, 0x49);
    push_byte(&mut tags, 0x4D);
    push_byte(&mut tags, 0x45);
    push_byte(&mut tags, 0x53);
    push_byte(&mut tags, 0x54);
    push_byte(&mut tags, 0x41);
    push_byte(&mut tags, 0x4D);
    push_byte(&mut tags, 0x50);
    push_byte(&mut tags, 0x3D);
    push_bytes(&mut tags, tbytes);
    proof {
        assert(tags@ =~= spec_opus_tags(vendor.spec_bytes(), timestamp.spec_bytes()));
    }
    tags
}

/// Byte-wise lexicographic order on names.
pub open spec fn spec_bytes_less(a: Seq<u8>, b: Seq<u8>) -> bool
    decreases a.len(),
{
    if b.len() == 0 {
        false
    } else if a.len() == 0 {
        true
    } else if a[0] != b[0] {
        a[0] < b[0]
    } else {
        spec_bytes_less(a.drop_first(), b.drop_first())
    }
}

fn bytes_less(a: &[u8], b: &[u8]) -> (r: bool)
    ensures
        r == spec_bytes_less(a@, b@),
    decreases a@.len(),
{
    let mut i: usize = 0;
    proof {
        assert(a@.subrange(0, a@.len() as int) =~= a@);
        assert(b@.subrange(0, b@.len() as int) =~= b@);
    }
    loop
        invariant
            i <= a@.len(),
            i <= b@.len(),
            spec_bytes_less(a@, b@) == spec_bytes_less(
                a@.subrange(i as int, a@.len() as int),
                b@.subrange(i as int, b@.len() as int),
            ),
        ensures
            spec_bytes_less(a@, b@) == ({
                let ra = a@.subrange(i as int, a@.len() as int);
                let rb = b@.subrange(i as int, b@.len() as int);
                if rb.len() == 0 {
                    false
                } else if ra.len() == 0 {
                    true
                } else {
                    ra[0] < rb[0]
                }
            }),
        decreases a@.len() - i,
    {
        if i >= b.len() {
            break ;
        }
        if i >= a.len() {
            break ;
        }
        let x = a[i];
        let y = b[i];
        if x != y {
            proof {
                assert(a@.subrange(i as int, a@.len() as int)[0] == x);
                assert(b@.subrange(i as int, b@.len() as int)[0] == y);
            }
            break ;
        }
        proof {
            let ra = a@.subrange(i as int, a@.len() as int);
            let rb = b@.subrange(i as int, b@.len() as int);
            assert(ra[0] == x && rb[0] == y);
            assert(ra.drop_first() =~= a@.subrange(i as int + 1, a@.len() as int));
            assert(rb.drop_first() =~= b@.subrange(i as int + 1, b@.len() as int));
        }
        i = i + 1;
    }
    if i >= b.len() {
        false
    } else if i >= a.len() {
        true
    } else {
        a[i] < b[i]
    }
}

/// Whether a name ends in `.ogg`.
pub open spec fn spec_is_ogg_name(name: Seq<u8>) -> bool {
    name.len() >= 4 && name.subrange(name.len() - 4, name.len() as int) =~= seq![
        0x2Eu8,
        0x6Fu8,
        0x67u8,
        0x67u8,
    ]
}

fn is_ogg_name(name: &[u8]) -> (r: bool)
    ensures
        r == spec_is_ogg_name(name@),
{
    if name.len() < 4 {
        proof {
            assert(!spec_is_ogg_name(name@));
        }
        return false;
    }
    let n = name.len();
    let r = name[n - 4] == 0x2E && name[n - 3] == 0x6F && name[n - 2] == 0x67 && name[n - 1]
        == 0x67;
    proof {
        let tail = name@.subrange(name@.len() - 4, name@.len() as int);
        assert(tail[0] == name@[name@.len() - 4]);
        assert(tail[1] == name@[name@.len() - 3]);
        assert(tail[2] == name@[name@.len() - 2]);
        assert(tail[3] == name@[name@.len() - 1]);
        if r {
            assert(tail =~= seq![0x2Eu8, 0x6Fu8, 0x67u8, 0x67u8]);
        }
    }
    r
}

/// The index of the latest recording after the first `i` names: among
/// the names ending in `.ogg`, the byte-wise greatest, the earliest of
/// equals.
pub open spec fn spec_latest_ogg(names: Seq<Seq<u8>>, i: int) -> Option<int>
    decreases i,
{
    if i <= 0 {
        None
    } else {
        let prev = spec_latest_ogg(names, i - 1);
        if !spec_is_ogg_name(names[i - 1]) {
            prev
        } else {
            match prev {
                Some(p) => if spec_bytes_less(names[p], names[i - 1]) {
                    Some(i - 1)
                } else {
                    prev
                },
                None => Some(i - 1),
            }
        }
    }
}

/// Pick the latest recording among file names by name order: the
/// byte-wise greatest name ending in `.ogg`, or `None` when there is
/// none.
pub fn latest_ogg_name(names: &Vec<Vec<u8>>) -> (r: Option<usize>)
    ensures
        match r {
            Some(i) => spec_latest_ogg(
                Seq::new(names@.len(), |k: int| names@[k]@),
                names@.len() as int,
            ) == Some(i as int),
            None => spec_latest_ogg(
                Seq::new(names@.len(), |k: int| names@[k]@),
                names@.len() as int,
            ) is None,
        },
{
    let ghost name_seqs = Seq::new(names@.len(), |k: int| names@[k]@);
    let mut latest: Option<usize> = None;
    let mut i: usize = 0;
    while i < names.len()
        invariant
            i <= names@.len(),
            name_seqs == Seq::new(names@.len(), |k: int| names@[k]@),
            ({
                let want = spec_latest_ogg(name_seqs, i as int);
                match latest {
                    Some(p) => want == Some(p as int) && p < i,
                    None => want is None,
                }
            }),
        decreases names@.len() - i,
    {
        let name = &names[i];
        if is_ogg_name(name.as_slice()) {
            match latest {
                Some(p) => {
                    if bytes_less(names[p].as_slice(), name.as_slice()) {
                        latest = Some(i);
                    }
                },
                None => {
                    latest = Some(i);
                },
            }
        }
        i = i + 1;
    }
    latest
}

/// The serial a recording stream is tagged with.
pub fn recording_serial(secs: u64, nanos: u32) -> (r: u32)
    ensures
        r == (secs as u32).wrapping_add(nanos),
{
    (secs as u32).wrapping_add(nanos)
}

/// One padded Opus frame: up to [`OPUS_FRAME_SAMPLES`] samples from the
/// message, the rest exact zeros.
pub fn opus_frame(samples: &[i16], pos: usize, take: usize) -> (r: Vec<i16>)
    requires
        pos + take <= samples@.len(),
        take <= OPUS_FRAME_SAMPLES,
    ensures
        r@.len() == OPUS_FRAME_SAMPLES,
        forall|j: int|
            0 <= j < take ==> r@[j] == samples@[pos + j],
        forall|j: int| take <= j < OPUS_FRAME_SAMPLES ==> r@[j] == 0i16,
{
    let mut frame: Vec<i16> = Vec::new();
    let n = samples.len();
    let mut j: usize = 0;
    while j < take
        invariant
            j <= take,
            samples@.len() == n,
            pos + take <= samples@.len(),
            frame@.len() == j,
            forall|k: int| 0 <= k < j ==> frame@[k] == samples@[pos + k],
        decreases take - j,
    {
        let x = samples[pos + j];
        frame.push(x);
        j = j + 1;
    }
    while j < OPUS_FRAME_SAMPLES
        invariant
            take <= j <= OPUS_FRAME_SAMPLES,
            frame@.len() == j,
            forall|k: int| 0 <= k < take ==> frame@[k] == samples@[pos + k],
            pos + take <= samples@.len(),
            forall|k: int| take <= k < j ==> frame@[k] == 0i16,
        decreases OPUS_FRAME_SAMPLES - j,
    {
        frame.push(0i16);
        j = j + 1;
    }
    frame
}


/// The text the timestamp formatter produces for a capture time; it
/// depends on the two arguments alone.
pub uninterp spec fn timestamp_name(secs: u64, nanos: u32) -> Seq<char>;

/// Relies on the time crate: `format_description::parse`,
/// `OffsetDateTime::from_unix_timestamp`, `replace_nanosecond` and
/// `format` turn a capture time into `year-month-day-hourminsec.subsZ`
/// text, falling back to the raw numbers; the result is a function of
/// the two arguments alone (the clock is read by the caller).
#[verifier::external_body]
fn format_timestamp(secs: u64, nanos: u32) -> (r: String)
    ensures
        r@ == timestamp_name(secs, nanos),
{
    let fmt = "[year]-[month]-[day]-[hour][minute][second].[subsecond digits:4]Z";
    let fallback = format!("{}.{}", secs, nanos);
    match (time::format_description::parse(fmt), time::OffsetDateTime::from_unix_timestamp(
        secs as i64,
    )) {
        (Ok(items), Ok(dt)) => match dt.replace_nanosecond(nanos) {
            Ok(stamped) => stamped.format(&items).unwrap_or(fallback),
            Err(_) => fallback,
        },
        _ => fallback,
    }
}

/// The file name a recording captured at the given time is stored
/// under: `msg-`, the formatted timestamp, `.ogg`.
pub fn recording_filename(secs: u64, nanos: u32) -> (r: String)
    ensures
        r@ == "msg-"@ + timestamp_name(secs, nanos) + ".ogg"@,
{
    let ts = format_timestamp(secs, nanos);
    let head = String::from_str("msg-");
    let with_ts = head.concat(ts.as_str());
    let full = with_ts.concat(".ogg");
    proof {
        assert(full@ =~= "msg-"@ + timestamp_name(secs, nanos) + ".ogg"@);
    }
    full
}


} // verus!
