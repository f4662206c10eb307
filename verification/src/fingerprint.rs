//! Keeping the packs up to date, and fingerprinting an input.
//!
//! A pack is kept in the order of its names, so that a name is found by
//! halving. Names are ordered as `String`s are: by their UTF-8 bytes. A file
//! whose name the pack holds already is skipped; a new one is fingerprinted
//! by the caller and entered at its place in the order. Entries are never
//! taken out, also when their files are gone.
//!
//! Decoding is done by the caller, fingerprinting by the `rusty-chromaprint`
//! crate. Between the two stands [`Fingerprinting`]: it decides which track
//! of an input is used, with which sample rate and number of channels, and
//! what becomes of each packet, and it feeds the fingerprinter the samples
//! of the packets that count.

use crate::matching::preset;
use crate::pack::{Entry, PackError, PackFile};
use vstd::prelude::*;
use vstd::utf8::{encode_utf8, encode_utf8_decode_utf8};

verus! {

/// `a` comes before `b` in the order of byte strings: at the first place
/// where they differ `a` has the lesser byte, or `a` ends there and `b`
/// does not.
pub open spec fn bytes_before(a: Seq<u8>, b: Seq<u8>) -> bool {
    exists|k: int| is_split(a, b, k)
}

/// `a` and `b` agree before `k`, and at `k` the order is decided for `a`.
pub open spec fn is_split(a: Seq<u8>, b: Seq<u8>, k: int) -> bool {
    &&& 0 <= k <= a.len()
    &&& k < b.len()
    &&& a.take(k) == b.take(k)
    &&& k < a.len() ==> a[k] < b[k]
}

/// The name `a` comes before the name `b`.
pub open spec fn name_before(a: Seq<char>, b: Seq<char>) -> bool {
    bytes_before(encode_utf8(a), encode_utf8(b))
}

/// The names of `entries` are in strictly ascending order.
pub open spec fn is_sorted_by_name(entries: Seq<Entry>) -> bool {
    forall|i: int, j: int|
        0 <= i < j < entries.len() ==> name_before(
            (#[trigger] entries[i]).0,
            (#[trigger] entries[j]).0,
        )
}

/// How one byte string stands to another.
#[derive(Debug, Clone, Copy, PartialEq, Eq)]
pub enum Standing {
    Before,
    Same,
    After,
}

proof fn lemma_take_take(a: Seq<u8>, b: Seq<u8>, k: int, m: int)
    requires
        0 <= m <= k <= a.len(),
        k <= b.len(),
        a.take(k) == b.take(k),
    ensures
        a.take(m) == b.take(m),
        m < k ==> a[m] == b[m],
{
    assert(a.take(m) =~= a.take(k).take(m));
    assert(b.take(m) =~= b.take(k).take(m));
    if m < k {
        assert(a[m] == a.take(k)[m]);
        assert(b[m] == b.take(k)[m]);
    }
}

/// The order of byte strings is transitive.
pub proof fn lemma_bytes_before_transitive(a: Seq<u8>, b: Seq<u8>, c: Seq<u8>)
    requires
        bytes_before(a, b),
        bytes_before(b, c),
    ensures
        bytes_before(a, c),
{
    let k1 = choose|k: int| is_split(a, b, k);
    let k2 = choose|k: int| is_split(b, c, k);
    if k1 <= k2 {
        lemma_take_take(b, c, k2, k1);
        assert(is_split(a, c, k1));
    } else {
        lemma_take_take(a, b, k1, k2);
        assert(is_split(a, c, k2));
    }
}

/// No byte string comes before itself, and none both before and behind
/// another.
pub proof fn lemma_bytes_before_asymmetric(a: Seq<u8>, b: Seq<u8>)
    requires
        bytes_before(a, b),
    ensures
        !bytes_before(b, a),
        a != b,
{
    let k1 = choose|k: int| is_split(a, b, k);
    if bytes_before(b, a) {
        let k2 = choose|k: int| is_split(b, a, k);
        if k1 <= k2 {
            lemma_take_take(b, a, k2, k1);
        } else {
            lemma_take_take(a, b, k1, k2);
        }
    }
    if a == b {
        assert(a[k1] == b[k1]);
    }
}

/// How `a` stands to `b` in the order of byte strings.
pub fn standing_of(a: &[u8], b: &[u8]) -> (standing: Standing)
    ensures
        standing == Standing::Before <==> bytes_before(a@, b@),
        standing == Standing::Same <==> a@ == b@,
        standing == Standing::After <==> bytes_before(b@, a@),
{
    let mut k: usize = 0;
    while k < a.len() && k < b.len() && a[k] == b[k]
        invariant
            k <= a@.len(),
            k <= b@.len(),
            a@.take(k as int) == b@.take(k as int),
        decreases a@.len() - k,
    {
        proof {
            assert(a@.take(k + 1) =~= a@.take(k as int).push(a@[k as int]));
            assert(b@.take(k + 1) =~= b@.take(k as int).push(b@[k as int]));
        }
        k += 1;
    }
    if k == a.len() && k == b.len() {
        proof {
            assert(a@.take(k as int) =~= a@);
            assert(b@.take(k as int) =~= b@);
            if bytes_before(a@, b@) {
                lemma_bytes_before_asymmetric(a@, b@);
            }
            if bytes_before(b@, a@) {
                lemma_bytes_before_asymmetric(b@, a@);
            }
        }
        Standing::Same
    } else if k == a.len() || (k < b.len() && a[k] < b[k]) {
        proof {
            assert(is_split(a@, b@, k as int));
            lemma_bytes_before_asymmetric(a@, b@);
        }
        Standing::Before
    } else {
        proof {
            assert(is_split(b@, a@, k as int));
            lemma_bytes_before_asymmetric(b@, a@);
        }
        Standing::After
    }
}

/// The pack that the update of a directory starts from: the one that was
/// loaded, and an empty one where there was none or loading it failed.
pub fn starting_pack(load: Option<Result<PackFile, PackError>>) -> (pack: PackFile)
    ensures
        match load {
            Some(Ok(loaded)) => pack == loaded,
            _ => pack@ == Seq::<Entry>::empty(),
        },
{
    match load {
        Some(Ok(loaded)) => loaded,
        _ => PackFile::default(),
    }
}

/// What is to be done with a file of a reference directory.
#[derive(Debug, Clone, Copy, PartialEq, Eq)]
pub enum FileStep {
    /// The pack holds the file's fingerprint already.
    Skip,
    /// The file is to be fingerprinted, and its entry belongs at `index`.
    Fingerprint { index: usize },
}

impl PackFile {
    /// Looks for `name` by halving. `Ok` holds the index of its entry;
    /// `Err` holds the index at which an entry of that name belongs.
    ///
    /// In a pack that is in order a name is found if and only if the pack
    /// holds it, and the index given for a missing name keeps the order.
    pub fn find_name(&self, name: &str) -> (found: Result<usize, usize>)
        ensures
            match found {
                Ok(index) => index < self@.len() && self@[index as int].0 == name@,
                Err(index) => {
                    &&& index <= self@.len()
                    &&& is_sorted_by_name(self@) ==> {
                        &&& forall|i: int| 0 <= i < index ==> name_before(self@[i].0, name@)
                        &&& forall|i: int|
                            index <= i < self@.len() ==> name_before(name@, self@[i].0)
                    }
                },
            },
    {
        let wanted = name.as_bytes();
        let mut lo: usize = 0;
        let mut hi: usize = self.fingerprint.len();
        while lo < hi
            invariant
                lo <= hi <= self@.len(),
                self@.len() == self.fingerprint@.len(),
                wanted@ == encode_utf8(name@),
                is_sorted_by_name(self@) ==> {
                    &&& forall|i: int| 0 <= i < lo ==> name_before(self@[i].0, name@)
                    &&& forall|i: int| hi <= i < self@.len() ==> name_before(name@, self@[i].0)
                },
            decreases hi - lo,
        {
            let mid: usize = lo + (hi - lo) / 2;
            let here = self.fingerprint[mid].0.as_str();
            proof {
                assert(here@ == self@[mid as int].0);
            }
            match standing_of(here.as_bytes(), wanted) {
                Standing::Same => {
                    proof {
                        encode_utf8_decode_utf8(here@);
                        encode_utf8_decode_utf8(name@);
                    }
                    return Ok(mid);
                },
                Standing::Before => {
                    proof {
                        if is_sorted_by_name(self@) {
                            assert forall|i: int| 0 <= i < mid + 1 implies name_before(
                                self@[i].0,
                                name@,
                            ) by {
                                if i < mid {
                                    lemma_bytes_before_transitive(
                                        encode_utf8(self@[i].0),
                                        encode_utf8(self@[mid as int].0),
                                        encode_utf8(name@),
                                    );
                                }
                            }
                        }
                    }
                    lo = mid + 1;
                },
                Standing::After => {
                    proof {
                        if is_sorted_by_name(self@) {
                            assert forall|i: int| mid <= i < self@.len() implies name_before(
                                name@,
                                self@[i].0,
                            ) by {
                                if i > mid {
                                    lemma_bytes_before_transitive(
                                        encode_utf8(name@),
                                        encode_utf8(self@[mid as int].0),
                                        encode_utf8(self@[i].0),
                                    );
                                }
                            }
                        }
                    }
                    hi = mid;
                },
            }
        }
        Err(lo)
    }

    /// Enters a fingerprint under `name` at `index`.
    ///
    /// Nothing is taken out and nothing else is moved. Where the pack was
    /// in order and `name` belongs at `index`, it stays in order.
    pub fn insert_entry(&mut self, index: usize, name: String, fingerprint: Vec<u32>)
        requires
            index <= old(self)@.len(),
        ensures
            final(self)@ == old(self)@.insert(index as int, (name@, fingerprint@)),
            is_sorted_by_name(old(self)@) && (forall|i: int|
                0 <= i < index ==> name_before(old(self)@[i].0, name@)) && (forall|i: int|
                index <= i < old(self)@.len() ==> name_before(name@, old(self)@[i].0))
                ==> is_sorted_by_name(final(self)@),
    {
        let ghost before = self@;
        let ghost entry: Entry = (name@, fingerprint@);
        self.fingerprint.insert(index, (name, fingerprint));
        proof {
            assert(self@ =~= before.insert(index as int, entry));
            if is_sorted_by_name(before) && (forall|i: int|
                0 <= i < index ==> name_before(before[i].0, entry.0)) && (forall|i: int|
                index <= i < before.len() ==> name_before(entry.0, before[i].0)) {
                let after = self@;
                assert forall|i: int, j: int| 0 <= i < j < after.len() implies name_before(
                    (#[trigger] after[i]).0,
                    (#[trigger] after[j]).0,
                ) by {
                    let bi = if i < index {
                        i
                    } else {
                        i - 1
                    };
                    let bj = if j < index {
                        j
                    } else {
                        j - 1
                    };
                    if i != index && j != index {
                        assert(after[i] == before[bi]);
                        assert(after[j] == before[bj]);
                    } else if i == index {
                        assert(after[j] == before[bj]);
                    } else {
                        assert(after[i] == before[bi]);
                    }
                }
            }
        }
    }

    /// What is to be done with the file `name`: nothing where the pack
    /// holds the name, else a fingerprint for the place where it belongs.
    pub fn plan_file(&self, name: &str) -> (step: FileStep)
        ensures
            match step {
                FileStep::Skip => exists|i: int|
                    0 <= i < self@.len() && (#[trigger] self@[i]).0 == name@,
                FileStep::Fingerprint { index } => {
                    &&& index <= self@.len()
                    &&& is_sorted_by_name(self@) ==> {
                        &&& forall|i: int| 0 <= i < self@.len() ==> self@[i].0 != name@
                        &&& forall|i: int| 0 <= i < index ==> name_before(self@[i].0, name@)
                        &&& forall|i: int|
                            index <= i < self@.len() ==> name_before(name@, self@[i].0)
                    }
                },
            },
    {
        match self.find_name(name) {
            Ok(_) => FileStep::Skip,
            Err(index) => {
                proof {
                    if is_sorted_by_name(self@) {
                        assert forall|i: int| 0 <= i < self@.len() implies self@[i].0 != name@ by {
                            if i < index {
                                lemma_bytes_before_asymmetric(
                                    encode_utf8(self@[i].0),
                                    encode_utf8(name@),
                                );
                            } else {
                                lemma_bytes_before_asymmetric(
                                    encode_utf8(name@),
                                    encode_utf8(self@[i].0),
                                );
                            }
                        }
                    }
                }
                FileStep::Fingerprint { index }
            },
        }
    }

    /// Takes in what fingerprinting the file `name` gave: the fingerprint
    /// is entered at `index`; where there is none, the pack stays as it is.
    pub fn record_file(&mut self, index: usize, name: String, outcome: Option<Vec<u32>>) -> (entered:
        bool)
        requires
            index <= old(self)@.len(),
        ensures
            entered == outcome is Some,
            match outcome {
                Some(fingerprint) => final(self)@ == old(self)@.insert(
                    index as int,
                    (name@, fingerprint@),
                ),
                None => final(self)@ == old(self)@,
            },
            is_sorted_by_name(old(self)@) && (forall|i: int|
                0 <= i < index ==> name_before(old(self)@[i].0, name@)) && (forall|i: int|
                index <= i < old(self)@.len() ==> name_before(name@, old(self)@[i].0))
                ==> is_sorted_by_name(final(self)@),
    {
        match outcome {
            Some(fingerprint) => {
                self.insert_entry(index, name, fingerprint);
                true
            },
            None => false,
        }
    }
}

// ---------------------------------------------------------------------------
// Decoding an input
// ---------------------------------------------------------------------------

/// Why the fingerprinter does not start.
#[derive(Debug, Clone, Copy, PartialEq, Eq)]
pub enum ResetError {
    /// The sample rate is not above 1000 Hz.
    SampleRateTooLow,
    /// There are no channels.
    NoChannels,
    /// No resampler can be made for the sample rate. This does not arise
    /// with a sample rate above 1000 Hz.
    CannotResample,
}

/// Why an input has no fingerprint.
#[derive(Debug, Clone, PartialEq, Eq)]
pub enum FingerprintError {
    /// The input could not be read.
    Io,
    /// The input has no track that can be decoded.
    MissingAudioTrack,
    /// The track does not say its sample rate.
    MissingSampleRate,
    /// The decoder refused the input.
    SymphoniaError { context: String },
    /// The fingerprinter refused the sample rate or the number of channels.
    PrinterReset { source: ResetError },
    /// Anything else.
    Unknown,
}

/// What the decisions need to know of one track of an input.
#[derive(Debug, Clone, Copy, PartialEq, Eq)]
pub struct TrackInfo {
    pub id: u32,
    /// Whether the track has a codec, that is, can be decoded at all.
    pub has_codec: bool,
    pub sample_rate: Option<u32>,
    pub channels: Option<u32>,
}

/// Number of channels assumed where a track does not say: stereo.
pub const DEFAULT_CHANNELS: u32 = 2;

/// The track that is fingerprinted: the first one that has a codec.
pub fn select_track(tracks: &Vec<TrackInfo>) -> (selected: Result<usize, FingerprintError>)
    ensures
        match selected {
            Ok(index) => {
                &&& index < tracks@.len()
                &&& tracks@[index as int].has_codec
                &&& forall|i: int| 0 <= i < index ==> !tracks@[i].has_codec
            },
            Err(e) => {
                &&& e == FingerprintError::MissingAudioTrack
                &&& forall|i: int| 0 <= i < tracks@.len() ==> !tracks@[i].has_codec
            },
        },
{
    let mut i: usize = 0;
    while i < tracks.len()
        invariant
            i <= tracks@.len(),
            forall|j: int| 0 <= j < i ==> !tracks@[j].has_codec,
        decreases tracks@.len() - i,
    {
        if tracks[i].has_codec {
            return Ok(i);
        }
        i += 1;
    }
    Err(FingerprintError::MissingAudioTrack)
}

/// Sample rate and number of channels with which `track` is fingerprinted,
/// where it can be.
pub open spec fn stream_format_of(track: TrackInfo) -> Option<(u32, u32)> {
    match track.sample_rate {
        None => None,
        Some(rate) => Some(
            (
                rate,
                match track.channels {
                    Some(n) => n,
                    None => DEFAULT_CHANNELS,
                },
            ),
        ),
    }
}

/// Sample rate and number of channels with which `track` is fingerprinted.
/// A track without a sample rate cannot be; one that does not say its
/// channels is taken for stereo.
pub fn stream_format(track: &TrackInfo) -> (format: Result<(u32, u32), FingerprintError>)
    ensures
        match stream_format_of(*track) {
            None => format == Err::<(u32, u32), FingerprintError>(
                FingerprintError::MissingSampleRate,
            ),
            Some(found) => format == Ok::<(u32, u32), FingerprintError>(found),
        },
{
    match track.sample_rate {
        None => Err(FingerprintError::MissingSampleRate),
        Some(rate) => {
            let channels = match track.channels {
                Some(n) => n,
                None => DEFAULT_CHANNELS,
            };
            Ok((rate, channels))
        },
    }
}

/// What the decoder made of a packet.
#[derive(Debug, Clone, Copy, PartialEq, Eq)]
pub enum Decoded {
    /// Samples.
    Samples,
    /// Nothing, because the packet is damaged.
    Damaged,
    /// Nothing, because the decoder gave up.
    Failed,
}

/// What becomes of a packet.
#[derive(Debug, Clone, Copy, PartialEq, Eq)]
pub enum PacketStep {
    /// The samples go to the fingerprinter.
    Consume,
    /// The packet is passed over and reading goes on.
    Pass,
    /// Reading ends here; what was consumed so far is the input.
    Stop,
}

/// Whether a packet of the track `packet_track` is decoded at all: only
/// packets of the selected track are.
pub fn wants_packet(selected_track: u32, packet_track: u32) -> (wanted: bool)
    ensures
        wanted == (selected_track == packet_track),
{
    selected_track == packet_track
}

/// What becomes of a packet after decoding: samples are consumed, a damaged
/// packet is passed over, and any other failure ends the reading.
pub open spec fn packet_step_of(decoded: Decoded) -> PacketStep {
    match decoded {
        Decoded::Samples => PacketStep::Consume,
        Decoded::Damaged => PacketStep::Pass,
        Decoded::Failed => PacketStep::Stop,
    }
}

/// What becomes of a packet after decoding.
pub fn packet_step(decoded: Decoded) -> (step: PacketStep)
    ensures
        step == packet_step_of(decoded),
{
    match decoded {
        Decoded::Samples => PacketStep::Consume,
        Decoded::Damaged => PacketStep::Pass,
        Decoded::Failed => PacketStep::Stop,
    }
}

// ---------------------------------------------------------------------------
// The fingerprinter
// ---------------------------------------------------------------------------

/// `rusty_chromaprint::Fingerprinter`. The contracts know one thing of it,
/// under a name: the number of channels that it was started with.
#[verifier::external_type_specification]
#[verifier::external_body]
pub struct ExFingerprinter(rusty_chromaprint::Fingerprinter);

/// The number of channels that the fingerprinter was started with; `0`
/// before it is started.
pub uninterp spec fn channels_of(printer: rusty_chromaprint::Fingerprinter) -> u32;

/// The lowest sample rate that the fingerprinter takes is above this one.
pub const MIN_SAMPLE_RATE: u32 = 1000;

/// The greatest number of channels that a track can have: as many as the
/// mask has bits in which a decoder says which channels there are.
pub const MAX_CHANNELS: u32 = 32;

/// `Fingerprinter::new`.
///
/// Trusted: a new fingerprinter is not started.
#[verifier::external_body]
fn printer_new(
    config: &rusty_chromaprint::Configuration,
) -> (printer: rusty_chromaprint::Fingerprinter)
    ensures
        channels_of(printer) == 0,
{
    rusty_chromaprint::Fingerprinter::new(config)
}

/// `Fingerprinter::start`.
///
/// Trusted, as the crate's source shows it: without channels it fails with
/// `NoChannels`; else with a sample rate of at most 1000 Hz it fails with
/// `SampleRateTooLow`; else it succeeds. The one step that can fail behind
/// the two tests is the making of a resampler, and that is refused only a
/// ratio that is not positive, whereas the ratio handed to it is 11025 Hz
/// over the sample rate. Once started the fingerprinter knows its channels.
#[verifier::external_body]
fn printer_start(
    printer: &mut rusty_chromaprint::Fingerprinter,
    sample_rate: u32,
    channels: u32,
) -> (result: Result<(), ResetError>)
    ensures
        channels == 0 ==> result matches Err(ResetError::NoChannels),
        channels != 0 && sample_rate <= MIN_SAMPLE_RATE ==> result matches Err(
            ResetError::SampleRateTooLow,
        ),
        channels != 0 && sample_rate > MIN_SAMPLE_RATE ==> result is Ok,
        result is Ok ==> channels_of(*final(printer)) == channels,
{
    match printer.start(sample_rate, channels) {
        Ok(()) => Ok(()),
        Err(rusty_chromaprint::ResetError::SampleRateTooLow) => Err(ResetError::SampleRateTooLow),
        Err(rusty_chromaprint::ResetError::NoChannels) => Err(ResetError::NoChannels),
        Err(rusty_chromaprint::ResetError::CannotResample(_)) => Err(ResetError::CannotResample),
    }
}

/// `Fingerprinter::consume`.
///
/// Trusted: the fingerprinter stays started with the channels it has. The
/// call panics on a fingerprinter that is not started and on a chunk that
/// does not hold a whole number of frames, and it reckons with no more
/// channels in a frame than a 32-bit number can count; the precondition
/// rules all three out. The resampler behind it is handed as many frames as
/// it asks for and a buffer of the size it asks for, which are the only
/// things that it refuses a chunk for.
#[verifier::external_body]
fn printer_consume(printer: &mut rusty_chromaprint::Fingerprinter, data: &[i16])
    requires
        0 < channels_of(*old(printer)) <= MAX_CHANNELS,
        data@.len() % (channels_of(*old(printer)) as nat) == 0,
    ensures
        channels_of(*final(printer)) == channels_of(*old(printer)),
{
    printer.consume(data)
}

/// `Fingerprinter::finish`.
///
/// Trusted: the fingerprinter keeps its channels. What is left in its
/// buffer goes to the resampler as one last chunk, shorter than a full one
/// and not empty, which is what the resampler takes as a chunk size.
#[verifier::external_body]
fn printer_finish(printer: &mut rusty_chromaprint::Fingerprinter)
    ensures
        channels_of(*final(printer)) == channels_of(*old(printer)),
{
    printer.finish()
}

/// `Fingerprinter::fingerprint`, as a vector of its own.
///
/// Nothing is claimed of the fingerprint: it comes out of floating-point
/// transforms whose last bits differ from machine to machine.
#[verifier::external_body]
fn printer_fingerprint(printer: &rusty_chromaprint::Fingerprinter) -> (fingerprint: Vec<u32>)
{
    printer.fingerprint().to_vec()
}

/// Sample rate and number of channels with which the fingerprinting of
/// `track` starts, or why it does not start: the track does not say its
/// sample rate, or it has no channels, or its sample rate is not above 1000
/// Hz.
pub open spec fn start_format(track: TrackInfo) -> Result<(u32, u32), FingerprintError> {
    match stream_format_of(track) {
        None => Err(FingerprintError::MissingSampleRate),
        Some((rate, channels)) => if channels == 0 {
            Err(FingerprintError::PrinterReset { source: ResetError::NoChannels })
        } else if rate <= MIN_SAMPLE_RATE {
            Err(FingerprintError::PrinterReset { source: ResetError::SampleRateTooLow })
        } else {
            Ok((rate, channels))
        },
    }
}

/// The fingerprinting of one input: a started fingerprinter, the track
/// whose packets it takes, and the record of the chunks of samples that
/// were handed to the fingerprinter. The fingerprinter is made with the
/// configuration that the matching is asked for with.
pub struct Fingerprinting {
    printer: rusty_chromaprint::Fingerprinter,
    track: u32,
    channels: u32,
    heard: Ghost<Seq<Seq<i16>>>,
}

impl Fingerprinting {
    /// The fingerprinter is started, with the channels that are on record,
    /// and these are no more than a track can have.
    #[verifier::type_invariant]
    spec fn is_started(self) -> bool {
        &&& 0 < self.channels <= MAX_CHANNELS
        &&& channels_of(self.printer) == self.channels
    }

    /// The chunks of samples that were handed to the fingerprinter since the
    /// start, in order.
    pub closed spec fn heard(&self) -> Seq<Seq<i16>> {
        self.heard@
    }

    /// The id of the track that is fingerprinted.
    pub closed spec fn track_id(&self) -> u32 {
        self.track
    }

    /// The number of channels that a frame of samples holds.
    pub closed spec fn frame_len(&self) -> u32 {
        self.channels
    }

    /// Starts the fingerprinting of `track`, which has no more channels
    /// than a track can have.
    ///
    /// It starts if and only if the track says its sample rate, the rate is
    /// above 1000 Hz, and the track has channels; a track that does not say
    /// its channels is taken for stereo. It then takes the packets of that
    /// track, in frames of that many channels, and has heard nothing yet.
    /// Else the error says which of the three is missing.
    pub fn start(track: &TrackInfo) -> (started: Result<Fingerprinting, FingerprintError>)
        requires
            track.channels matches Some(n) ==> n <= MAX_CHANNELS,
        ensures
            match started {
                Ok(job) => {
                    &&& start_format(*track) matches Ok((rate, channels))
                    &&& job.track_id() == track.id
                    &&& job.frame_len() == channels
                    &&& job.heard() == Seq::<Seq<i16>>::empty()
                },
                Err(e) => start_format(*track) == Err::<(u32, u32), FingerprintError>(e),
            },
    {
        let (rate, channels) = match stream_format(track) {
            Ok(format) => format,
            Err(e) => {
                return Err(e);
            },
        };
        let config = preset();
        let mut printer = printer_new(&config);
        match printer_start(&mut printer, rate, channels) {
            Ok(()) => Ok(
                Fingerprinting { printer, track: track.id, channels, heard: Ghost(Seq::empty()) },
            ),
            Err(source) => Err(FingerprintError::PrinterReset { source }),
        }
    }

    /// The number of channels that a frame of samples holds.
    pub fn channels(&self) -> (n: u32)
        ensures
            n == self.frame_len(),
            0 < n <= MAX_CHANNELS,
    {
        proof {
            use_type_invariant(self);
        }
        self.channels
    }

    /// Whether a packet of the track `packet_track` is decoded at all: only
    /// packets of the track that is fingerprinted are.
    pub fn wants_packet(&self, packet_track: u32) -> (wanted: bool)
        ensures
            wanted == (packet_track == self.track_id()),
    {
        wants_packet(self.track, packet_track)
    }

    /// Takes in what the decoder made of a packet, and gives the
    /// fingerprinting back with what is to be done next. Samples go to the
    /// fingerprinter; a damaged packet is passed over; and where the
    /// decoder gave up, reading ends.
    ///
    /// `samples` counts only where the decoder made samples, and must then
    /// hold whole frames.
    pub fn take(self, decoded: Decoded, samples: &[i16]) -> (next: (Fingerprinting, PacketStep))
        requires
            decoded == Decoded::Samples ==> samples@.len() % (self.frame_len() as nat) == 0,
        ensures
            next.0.track_id() == self.track_id(),
            next.0.frame_len() == self.frame_len(),
            next.1 == packet_step_of(decoded),
            next.0.heard() == (if decoded == Decoded::Samples {
                self.heard().push(samples@)
            } else {
                self.heard()
            }),
    {
        proof {
            use_type_invariant(&self);
        }
        let step = packet_step(decoded);
        let track = self.track;
        let channels = self.channels;
        let ghost before = self.heard@;
        let mut printer = self.printer;
        match step {
            PacketStep::Consume => {
                printer_consume(&mut printer, samples);
                (
                    Fingerprinting {
                        printer,
                        track,
                        channels,
                        heard: Ghost(before.push(samples@)),
                    },
                    step,
                )
            },
            _ => (Fingerprinting { printer, track, channels, heard: Ghost(before) }, step),
        }
    }

    /// Ends the fingerprinting and gives the fingerprint of what was heard.
    pub fn finish(self) -> (fingerprint: Vec<u32>)
    {
        let mut printer = self.printer;
        printer_finish(&mut printer);
        printer_fingerprint(&printer)
    }
}

} // verus!
