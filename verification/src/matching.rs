//! Scoring an input fingerprint against the fingerprints of reference packs.
//!
//! Every entry of every pack that could be loaded is matched against the
//! input. The segments found are tagged with the name of the entry they come
//! from, gathered, and ranked by score, lowest first. A pack that could not
//! be loaded, and an entry that the matcher rejects, contribute nothing and
//! take nothing away from the rest.
//!
//! The matching itself is done by the `rusty-chromaprint` crate and is known
//! here by name only ([`matched_segments`]). It is always asked for with the
//! configuration `Configuration::preset_test3()`, which is also the one that
//! the fingerprints are made with: the library takes it in one place.

use crate::pack::{PackError, PackFile};
use vstd::multiset::Multiset;
use vstd::prelude::*;
use vstd::seq_lib::{lemma_multiset_commutative, to_multiset_insert};

verus! {

/// A stretch of the input that is similar to a stretch of a reference.
#[derive(Debug, Clone, Copy, PartialEq, Eq)]
pub struct Segment {
    /// Index of the first item in the input fingerprint.
    pub offset1: usize,
    /// Index of the first item in the reference fingerprint.
    pub offset2: usize,
    /// Number of fingerprint items in the segment.
    pub items_count: usize,
    /// The score, as the bit pattern of the 64-bit float that the matcher
    /// computed. A score is an average number of differing bits and never
    /// negative, so the patterns are ordered as the scores are.
    pub score_bits: u64,
}

impl Segment {
    /// The segment with these offsets, length and score.
    pub fn of(offset1: usize, offset2: usize, items_count: usize, score_bits: u64) -> (segment:
        Segment)
        ensures
            segment == (Segment { offset1, offset2, items_count, score_bits }),
    {
        Segment { offset1, offset2, items_count, score_bits }
    }
}

/// A segment and the name of the reference it was found in.
#[derive(Debug, Clone, PartialEq, Eq)]
pub struct SegmentMatch {
    pub source_name: String,
    pub segment: Segment,
}

/// Why the matcher rejects a pair of fingerprints.
#[derive(Debug, Clone, Copy, PartialEq, Eq)]
pub enum MatchError {
    /// The first (`index` 0) or the second (`index` 1) fingerprint is too long.
    FingerprintTooLong { index: u8 },
}

/// What `rusty_chromaprint::match_fingerprints` returns for the two
/// fingerprints.
pub uninterp spec fn matched_segments(first: Seq<u32>, second: Seq<u32>) -> Result<
    Seq<Segment>,
    MatchError,
>;

/// The length from which on the matcher rejects a fingerprint.
pub open spec fn is_too_long(len: nat) -> bool {
    len + 1 >= 0x7_ffff
}

/// `rusty_chromaprint::Configuration`: how fingerprints are made. A value
/// of it is carried to the calls that take one; nothing is claimed of what
/// it holds.
#[verifier::external_type_specification]
#[verifier::external_body]
pub struct ExConfiguration(rusty_chromaprint::Configuration);

/// `Configuration::preset_test3`: the configuration with which the library
/// makes and matches every fingerprint. Nothing is claimed of it.
#[verifier::external_body]
pub(crate) fn preset() -> (config: rusty_chromaprint::Configuration)
{
    rusty_chromaprint::Configuration::preset_test3()
}

/// `rusty_chromaprint::match_fingerprints`.
///
/// Trusted: the result is what the crate returns for the two fingerprints,
/// each segment with its score as bits; the crate does not look at the
/// configuration. The crate's source shows when it fails: where a
/// fingerprint is too long, the first one being looked at first.
#[verifier::external_body]
fn match_fingerprints(
    first: &Vec<u32>,
    second: &Vec<u32>,
    config: &rusty_chromaprint::Configuration,
) -> (result: Result<Vec<Segment>, MatchError>)
    ensures
        match result {
            Ok(found) => matched_segments(first@, second@) == Ok::<Seq<Segment>, MatchError>(
                found@,
            ),
            Err(e) => matched_segments(first@, second@) == Err::<Seq<Segment>, MatchError>(e),
        },
        result is Err <==> is_too_long(first@.len()) || is_too_long(second@.len()),
        result matches Err(MatchError::FingerprintTooLong { index }) ==> index == (if is_too_long(
            first@.len(),
        ) {
            0u8
        } else {
            1u8
        }),
{
    match rusty_chromaprint::match_fingerprints(first, second, config) {
        Ok(found) => Ok(found.iter().map(|s| Segment::of(s.offset1, s.offset2, s.items_count, s.score.to_bits())).collect()),
        Err(rusty_chromaprint::MatchError::FingerprintTooLong { index }) => Err(MatchError::FingerprintTooLong { index }),
    }
}

/// Each of `segments` under the name `name`.
pub open spec fn tagged(name: String, segments: Seq<Segment>) -> Seq<SegmentMatch> {
    Seq::new(segments.len(), |i: int| SegmentMatch { source_name: name, segment: segments[i] })
}

/// The matches that the outcome of one matcher call stands for: its
/// segments under `name`, and none where the matcher failed.
pub open spec fn matches_of(name: String, outcome: Result<Seq<Segment>, MatchError>) -> Seq<
    SegmentMatch,
> {
    match outcome {
        Ok(segments) => tagged(name, segments),
        Err(_) => Seq::empty(),
    }
}

/// The matches of one entry against `input`.
pub open spec fn entry_matches(input: Seq<u32>, item: (String, Vec<u32>)) -> Seq<SegmentMatch> {
    matches_of(item.0, matched_segments(input, item.1@))
}

/// The matches of the entries `items` against `input`, in the entries' order.
pub open spec fn pack_matches(input: Seq<u32>, items: Seq<(String, Vec<u32>)>) -> Seq<
    SegmentMatch,
>
    decreases items.len(),
{
    if items.len() == 0 {
        Seq::empty()
    } else {
        pack_matches(input, items.drop_last()) + entry_matches(input, items.last())
    }
}

/// The matches of one pack load: those of the pack, and none where the load
/// failed.
pub open spec fn load_matches(input: Seq<u32>, load: Result<PackFile, PackError>) -> Seq<
    SegmentMatch,
> {
    match load {
        Ok(pack) => pack_matches(input, pack.fingerprint@),
        Err(_) => Seq::empty(),
    }
}

/// The matches of all the packs that were loaded, in the packs' order.
pub open spec fn all_matches(input: Seq<u32>, loads: Seq<Result<PackFile, PackError>>) -> Seq<
    SegmentMatch,
>
    decreases loads.len(),
{
    if loads.len() == 0 {
        Seq::empty()
    } else {
        all_matches(input, loads.drop_last()) + load_matches(input, loads.last())
    }
}

/// `s` is in ascending order of score.
pub open spec fn is_sorted_by_score(s: Seq<SegmentMatch>) -> bool {
    forall|i: int, j: int|
        0 <= i <= j < s.len() ==> s[i].segment.score_bits <= s[j].segment.score_bits
}

/// `ranking` holds the matches `found`, each as often as `found` does, in
/// ascending order of score.
pub open spec fn is_ranking_of(ranking: Seq<SegmentMatch>, found: Seq<SegmentMatch>) -> bool {
    &&& is_sorted_by_score(ranking)
    &&& ranking.to_multiset() == found.to_multiset()
}

/// A pack that failed to load can be left out: the matches are those of the
/// remaining packs.
pub proof fn lemma_failed_load_is_skipped(
    input: Seq<u32>,
    loads: Seq<Result<PackFile, PackError>>,
    index: int,
)
    requires
        0 <= index < loads.len(),
        loads[index] is Err,
    ensures
        all_matches(input, loads) == all_matches(input, loads.remove(index)),
    decreases loads.len(),
{
    let front = loads.drop_last();
    if index == loads.len() - 1 {
        assert(loads.remove(index) =~= front);
        assert(all_matches(input, front) + Seq::<SegmentMatch>::empty() =~= all_matches(
            input,
            front,
        ));
    } else {
        lemma_failed_load_is_skipped(input, front, index);
        let rest = loads.remove(index);
        assert(rest.drop_last() =~= front.remove(index));
        assert(rest.last() == loads.last());
    }
}

/// Every match of a pack that was loaded is among the matches of all packs,
/// whatever became of the other packs.
pub proof fn lemma_loaded_pack_is_matched(
    input: Seq<u32>,
    loads: Seq<Result<PackFile, PackError>>,
    index: int,
    k: int,
)
    requires
        0 <= index < loads.len(),
        loads[index] is Ok,
        0 <= k < load_matches(input, loads[index]).len(),
    ensures
        all_matches(input, loads).contains(load_matches(input, loads[index])[k]),
    decreases loads.len(),
{
    let front = loads.drop_last();
    let item = load_matches(input, loads[index])[k];
    if index == loads.len() - 1 {
        let at = all_matches(input, front).len() + k;
        assert(all_matches(input, loads)[at] == item);
    } else {
        lemma_loaded_pack_is_matched(input, front, index, k);
        let at = choose|at: int|
            0 <= at < all_matches(input, front).len() && all_matches(input, front)[at] == item;
        assert(all_matches(input, loads)[at] == item);
    }
}

/// The matches that the outcome of one matcher call stands for.
pub fn tag_segments(name: &String, outcome: Result<Vec<Segment>, MatchError>) -> (found: Vec<
    SegmentMatch,
>)
    ensures
        found@ == matches_of(
            *name,
            match outcome {
                Ok(segments) => Ok(segments@),
                Err(e) => Err(e),
            },
        ),
{
    let mut found: Vec<SegmentMatch> = Vec::new();
    match outcome {
        Ok(segments) => {
            let mut i: usize = 0;
            while i < segments.len()
                invariant
                    i <= segments@.len(),
                    found@ == tagged(*name, segments@).take(i as int),
                decreases segments@.len() - i,
            {
                found.push(SegmentMatch { source_name: name.clone(), segment: segments[i] });
                proof {
                    assert(found@ =~= tagged(*name, segments@).take(i + 1));
                }
                i += 1;
            }
            proof {
                assert(found@ =~= tagged(*name, segments@));
            }
        },
        Err(_) => {},
    }
    found
}

/// The matches of one entry against `input`, found with `config`.
fn match_entry_with(
    config: &rusty_chromaprint::Configuration,
    input: &Vec<u32>,
    item: &(String, Vec<u32>),
) -> (found: Vec<SegmentMatch>)
    ensures
        found@ == entry_matches(input@, *item),
        is_too_long(input@.len()) || is_too_long(item.1@.len()) ==> found@.len() == 0,
{
    let outcome = match_fingerprints(input, &item.1, config);
    tag_segments(&item.0, outcome)
}

/// The matches of one entry against `input`: the segments that the matcher
/// finds, under the entry's name; none where the matcher rejects the pair.
pub fn match_entry(input: &Vec<u32>, item: &(String, Vec<u32>)) -> (found: Vec<SegmentMatch>)
    ensures
        found@ == entry_matches(input@, *item),
        is_too_long(input@.len()) || is_too_long(item.1@.len()) ==> found@.len() == 0,
{
    let config = preset();
    match_entry_with(&config, input, item)
}

/// The matches of all the packs that were loaded, in the order of the packs
/// and of their entries.
pub fn match_loads(input: &Vec<u32>, loads: &Vec<Result<PackFile, PackError>>) -> (found: Vec<
    SegmentMatch,
>)
    ensures
        found@ == all_matches(input@, loads@),
{
    let config = preset();
    let mut found: Vec<SegmentMatch> = Vec::new();
    let mut p: usize = 0;
    while p < loads.len()
        invariant
            p <= loads@.len(),
            found@ == all_matches(input@, loads@.take(p as int)),
        decreases loads@.len() - p,
    {
        let ghost before = found@;
        match &loads[p] {
            Ok(pack) => {
                let mut e: usize = 0;
                while e < pack.fingerprint.len()
                    invariant
                        e <= pack.fingerprint@.len(),
                        found@ == before + pack_matches(
                            input@,
                            pack.fingerprint@.take(e as int),
                        ),
                    decreases pack.fingerprint@.len() - e,
                {
                    let mut more = match_entry_with(&config, input, &pack.fingerprint[e]);
                    found.append(&mut more);
                    proof {
                        let items = pack.fingerprint@.take(e + 1);
                        assert(items.drop_last() =~= pack.fingerprint@.take(e as int));
                        assert(items.last() == pack.fingerprint@[e as int]);
                        assert(found@ =~= before + pack_matches(input@, items));
                    }
                    e += 1;
                }
                proof {
                    assert(pack.fingerprint@.take(e as int) =~= pack.fingerprint@);
                }
            },
            Err(_) => {
                proof {
                    assert(found@ =~= before + Seq::<SegmentMatch>::empty());
                }
            },
        }
        proof {
            let done = loads@.take(p + 1);
            assert(done.drop_last() =~= loads@.take(p as int));
            assert(done.last() == loads@[p as int]);
        }
        p += 1;
    }
    proof {
        assert(loads@.take(p as int) =~= loads@);
    }
    found
}

/// The first index of the sorted `ranking` at which the score is not below
/// `score_bits`.
fn rank_of(ranking: &Vec<SegmentMatch>, score_bits: u64) -> (at: usize)
    requires
        is_sorted_by_score(ranking@),
    ensures
        at <= ranking@.len(),
        forall|i: int| 0 <= i < at ==> ranking@[i].segment.score_bits < score_bits,
        forall|i: int| at <= i < ranking@.len() ==> ranking@[i].segment.score_bits >= score_bits,
{
    let mut lo: usize = 0;
    let mut hi: usize = ranking.len();
    while lo < hi
        invariant
            lo <= hi <= ranking@.len(),
            is_sorted_by_score(ranking@),
            forall|i: int| 0 <= i < lo ==> ranking@[i].segment.score_bits < score_bits,
            forall|i: int| hi <= i < ranking@.len() ==> ranking@[i].segment.score_bits >= score_bits,
        decreases hi - lo,
    {
        let mid: usize = lo + (hi - lo) / 2;
        if ranking[mid].segment.score_bits < score_bits {
            lo = mid + 1;
        } else {
            hi = mid;
        }
    }
    lo
}

/// The matches `found` in ascending order of score.
pub fn sort_by_score(found: Vec<SegmentMatch>) -> (ranking: Vec<SegmentMatch>)
    ensures
        is_ranking_of(ranking@, found@),
{
    let mut rest = found;
    let mut ranking: Vec<SegmentMatch> = Vec::new();
    proof {
        assert((rest@ + ranking@) =~= found@);
    }
    while rest.len() > 0
        invariant
            is_sorted_by_score(ranking@),
            (rest@ + ranking@).to_multiset() == found@.to_multiset(),
        decreases rest@.len(),
    {
        let ghost before = rest@;
        let ghost ranked = ranking@;
        let item = rest.pop().unwrap();
        let at = rank_of(&ranking, item.segment.score_bits);
        ranking.insert(at, item);
        proof {
            to_multiset_insert(ranked, at as int, item);
            lemma_multiset_commutative(before, ranked);
            lemma_multiset_commutative(rest@, ranking@);
            lemma_multiset_commutative(rest@, seq![item]);
            assert(before =~= rest@ + seq![item]);
            assert(seq![item].to_multiset() =~= Multiset::<SegmentMatch>::empty().insert(item)) by {
                broadcast use vstd::seq_lib::group_to_multiset_ensures;

                assert(seq![item] =~= Seq::<SegmentMatch>::empty().push(item));
            }
            assert((rest@ + ranking@).to_multiset() =~= (before + ranked).to_multiset());
        }
    }
    proof {
        assert(rest@ + ranking@ =~= ranking@);
    }
    ranking
}

/// The ranked matches of an input against the inclusion packs and against
/// the exclusion packs.
///
/// `inclusion` and `exclusion` hold, for each pack, what loading it gave. Each
/// of the two results holds the matches of every entry of every pack that
/// was loaded, in ascending order of score; with no packs it is empty.
pub fn cut_matches(
    input: &Vec<u32>,
    inclusion: &Vec<Result<PackFile, PackError>>,
    exclusion: &Vec<Result<PackFile, PackError>>,
) -> (ranked: (Vec<SegmentMatch>, Vec<SegmentMatch>))
    ensures
        is_ranking_of(ranked.0@, all_matches(input@, inclusion@)),
        is_ranking_of(ranked.1@, all_matches(input@, exclusion@)),
        inclusion@.len() == 0 ==> ranked.0@.len() == 0,
        exclusion@.len() == 0 ==> ranked.1@.len() == 0,
{
    let first = sort_by_score(match_loads(input, inclusion));
    let second = sort_by_score(match_loads(input, exclusion));
    proof {
        first@.to_multiset_ensures();
        second@.to_multiset_ensures();
        all_matches(input@, inclusion@).to_multiset_ensures();
        all_matches(input@, exclusion@).to_multiset_ensures();
    }
    (first, second)
}

} // verus!
