//! Sets of media candidates: one for each address, merged from all places
//! where the address was found, and ranked.
use crate::address::{directness_text, Directness};
use crate::json::Reading;
use crate::patterns::texts_model;
use crate::text::{owned, same};
use crate::weburl::{clone_optional, optional_text};
use std::collections::HashMap;
use vstd::prelude::*;
use vstd::utf8::encode_utf8;

verus! {

/// A media address, and what is known of it.
pub struct Candidate {
    pub url: String,
    pub source_path: String,
    pub source_kind: String,
    pub directness: Directness,
    pub playback_variant: Option<String>,
    pub width: Option<Reading>,
    pub height: Option<Reading>,
    pub bitrate: Option<Reading>,
    pub codec: Option<String>,
    pub format: Option<String>,
    /// The score in hundredths of a point.
    pub score: i64,
    pub evidence: Vec<String>,
    pub sources: Vec<String>,
    /// The number of candidates that were found before.
    pub order: usize,
    /// The place of the product of width and height among double-precision
    /// numbers; 0 until it is set.
    pub area: i64,
}

/// What a [`Candidate`] holds.
#[verifier::ext_equal]
pub struct CandidateModel {
    pub url: Seq<char>,
    pub source_path: Seq<char>,
    pub source_kind: Seq<char>,
    pub directness: Directness,
    pub playback_variant: Option<Seq<char>>,
    pub width: Option<Reading>,
    pub height: Option<Reading>,
    pub bitrate: Option<Reading>,
    pub codec: Option<Seq<char>>,
    pub format: Option<Seq<char>>,
    pub score: i64,
    pub evidence: Seq<Seq<char>>,
    pub sources: Seq<Seq<char>>,
    pub order: nat,
    pub area: i64,
}

impl View for Candidate {
    type V = CandidateModel;

    open spec fn view(&self) -> CandidateModel {
        CandidateModel {
            url: self.url@,
            source_path: self.source_path@,
            source_kind: self.source_kind@,
            directness: self.directness,
            playback_variant: optional_text(self.playback_variant),
            width: self.width,
            height: self.height,
            bitrate: self.bitrate,
            codec: optional_text(self.codec),
            format: optional_text(self.format),
            score: self.score,
            evidence: texts_model(self.evidence@),
            sources: texts_model(self.sources@),
            order: self.order as nat,
            area: self.area,
        }
    }
}

pub open spec fn candidates_model(candidates: Seq<Candidate>) -> Seq<CandidateModel> {
    candidates.map_values(|candidate: Candidate| candidate@)
}

/// A candidate as it is reported.
#[derive(Debug)]
pub struct ShareMediaCandidate {
    pub url: String,
    pub source_path: Option<String>,
    pub source_kind: Option<String>,
    pub directness: Option<String>,
    pub playback_variant: Option<String>,
    pub width: Option<Reading>,
    pub height: Option<Reading>,
    pub bitrate: Option<Reading>,
    pub codec: Option<String>,
    pub format: Option<String>,
}

/// What a [`ShareMediaCandidate`] holds.
pub struct MediaModel {
    pub url: Seq<char>,
    pub source_path: Option<Seq<char>>,
    pub source_kind: Option<Seq<char>>,
    pub directness: Option<Seq<char>>,
    pub playback_variant: Option<Seq<char>>,
    pub width: Option<Reading>,
    pub height: Option<Reading>,
    pub bitrate: Option<Reading>,
    pub codec: Option<Seq<char>>,
    pub format: Option<Seq<char>>,
}

impl View for ShareMediaCandidate {
    type V = MediaModel;

    open spec fn view(&self) -> MediaModel {
        MediaModel {
            url: self.url@,
            source_path: optional_text(self.source_path),
            source_kind: optional_text(self.source_kind),
            directness: optional_text(self.directness),
            playback_variant: optional_text(self.playback_variant),
            width: self.width,
            height: self.height,
            bitrate: self.bitrate,
            codec: optional_text(self.codec),
            format: optional_text(self.format),
        }
    }
}

/// A candidate as it is reported.
pub open spec fn reported(candidate: CandidateModel) -> MediaModel {
    MediaModel {
        url: candidate.url,
        source_path: Some(candidate.source_path),
        source_kind: Some(candidate.source_kind),
        directness: Some(directness_text(candidate.directness)),
        playback_variant: candidate.playback_variant,
        width: candidate.width,
        height: candidate.height,
        bitrate: candidate.bitrate,
        codec: candidate.codec,
        format: candidate.format,
    }
}

impl Candidate {
    /// The candidate as it is reported.
    pub fn public(&self) -> (media: ShareMediaCandidate)
        ensures
            media@ == reported(self@),
    {
        ShareMediaCandidate {
            url: self.url.clone(),
            source_path: Some(self.source_path.clone()),
            source_kind: Some(self.source_kind.clone()),
            directness: Some(owned(self.directness.as_str())),
            playback_variant: clone_optional(&self.playback_variant),
            width: self.width,
            height: self.height,
            bitrate: self.bitrate,
            codec: clone_optional(&self.codec),
            format: clone_optional(&self.format),
        }
    }
}

/// The greater of two numbers that may be missing.
pub open spec fn greater(left: Option<Reading>, right: Option<Reading>) -> Option<Reading> {
    match (left, right) {
        (Some(first), Some(second)) => if first.place < second.place {
            right
        } else {
            left
        },
        (Some(_), None) => left,
        (None, _) => right,
    }
}

/// The greater of two numbers that may be missing.
pub fn max_option(left: Option<Reading>, right: Option<Reading>) -> (most: Option<Reading>)
    ensures
        most == greater(left, right),
{
    match (left, right) {
        (Some(first), Some(second)) => if first.place < second.place {
            Some(second)
        } else {
            Some(first)
        },
        (Some(value), None) => Some(value),
        (None, other) => other,
    }
}

/// `target` with each of the first `count` values that it does not hold yet.
pub open spec fn extended(target: Seq<Seq<char>>, values: Seq<Seq<char>>, count: nat) -> Seq<
    Seq<char>,
>
    decreases count,
{
    if count == 0 {
        target
    } else {
        let before = extended(target, values, (count - 1) as nat);
        if before.contains(values[count - 1]) {
            before
        } else {
            before.push(values[count - 1])
        }
    }
}

/// Whether the texts hold this one.
pub fn holds(texts: &Vec<String>, text: &str) -> (found: bool)
    ensures
        found == texts_model(texts@).contains(text@),
{
    let mut at: usize = 0;
    while at < texts.len()
        invariant
            at <= texts@.len(),
            forall|i: int| 0 <= i < at ==> texts_model(texts@)[i] != text@,
        decreases texts@.len() - at,
    {
        if same(texts[at].as_str(), text) {
            assert(texts_model(texts@)[at as int] == text@);
            return true;
        }
        at = at + 1;
    }
    false
}

/// Adds each value that `target` does not hold yet.
pub fn extend_unique(target: &mut Vec<String>, values: &Vec<String>)
    ensures
        texts_model(final(target)@) == extended(
            texts_model(old(target)@),
            texts_model(values@),
            values@.len(),
        ),
{
    let mut at: usize = 0;
    while at < values.len()
        invariant
            at <= values@.len(),
            texts_model(target@) == extended(
                texts_model(old(target)@),
                texts_model(values@),
                at as nat,
            ),
        decreases values@.len() - at,
    {
        let ghost before = texts_model(target@);
        assert(texts_model(values@)[at as int] == values@[at as int]@);
        if !holds(target, values[at].as_str()) {
            target.push(values[at].clone());
            assert(texts_model(target@) =~= before.push(values@[at as int]@));
        }
        at = at + 1;
    }
}

/// The position of the first candidate with this address.
pub open spec fn url_at(candidates: Seq<CandidateModel>, url: Seq<char>) -> int
    decreases candidates.len(),
{
    if candidates.len() == 0 {
        0
    } else if candidates[0].url == url {
        0
    } else {
        1 + url_at(candidates.skip(1), url)
    }
}

/// What is known of an address that was found in one place, with what another
/// place says of it.
pub open spec fn combined(known: CandidateModel, other: CandidateModel) -> CandidateModel {
    CandidateModel {
        score: if known.score < other.score {
            other.score
        } else {
            known.score
        },
        bitrate: greater(known.bitrate, other.bitrate),
        width: greater(known.width, other.width),
        height: greater(known.height, other.height),
        playback_variant: if known.playback_variant is None {
            other.playback_variant
        } else {
            known.playback_variant
        },
        evidence: extended(known.evidence, other.evidence, other.evidence.len()),
        sources: extended(known.sources, other.sources, other.sources.len()),
        ..known
    }
}

/// The candidates with one more: combined with the one of the same address, or
/// at the end.
pub open spec fn merged(candidates: Seq<CandidateModel>, other: CandidateModel) -> Seq<
    CandidateModel,
> {
    let at = url_at(candidates, other.url);
    if 0 <= at < candidates.len() {
        candidates.update(at, combined(candidates[at], other))
    } else {
        candidates.push(other)
    }
}

/// The candidates of the first `count` findings.
pub open spec fn merged_all(found: Seq<CandidateModel>, count: nat) -> Seq<CandidateModel>
    decreases count,
{
    if count == 0 {
        Seq::empty()
    } else {
        merged(merged_all(found, (count - 1) as nat), found[count - 1])
    }
}

/// No two candidates have the same address.
pub open spec fn distinct_urls(candidates: Seq<CandidateModel>) -> bool {
    forall|i: int, j: int|
        0 <= i < j < candidates.len() ==> #[trigger] candidates[i].url != #[trigger] candidates[j].url
}

proof fn lemma_url_at(candidates: Seq<CandidateModel>, url: Seq<char>)
    ensures
        0 <= url_at(candidates, url) <= candidates.len(),
        url_at(candidates, url) < candidates.len() ==> candidates[url_at(candidates, url)].url
            == url,
        forall|i: int| 0 <= i < url_at(candidates, url) ==> #[trigger] candidates[i].url != url,
    decreases candidates.len(),
{
    if candidates.len() > 0 && candidates[0].url != url {
        lemma_url_at(candidates.skip(1), url);
        assert forall|i: int| 0 <= i < url_at(candidates, url) implies #[trigger] candidates[i].url
            != url by {
            if i > 0 {
                assert(candidates.skip(1)[i - 1] == candidates[i]);
            }
        }
        if url_at(candidates, url) < candidates.len() {
            assert(candidates.skip(1)[url_at(candidates, url) - 1] == candidates[url_at(
                candidates,
                url,
            )]);
        }
    }
}

/// Merging keeps one candidate for each address, and leaves the addresses that
/// were there as they were and where they were.
pub proof fn lemma_merge_keeps_distinct(candidates: Seq<CandidateModel>, other: CandidateModel)
    requires
        distinct_urls(candidates),
    ensures
        distinct_urls(merged(candidates, other)),
        candidates.len() <= merged(candidates, other).len(),
        forall|i: int|
            0 <= i < candidates.len() ==> #[trigger] merged(candidates, other)[i].url
                == candidates[i].url,
        exists|i: int|
            0 <= i < merged(candidates, other).len() && #[trigger] merged(candidates, other)[i].url
                == other.url,
{
    lemma_url_at(candidates, other.url);
    let at = url_at(candidates, other.url);
    let after = merged(candidates, other);
    assert(after[at].url == other.url);
}

/// Adds what a candidate says to the one at a position.
fn combine(values: &mut Vec<Candidate>, at: usize, candidate: &Candidate)
    requires
        at < old(values)@.len(),
    ensures
        candidates_model(final(values)@) == candidates_model(old(values)@).update(
            at as int,
            combined(candidates_model(old(values)@)[at as int], candidate@),
        ),
{
    let ghost before = candidates_model(values@);
    let known = &mut values[at];
    if known.score < candidate.score {
        known.score = candidate.score;
    }
    known.bitrate = max_option(known.bitrate, candidate.bitrate);
    known.width = max_option(known.width, candidate.width);
    known.height = max_option(known.height, candidate.height);
    if known.playback_variant.is_none() {
        known.playback_variant = clone_optional(&candidate.playback_variant);
    }
    extend_unique(&mut known.evidence, &candidate.evidence);
    extend_unique(&mut known.sources, &candidate.sources);
    assert(values@[at as int]@ == combined(before[at as int], candidate@));
    assert(candidates_model(values@) =~= before.update(
        at as int,
        combined(before[at as int], candidate@),
    ));
}

/// Notes the area of the candidate at a position.
fn note_area(values: &mut Vec<Candidate>, at: usize, area: i64)
    requires
        at < old(values)@.len(),
    ensures
        candidates_model(final(values)@) == candidates_model(old(values)@).update(
            at as int,
            (CandidateModel { area, ..candidates_model(old(values)@)[at as int] }),
        ),
{
    let ghost before = candidates_model(values@);
    let known = &mut values[at];
    known.area = area;
    assert(values@[at as int]@ == (CandidateModel { area, ..before[at as int] }));
    assert(candidates_model(values@) =~= before.update(
        at as int,
        (CandidateModel { area, ..before[at as int] }),
    ));
}

/// The modulus of digests.
const DIGEST_MODULUS: u64 = 36_028_797_018_963_913;

/// A number by which an address is looked up: the first `count` bytes as digits.
spec fn digest_of(bytes: Seq<u8>, count: nat) -> nat
    decreases count,
{
    if count == 0 {
        0
    } else {
        (digest_of(bytes, (count - 1) as nat) * 256 + bytes[count - 1]) as nat
            % DIGEST_MODULUS as nat
    }
}

/// The number by which an address is looked up.
spec fn digest(url: Seq<char>) -> nat {
    digest_of(encode_utf8(url), encode_utf8(url).len())
}

fn compute_digest(url: &str) -> (number: u64)
    ensures
        number == digest(url@),
{
    let bytes = url.as_bytes();
    let mut number: u64 = 0;
    let mut at: usize = 0;
    while at < bytes.len()
        invariant
            at <= bytes@.len(),
            number < DIGEST_MODULUS,
            number == digest_of(bytes@, at as nat),
        decreases bytes@.len() - at,
    {
        number = (number * 256 + bytes[at] as u64) % DIGEST_MODULUS;
        at = at + 1;
    }
    number
}

/// Candidates with one for each address, and the positions of the addresses by
/// their digests.
pub struct CandidateSet {
    values: Vec<Candidate>,
    index: HashMap<u64, Vec<usize>>,
}

impl View for CandidateSet {
    type V = Seq<CandidateModel>;

    closed spec fn view(&self) -> Seq<CandidateModel> {
        candidates_model(self.values@)
    }
}

/// The position of each candidate is under the digest of its address, and all
/// positions are those of candidates.
spec fn is_indexed(candidates: Seq<CandidateModel>, index: Map<u64, Vec<usize>>) -> bool {
    &&& forall|i: int|
        0 <= i < candidates.len() ==> {
            let number = digest(#[trigger] candidates[i].url) as u64;
            index.contains_key(number) && index[number]@.contains(i as usize)
        }
    &&& forall|number: u64, k: int|
        index.contains_key(number) && 0 <= k < index[number]@.len() ==> #[trigger] index[number]@[k]
            < candidates.len()
}

impl CandidateSet {
    #[verifier::type_invariant]
    spec fn keeps_distinct(self) -> bool {
        &&& distinct_urls(candidates_model(self.values@))
        &&& is_indexed(candidates_model(self.values@), self.index@)
    }

    /// No candidates.
    pub fn new() -> (set: CandidateSet)
        ensures
            set@ == Seq::<CandidateModel>::empty(),
    {
        broadcast use vstd::std_specs::hash::group_hash_axioms;

        let values: Vec<Candidate> = Vec::new();
        let index: HashMap<u64, Vec<usize>> = HashMap::new();
        assert(candidates_model(values@) =~= Seq::empty());
        CandidateSet { values, index }
    }

    pub fn len(&self) -> (count: usize)
        ensures
            count == self@.len(),
    {
        self.values.len()
    }

    /// The candidate at a position.
    pub fn get(&self, index: usize) -> (candidate: &Candidate)
        requires
            index < self@.len(),
        ensures
            candidate@ == self@[index as int],
    {
        &self.values[index]
    }

    fn position(&self, url: &str) -> (at: usize)
        ensures
            at == url_at(self@, url@),
            at <= self@.len(),
    {
        broadcast use vstd::std_specs::hash::group_hash_axioms;

        let ghost model = candidates_model(self.values@);
        proof {
            use_type_invariant(self);
            lemma_url_at(model, url@);
        }
        let number: u64 = compute_digest(url);
        let ghost found = url_at(model, url@);
        if let Some(bucket) = self.index.get(&number) {
            let mut at: usize = 0;
            while at < bucket.len()
                invariant
                    at <= bucket@.len(),
                    model == candidates_model(self.values@),
                    distinct_urls(model),
                    found == url_at(model, url@),
                    0 <= found <= model.len(),
                    found < model.len() ==> model[found].url == url@,
                    forall|k: int| 0 <= k < bucket@.len() ==> #[trigger] bucket@[k] < model.len(),
                    forall|k: int|
                        0 <= k < at ==> model[(#[trigger] bucket@[k]) as int].url != url@,
                decreases bucket@.len() - at,
            {
                let place: usize = bucket[at];
                assert(model[place as int] == self.values@[place as int]@);
                if same(self.values[place].url.as_str(), url) {
                    proof {
                        if found < place {
                            assert(model[found].url != model[place as int].url);
                        } else if place < found {
                            lemma_url_at(model, url@);
                            assert(model[place as int].url != url@);
                        }
                    }
                    return place;
                }
                at = at + 1;
            }
            proof {
                if found < model.len() {
                    assert(digest(model[found].url) as u64 == number);
                    assert(bucket@.contains(found as usize));
                    let k = choose|k: int| 0 <= k < bucket@.len() && bucket@[k] == found as usize;
                    assert(model[bucket@[k] as int].url != url@);
                }
            }
        } else {
            proof {
                if found < model.len() {
                    assert(digest(model[found].url) as u64 == number);
                }
            }
        }
        self.values.len()
    }

    /// Adds a candidate, or what it says of an address that is there.
    pub fn merge(&mut self, candidate: Candidate)
        ensures
            final(self)@ == merged(old(self)@, candidate@),
            distinct_urls(final(self)@),
    {
        broadcast use vstd::std_specs::hash::group_hash_axioms;

        proof {
            use_type_invariant(&*self);
            lemma_url_at(self@, candidate@.url);
            lemma_merge_keeps_distinct(self@, candidate@);
        }
        let at: usize = self.position(candidate.url.as_str());
        let ghost before = self@;
        let ghost old_index = self.index@;
        let mut set = CandidateSet::new();
        std::mem::swap(&mut set, self);
        let CandidateSet { values: taken, index: places } = set;
        let mut values = taken;
        let mut index = places;
        if at < values.len() {
            combine(&mut values, at, &candidate);
            assert(candidates_model(values@) =~= merged(before, candidate@));
            assert forall|i: int| 0 <= i < before.len() implies candidates_model(values@)[i].url
                == #[trigger] before[i].url by {}
        } else {
            let number: u64 = compute_digest(candidate.url.as_str());
            let mut bucket: Vec<usize> = match index.remove(&number) {
                Some(bucket) => bucket,
                None => Vec::new(),
            };
            let ghost fewer = bucket@;
            bucket.push(at);
            let ghost model = candidate@;
            assert(bucket@ =~= fewer.push(at));
            index.insert(number, bucket);
            values.push(candidate);
            proof {
                let after = candidates_model(values@);
                assert(after =~= merged(before, model));
                assert(index@[number]@[fewer.len() as int] == at);
                assert forall|i: int| 0 <= i < after.len() implies ({
                    let number = digest(#[trigger] after[i].url) as u64;
                    index@.contains_key(number) && index@[number]@.contains(i as usize)
                }) by {
                    if i < before.len() {
                        let other = digest(before[i].url) as u64;
                        assert(old_index.contains_key(other) && old_index[other]@.contains(
                            i as usize,
                        ));
                        if other == number {
                            let k = choose|k: int|
                                0 <= k < fewer.len() && fewer[k] == i as usize;
                            assert(index@[number]@[k] == i as usize);
                        }
                    }
                }
                assert forall|other: u64, k: int|
                    index@.contains_key(other) && 0 <= k
                        < index@[other]@.len() implies #[trigger] index@[other]@[k]
                    < after.len() by {
                    if other == number {
                        if k < fewer.len() {
                            assert(old_index[number]@[k] < before.len());
                        }
                    } else {
                        assert(old_index[other]@[k] < before.len());
                    }
                }
            }
        }
        *self = CandidateSet { values, index };
    }

    /// Notes the area of the candidate at a position.
    pub fn set_area(&mut self, index: usize, area: i64)
        requires
            index < old(self)@.len(),
        ensures
            final(self)@ == old(self)@.update(
                index as int,
                (CandidateModel { area, ..old(self)@[index as int] }),
            ),
    {
        proof {
            use_type_invariant(&*self);
        }
        let ghost before = self@;
        let mut set = CandidateSet::new();
        std::mem::swap(&mut set, self);
        let CandidateSet { values: taken, index: places } = set;
        let mut values = taken;
        note_area(&mut values, index, area);
        proof {
            let after = candidates_model(values@);
            assert forall|i: int| 0 <= i < before.len() implies after[i].url
                == #[trigger] before[i].url by {}
        }
        *self = CandidateSet { values, index: places };
    }

    /// The candidates by rank: the greatest score first, then the greatest bit
    /// rate, then the greatest area, then the one found first.
    pub fn into_sorted(self) -> (sorted: Vec<Candidate>)
        ensures
            is_ranked(candidates_model(sorted@)),
            candidates_model(sorted@).to_multiset() == self@.to_multiset(),
            distinct_urls(candidates_model(sorted@)),
    {
        proof {
            use_type_invariant(&self);
        }
        let ghost all = self@;
        let sorted = sort_ranked(self.values);
        proof {
            lemma_distinct_as_multiset(all, candidates_model(sorted@));
        }
        sorted
    }
}

/// The bit rate's place among numbers, zero where it is not known.
pub open spec fn bitrate_place(candidate: CandidateModel) -> int {
    match candidate.bitrate {
        Some(reading) => reading.place as int,
        None => 0,
    }
}

/// The first candidate ranks no lower than the second.
pub open spec fn ranks_before(first: CandidateModel, second: CandidateModel) -> bool {
    if first.score != second.score {
        first.score > second.score
    } else if bitrate_place(first) != bitrate_place(second) {
        bitrate_place(first) > bitrate_place(second)
    } else if first.area != second.area {
        first.area > second.area
    } else {
        first.order <= second.order
    }
}

/// Each candidate ranks no lower than those after it.
pub open spec fn is_ranked(candidates: Seq<CandidateModel>) -> bool {
    forall|i: int, j: int|
        0 <= i <= j < candidates.len() ==> ranks_before(#[trigger] candidates[i], #[trigger] candidates[j])
}

/// The place of a number among numbers, zero where it is not known.
pub fn option_number(value: &Option<Reading>) -> (place: i64)
    ensures
        place == (match *value {
            Some(reading) => reading.place,
            None => 0,
        }),
{
    match value {
        Some(reading) => reading.place,
        None => 0,
    }
}

fn ranks_first(first: &Candidate, second: &Candidate) -> (before: bool)
    ensures
        before == ranks_before(first@, second@),
{
    let left: i64 = option_number(&first.bitrate);
    let right: i64 = option_number(&second.bitrate);
    if first.score != second.score {
        first.score > second.score
    } else if left != right {
        left > right
    } else if first.area != second.area {
        first.area > second.area
    } else {
        first.order <= second.order
    }
}

/// Each candidate ranks no higher than those after it.
spec fn is_ranked_backwards(candidates: Seq<CandidateModel>) -> bool {
    forall|i: int, j: int|
        0 <= i <= j < candidates.len() ==> ranks_before(#[trigger] candidates[j], #[trigger] candidates[i])
}

/// All of the first candidates rank no lower than any of the second.
spec fn rank_before(first: Seq<CandidateModel>, second: Seq<CandidateModel>) -> bool {
    forall|i: int, j: int|
        0 <= i < first.len() && 0 <= j < second.len() ==> ranks_before(
            #[trigger] first[i],
            #[trigger] second[j],
        )
}

/// A candidate that moves from the end of one list to the end of another stays
/// among those of both.
proof fn lemma_moved(from: Seq<CandidateModel>, to: Seq<CandidateModel>)
    requires
        from.len() > 0,
    ensures
        from.drop_last().to_multiset().add(to.push(from.last()).to_multiset())
            == from.to_multiset().add(to.to_multiset()),
{
    broadcast use vstd::seq_lib::group_to_multiset_ensures;

    assert(from =~= from.drop_last().push(from.last()));
    assert(from.drop_last().to_multiset().add(to.push(from.last()).to_multiset())
        =~= from.to_multiset().add(to.to_multiset()));
}

/// Moves the last candidate of one list to the end of another.
fn move_last(from: &mut Vec<Candidate>, to: &mut Vec<Candidate>)
    requires
        old(from)@.len() > 0,
    ensures
        candidates_model(final(from)@) == candidates_model(old(from)@).drop_last(),
        candidates_model(final(to)@) == candidates_model(old(to)@).push(
            candidates_model(old(from)@).last(),
        ),
        candidates_model(final(from)@).to_multiset().add(candidates_model(final(to)@).to_multiset())
            == candidates_model(old(from)@).to_multiset().add(
            candidates_model(old(to)@).to_multiset(),
        ),
{
    let ghost before = candidates_model(from@);
    let ghost others = candidates_model(to@);
    if let Some(candidate) = from.pop() {
        to.push(candidate);
    }
    proof {
        assert(candidates_model(from@) =~= before.drop_last());
        assert(candidates_model(to@) =~= others.push(before.last()));
        lemma_moved(before, others);
    }
}

/// The candidates in the opposite order.
fn turn_round(candidates: Vec<Candidate>) -> (turned: Vec<Candidate>)
    requires
        is_ranked_backwards(candidates_model(candidates@)),
    ensures
        is_ranked(candidates_model(turned@)),
        candidates_model(turned@).to_multiset() == candidates_model(candidates@).to_multiset(),
{
    broadcast use vstd::seq_lib::group_to_multiset_ensures;

    let ghost all = candidates_model(candidates@);
    let mut rest = candidates;
    let mut turned: Vec<Candidate> = Vec::new();
    assert(candidates_model(turned@) =~= Seq::empty());
    assert(all.to_multiset().add(candidates_model(turned@).to_multiset()) =~= all.to_multiset());
    while rest.len() > 0
        invariant
            is_ranked_backwards(all),
            rest@.len() <= all.len(),
            candidates_model(rest@) == all.take(rest@.len() as int),
            turned@.len() == all.len() - rest@.len(),
            forall|i: int|
                0 <= i < turned@.len() ==> #[trigger] candidates_model(turned@)[i] == all[all.len()
                    - 1 - i],
            candidates_model(rest@).to_multiset().add(candidates_model(turned@).to_multiset())
                == all.to_multiset(),
        decreases rest@.len(),
    {
        let ghost before = candidates_model(rest@);
        let ghost others = candidates_model(turned@);
        move_last(&mut rest, &mut turned);
        proof {
            assert(candidates_model(rest@).len() == rest@.len());
            assert(candidates_model(turned@).len() == turned@.len());
            assert(candidates_model(rest@) =~= all.take(rest@.len() as int));
            assert(before.last() == all[before.len() - 1]);
            assert forall|i: int| 0 <= i < turned@.len() implies #[trigger] candidates_model(
                turned@,
            )[i] == all[all.len() - 1 - i] by {
                if i < others.len() {
                    assert(candidates_model(turned@)[i] == others[i]);
                }
            }
        }
    }
    proof {
        assert(candidates_model(rest@) =~= Seq::empty());
        assert(candidates_model(turned@).to_multiset() =~= all.to_multiset());
    }
    turned
}

/// The candidates of two ranked lists in one.
fn merge_ranked(first: Vec<Candidate>, second: Vec<Candidate>) -> (merged: Vec<Candidate>)
    requires
        is_ranked(candidates_model(first@)),
        is_ranked(candidates_model(second@)),
    ensures
        is_ranked(candidates_model(merged@)),
        candidates_model(merged@).to_multiset() == candidates_model(first@).to_multiset().add(
            candidates_model(second@).to_multiset(),
        ),
{
    let ghost all = candidates_model(first@).to_multiset().add(
        candidates_model(second@).to_multiset(),
    );
    let mut first = first;
    let mut second = second;
    let mut back: Vec<Candidate> = Vec::new();
    proof {
        broadcast use vstd::seq_lib::group_to_multiset_ensures;

        assert(candidates_model(back@) =~= Seq::empty());
        assert(candidates_model(first@).to_multiset().add(
            candidates_model(second@).to_multiset(),
        ).add(candidates_model(back@).to_multiset()) =~= all);
    }
    while first.len() > 0 || second.len() > 0
        invariant
            is_ranked(candidates_model(first@)),
            is_ranked(candidates_model(second@)),
            is_ranked_backwards(candidates_model(back@)),
            rank_before(candidates_model(first@), candidates_model(back@)),
            rank_before(candidates_model(second@), candidates_model(back@)),
            candidates_model(first@).to_multiset().add(
                candidates_model(second@).to_multiset(),
            ).add(candidates_model(back@).to_multiset()) == all,
        decreases first@.len() + second@.len(),
    {
        let ghost (one, other, last) = (
            candidates_model(first@),
            candidates_model(second@),
            candidates_model(back@),
        );
        let take_first = second.len() == 0 || (first.len() > 0 && ranks_first(
            &second[second.len() - 1],
            &first[first.len() - 1],
        ));
        if take_first {
            move_last(&mut first, &mut back);
            proof {
                assert(candidates_model(first@).len() == first@.len());
                lemma_taken(one, other, last);
                assert(one.drop_last().to_multiset().add(other.to_multiset()).add(
                    last.push(one.last()).to_multiset(),
                ) =~= one.drop_last().to_multiset().add(
                    last.push(one.last()).to_multiset(),
                ).add(other.to_multiset()));
                assert(one.to_multiset().add(last.to_multiset()).add(other.to_multiset())
                    =~= one.to_multiset().add(other.to_multiset()).add(last.to_multiset()));
            }
        } else {
            move_last(&mut second, &mut back);
            proof {
                assert(candidates_model(second@).len() == second@.len());
                lemma_taken(other, one, last);
                assert(one.to_multiset().add(other.drop_last().to_multiset()).add(
                    last.push(other.last()).to_multiset(),
                ) =~= other.drop_last().to_multiset().add(
                    last.push(other.last()).to_multiset(),
                ).add(one.to_multiset()));
                assert(other.to_multiset().add(last.to_multiset()).add(one.to_multiset())
                    =~= one.to_multiset().add(other.to_multiset()).add(last.to_multiset()));
            }
        }
    }
    proof {
        broadcast use vstd::seq_lib::group_to_multiset_ensures;

        assert(candidates_model(first@) =~= Seq::empty());
        assert(candidates_model(second@) =~= Seq::empty());
        assert(candidates_model(back@).to_multiset() =~= all);
    }
    turn_round(back)
}

/// The lowest of two ranked lists goes before those that rank no higher.
proof fn lemma_taken(
    one: Seq<CandidateModel>,
    other: Seq<CandidateModel>,
    back: Seq<CandidateModel>,
)
    requires
        one.len() > 0,
        is_ranked(one),
        is_ranked(other),
        is_ranked_backwards(back),
        rank_before(one, back),
        rank_before(other, back),
        other.len() > 0 ==> ranks_before(other.last(), one.last()),
    ensures
        is_ranked(one.drop_last()),
        is_ranked_backwards(back.push(one.last())),
        rank_before(one.drop_last(), back.push(one.last())),
        rank_before(other, back.push(one.last())),
{
    let fewer = one.drop_last();
    let more = back.push(one.last());
    assert forall|i: int, j: int| 0 <= i <= j < fewer.len() implies ranks_before(
        #[trigger] fewer[i],
        #[trigger] fewer[j],
    ) by {
        assert(ranks_before(one[i], one[j]));
    }
    assert forall|i: int, j: int| 0 <= i <= j < more.len() implies ranks_before(
        #[trigger] more[j],
        #[trigger] more[i],
    ) by {
        if j < back.len() {
            assert(ranks_before(back[j], back[i]));
        } else if i < back.len() {
            assert(ranks_before(one[one.len() - 1], back[i]));
        }
    }
    assert forall|i: int, j: int| 0 <= i < fewer.len() && 0 <= j < more.len() implies ranks_before(
        #[trigger] fewer[i],
        #[trigger] more[j],
    ) by {
        if j < back.len() {
            assert(ranks_before(one[i], back[j]));
        } else {
            assert(ranks_before(one[i], one[one.len() - 1]));
        }
    }
    assert forall|i: int, j: int| 0 <= i < other.len() && 0 <= j < more.len() implies ranks_before(
        #[trigger] other[i],
        #[trigger] more[j],
    ) by {
        if j < back.len() {
            assert(ranks_before(other[i], back[j]));
        } else {
            assert(ranks_before(other[i], other[other.len() - 1]));
        }
    }
}

/// The candidates by rank.
fn sort_ranked(candidates: Vec<Candidate>) -> (sorted: Vec<Candidate>)
    ensures
        is_ranked(candidates_model(sorted@)),
        candidates_model(sorted@).to_multiset() == candidates_model(candidates@).to_multiset(),
    decreases candidates@.len(),
{
    assert(candidates_model(candidates@).len() == candidates@.len());
    if candidates.len() < 2 {
        return candidates;
    }
    let ghost all = candidates_model(candidates@).to_multiset();
    let count: usize = candidates.len();
    let mut first = candidates;
    let mut second: Vec<Candidate> = Vec::new();
    proof {
        broadcast use vstd::seq_lib::group_to_multiset_ensures;

        assert(candidates_model(second@) =~= Seq::empty());
        assert(candidates_model(first@).to_multiset().add(candidates_model(second@).to_multiset())
            =~= all);
    }
    while second.len() < count / 2
        invariant
            2 <= count,
            first@.len() + second@.len() == count,
            second@.len() <= count / 2,
            candidates_model(first@).to_multiset().add(candidates_model(second@).to_multiset())
                == all,
        decreases count - second@.len(),
    {
        let ghost (one, other) = (candidates_model(first@), candidates_model(second@));
        move_last(&mut first, &mut second);
        proof {
            assert(candidates_model(first@).len() == first@.len());
            assert(candidates_model(second@).len() == second@.len());
            assert(one.len() + other.len() == count);
        }
    }
    merge_ranked(sort_ranked(first), sort_ranked(second))
}

/// Distinct addresses are a property of the candidates, not of their order.
proof fn lemma_distinct_as_multiset(first: Seq<CandidateModel>, second: Seq<CandidateModel>)
    requires
        first.to_multiset() == second.to_multiset(),
        distinct_urls(first),
    ensures
        distinct_urls(second),
{
    broadcast use vstd::seq_lib::group_to_multiset_ensures;

    assert(first.no_duplicates()) by {
        assert forall|i: int, j: int| 0 <= i < first.len() && 0 <= j < first.len() && i
            != j implies first[i] != first[j] by {
            if i < j {
                assert(first[i].url != first[j].url);
            } else {
                assert(first[j].url != first[i].url);
            }
        }
    }
    first.lemma_multiset_has_no_duplicates();
    second.lemma_multiset_has_no_duplicates_conv();
    assert forall|i: int, j: int| 0 <= i < j < second.len() implies #[trigger] second[i].url
        != #[trigger] second[j].url by {
        assert(second[i] != second[j]);
        assert(second.to_multiset().count(second[i]) > 0);
        assert(second.to_multiset().count(second[j]) > 0);
        let k = choose|k: int| 0 <= k < first.len() && first[k] == second[i];
        let l = choose|l: int| 0 <= l < first.len() && first[l] == second[j];
        assert(first.contains(second[i]));
        assert(first.contains(second[j]));
        if k < l {
            assert(first[k].url != first[l].url);
        } else {
            assert(first[l].url != first[k].url);
        }
    }
}

/// The candidates of all findings, one for each address.
pub fn merge_all(found: Vec<Candidate>) -> (set: CandidateSet)
    ensures
        set@ == merged_all(candidates_model(found@), found@.len()),
{
    let ghost model = candidates_model(found@);
    let mut set = CandidateSet::new();
    for candidate in iter: found
        invariant
            iter.seq() == found@,
            model == candidates_model(found@),
            set@ == merged_all(model, iter.index() as nat),
    {
        assert(model[iter.index()] == candidate@);
        set.merge(candidate);
    }
    set
}

} // verus!
