//! The choice of a media file among ranked candidates. The caller tries the play
//! endpoints and hands the outcomes in.
use crate::address::{clean_play, derive_clean_play_url, media_read, Directness};
use crate::errors::{ErrorModel, ResolveError};
use crate::patterns::texts_model;
use crate::ranking::{candidates_model, holds, Candidate, CandidateModel};
use crate::text::{owned, same};
use vstd::prelude::*;

verus! {

/// The most candidates that are tried for a media file.
pub const MAX_TRIED: usize = 6;

/// The warnings with one more, unless it is there.
pub open spec fn warned(warnings: Seq<Seq<char>>, warning: Seq<char>) -> Seq<Seq<char>> {
    if warnings.contains(warning) {
        warnings
    } else {
        warnings.push(warning)
    }
}

/// Adds a warning, unless it is there.
pub fn push_warning(warnings: &mut Vec<String>, warning: &str)
    ensures
        texts_model(final(warnings)@) == warned(texts_model(old(warnings)@), warning@),
{
    if !holds(warnings, warning) {
        let ghost before = texts_model(warnings@);
        warnings.push(owned(warning));
        assert(texts_model(warnings@) =~= before.push(warning@));
    }
}

/// A warning is given once, however often it arises.
pub proof fn warnings_do_not_repeat(warnings: Seq<Seq<char>>, warning: Seq<char>)
    requires
        warnings.no_duplicates(),
    ensures
        warned(warnings, warning).no_duplicates(),
        warned(warnings, warning).contains(warning),
        warned(warned(warnings, warning), warning) == warned(warnings, warning),
        warnings.is_prefix_of(warned(warnings, warning)),
{
    let after = warned(warnings, warning);
    if !warnings.contains(warning) {
        assert(after[warnings.len() as int] == warning);
        assert forall|i: int, j: int| 0 <= i < after.len() && 0 <= j < after.len() && i
            != j implies after[i] != after[j] by {
            if i < warnings.len() && j < warnings.len() {
                assert(warnings[i] != warnings[j]);
            } else if i < warnings.len() {
                assert(warnings.contains(warnings[i]));
            } else {
                assert(warnings.contains(warnings[j]));
            }
        }
    }
}

/// A play endpoint to try, and the kind of playback that it offers.
pub struct Attempt {
    pub url: String,
    pub variant: String,
}

/// What an [`Attempt`] holds.
pub struct AttemptModel {
    pub url: Seq<char>,
    pub variant: Seq<char>,
}

impl View for Attempt {
    type V = AttemptModel;

    open spec fn view(&self) -> AttemptModel {
        AttemptModel { url: self.url@, variant: self.variant@ }
    }
}

pub open spec fn attempts_model(attempts: Seq<Attempt>) -> Seq<AttemptModel> {
    attempts.map_values(|attempt: Attempt| attempt@)
}

/// The endpoints to try for a candidate: the one without a mark first, where
/// there is one, and then the candidate's own.
pub open spec fn attempts_of(candidate: CandidateModel) -> Result<Seq<AttemptModel>, ErrorModel> {
    match media_read(candidate.url, None) {
        Err(error) => Err(error),
        Ok(url) => match clean_play(url) {
            Some(clean) => Ok(
                seq![
                    AttemptModel { url: clean.text(), variant: "play"@ },
                    AttemptModel { url: candidate.url, variant: "playwm"@ },
                ],
            ),
            None => Ok(
                seq![
                    AttemptModel {
                        url: candidate.url,
                        variant: match candidate.playback_variant {
                            Some(variant) => variant,
                            None => "unknown"@,
                        },
                    },
                ],
            ),
        },
    }
}

/// The endpoints to try for a candidate; see [`attempts_of`].
pub fn attempts_for(candidate: &Candidate) -> (attempts: Result<Vec<Attempt>, ResolveError>)
    ensures
        match attempts {
            Ok(attempts) => attempts_of(candidate@) == Ok::<Seq<AttemptModel>, ErrorModel>(
                attempts_model(attempts@),
            ),
            Err(error) => attempts_of(candidate@) == Err::<Seq<AttemptModel>, ErrorModel>(error@),
        },
{
    match derive_clean_play_url(candidate.url.as_str()) {
        Err(error) => Err(error),
        Ok(clean) => {
            let mut attempts: Vec<Attempt> = Vec::new();
            match clean {
                Some(clean) => {
                    attempts.push(Attempt { url: clean.to_text(), variant: owned("play") });
                    attempts.push(
                        Attempt { url: candidate.url.clone(), variant: owned("playwm") },
                    );
                },
                None => {
                    let variant = match &candidate.playback_variant {
                        Some(variant) => variant.clone(),
                        None => owned("unknown"),
                    };
                    attempts.push(Attempt { url: candidate.url.clone(), variant });
                },
            }
            assert(attempts_model(attempts@) =~= attempts_of(candidate@)->Ok_0);
            Ok(attempts)
        },
    }
}

/// The media file of a video, and the kind of playback that led to it.
pub struct FoundMedia {
    pub url: String,
    pub variant: String,
}

impl View for FoundMedia {
    type V = AttemptModel;

    open spec fn view(&self) -> AttemptModel {
        AttemptModel { url: self.url@, variant: self.variant@ }
    }
}

pub open spec fn optional_media(media: Option<FoundMedia>) -> Option<AttemptModel> {
    match media {
        Some(media) => Some(media@),
        None => None,
    }
}

/// The search for a media file among ranked candidates: how many have been
/// taken, and what is left to try for the last of them.
pub struct MediaSearch<'a> {
    candidates: &'a Vec<Candidate>,
    taken: usize,
    pending: Vec<Attempt>,
    has_clean: bool,
    clean_failed: bool,
}

/// What a [`MediaSearch`] holds.
#[verifier::ext_equal]
pub struct SearchModel {
    pub candidates: Seq<CandidateModel>,
    pub taken: nat,
    pub pending: Seq<AttemptModel>,
    /// An endpoint without a mark is among those of the last candidate.
    pub has_clean: bool,
    /// It was tried, and failed.
    pub clean_failed: bool,
}

impl<'a> View for MediaSearch<'a> {
    type V = SearchModel;

    closed spec fn view(&self) -> SearchModel {
        SearchModel {
            candidates: candidates_model(self.candidates@),
            taken: self.taken as nat,
            pending: attempts_model(self.pending@),
            has_clean: self.has_clean,
            clean_failed: self.clean_failed,
        }
    }
}

/// What a search comes to next.
pub enum SearchStep {
    /// The media file was found.
    Found(FoundMedia),
    /// The play endpoint is to be tried, and the outcome handed in.
    Try(String),
    /// No candidate is left.
    Exhausted,
}

/// What a [`SearchStep`] holds.
pub enum StepModel {
    Found(AttemptModel),
    Try(Seq<char>),
    Exhausted,
}

impl View for SearchStep {
    type V = StepModel;

    open spec fn view(&self) -> StepModel {
        match self {
            SearchStep::Found(media) => StepModel::Found(media@),
            SearchStep::Try(url) => StepModel::Try(url@),
            SearchStep::Exhausted => StepModel::Exhausted,
        }
    }
}

/// A candidate that is a media file.
pub open spec fn direct_media(candidate: CandidateModel) -> AttemptModel {
    AttemptModel {
        url: candidate.url,
        variant: match candidate.playback_variant {
            Some(variant) => variant,
            None => "direct"@,
        },
    }
}

impl SearchModel {
    /// No candidate may be taken any more.
    pub open spec fn is_exhausted(self) -> bool {
        self.taken >= MAX_TRIED || self.taken >= self.candidates.len()
    }

    /// What the search comes to next, and its state then. An endpoint that is
    /// left comes first; then the candidates are taken in order, and those that
    /// lead nowhere are passed over.
    pub open spec fn advanced(self) -> Result<(StepModel, SearchModel), ErrorModel>
        decreases MAX_TRIED - self.taken,
    {
        if self.pending.len() > 0 {
            Ok((StepModel::Try(self.pending[0].url), self))
        } else if self.is_exhausted() {
            Ok((StepModel::Exhausted, self))
        } else {
            let candidate = self.candidates[self.taken as int];
            let after = SearchModel { taken: self.taken + 1, ..self };
            match candidate.directness {
                Directness::CdnMedia => Ok((StepModel::Found(direct_media(candidate)), after)),
                Directness::PlayEndpoint => match attempts_of(candidate) {
                    Err(error) => Err(error),
                    Ok(attempts) => Ok(
                        (
                            StepModel::Try(attempts[0].url),
                            SearchModel {
                                pending: attempts,
                                has_clean: attempts.len() == 2,
                                clean_failed: false,
                                ..after
                            },
                        ),
                    ),
                },
                Directness::Unknown => after.advanced(),
            }
        }
    }

    /// What the outcome of the endpoint that was tried comes to, with the state
    /// and the warnings then. The outcome is the media file's URL, or the message
    /// of an error.
    pub open spec fn concluded(
        self,
        outcome: Result<Seq<char>, Seq<char>>,
        warnings: Seq<Seq<char>>,
    ) -> (Option<AttemptModel>, SearchModel, Seq<Seq<char>>) {
        let attempt = self.pending[0];
        let after = SearchModel { pending: self.pending.skip(1), ..self };
        match outcome {
            Ok(url) => (
                Some(AttemptModel { url, variant: attempt.variant }),
                after,
                if self.clean_failed && attempt.variant == "playwm"@ {
                    warned(warnings, marked_used())
                } else {
                    warnings
                },
            ),
            Err(message) => if self.has_clean && attempt.variant == "play"@ {
                (None, SearchModel { clean_failed: true, ..after }, warnings)
            } else {
                (None, after, warned(warnings, message))
            },
        }
    }
}

/// The warning that an endpoint with a mark took the place of one without.
pub open spec fn marked_used() -> Seq<char> {
    "The clean playback variant was unavailable; the original playback entry was used."@
}

pub open spec fn outcome_model(outcome: Result<String, ResolveError>) -> Result<
    Seq<char>,
    Seq<char>,
> {
    match outcome {
        Ok(url) => Ok(url@),
        Err(error) => Err(error@.error),
    }
}

impl<'a> MediaSearch<'a> {
    /// The search among candidates of which none has been taken.
    pub fn start(candidates: &'a Vec<Candidate>) -> (search: MediaSearch<'a>)
        ensures
            search@ == (SearchModel {
                candidates: candidates_model(candidates@),
                taken: 0,
                pending: Seq::empty(),
                has_clean: false,
                clean_failed: false,
            }),
    {
        let search = MediaSearch {
            candidates,
            taken: 0,
            pending: Vec::new(),
            has_clean: false,
            clean_failed: false,
        };
        assert(attempts_model(search.pending@) =~= Seq::empty());
        search
    }

    /// What the search comes to next; see [`SearchModel::advanced`].
    pub fn advance(&mut self) -> (step: Result<SearchStep, ResolveError>)
        ensures
            match step {
                Ok(step) => old(self)@.advanced() == Ok::<(StepModel, SearchModel), ErrorModel>(
                    (step@, final(self)@),
                ),
                Err(error) => old(self)@.advanced() == Err::<(StepModel, SearchModel), ErrorModel>(
                    error@,
                ),
            },
            step matches Ok(SearchStep::Try(url)) ==> final(self)@.pending.len() > 0
                && final(self)@.pending[0].url == url@,
    {
        assert(attempts_model(self.pending@).len() == self.pending@.len());
        if self.pending.len() > 0 {
            assert(self@.pending[0] == self.pending@[0]@);
            return Ok(SearchStep::Try(self.pending[0].url.clone()));
        }
        while self.taken < MAX_TRIED && self.taken < self.candidates.len()
            invariant
                self.pending@.len() == 0,
                self@.advanced() == old(self)@.advanced(),
            decreases MAX_TRIED - self.taken,
        {
            let candidates = self.candidates;
            let candidate = &candidates[self.taken];
            assert(self@.candidates[self.taken as int] == candidate@);
            let ghost before = self@;
            self.taken = self.taken + 1;
            assert(self@ == (SearchModel { taken: before.taken + 1, ..before }));
            match candidate.directness {
                Directness::CdnMedia => {
                    let variant = match &candidate.playback_variant {
                        Some(variant) => variant.clone(),
                        None => owned("direct"),
                    };
                    let media = FoundMedia { url: candidate.url.clone(), variant };
                    return Ok(SearchStep::Found(media));
                },
                Directness::PlayEndpoint => {
                    match attempts_for(candidate) {
                        Err(error) => {
                            return Err(error);
                        },
                        Ok(attempts) => {
                            assert(attempts_model(attempts@).len() == attempts@.len());
                            assert(attempts_model(attempts@)[0] == attempts@[0]@);
                            let url = attempts[0].url.clone();
                            self.has_clean = attempts.len() == 2;
                            self.clean_failed = false;
                            self.pending = attempts;
                            return Ok(SearchStep::Try(url));
                        },
                    }
                },
                Directness::Unknown => {},
            }
        }
        Ok(SearchStep::Exhausted)
    }

    /// Takes the outcome of the endpoint that was tried; see
    /// [`SearchModel::concluded`].
    pub fn conclude(
        &mut self,
        outcome: Result<String, ResolveError>,
        warnings: &mut Vec<String>,
    ) -> (media: Option<FoundMedia>)
        requires
            old(self)@.pending.len() > 0,
        ensures
            old(self)@.concluded(outcome_model(outcome), texts_model(old(warnings)@)) == (
                optional_media(media),
                final(self)@,
                texts_model(final(warnings)@),
            ),
            outcome matches Ok(url) ==> (media matches Some(found) && found.url@ == url@),
            outcome is Err ==> media is None,
    {
        let ghost before = self@;
        assert(attempts_model(self.pending@).len() == self.pending@.len());
        assert(before.pending[0] == self.pending@[0]@);
        let attempt = self.pending.remove(0);
        assert(attempts_model(self.pending@) =~= before.pending.skip(1));
        match outcome {
            Ok(url) => {
                if self.clean_failed && same(attempt.variant.as_str(), "playwm") {
                    push_warning(
                        warnings,
                        "The clean playback variant was unavailable; the original playback entry was used.",
                    );
                }
                Some(FoundMedia { url, variant: attempt.variant })
            },
            Err(error) => {
                if self.has_clean && same(attempt.variant.as_str(), "play") {
                    self.clean_failed = true;
                } else {
                    push_warning(warnings, error.error.as_str());
                }
                None
            },
        }
    }
}

} // verus!
